use fresh_view::layout::Rect;
use fresh_view::view::controls::map_input::map_layout;
use fresh_view::view::controls::text_list::text_list_layout;
use fresh_view::view::controls::map_input::MapState;
use fresh_view::view::controls::text_list::TextListState;
use fresh_view::json::{json_equal, pointer_lookup, pointer_replace_in, value_text, JsonValue};
use fresh_view::view::controls::FocusState;
use fresh_view::view::settings::items::{
    DropdownState, NumberInputState, SettingControl, SettingItem, SettingsPage, TextInputState,
    ToggleState,
};
use fresh_view::view::settings::state::{
    update_control_from_value, update_map_from_value, update_text_list_from_value, SearchResult,
    SettingsState,
};

/// Pages with the given numbers of items, each a toggle.
fn pages(counts: &[usize]) -> Vec<SettingsPage> {
    counts
        .iter()
        .enumerate()
        .map(|(p, n)| SettingsPage {
            items: (0..*n)
                .map(|i| SettingItem {
                    path: format!("/page{}/item{}", p, i),
                    control: SettingControl::Toggle(ToggleState { checked: false, focus: FocusState::Normal }),
                    default: None,
                    modified: false,
                })
                .collect(),
        })
        .collect()
}

fn focus_of(control: &SettingControl) -> Option<FocusState> {
    match control {
        SettingControl::Toggle(s) => Some(s.focus),
        SettingControl::Number(s) => Some(s.focus),
        SettingControl::Dropdown(s) => Some(s.focus),
        SettingControl::Text(s) => Some(s.focus),
        SettingControl::TextList(s) => Some(s.focus),
        SettingControl::KeyValue(s) => Some(s.focus),
        SettingControl::Complex { .. } => None,
    }
}

fn text(s: &str) -> JsonValue {
    JsonValue::Str(s.to_string())
}

/// The configuration the settings edit, its fields in key order.
fn config() -> JsonValue {
    JsonValue::Object(vec![
        ("line_numbers".to_string(), JsonValue::Bool(true)),
        ("theme".to_string(), text("dark")),
    ])
}

#[test]
fn settings_initial_state() {
    let state = SettingsState::from_pages(pages(&[2]), config());
    assert!(!state.visible);
    assert_eq!(state.selected_category, 0);
    assert!(state.category_focus);
    assert!(!state.has_changes());
    assert_eq!(state.visible_items, 10);
}

#[test]
fn settings_item_navigation() {
    let mut state = SettingsState::from_pages(pages(&[2]), config());
    state.toggle_focus();
    assert!(!state.category_focus);
    state.select_next();
    assert_eq!(state.selected_item, 1);
    state.select_next();
    assert_eq!(state.selected_item, 1);
    state.select_prev();
    assert_eq!(state.selected_item, 0);
    state.select_prev();
    assert_eq!(state.selected_item, 0);
}

#[test]
fn settings_category_navigation() {
    let mut state = SettingsState::from_pages(pages(&[3, 1, 4]), config());
    state.select_next();
    state.select_next();
    assert_eq!(state.selected_category, 2);
    state.select_next();
    assert_eq!(state.selected_category, 2);
    state.select_prev();
    assert_eq!(state.selected_category, 1);
    assert_eq!(state.selected_item, 0);
    assert_eq!(state.current_page_len(), 1);
}

#[test]
fn settings_scrolls_to_selection() {
    let mut state = SettingsState::from_pages(pages(&[30]), config());
    state.visible_items = 5;
    state.toggle_focus();
    for _ in 0..7 {
        state.select_next();
    }
    assert_eq!(state.selected_item, 7);
    assert_eq!(state.scroll_offset, 3);
    for _ in 0..6 {
        state.select_prev();
    }
    assert_eq!(state.selected_item, 1);
    assert_eq!(state.scroll_offset, 1);
}

#[test]
fn settings_toggle_focus_resets_out_of_range_item() {
    let mut state = SettingsState::from_pages(pages(&[2, 5]), config());
    state.selected_item = 4;
    state.toggle_focus();
    assert_eq!(state.selected_item, 0);
    state.toggle_focus();
    assert!(state.category_focus);
}

#[test]
fn settings_pending_changes() {
    let mut state = SettingsState::from_pages(pages(&[2]), config());
    assert!(!state.has_changes());

    state.set_pending_change("/theme", text("light"));
    assert!(state.has_changes());
    assert_eq!(state.get_change_descriptions(), vec!["/theme: \"light\"".to_string()]);

    // setting it back to the original value removes the change
    state.set_pending_change("/theme", text("dark"));
    assert!(!state.has_changes());

    state.set_pending_change("/line_numbers", JsonValue::Bool(false));
    state.set_pending_change("/line_numbers", JsonValue::Bool(false));
    assert_eq!(state.pending_changes.len(), 1);
    assert_eq!(state.get_change_descriptions(), vec!["/line_numbers: false".to_string()]);
    state.set_pending_change("/tab_size", JsonValue::Number("4".to_string()));
    assert_eq!(state.pending_changes.len(), 2);

    state.discard_changes();
    assert!(!state.has_changes());
}

#[test]
fn settings_show_hide() {
    let mut state = SettingsState::from_pages(pages(&[2, 2]), config());
    assert!(!state.visible);
    state.selected_category = 1;
    state.search_active = true;
    state.show();
    assert!(state.visible);
    assert!(state.category_focus);
    assert_eq!(state.selected_category, 0);
    state.hide_panel();
    assert!(!state.visible);
    assert!(!state.search_active);
    assert!(state.search_query.is_empty());
}

#[test]
fn settings_search_navigation_and_jump() {
    let mut state = SettingsState::from_pages(pages(&[2, 20]), config());
    state.start_search();
    assert!(state.search_active);
    state.search_results = vec![
        SearchResult { page_index: 0, item_index: 1 },
        SearchResult { page_index: 1, item_index: 15 },
    ];
    state.search_prev();
    assert_eq!(state.selected_search_result, 0);
    state.search_next();
    state.search_next();
    assert_eq!(state.selected_search_result, 1);
    assert_eq!(state.current_search_result(), Some(SearchResult { page_index: 1, item_index: 15 }));
    state.jump_to_search_result();
    assert_eq!(state.selected_category, 1);
    assert_eq!(state.selected_item, 15);
    assert!(!state.category_focus);
    assert_eq!(state.scroll_offset, 6);
    assert!(!state.search_active);
    assert!(state.search_results.is_empty());
    assert_eq!(state.current_search_result(), None);
}

#[test]
fn settings_confirm_dialog_cycles() {
    let mut state = SettingsState::from_pages(pages(&[1]), config());
    state.show_confirm_dialog();
    assert!(state.showing_confirm_dialog);
    state.confirm_dialog_prev();
    assert_eq!(state.confirm_dialog_selection, 2);
    state.confirm_dialog_next();
    assert_eq!(state.confirm_dialog_selection, 0);
    state.confirm_dialog_next();
    assert_eq!(state.confirm_dialog_selection, 1);
    state.hide_confirm_dialog();
    assert!(!state.showing_confirm_dialog);
    assert_eq!(state.confirm_dialog_selection, 0);
}

#[test]
fn settings_help_and_editing_flags() {
    let mut state = SettingsState::from_pages(pages(&[1]), config());
    state.toggle_help();
    assert!(state.showing_help);
    state.toggle_help();
    assert!(!state.showing_help);
    state.toggle_help();
    state.hide_help();
    assert!(!state.showing_help);
    state.editing_text = true;
    state.stop_editing();
    assert!(!state.editing_text);
    state.cancel_search();
    assert!(!state.search_active);
}

#[test]
fn settings_update_controls_from_values() {

    let mut list = TextListState::new("Items").with_items(vec!["old".to_string()]);
    let array = JsonValue::Array(vec![
        text("a"),
        JsonValue::Number("3".to_string()),
        text("b"),
    ]);
    update_text_list_from_value(&mut list, &array);
    assert_eq!(list.items, vec!["a".to_string(), "b".to_string()]);
    update_text_list_from_value(&mut list, &JsonValue::Null);
    assert_eq!(list.items, vec!["a".to_string(), "b".to_string()]);

    let mut map = MapState::new("Map");
    let obj = JsonValue::Object(vec![
        ("z".to_string(), JsonValue::Null),
        ("a".to_string(), JsonValue::Bool(true)),
    ]);
    update_map_from_value(&mut map, &obj);
    let keys: Vec<&str> = map.entries.iter().map(|(k, _)| k.as_str()).collect();
    assert_eq!(keys, vec!["a", "z"]);
    assert!(json_equal(&map.entries[0].1, &JsonValue::Bool(true)));
    update_map_from_value(&mut map, &JsonValue::Number("1".to_string()));
    assert_eq!(map.entries.len(), 2);
}

/// The settings of the test schema: one category with the `theme` and
/// `line_numbers` settings.
fn test_state() -> SettingsState {
    SettingsState::from_pages(
        vec![SettingsPage {
            items: vec![
                SettingItem {
                    path: "/theme".to_string(),
                    control: SettingControl::Text(TextInputState {
                        value: "dark".to_string(),
                        cursor: 4,
                        focus: FocusState::Normal,
                    }),
                    default: Some(text("dark")),
                    modified: false,
                },
                SettingItem {
                    path: "/line_numbers".to_string(),
                    control: SettingControl::Toggle(ToggleState { checked: true, focus: FocusState::Normal }),
                    default: Some(JsonValue::Bool(true)),
                    modified: false,
                },
            ],
        }],
        config(),
    )
}

#[test]
fn test_settings_state_creation() {
    let state = test_state();

    assert!(!state.visible);
    assert_eq!(state.selected_category, 0);
    assert!(!state.has_changes());
}

#[test]
fn test_navigation() {
    let mut state = test_state();

    // Start in category focus
    assert!(state.category_focus);

    // Toggle to settings
    state.toggle_focus();
    assert!(!state.category_focus);

    // Navigate items
    state.select_next();
    assert_eq!(state.selected_item, 1);

    state.select_prev();
    assert_eq!(state.selected_item, 0);
}

#[test]
fn test_pending_changes() {
    let mut state = test_state();

    assert!(!state.has_changes());

    state.set_pending_change("/theme", text("light"));
    assert!(state.has_changes());

    state.discard_changes();
    assert!(!state.has_changes());
}

#[test]
fn test_show_hide() {
    let mut state = test_state();

    assert!(!state.visible);

    state.show();
    assert!(state.visible);
    assert!(state.category_focus);

    state.hide_panel();
    assert!(!state.visible);
}

#[test]
fn settings_change_descriptions_use_json_text() {
    let mut state = SettingsState::from_pages(pages(&[2]), config());
    state.set_pending_change("/theme", JsonValue::Null);
    state.set_pending_change(
        "/keys",
        JsonValue::Array(vec![text("a\"b"), JsonValue::Number("1.5".to_string())]),
    );
    state.set_pending_change(
        "/map",
        JsonValue::Object(vec![("k".to_string(), JsonValue::Bool(false))]),
    );
    assert_eq!(
        state.get_change_descriptions(),
        vec![
            "/theme: null".to_string(),
            "/keys: [\"a\\\"b\",1.5]".to_string(),
            "/map: {\"k\":false}".to_string(),
        ]
    );
}

#[test]
fn settings_pointer_lookup_follows_tokens() {
    let doc = JsonValue::Object(vec![
        ("a/b".to_string(), JsonValue::Number("1".to_string())),
        (
            "x".to_string(),
            JsonValue::Object(vec![("y".to_string(), JsonValue::Array(vec![text("z"), text("zz")]))]),
        ),
    ]);
    assert!(json_equal(pointer_lookup(&doc, "/x/y/1").unwrap(), &text("zz")));
    assert!(pointer_lookup(&doc, "/a/b/c").is_none());
    assert!(json_equal(pointer_lookup(&doc, "/a~1b").unwrap(), &JsonValue::Number("1".to_string())));
    assert!(json_equal(pointer_lookup(&doc, "").unwrap(), &doc));
    assert!(pointer_lookup(&doc, "x").is_none());
    assert!(pointer_lookup(&doc, "/x/y/01").is_none());
    assert!(pointer_lookup(&doc, "/x/y/+1").is_none());
    assert!(pointer_lookup(&doc, "/x/y/2").is_none());
    assert_eq!(value_text(&doc), "{\"a/b\":1,\"x\":{\"y\":[\"z\",\"zz\"]}}");
}

#[test]
fn settings_change_to_original_value_is_dropped() {
    let mut state = SettingsState::from_pages(pages(&[2]), config());
    state.set_pending_change("/line_numbers", JsonValue::Bool(true));
    assert!(!state.has_changes());
    state.set_pending_change("/line_numbers", JsonValue::Bool(false));
    assert!(state.has_changes());
    state.set_pending_change("/line_numbers", JsonValue::Bool(true));
    assert!(!state.has_changes());
}

#[test]
fn settings_next_then_prev_returns() {
    let mut state = SettingsState::from_pages(pages(&[3, 2]), config());
    state.select_next();
    state.select_prev();
    assert_eq!(state.selected_category, 0);
    state.toggle_focus();
    state.select_next();
    state.select_prev();
    assert_eq!(state.selected_item, 0);
    assert!(!state.category_focus);
}

#[test]
fn settings_focus_states_follow_selection() {
    let mut state = SettingsState::from_pages(pages(&[2, 1]), config());
    state.pages[1].items.push(SettingItem {
        path: "/complex".to_string(),
        control: SettingControl::Complex { kind: "object".to_string() },
        default: None,
        modified: false,
    });
    state.update_focus_states();
    assert_eq!(focus_of(&state.pages[0].items[0].control), Some(FocusState::Normal));
    state.toggle_focus();
    state.select_next();
    state.update_focus_states();
    assert_eq!(focus_of(&state.pages[0].items[0].control), Some(FocusState::Normal));
    assert_eq!(focus_of(&state.pages[0].items[1].control), Some(FocusState::Focused));
    assert_eq!(focus_of(&state.pages[1].items[0].control), Some(FocusState::Normal));
    assert_eq!(focus_of(&state.pages[1].items[1].control), None);
    assert_eq!(state.item_focus(1, 0), FocusState::Normal);
}

#[test]
fn settings_update_control_from_value_all_kinds() {
    let mut toggle = SettingControl::Toggle(ToggleState { checked: false, focus: FocusState::Focused });
    update_control_from_value(&mut toggle, &JsonValue::Bool(true));
    assert!(matches!(toggle, SettingControl::Toggle(ToggleState { checked: true, focus: FocusState::Focused })));
    update_control_from_value(&mut toggle, &text("yes"));
    assert!(matches!(toggle, SettingControl::Toggle(ToggleState { checked: true, .. })));

    let mut number = SettingControl::Number(NumberInputState { value: 1, focus: FocusState::Normal });
    update_control_from_value(&mut number, &JsonValue::Number("-42".to_string()));
    assert!(matches!(number, SettingControl::Number(NumberInputState { value: -42, .. })));
    update_control_from_value(&mut number, &JsonValue::Number("1.5".to_string()));
    assert!(matches!(number, SettingControl::Number(NumberInputState { value: -42, .. })));
    update_control_from_value(&mut number, &JsonValue::Number("9223372036854775808".to_string()));
    assert!(matches!(number, SettingControl::Number(NumberInputState { value: -42, .. })));
    update_control_from_value(&mut number, &JsonValue::Number("-9223372036854775808".to_string()));
    assert!(matches!(number, SettingControl::Number(NumberInputState { value: i64::MIN, .. })));

    let mut dropdown = SettingControl::Dropdown(DropdownState {
        options: vec!["dark".to_string(), "light".to_string(), "light".to_string()],
        selected: 0,
        focus: FocusState::Normal,
    });
    update_control_from_value(&mut dropdown, &text("light"));
    assert!(matches!(dropdown, SettingControl::Dropdown(DropdownState { selected: 1, .. })));
    update_control_from_value(&mut dropdown, &text("blue"));
    assert!(matches!(dropdown, SettingControl::Dropdown(DropdownState { selected: 1, .. })));

    let mut input = SettingControl::Text(TextInputState {
        value: String::new(),
        cursor: 0,
        focus: FocusState::Normal,
    });
    update_control_from_value(&mut input, &text("\u{e9}t\u{e9}"));
    match &input {
        SettingControl::Text(s) => {
            assert_eq!(s.value, "\u{e9}t\u{e9}");
            assert_eq!(s.cursor, 3);
        }
        _ => panic!("not a text input"),
    }

    let mut list = SettingControl::TextList(TextListState::new("L"));
    update_control_from_value(&mut list, &JsonValue::Array(vec![text("a"), JsonValue::Null]));
    match &list {
        SettingControl::TextList(s) => assert_eq!(s.items, vec!["a".to_string()]),
        _ => panic!("not a text list"),
    }

    let mut complex = SettingControl::Complex { kind: "object".to_string() };
    update_control_from_value(&mut complex, &JsonValue::Bool(true));
    assert!(matches!(complex, SettingControl::Complex { .. }));
}

#[test]
fn settings_text_list_editing_through_panel() {
    let mut state = SettingsState::from_pages(
        vec![SettingsPage {
            items: vec![SettingItem {
                path: "/keys".to_string(),
                control: SettingControl::TextList(TextListState::new("Keys")),
                default: None,
                modified: false,
            }],
        }],
        config(),
    );
    assert!(state.is_text_list());
    state.toggle_focus();
    state.start_editing();
    assert!(state.editing_text);
    state.text_insert('\u{15f}');
    state.text_insert('b');
    state.text_move_left();
    state.text_backspace();
    state.text_move_right();
    match &state.current_item().unwrap().control {
        SettingControl::TextList(s) => {
            assert_eq!(s.new_item_text, "b");
            assert_eq!(s.cursor, 1);
        }
        _ => panic!("not a text list"),
    }
    let mut toggles = SettingsState::from_pages(pages(&[1]), config());
    assert!(!toggles.is_text_list());
    toggles.start_editing();
    assert!(!toggles.editing_text);
    assert!(SettingsState::from_pages(pages(&[]), config()).current_item().is_none());
}

#[test]
fn settings_zero_floats_compare_equal() {
    let doc = JsonValue::Object(vec![("x".to_string(), JsonValue::Number("0.0".to_string()))]);
    let mut state = SettingsState::from_pages(pages(&[1]), doc);
    state.set_pending_change("/x", JsonValue::Number("-0.0".to_string()));
    assert!(!state.has_changes());
    state.set_pending_change("/x", JsonValue::Number("0".to_string()));
    assert!(state.has_changes());
    assert!(json_equal(&JsonValue::Number("-0.0".to_string()), &JsonValue::Number("0.0".to_string())));
}

#[test]
fn settings_reset_current_to_default() {
    let mut state = test_state();
    state.toggle_focus();
    state.select_next();
    if let SettingControl::Toggle(t) = &mut state.pages[0].items[1].control {
        t.checked = false;
    }
    state.pages[0].items[1].modified = true;
    state.set_pending_change("/line_numbers", JsonValue::Bool(false));
    assert!(state.has_changes());
    state.reset_current_to_default();
    // the default equals the original configuration, so no change is pending
    assert!(!state.has_changes());
    assert!(!state.pages[0].items[1].modified);
    assert!(matches!(
        state.pages[0].items[1].control,
        SettingControl::Toggle(ToggleState { checked: true, .. })
    ));
}

#[test]
fn settings_layouts_near_the_screen_edge() {
    // an empty map whose key column would end past the edge still gets its add row
    let map = MapState::new("M");
    let layout = map_layout(Rect { x: 65520, y: 0, width: 15, height: 3 }, &map, 10);
    assert!(layout.entry_areas.is_empty());
    assert_eq!(layout.add_row_area, Some(Rect::new(65520, 1, 15, 1)));
    // a text list in an area whose right edge does not fit in u16
    let list = TextListState::new("L").with_items(vec!["a".to_string()]);
    let rows = text_list_layout(Rect { x: 65000, y: 0, width: 1000, height: 3 }, &list, 10).rows;
    assert_eq!(rows.len(), 2);
    assert_eq!(rows[0].button_area, Rect::new(65015, 1, 3, 1));
}

#[test]
fn settings_apply_changes_writes_at_paths() {
    let mut state = SettingsState::from_pages(pages(&[1]), config());
    state.set_pending_change("/theme", text("light"));
    state.set_pending_change("/missing/deep", JsonValue::Null);
    let applied = state.apply_changes(&config());
    assert_eq!(value_text(&applied), "{\"line_numbers\":true,\"theme\":\"light\"}");
    // reading back what was written
    assert!(json_equal(pointer_lookup(&applied, "/theme").unwrap(), &text("light")));
}

#[test]
fn settings_pointer_replace_in_arrays_and_objects() {
    let doc = JsonValue::Object(vec![(
        "x".to_string(),
        JsonValue::Array(vec![text("a"), text("b")]),
    )]);
    let w = pointer_replace_in(&doc, "/x/1", &JsonValue::Bool(true)).unwrap();
    assert_eq!(value_text(&w), "{\"x\":[\"a\",true]}");
    assert!(pointer_replace_in(&doc, "/x/2", &JsonValue::Null).is_none());
    assert!(pointer_replace_in(&doc, "/y", &JsonValue::Null).is_none());
    let whole = pointer_replace_in(&doc, "", &JsonValue::Null).unwrap();
    assert!(json_equal(&whole, &JsonValue::Null));
}

use fresh_view::layout::Rect;
use fresh_view::json::{json_equal, JsonValue};
use fresh_view::view::controls::map_input::{
    format_value_preview, map_add_row_paint, map_entry_paint, map_layout, map_nested_lines,
    more_fields_line, MapColorRole, MapState,
};
use fresh_view::view::controls::FocusState;

fn empty_object() -> JsonValue {
    JsonValue::Object(Vec::new())
}

fn text(s: &str) -> JsonValue {
    JsonValue::Str(s.to_string())
}

/// An object with these fields, kept in key order as a JSON map keeps them.
fn object_of(fields: Vec<(&str, JsonValue)>) -> JsonValue {
    let mut v: Vec<(String, JsonValue)> = fields.into_iter().map(|(k, v)| (k.to_string(), v)).collect();
    v.sort_by(|a, b| a.0.cmp(&b.0));
    JsonValue::Object(v)
}

#[test]
fn test_map_state_new() {
    let state = MapState::new("Test");
    assert_eq!(state.label, "Test");
    assert!(state.entries.is_empty());
    assert!(state.focused_entry.is_none());
}

#[test]
fn test_map_state_add_entry() {
    let mut state = MapState::new("Test");
    state.add_entry(
        "key1".to_string(),
        object_of(vec![("foo", text("bar"))]),
    );
    assert_eq!(state.entries.len(), 1);
    assert_eq!(state.entries[0].0, "key1");
}

#[test]
fn test_map_state_remove_entry() {
    let mut state = MapState::new("Test");
    state.add_entry("a".to_string(), empty_object());
    state.add_entry("b".to_string(), empty_object());
    state.remove_entry(0);
    assert_eq!(state.entries.len(), 1);
    assert_eq!(state.entries[0].0, "b");
}

#[test]
fn test_map_state_navigation() {
    let mut state = MapState::new("Test").with_focus(FocusState::Focused);
    state.add_entry("a".to_string(), empty_object());
    state.add_entry("b".to_string(), empty_object());

    // Start at add-new
    assert!(state.focused_entry.is_none());

    // Go to last entry
    state.focus_prev();
    assert_eq!(state.focused_entry, Some(1));

    // Go to first entry
    state.focus_prev();
    assert_eq!(state.focused_entry, Some(0));

    // Go forward
    state.focus_next();
    assert_eq!(state.focused_entry, Some(1));

    // Go to add-new
    state.focus_next();
    assert!(state.focused_entry.is_none());
}

#[test]
fn test_map_state_expand() {
    let mut state = MapState::new("Test");
    state.add_entry("key1".to_string(), empty_object());

    assert!(!state.is_expanded(0));
    state.toggle_expand(0);
    assert!(state.is_expanded(0));
    state.toggle_expand(0);
    assert!(!state.is_expanded(0));
}

#[test]
fn map_entries_sorted_and_unique() {
    let mut state = MapState::new("Test");
    state.add_entry("zeta".to_string(), empty_object());
    state.add_entry("alpha".to_string(), empty_object());
    state.add_entry("mid".to_string(), empty_object());
    state.add_entry("alpha".to_string(), JsonValue::Null);
    state.add_entry(String::new(), empty_object());
    let keys: Vec<&str> = state.entries.iter().map(|(k, _)| k.as_str()).collect();
    assert_eq!(keys, vec!["alpha", "mid", "zeta"]);
    assert!(json_equal(&state.entries[0].1, &empty_object()));
    assert_eq!(state.len(), 3);
    assert!(!state.is_empty());
}

#[test]
fn map_keys_sort_by_code_point() {
    let mut state = MapState::new("Test");
    state.add_entry("b".to_string(), empty_object());
    state.add_entry("B".to_string(), empty_object());
    state.add_entry("\u{e9}".to_string(), empty_object());
    state.add_entry("ba".to_string(), empty_object());
    let keys: Vec<&str> = state.entries.iter().map(|(k, _)| k.as_str()).collect();
    assert_eq!(keys, vec!["B", "b", "ba", "\u{e9}"]);
}

#[test]
fn map_with_entries_from_object() {
    let value = object_of(vec![("rust", JsonValue::Bool(true)), ("c", JsonValue::Null)]);
    let state = MapState::new("Langs").with_entries(&value);
    assert_eq!(state.entries.len(), 2);
    assert_eq!(state.entries[0].0, "c");
    assert_eq!(state.entries[1].0, "rust");
    assert!(json_equal(&state.entries[1].1, &JsonValue::Bool(true)));
    let same = MapState::new("Langs").with_entries(&JsonValue::Bool(true));
    assert!(same.entries.is_empty());
    assert!(json_equal(&state.to_value(), &value));
    // fields given out of order come out sorted by key
    let unsorted = JsonValue::Object(vec![
        ("z".to_string(), JsonValue::Null),
        ("a".to_string(), text("x")),
    ]);
    let sorted = MapState::new("L").with_entries(&unsorted);
    assert_eq!(sorted.entries[0].0, "a");
    assert_eq!(sorted.entries[1].0, "z");
}

#[test]
fn map_disabled_ignores_changes() {
    let mut state = MapState::new("Test");
    state.add_entry("a".to_string(), empty_object());
    let mut state = state.with_focus(FocusState::Disabled);
    state.add_entry("b".to_string(), empty_object());
    state.remove_entry(0);
    state.insert('x');
    assert_eq!(state.entries.len(), 1);
    assert!(state.new_key_text.is_empty());
}

#[test]
fn map_add_from_input() {
    let mut state = MapState::new("Test");
    state.insert('k');
    state.insert('\u{e9}');
    assert_eq!(state.new_key_text, "k\u{e9}");
    assert_eq!(state.cursor, 2);
    state.backspace();
    assert_eq!(state.new_key_text, "k");
    state.move_left();
    state.move_right();
    state.move_right();
    assert_eq!(state.cursor, 1);
    state.add_entry_from_input();
    assert_eq!(state.entries.len(), 1);
    assert_eq!(state.entries[0].0, "k");
    assert!(json_equal(&state.entries[0].1, &empty_object()));
    assert!(state.new_key_text.is_empty());
    assert_eq!(state.cursor, 0);
    // typing is ignored while an entry is focused
    state.focus_entry(0);
    state.insert('z');
    assert!(state.new_key_text.is_empty());
    state.focus_new_entry();
    assert_eq!(state.focused_entry, None);
}

#[test]
fn map_remove_shifts_expanded() {
    let mut state = MapState::new("Test");
    for k in ["a", "b", "c", "d"] {
        state.add_entry(k.to_string(), empty_object());
    }
    state.toggle_expand(0);
    state.toggle_expand(1);
    state.toggle_expand(3);
    state.focus_entry(3);
    state.remove_entry(1);
    assert_eq!(state.expanded, vec![0, 2]);
    assert_eq!(state.focused_entry, Some(2));
    state.toggle_expand(9);
    assert_eq!(state.expanded, vec![0, 2]);
}

#[test]
fn map_value_previews() {
    let three = JsonValue::Array(vec![JsonValue::Null, JsonValue::Null, JsonValue::Null]);
    let twelve = JsonValue::Object((0..12).map(|i| (format!("k{:02}", i), JsonValue::Null)).collect());
    let one = object_of(vec![("a", JsonValue::Null)]);
    assert_eq!(format_value_preview(&JsonValue::Null, 20), Some("null".to_string()));
    assert_eq!(format_value_preview(&JsonValue::Bool(false), 20), Some("false".to_string()));
    assert_eq!(format_value_preview(&three, 20), Some("[3 items]".to_string()));
    assert_eq!(format_value_preview(&twelve, 20), Some("{12 fields}".to_string()));
    assert_eq!(
        format_value_preview(&text("a long string value here"), 20),
        Some("\"a long string va...".to_string())
    );
    assert_eq!(format_value_preview(&one, 8), Some("{1 fi...".to_string()));
    // the cut would split a two-byte character
    assert_eq!(format_value_preview(&text("\u{e9}\u{e9}\u{e9}"), 5), None);
    assert_eq!(
        format_value_preview(&JsonValue::Number("42".to_string()), 20),
        Some("42".to_string())
    );
    assert_eq!(format_value_preview(&text("hi"), 20), Some("\"hi\"".to_string()));
    assert_eq!(more_fields_line(8), "      ... and 3 more");
}

#[test]
fn map_nested_lines_of_object() {
    let many = object_of(vec![
        ("a", JsonValue::Null),
        ("b", JsonValue::Bool(true)),
        ("c", JsonValue::Null),
        ("d", JsonValue::Null),
        ("e", JsonValue::Null),
        ("f", JsonValue::Null),
        ("g", JsonValue::Null),
    ]);
    let (shown, more) = map_nested_lines(&many).unwrap();
    assert_eq!(shown.len(), 5);
    assert_eq!(shown[1].0, "b: ");
    assert_eq!(shown[1].1, Some("true".to_string()));
    assert_eq!(more, Some("      ... and 2 more".to_string()));
    assert!(map_nested_lines(&JsonValue::Null).is_none());
}

#[test]
fn map_layout_rows() {
    let mut state = MapState::new("Test");
    let many = object_of(vec![
        ("a", JsonValue::Null),
        ("b", JsonValue::Null),
        ("c", JsonValue::Null),
        ("d", JsonValue::Null),
        ("e", JsonValue::Null),
        ("f", JsonValue::Null),
    ]);
    state.add_entry("first".to_string(), many);
    state.add_entry("second".to_string(), JsonValue::Null);
    state.toggle_expand(0);
    let area = Rect::new(0, 0, 40, 20);
    let layout = map_layout(area, &state, 10);
    assert_eq!(layout.entry_areas.len(), 2);
    assert_eq!(layout.entry_areas[0].row_area, Rect::new(0, 1, 40, 1));
    assert_eq!(layout.entry_areas[0].key_area, Rect::new(4, 1, 10, 1));
    assert_eq!(layout.entry_areas[0].remove_area, Rect::new(36, 1, 3, 1));
    // five nested lines and a "more" line follow the expanded entry
    assert_eq!(layout.entry_areas[1].row_area.y, 8);
    assert_eq!(layout.add_row_area, Some(Rect::new(0, 9, 40, 1)));
    let small = map_layout(Rect::new(0, 0, 40, 4), &state, 10);
    assert_eq!(small.entry_areas.len(), 1);
    assert_eq!(small.add_row_area, None);
    assert_eq!(map_layout(Rect::new(0, 0, 14, 4), &state, 10).entry_areas.len(), 0);
}

#[test]
fn map_paint_rows() {
    let mut state = MapState::new("Test").with_focus(FocusState::Focused);
    state.add_entry("k".to_string(), JsonValue::Null);
    state.focus_entry(0);
    let p = map_entry_paint(&state, 0, 4);
    assert_eq!(p.key_text, "k   ");
    assert_eq!(p.key_role, MapColorRole::Focused);
    assert_eq!(p.arrow, '\u{25b6}');
    state.toggle_expand(0);
    assert_eq!(map_entry_paint(&state, 0, 4).arrow, '\u{25bc}');
    state.focus_new_entry();
    state.insert('a');
    let a = map_add_row_paint(&state, Rect::new(0, 0, 40, 5), 6);
    assert_eq!(a.shown, "a   ");
    assert_eq!(a.border, MapColorRole::Focused);
    assert_eq!(a.cursor, Some((4, ' ')));
}

#[test]
fn map_type_then_backspace_restores_key() {
    let mut state = MapState::new("Test");
    state.insert('a');
    state.insert('b');
    state.move_left();
    state.insert('\u{4e2d}');
    assert_eq!(state.new_key_text, "a\u{4e2d}b");
    state.backspace();
    assert_eq!(state.new_key_text, "ab");
    assert_eq!(state.cursor, 1);
}

#[test]
fn map_backspace_deletes_whole_multibyte_char() {
    let mut state = MapState::new("Keys");
    state.insert('\u{a9}');
    assert_eq!(state.new_key_text, "\u{a9}");
    assert_eq!(state.cursor, 1);
    state.backspace();
    assert_eq!(state.new_key_text, "");
    assert_eq!(state.cursor, 0);
}

#[test]
fn map_remove_keeps_expansion_with_entries() {
    let mut state = MapState::new("Test");
    for k in ["a", "b", "c"] {
        state.add_entry(k.to_string(), empty_object());
    }
    state.toggle_expand(2);
    state.remove_entry(0);
    // "c" moved to index 1 and is still expanded; "b" (now 0) is not
    assert!(state.is_expanded(1));
    assert!(!state.is_expanded(0));
}

use fresh_view::layout::Rect;
use fresh_view::view::controls::text_list::{
    text_list_label_role, text_list_layout, text_list_row_paint, TextListColorRole, TextListHit,
    TextListState,
};
use fresh_view::view::controls::FocusState;

#[test]
fn test_text_list_empty() {
    let area = Rect::new(0, 0, 40, 5);
    let state = TextListState::new("Items");
    let layout = text_list_layout(area, &state, 20);

    // Should have add-new row only
    assert_eq!(layout.rows.len(), 1);
    assert!(layout.rows[0].index.is_none());
}

#[test]
fn test_text_list_with_items() {
    let area = Rect::new(0, 0, 40, 5);
    let state = TextListState::new("Items").with_items(vec!["one".to_string(), "two".to_string()]);
    let layout = text_list_layout(area, &state, 20);

    assert_eq!(layout.rows.len(), 3); // 2 items + add-new
    assert_eq!(layout.rows[0].index, Some(0));
    assert_eq!(layout.rows[1].index, Some(1));
    assert!(layout.rows[2].index.is_none());
}

#[test]
fn test_text_list_add_item() {
    let mut state = TextListState::new("Items");
    state.new_item_text = "new item".to_string();
    state.add_item();

    assert_eq!(state.items.len(), 1);
    assert_eq!(state.items[0], "new item");
    assert!(state.new_item_text.is_empty());
}

#[test]
fn test_text_list_remove_item() {
    let mut state = TextListState::new("Items").with_items(vec!["a".to_string(), "b".to_string()]);
    state.remove_item(0);

    assert_eq!(state.items.len(), 1);
    assert_eq!(state.items[0], "b");
}

#[test]
fn test_text_list_edit_item() {
    let mut state = TextListState::new("Items").with_items(vec!["hello".to_string()]);
    state.focus_item(0);
    state.insert('!');

    assert_eq!(state.items[0], "hello!");
}

#[test]
fn test_text_list_navigation() {
    let mut state = TextListState::new("Items")
        .with_items(vec!["a".to_string(), "b".to_string()])
        .with_focus(FocusState::Focused);

    // Start at add-new
    assert!(state.focused_item.is_none());

    // Go to last item
    state.focus_prev();
    assert_eq!(state.focused_item, Some(1));

    // Go to first item
    state.focus_prev();
    assert_eq!(state.focused_item, Some(0));

    // Try to go before first
    state.focus_prev();
    assert_eq!(state.focused_item, Some(0));

    // Go forward
    state.focus_next();
    assert_eq!(state.focused_item, Some(1));

    // Go to add-new
    state.focus_next();
    assert!(state.focused_item.is_none());
}

#[test]
fn test_text_list_hit_test() {
    let area = Rect::new(0, 0, 40, 5);
    let state = TextListState::new("Items").with_items(vec!["one".to_string()]);
    let layout = text_list_layout(area, &state, 20);

    // Test hitting the remove button on first item
    let btn = &layout.rows[0].button_area;
    let hit = layout.hit_test(btn.x, btn.y);
    assert_eq!(hit, Some(TextListHit::Button(Some(0))));

    // Test hitting the add button
    let add_btn = &layout.rows[1].button_area;
    let hit = layout.hit_test(add_btn.x, add_btn.y);
    assert_eq!(hit, Some(TextListHit::Button(None)));
}

#[test]
fn text_list_new_is_empty() {
    let state = TextListState::new("Items");
    assert_eq!(state.label, "Items");
    assert!(state.items.is_empty());
    assert_eq!(state.focused_item, None);
    assert_eq!(state.cursor, 0);
    assert_eq!(state.focus, FocusState::Normal);
}

#[test]
fn text_list_type_then_backspace_restores() {
    let mut state = TextListState::new("Items").with_items(vec!["abc".to_string()]);
    state.focus_item(0);
    state.move_left();
    state.insert('X');
    assert_eq!(state.items[0], "abXc");
    assert_eq!(state.cursor, 3);
    state.backspace();
    assert_eq!(state.items[0], "abc");
    assert_eq!(state.cursor, 2);
}

#[test]
fn text_list_insert_multibyte_then_backspace() {
    // a two-byte character typed and deleted again
    let mut state = TextListState::new("Items");
    state.insert('a');
    state.insert('\u{15f}');
    assert_eq!(state.new_item_text, "a\u{15f}");
    assert_eq!(state.cursor, 2);
    state.backspace();
    assert_eq!(state.new_item_text, "a");
    assert_eq!(state.cursor, 1);
}

#[test]
fn text_list_two_multibyte_chars_typed_in_order() {
    let mut state = TextListState::new("L");
    state.insert('\u{15f}');
    state.insert('\u{e7}');
    assert_eq!(state.new_item_text, "\u{15f}\u{e7}");
    assert_eq!(state.cursor, 2);
}

#[test]
fn text_list_backspace_deletes_whole_multibyte_char() {
    let mut state = TextListState::new("L");
    state.new_item_text = "\u{15f}".to_string();
    state.focus_new_item();
    assert_eq!(state.cursor, 1);
    state.backspace();
    assert_eq!(state.new_item_text, "");
    assert_eq!(state.cursor, 0);
}

#[test]
fn text_list_cursor_moves_by_characters() {
    let mut state = TextListState::new("L");
    state.new_item_text = "a\u{15f}b".to_string();
    state.focus_new_item();
    assert_eq!(state.cursor, 3);
    state.move_left();
    state.move_left();
    state.move_left();
    assert_eq!(state.cursor, 0);
    state.insert('X');
    assert_eq!(state.new_item_text, "Xa\u{15f}b");
    state.move_right();
    state.move_right();
    state.insert('Y');
    assert_eq!(state.new_item_text, "Xa\u{15f}Yb");
}

#[test]
fn text_list_new_item_field_editing() {
    let mut state = TextListState::new("Items");
    state.insert('h');
    state.insert('i');
    assert_eq!(state.new_item_text, "hi");
    state.move_left();
    state.move_left();
    state.move_left();
    assert_eq!(state.cursor, 0);
    state.backspace();
    assert_eq!(state.new_item_text, "hi");
    state.move_right();
    state.move_right();
    state.move_right();
    assert_eq!(state.cursor, 2);
    state.add_item();
    assert_eq!(state.items, vec!["hi".to_string()]);
    assert_eq!(state.cursor, 0);
    assert!(state.new_item_text.is_empty());
}

#[test]
fn text_list_disabled_ignores_edits() {
    let mut state = TextListState::new("Items")
        .with_items(vec!["a".to_string()])
        .with_focus(FocusState::Disabled);
    state.new_item_text = "b".to_string();
    state.cursor = 1;
    state.insert('c');
    state.backspace();
    state.add_item();
    state.remove_item(0);
    assert_eq!(state.items, vec!["a".to_string()]);
    assert_eq!(state.new_item_text, "b");
    assert_eq!(state.cursor, 1);
}

#[test]
fn text_list_add_empty_is_ignored() {
    let mut state = TextListState::new("Items");
    state.add_item();
    assert!(state.items.is_empty());
}

#[test]
fn text_list_remove_adjusts_focus() {
    let mut state = TextListState::new("Items").with_items(vec!["a".to_string(), "b".to_string()]);
    state.focus_item(1);
    state.remove_item(1);
    assert_eq!(state.focused_item, Some(0));
    state.remove_item(0);
    assert_eq!(state.focused_item, None);
    state.remove_item(5);
    assert!(state.items.is_empty());
}

#[test]
fn text_list_focus_sets_cursor_to_end() {
    let mut state = TextListState::new("Items").with_items(vec!["hello".to_string(), "\u{e9}t\u{e9}".to_string()]);
    state.focus_item(1);
    assert_eq!(state.cursor, 3); // characters
    state.focus_prev();
    assert_eq!(state.focused_item, Some(0));
    assert_eq!(state.cursor, 5);
    state.new_item_text = "xy".to_string();
    state.focus_new_item();
    assert_eq!(state.cursor, 2);
    state.focus_item(7);
    assert_eq!(state.focused_item, None);
}

#[test]
fn text_list_layout_rows_and_hits() {
    let area = Rect::new(1, 2, 40, 3);
    let state = TextListState::new("Items").with_items(vec!["a".to_string(), "b".to_string(), "c".to_string()]);
    let layout = text_list_layout(area, &state, 20);
    // two lines below the label: two items, no room for the add row
    assert_eq!(layout.rows.len(), 2);
    assert_eq!(layout.rows[0].text_area, Rect::new(3, 3, 22, 1));
    assert_eq!(layout.rows[0].button_area, Rect::new(26, 3, 3, 1));
    assert_eq!(layout.hit_test(5, 4), Some(TextListHit::TextField(Some(1))));
    assert_eq!(layout.hit_test(0, 4), None);
    assert_eq!(text_list_layout(Rect::new(0, 0, 9, 5), &state, 20).rows.len(), 0);
}

#[test]
fn text_list_paint_focused_row() {
    let area = Rect::new(0, 0, 20, 5);
    let mut state = TextListState::new("Items")
        .with_items(vec!["abcdefghijklmnop".to_string()])
        .with_focus(FocusState::Focused);
    state.focus_item(0);
    state.cursor = 3;
    // field width is limited to 20 - 7 = 13, so 11 characters are shown
    let p = text_list_row_paint(&state, Some(0), area, 20);
    assert_eq!(p.shown, "abcdefghijk");
    assert_eq!(p.border, TextListColorRole::Focused);
    assert_eq!(p.text, TextListColorRole::Text);
    assert_eq!(p.cursor, Some((6, 'd')));
    let q = text_list_row_paint(&state, None, area, 20);
    assert_eq!(q.shown, "           ");
    assert_eq!(q.cursor, None);
    assert_eq!(q.border, TextListColorRole::Border);
    assert_eq!(text_list_label_role(&state), TextListColorRole::Focused);
}

#[test]
fn text_list_move_right_then_left() {
    let mut state = TextListState::new("Items").with_items(vec!["abc".to_string()]);
    state.focus_item(0);
    state.cursor = 1;
    state.move_right();
    assert_eq!(state.cursor, 2);
    state.move_left();
    assert_eq!(state.cursor, 1);
    state.cursor = 3;
    state.move_right();
    assert_eq!(state.cursor, 3);
}

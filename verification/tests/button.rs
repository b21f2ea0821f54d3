use fresh_view::layout::Rect;
use fresh_view::view::controls::button::{
    button_display_label, button_layout, button_row_layout, button_style, ButtonColorRole,
    ButtonState,
};
use fresh_view::view::controls::FocusState;

#[test]
fn test_button_renders() {
    let area = Rect::new(0, 0, 20, 1);
    let state = ButtonState::new("OK");
    let layout = button_layout(area, &state);
    assert_eq!(layout.button_area.width, 6); // "[ OK ]"
}

#[test]
fn test_button_hit_detection() {
    let area = Rect::new(0, 0, 20, 1);
    let state = ButtonState::new("Click");
    let layout = button_layout(area, &state);

    // Inside button
    assert!(layout.contains(0, 0));
    assert!(layout.contains(5, 0));

    // Outside button
    assert!(!layout.contains(15, 0));
}

#[test]
fn test_button_row() {
    let area = Rect::new(0, 0, 40, 1);
    let ok = ButtonState::new("OK");
    let cancel = ButtonState::new("Cancel");

    let layouts = button_row_layout(area, &[&ok, &cancel], 2);

    assert_eq!(layouts.len(), 2);
    assert!(layouts[0].button_area.x < layouts[1].button_area.x);
}

#[test]
fn test_button_disabled() {
    let state = ButtonState::new("Save").with_focus(FocusState::Disabled);
    assert!(!state.is_enabled());
}

#[test]
fn test_button_pressed_state() {
    let mut state = ButtonState::new("Submit");
    assert!(!state.pressed);

    state.set_pressed(true);
    assert!(state.pressed);
}

#[test]
fn test_button_truncation() {
    let area = Rect::new(0, 0, 8, 1);
    let state = ButtonState::new("Very Long Button Text");
    let layout = button_layout(area, &state);

    // Button should be truncated to fit
    assert!(layout.button_area.width <= area.width);
}

#[test]
fn button_enabled_unless_disabled() {
    assert!(ButtonState::new("a").is_enabled());
    assert!(ButtonState::new("a").with_focus(FocusState::Focused).is_enabled());
    assert!(ButtonState::new("a").with_focus(FocusState::Hovered).is_enabled());
}

#[test]
fn button_layout_exact_area() {
    let area = Rect::new(3, 4, 20, 2);
    let layout = button_layout(area, &ButtonState::new("Save"));
    assert_eq!(layout.button_area, Rect::new(3, 4, 8, 1));
}

#[test]
fn button_layout_too_small_area_is_empty() {
    let state = ButtonState::new("OK");
    assert_eq!(button_layout(Rect::new(5, 5, 3, 1), &state).button_area, Rect::default());
    assert_eq!(button_layout(Rect::new(5, 5, 10, 0), &state).button_area, Rect::default());
}

#[test]
fn button_layout_counts_label_bytes() {
    // "ü" takes two bytes, so the button is one column wider than its characters
    let layout = button_layout(Rect::new(0, 0, 20, 1), &ButtonState::new("\u{fc}"));
    assert_eq!(layout.button_area.width, 6);
}

#[test]
fn button_label_truncated_to_width() {
    let state = ButtonState::new("Very Long Button Text");
    assert_eq!(button_display_label(&state, 8), "Very");
    assert_eq!(button_display_label(&state, 3), "");
    assert_eq!(button_display_label(&state, 100), "Very Long Button Text");
}

#[test]
fn button_styles_by_state() {
    let normal = button_style(&ButtonState::new("a"));
    assert_eq!(normal.text, ButtonColorRole::Text);
    assert_eq!(normal.border, ButtonColorRole::Border);
    assert_eq!(normal.background, None);
    assert!(!normal.bold);

    let mut pressed = ButtonState::new("a");
    pressed.set_pressed(true);
    assert_eq!(button_style(&pressed).background, Some(ButtonColorRole::PressedBg));

    let focused = button_style(&ButtonState::new("a").with_focus(FocusState::Focused));
    assert_eq!(focused.text, ButtonColorRole::Focused);
    assert_eq!(focused.border, ButtonColorRole::Focused);
    assert!(focused.bold);

    let mut focused_pressed = ButtonState::new("a").with_focus(FocusState::Focused);
    focused_pressed.set_pressed(true);
    let s = button_style(&focused_pressed);
    assert_eq!(s.text, ButtonColorRole::Text);
    assert_eq!(s.background, Some(ButtonColorRole::PressedBg));

    let hovered = button_style(&ButtonState::new("a").with_focus(FocusState::Hovered));
    assert_eq!(hovered.text, ButtonColorRole::Focused);
    assert!(!hovered.bold);

    let disabled = button_style(&ButtonState::new("a").with_focus(FocusState::Disabled));
    assert_eq!(disabled.text, ButtonColorRole::Disabled);
    assert_eq!(disabled.border, ButtonColorRole::Disabled);
}

#[test]
fn button_row_positions_and_overflow() {
    let ok = ButtonState::new("OK");
    let cancel = ButtonState::new("Cancel");
    let layouts = button_row_layout(Rect::new(2, 1, 40, 1), &[&ok, &cancel], 2);
    assert_eq!(layouts[0].button_area, Rect::new(2, 1, 6, 1));
    assert_eq!(layouts[1].button_area, Rect::new(10, 1, 10, 1));
    // the second button does not fit in 15 columns
    let layouts = button_row_layout(Rect::new(0, 0, 15, 1), &[&ok, &cancel], 2);
    assert_eq!(layouts.len(), 1);
    // nothing is laid out in an area without height
    assert_eq!(button_row_layout(Rect::new(0, 0, 40, 0), &[&ok], 2).len(), 0);
    assert_eq!(button_row_layout(Rect::new(0, 0, 40, 1), &[], 2).len(), 0);
}

#[test]
fn rect_new_clamps_to_u16() {
    let r = Rect::new(65530, 65534, 100, 5);
    assert_eq!(r.width, 5);
    assert_eq!(r.height, 1);
}

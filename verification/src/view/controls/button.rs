//! Button control for triggering actions
//!
//! Renders as: `[ Button Text ]`
use vstd::prelude::*;

use super::FocusState;
use crate::layout::{clamp_extent, Rect};
use crate::text::{byte_len, take_chars, text_byte_len};

verus! {

/// State for a button control
#[derive(Debug, Clone)]
pub struct ButtonState {
    /// Button label text
    pub label: String,
    /// Focus state
    pub focus: FocusState,
    /// Whether the button is currently pressed (for visual feedback)
    pub pressed: bool,
}

impl ButtonState {
    /// Create a new button state
    pub fn new(label: &str) -> (s: Self)
        ensures
            s.label@ == label@,
            s.focus == FocusState::Normal,
            !s.pressed,
    {
        Self { label: label.to_owned(), focus: FocusState::Normal, pressed: false }
    }

    /// Set the focus state
    pub fn with_focus(self, focus: FocusState) -> (s: Self)
        ensures
            s.label@ == self.label@,
            s.focus == focus,
            s.pressed == self.pressed,
    {
        let mut s = self;
        s.focus = focus;
        s
    }

    /// Check if the button can be activated
    pub fn is_enabled(&self) -> (b: bool)
        ensures
            b == (self.focus != FocusState::Disabled),
    {
        self.focus != FocusState::Disabled
    }

    /// Set pressed state (for visual feedback)
    pub fn set_pressed(&mut self, pressed: bool)
        ensures
            final(self).pressed == pressed,
            final(self).label@ == old(self).label@,
            final(self).focus == old(self).focus,
    {
        self.pressed = pressed;
    }
}

/// Layout information returned after rendering for hit testing
#[derive(Debug, Clone, Copy)]
pub struct ButtonLayout {
    /// The clickable button area
    pub button_area: Rect,
}

impl ButtonLayout {
    /// Check if a point is within the button
    pub fn contains(&self, x: u16, y: u16) -> (b: bool)
        requires
            self.button_area.well_formed(),
        ensures
            b == self.button_area.holds(x as int, y as int),
    {
        x >= self.button_area.x && x < self.button_area.x + self.button_area.width && y
            >= self.button_area.y && y < self.button_area.y + self.button_area.height
    }
}

/// Which of the button's colors paints a part of it.
#[derive(Debug, Clone, Copy, PartialEq, Eq, Structural)]
pub enum ButtonColorRole {
    Text,
    Border,
    PressedBg,
    Focused,
    Disabled,
}

/// How a button is painted: the colors of its label and brackets, the
/// background of its label, and whether the label is bold.
#[derive(Debug, Clone, Copy, PartialEq, Eq, Structural)]
pub struct ButtonStyle {
    pub text: ButtonColorRole,
    pub border: ButtonColorRole,
    pub background: Option<ButtonColorRole>,
    pub bold: bool,
}

/// Width of `[ label ]` in cells, as the renderer computes it: the byte
/// length of the label plus four, truncated to `u16`.
pub open spec fn button_width(label: Seq<char>) -> u16 {
    ((byte_len(label) + 4) % 0x10000) as u16
}

/// Where a button is drawn inside `area`.
pub open spec fn button_area_in(area: Rect, label: Seq<char>) -> Rect {
    if area.height == 0 || area.width < 4 {
        Rect { x: 0, y: 0, width: 0, height: 0 }
    } else {
        let w = if button_width(label) < area.width {
            button_width(label)
        } else {
            area.width
        };
        Rect { x: area.x, y: area.y, width: clamp_extent(area.x, w), height: clamp_extent(area.y, 1) }
    }
}

/// The label characters that fit in a button of `width` cells.
pub open spec fn shown_label(label: Seq<char>, width: u16) -> Seq<char> {
    let room: int = if width >= 4 { width - 4 } else { 0 };
    label.take(if room <= label.len() { room } else { label.len() as int })
}

/// The colors and emphasis of a button in its current state.
pub open spec fn button_style_of(focus: FocusState, pressed: bool) -> ButtonStyle {
    match focus {
        FocusState::Normal => ButtonStyle {
            text: ButtonColorRole::Text,
            border: ButtonColorRole::Border,
            background: if pressed { Some(ButtonColorRole::PressedBg) } else { None },
            bold: false,
        },
        FocusState::Focused => if pressed {
            ButtonStyle {
                text: ButtonColorRole::Text,
                border: ButtonColorRole::Focused,
                background: Some(ButtonColorRole::PressedBg),
                bold: true,
            }
        } else {
            ButtonStyle {
                text: ButtonColorRole::Focused,
                border: ButtonColorRole::Focused,
                background: None,
                bold: true,
            }
        },
        FocusState::Hovered => ButtonStyle {
            text: ButtonColorRole::Focused,
            border: ButtonColorRole::Focused,
            background: None,
            bold: false,
        },
        FocusState::Disabled => ButtonStyle {
            text: ButtonColorRole::Disabled,
            border: ButtonColorRole::Disabled,
            background: None,
            bold: false,
        },
    }
}

/// Width of `[ label ]` for a button state.
pub fn label_button_width(state: &ButtonState) -> (w: u16)
    ensures
        w == button_width(state.label@),
{
    let len = text_byte_len(&state.label);
    let low: u16 = (len % 0x10000) as u16;
    let w = low.wrapping_add(4);
    assert(w == button_width(state.label@)) by {
        assert((((len % 0x10000) + 4) % 0x10000) == ((len + 4) % 0x10000)) by (nonlinear_arith);
    }
    w
}

/// A button is drawn into `area` only when it has a row and four columns.
pub fn button_fits(area: Rect) -> (b: bool)
    ensures
        b == !(area.height == 0 || area.width < 4),
{
    !(area.height == 0 || area.width < 4)
}

/// The area a button occupies when rendered into `area`: nothing when the
/// area is too small, otherwise one row at the area's corner, as wide as
/// `[ label ]` but no wider than the area.
pub fn button_layout(area: Rect, state: &ButtonState) -> (l: ButtonLayout)
    ensures
        l.button_area == button_area_in(area, state.label@),
        l.button_area.well_formed(),
        l.button_area.width <= area.width,
{
    if area.height == 0 || area.width < 4 {
        return ButtonLayout { button_area: Rect::default() };
    }
    let button_width = label_button_width(state);
    let actual_width = if button_width < area.width {
        button_width
    } else {
        area.width
    };
    ButtonLayout { button_area: Rect::new(area.x, area.y, actual_width, 1) }
}

/// The label text shown in a button `width` cells wide: as many characters
/// as fit between the brackets.
pub fn button_display_label(state: &ButtonState, width: u16) -> (t: String)
    ensures
        t@ == shown_label(state.label@, width),
{
    let max_label_len: u16 = if width >= 4 {
        width - 4
    } else {
        0
    };
    take_chars(state.label.as_str(), max_label_len as usize)
}

/// The colors and emphasis a button is painted with.
pub fn button_style(state: &ButtonState) -> (s: ButtonStyle)
    ensures
        s == button_style_of(state.focus, state.pressed),
{
    match state.focus {
        FocusState::Normal => ButtonStyle {
            text: ButtonColorRole::Text,
            border: ButtonColorRole::Border,
            background: if state.pressed {
                Some(ButtonColorRole::PressedBg)
            } else {
                None
            },
            bold: false,
        },
        FocusState::Focused => if state.pressed {
            ButtonStyle {
                text: ButtonColorRole::Text,
                border: ButtonColorRole::Focused,
                background: Some(ButtonColorRole::PressedBg),
                bold: true,
            }
        } else {
            ButtonStyle {
                text: ButtonColorRole::Focused,
                border: ButtonColorRole::Focused,
                background: None,
                bold: true,
            }
        },
        FocusState::Hovered => ButtonStyle {
            text: ButtonColorRole::Focused,
            border: ButtonColorRole::Focused,
            background: None,
            bold: false,
        },
        FocusState::Disabled => ButtonStyle {
            text: ButtonColorRole::Disabled,
            border: ButtonColorRole::Disabled,
            background: None,
            bold: false,
        },
    }
}

/// The widths of `[ label ]` for each button of a row.
pub open spec fn row_widths(buttons: Seq<&ButtonState>) -> Seq<u16> {
    buttons.map_values(|b: &ButtonState| button_width(b.label@))
}

/// Column at which the `i`-th button of a row starts: each button is
/// followed by `gap` empty cells.
pub open spec fn row_x(area: Rect, widths: Seq<u16>, gap: u16, i: nat) -> int
    decreases i,
{
    if i == 0 {
        area.x as int
    } else {
        row_x(area, widths, gap, (i - 1) as nat) + widths[i - 1] + gap
    }
}

/// The `i`-th button of a row ends within the area.
pub open spec fn row_fits(area: Rect, widths: Seq<u16>, gap: u16, i: nat) -> bool {
    row_x(area, widths, gap, i) + widths[i as int] <= area.x + area.width
}

/// Number of buttons placed, counting from the `i`-th: placing stops at
/// the first button that does not fit.
pub open spec fn row_count_from(area: Rect, widths: Seq<u16>, gap: u16, i: nat) -> nat
    decreases widths.len() - i,
{
    if i >= widths.len() || !row_fits(area, widths, gap, i) {
        i
    } else {
        row_count_from(area, widths, gap, i + 1)
    }
}

/// Number of buttons of a row that are drawn.
pub open spec fn row_count(area: Rect, widths: Seq<u16>, gap: u16) -> nat {
    if widths.len() == 0 || area.height == 0 {
        0
    } else {
        row_count_from(area, widths, gap, 0)
    }
}

/// The area of the `i`-th button of a row.
pub open spec fn row_button_area(area: Rect, buttons: Seq<&ButtonState>, gap: u16, i: int) -> Rect {
    let x = row_x(area, row_widths(buttons), gap, i as nat);
    button_area_in(
        Rect {
            x: x as u16,
            y: area.y,
            width: clamp_extent(x as u16, row_widths(buttons)[i]),
            height: clamp_extent(area.y, 1),
        },
        buttons[i].label@,
    )
}

/// Laying out a row does not overflow: the right edge of the area, the end
/// of every button that is tried, and the start of the button after every
/// placed one are all within `u16`.
pub open spec fn row_computable(area: Rect, widths: Seq<u16>, gap: u16) -> bool {
    &&& area.x + area.width <= u16::MAX
    &&& forall|i: nat|
        area.height > 0 && i < widths.len() && i <= row_count(area, widths, gap) ==> #[trigger] row_x(
            area,
            widths,
            gap,
            i,
        ) + widths[i as int] <= u16::MAX
    &&& forall|i: int| 0 <= i < row_count(area, widths, gap) ==> #[trigger] widths[i] + gap <= u16::MAX
    &&& forall|i: nat| 0 < i <= row_count(area, widths, gap) ==> #[trigger] row_x(area, widths, gap, i) <= u16::MAX
}

proof fn lemma_row_count_skip(area: Rect, widths: Seq<u16>, gap: u16, i: nat)
    requires
        i <= widths.len(),
        forall|j: nat| j < i ==> #[trigger] row_fits(area, widths, gap, j),
    ensures
        row_count_from(area, widths, gap, 0) == row_count_from(area, widths, gap, i),
    decreases i,
{
    if i > 0 {
        lemma_row_count_skip(area, widths, gap, (i - 1) as nat);
        assert(row_fits(area, widths, gap, (i - 1) as nat));
    }
}

proof fn lemma_row_count_bounds(area: Rect, widths: Seq<u16>, gap: u16, i: nat)
    requires
        i <= widths.len(),
    ensures
        i <= row_count_from(area, widths, gap, i) <= widths.len(),
        forall|j: nat|
            i <= j < row_count_from(area, widths, gap, i) ==> #[trigger] row_fits(
                area,
                widths,
                gap,
                j,
            ),
    decreases widths.len() - i,
{
    if i < widths.len() && row_fits(area, widths, gap, i) {
        lemma_row_count_bounds(area, widths, gap, i + 1);
    }
}

/// The areas of a row of buttons rendered left to right into `area`,
/// `gap` cells apart, stopping at the first one that does not fit.
pub fn button_row_layout(area: Rect, buttons: &[&ButtonState], gap: u16) -> (layouts: Vec<
    ButtonLayout,
>)
    requires
        row_computable(area, row_widths(buttons@), gap),
    ensures
        layouts.len() == row_count(area, row_widths(buttons@), gap),
        forall|i: int|
            0 <= i < layouts.len() ==> #[trigger] layouts@[i].button_area == row_button_area(
                area,
                buttons@,
                gap,
                i,
            ),
{
    let ghost widths = row_widths(buttons@);
    if buttons.len() == 0 || area.height == 0 {
        return Vec::new();
    }
    let mut layouts: Vec<ButtonLayout> = Vec::new();
    let mut x = area.x;
    let mut i: usize = 0;
    proof {
        lemma_row_count_bounds(area, widths, gap, 0);
    }
    loop
        invariant
            widths == row_widths(buttons@),
            area.height != 0,
            buttons@.len() > 0,
            row_computable(area, widths, gap),
            i <= buttons.len(),
            x == row_x(area, widths, gap, i as nat),
            forall|j: nat| j < i ==> #[trigger] row_fits(area, widths, gap, j),
            layouts.len() == i,
            forall|j: int|
                0 <= j < i ==> #[trigger] layouts@[j].button_area == row_button_area(
                    area,
                    buttons@,
                    gap,
                    j,
                ),
        ensures
            layouts.len() == row_count(area, widths, gap),
            forall|j: int|
                0 <= j < layouts.len() ==> #[trigger] layouts@[j].button_area == row_button_area(
                    area,
                    buttons@,
                    gap,
                    j,
                ),
        decreases buttons.len() - i,
    {
        if i >= buttons.len() {
            proof {
                lemma_row_count_skip(area, widths, gap, i as nat);
            }
            break;
        }
        proof {
            lemma_row_count_skip(area, widths, gap, i as nat);
            lemma_row_count_bounds(area, widths, gap, i as nat);
            assert(row_count(area, widths, gap) == row_count_from(area, widths, gap, i as nat));
            assert(row_x(area, widths, gap, i as nat) + widths[i as int] <= u16::MAX);
        }
        let state = buttons[i];
        let button_width = label_button_width(state);
        if x + button_width > area.x + area.width {
            assert(!row_fits(area, widths, gap, i as nat));
            break;
        }
        assert(row_fits(area, widths, gap, i as nat));
        proof {
            lemma_row_count_bounds(area, widths, gap, (i + 1) as nat);
        }
        let button_area = Rect::new(x, area.y, button_width, 1);
        let layout = button_layout(button_area, state);
        layouts.push(layout);
        assert(layouts@[i as int].button_area == row_button_area(area, buttons@, gap, i as int));
        x = x + (button_width + gap);
        i = i + 1;
    }
    layouts
}

/// The buttons of a row lie left to right without overlapping, each one
/// ending before the next starts, and all within the area.
pub proof fn law_row_buttons_do_not_overlap(area: Rect, buttons: Seq<&ButtonState>, gap: u16, i: int)
    requires
        0 <= i,
        i + 1 < row_count(area, row_widths(buttons), gap),
        area.well_formed(),
        forall|j: int| 0 <= j < buttons.len() ==> byte_len(#[trigger] buttons[j].label@) + 4 < 0x10000,
    ensures
        row_button_area(area, buttons, gap, i).x + row_button_area(area, buttons, gap, i).width
            <= row_button_area(area, buttons, gap, i + 1).x,
        row_button_area(area, buttons, gap, i + 1).x + row_button_area(area, buttons, gap, i + 1).width
            <= area.x + area.width,
{
    let widths = row_widths(buttons);
    lemma_row_count_bounds(area, widths, gap, 0);
    assert(row_fits(area, widths, gap, i as nat));
    assert(row_fits(area, widths, gap, (i + 1) as nat));
    assert(row_x(area, widths, gap, (i + 1) as nat) == row_x(area, widths, gap, i as nat) + widths[i] + gap);
    assert(widths[i] == button_width(buttons[i].label@));
    assert(widths[i + 1] == button_width(buttons[i + 1].label@));
    assert(widths[i] >= 4);
    assert(widths[i + 1] >= 4);
    assert(area.height != 0);
    assert(clamp_extent(area.y, 1) == 1);
    lemma_row_x_nonneg(area, widths, gap, (i + 1) as nat);
    let xi = row_x(area, widths, gap, i as nat);
    let xj = row_x(area, widths, gap, (i + 1) as nat);
    assert(clamp_extent(xi as u16, widths[i]) == widths[i]);
    assert(clamp_extent(xj as u16, widths[i + 1]) == widths[i + 1]);
    assert(row_button_area(area, buttons, gap, i) == (Rect { x: xi as u16, y: area.y, width: widths[i], height: 1 }));
    assert(row_button_area(area, buttons, gap, i + 1) == (Rect { x: xj as u16, y: area.y, width: widths[i + 1], height: 1 }));
}

proof fn lemma_row_x_nonneg(area: Rect, widths: Seq<u16>, gap: u16, i: nat)
    ensures
        forall|j: nat| j <= i ==> #[trigger] row_x(area, widths, gap, j) >= area.x,
    decreases i,
{
    if i > 0 {
        lemma_row_x_nonneg(area, widths, gap, (i - 1) as nat);
        assert forall|j: nat| j <= i implies #[trigger] row_x(area, widths, gap, j) >= area.x by {
            if j == i {
                assert(row_x(area, widths, gap, (i - 1) as nat) >= area.x);
            }
        }
    }
}

/// Whether a row of buttons can be laid out without overflowing `u16`
/// (the condition `button_row_layout` requires).
pub fn row_layout_computable(area: Rect, buttons: &[&ButtonState], gap: u16) -> (ok: bool)
    ensures
        ok == row_computable(area, row_widths(buttons@), gap),
{
    let ghost widths = row_widths(buttons@);
    if area.x as u32 + area.width as u32 > 0xffff {
        return false;
    }
    if buttons.len() == 0 || area.height == 0 {
        assert(row_count(area, widths, gap) == 0);
        return true;
    }
    proof {
        lemma_row_count_bounds(area, widths, gap, 0);
    }
    let right: u32 = area.x as u32 + area.width as u32;
    let mut x: u32 = area.x as u32;
    let mut i: usize = 0;
    while i < buttons.len()
        invariant
            widths == row_widths(buttons@),
            area.x + area.width <= u16::MAX,
            right == area.x + area.width,
            buttons@.len() > 0,
            area.height != 0,
            i <= buttons.len(),
            x == row_x(area, widths, gap, i as nat),
            x <= u16::MAX,
            forall|j: nat| j < i ==> #[trigger] row_fits(area, widths, gap, j),
            forall|j: nat| j < i ==> #[trigger] row_x(area, widths, gap, j) + widths[j as int] <= u16::MAX,
            forall|j: int| 0 <= j < i ==> #[trigger] widths[j] + gap <= u16::MAX,
            forall|j: nat| 0 < j <= i ==> #[trigger] row_x(area, widths, gap, j) <= u16::MAX,
        decreases buttons.len() - i,
    {
        proof {
            lemma_row_count_skip(area, widths, gap, i as nat);
            lemma_row_count_bounds(area, widths, gap, i as nat);
        }
        let w = label_button_width(buttons[i]) as u32;
        assert(w == widths[i as int]);
        if x + w > 0xffff {
            return false;
        }
        if x + w > right {
            // the row stops here: everything computed so far fits
            assert(!row_fits(area, widths, gap, i as nat));
            assert(row_count(area, widths, gap) == i);
            assert(row_x(area, widths, gap, i as nat) + widths[i as int] <= u16::MAX);
            assert forall|j: nat| area.height > 0 && j < widths.len() && j <= row_count(area, widths, gap) implies #[trigger] row_x(area, widths, gap, j) + widths[j as int] <= u16::MAX by {
                if j < i {
                }
            }
            return true;
        }
        if w + gap as u32 > 0xffff || x + w + gap as u32 > 0xffff {
            assert(row_fits(area, widths, gap, i as nat));
            proof {
                lemma_row_count_bounds(area, widths, gap, (i + 1) as nat);
            }
            return false;
        }
        assert(row_x(area, widths, gap, (i + 1) as nat) == x + w + gap);
        assert(row_fits(area, widths, gap, i as nat));
        let ghost i0 = i as nat;
        x = x + w + gap as u32;
        i = i + 1;
        assert forall|j: nat| j < i implies #[trigger] row_fits(area, widths, gap, j) by {
            if j == i0 {
            }
        }
    }
    proof {
        lemma_row_count_skip(area, widths, gap, i as nat);
    }
    assert(row_count(area, widths, gap) == buttons@.len());
    true
}

} // verus!

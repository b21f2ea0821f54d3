//! Text list control for managing lists of strings
//!
//! Renders as a list with add/remove buttons:
//! ```text
//! Label:
//!   [item one                ] [x]
//!   [item two                ] [x]
//!   [                        ] [+]
//! ```
use vstd::prelude::*;

use super::FocusState;
use crate::layout::{clamp_extent, rect_new, Rect};
use crate::text::{
    char_at_or_space, char_count, insert_char, insert_char_at, lemma_insert_then_remove_char,
    pad_right, padded, remove_char, remove_char_at, take_chars,
};

verus! {

/// State for a text list control
#[derive(Debug, Clone)]
pub struct TextListState {
    /// List of items
    pub items: Vec<String>,
    /// Currently focused item index (None = add new item field)
    pub focused_item: Option<usize>,
    /// Cursor position (in characters) within the focused item
    pub cursor: usize,
    /// Text in the "add new" field
    pub new_item_text: String,
    /// Label displayed above the list
    pub label: String,
    /// Focus state
    pub focus: FocusState,
}

/// Abstract value of a [`TextListState`]: every text as its characters.
#[verifier::ext_equal]
pub struct TextListModel {
    pub items: Seq<Seq<char>>,
    pub focused_item: Option<usize>,
    pub cursor: nat,
    pub new_item: Seq<char>,
    pub label: Seq<char>,
    pub focus: FocusState,
}

impl View for TextListState {
    type V = TextListModel;

    open spec fn view(&self) -> TextListModel {
        TextListModel {
            items: self.items@.map_values(|s: String| s@),
            focused_item: self.focused_item,
            cursor: self.cursor as nat,
            new_item: self.new_item_text@,
            label: self.label@,
            focus: self.focus,
        }
    }
}

impl TextListModel {
    /// The text of the focused field: an item, the "add new" field, or
    /// nothing when the focused index is out of range.
    pub open spec fn target(self) -> Option<Seq<char>> {
        match self.focused_item {
            Some(i) => if i < self.items.len() {
                Some(self.items[i as int])
            } else {
                None
            },
            None => Some(self.new_item),
        }
    }

    /// The model with the focused field's text replaced by `t`.
    pub open spec fn with_target(self, t: Seq<char>) -> TextListModel {
        match self.focused_item {
            Some(i) => TextListModel { items: self.items.update(i as int, t), ..self },
            None => TextListModel { new_item: t, ..self },
        }
    }

    /// Number of characters of the focused field (0 when there is none).
    pub open spec fn target_len(self) -> nat {
        match self.target() {
            Some(t) => t.len(),
            None => 0,
        }
    }

    pub open spec fn editable(self) -> bool {
        self.focus != FocusState::Disabled
    }

    /// What `add_item` leaves.
    pub open spec fn after_add_item(self) -> TextListModel {
        if !self.editable() || self.new_item.len() == 0 {
            self
        } else {
            TextListModel {
                items: self.items.push(self.new_item),
                new_item: Seq::empty(),
                cursor: 0,
                ..self
            }
        }
    }

    /// What `remove_item(index)` leaves.
    pub open spec fn after_remove_item(self, index: int) -> TextListModel {
        if !self.editable() || index < 0 || index >= self.items.len() {
            self
        } else {
            let items = self.items.remove(index);
            let focused_item = match self.focused_item {
                Some(f) => if f >= items.len() {
                    if items.len() == 0 {
                        None
                    } else {
                        Some((items.len() - 1) as usize)
                    }
                } else {
                    Some(f)
                },
                None => None,
            };
            TextListModel { items, focused_item, ..self }
        }
    }

    /// What `focus_item(index)` leaves.
    pub open spec fn after_focus_item(self, index: int) -> TextListModel {
        if 0 <= index < self.items.len() {
            TextListModel {
                focused_item: Some(index as usize),
                cursor: self.items[index].len(),
                ..self
            }
        } else {
            self
        }
    }

    /// What `focus_new_item` leaves.
    pub open spec fn after_focus_new_item(self) -> TextListModel {
        TextListModel { focused_item: None, cursor: self.new_item.len(), ..self }
    }

    /// `insert` would change a text.
    pub open spec fn inserts(self) -> bool {
        self.editable() && self.target() is Some
    }

    /// `insert` does not panic: the cursor lies within the text it inserts into.
    pub open spec fn can_insert(self) -> bool {
        self.inserts() ==> self.cursor <= self.target()->0.len()
    }

    /// What `insert(c)` leaves.
    pub open spec fn after_insert(self, c: char) -> TextListModel {
        if self.inserts() {
            TextListModel {
                cursor: self.cursor + 1,
                ..self.with_target(insert_char(self.target()->0, self.cursor as int, c))
            }
        } else {
            self
        }
    }

    /// `backspace` moves the cursor (and deletes, when there is a focused text).
    pub open spec fn backspaces(self) -> bool {
        self.editable() && self.cursor > 0
    }

    /// `backspace` does not panic: the cursor lies within the focused text.
    pub open spec fn can_backspace(self) -> bool {
        self.backspaces() && self.target() is Some ==> self.cursor <= self.target()->0.len()
    }

    /// What `backspace` leaves.
    pub open spec fn after_backspace(self) -> TextListModel {
        if !self.backspaces() {
            self
        } else {
            let moved = TextListModel { cursor: (self.cursor - 1) as nat, ..self };
            match self.target() {
                Some(t) => moved.with_target(remove_char(t, self.cursor - 1)),
                None => moved,
            }
        }
    }

    /// What `move_left` leaves.
    pub open spec fn after_move_left(self) -> TextListModel {
        if self.cursor > 0 {
            TextListModel { cursor: (self.cursor - 1) as nat, ..self }
        } else {
            self
        }
    }

    /// What `move_right` leaves.
    pub open spec fn after_move_right(self) -> TextListModel {
        if self.cursor < self.target_len() {
            TextListModel { cursor: self.cursor + 1, ..self }
        } else {
            self
        }
    }

    /// `focus_prev` does not panic: a focused index past the first one names
    /// an item or the position just after the last.
    pub open spec fn can_focus_prev(self) -> bool {
        match self.focused_item {
            Some(i) => i > 0 ==> i <= self.items.len(),
            None => true,
        }
    }

    /// What `focus_prev` leaves.
    pub open spec fn after_focus_prev(self) -> TextListModel {
        match self.focused_item {
            Some(i) => if i == 0 {
                self
            } else {
                TextListModel {
                    focused_item: Some((i - 1) as usize),
                    cursor: self.items[i - 1].len(),
                    ..self
                }
            },
            None => if self.items.len() > 0 {
                TextListModel {
                    focused_item: Some((self.items.len() - 1) as usize),
                    cursor: self.items.last().len(),
                    ..self
                }
            } else {
                self
            },
        }
    }

    /// `focus_next` does not panic: the focused index can be incremented.
    pub open spec fn can_focus_next(self) -> bool {
        match self.focused_item {
            Some(i) => i < usize::MAX,
            None => true,
        }
    }

    /// What `focus_next` leaves.
    pub open spec fn after_focus_next(self) -> TextListModel {
        match self.focused_item {
            Some(i) => if i + 1 < self.items.len() {
                TextListModel {
                    focused_item: Some((i + 1) as usize),
                    cursor: self.items[i + 1].len(),
                    ..self
                }
            } else {
                TextListModel { focused_item: None, cursor: self.new_item.len(), ..self }
            },
            None => self,
        }
    }
}

impl TextListModel {
    /// The focused index, when there is one, names an item.
    pub open spec fn focus_in_bounds(self) -> bool {
        match self.focused_item {
            Some(i) => i < self.items.len(),
            None => true,
        }
    }

    /// The cursor lies within the focused text.
    pub open spec fn cursor_in_field(self) -> bool {
        self.cursor <= self.target_len()
    }
}

/// Typing a character into an editable focused text and then deleting it
/// with backspace gives back the same texts and cursor.
pub proof fn law_insert_then_backspace(m: TextListModel, c: char)
    requires
        m.inserts(),
        m.can_insert(),
    ensures
        m.after_insert(c).can_backspace(),
        m.after_insert(c).after_backspace() == m,
{
    let t = m.target()->0;
    lemma_insert_then_remove_char(t, m.cursor as int, c);
    let n = m.after_insert(c);
    let r = remove_char(insert_char(t, m.cursor as int, c), m.cursor as int);
    match m.focused_item {
        Some(i) => {
            assert(n.items == m.items.update(i as int, insert_char(t, m.cursor as int, c)));
            assert(n.after_backspace().items == n.items.update(i as int, r));
            assert(n.after_backspace().items =~= m.items);
            assert(n.after_backspace() =~= m);
        },
        None => {
            assert(n.after_backspace() =~= m);
        },
    }
}

/// Typing puts the character just before the cursor: the focused text gets
/// one character longer, the characters before the old cursor stay, the new
/// character follows them, the old rest follows it, and the cursor moves past
/// the new character.
pub proof fn law_insert_puts_char_at_cursor(m: TextListModel, c: char)
    requires
        m.inserts(),
        m.can_insert(),
    ensures
        ({
            let t = m.target()->0;
            let n = m.after_insert(c);
            &&& n.target() is Some
            &&& n.target()->0.len() == t.len() + 1
            &&& n.cursor == m.cursor + 1
            &&& forall|i: int| 0 <= i < m.cursor ==> n.target()->0[i] == t[i]
            &&& n.target()->0[m.cursor as int] == c
            &&& forall|i: int| m.cursor <= i < t.len() ==> n.target()->0[i + 1] == t[i]
        }),
{
    let t = m.target()->0;
    lemma_insert_then_remove_char(t, m.cursor as int, c);
    let u = insert_char(t, m.cursor as int, c);
    assert forall|i: int| m.cursor <= i < t.len() implies u[i + 1] == t[i] by {
        assert(u[i + 1] == t.skip(m.cursor as int)[i - m.cursor]);
    }
}

/// Every operation keeps a focused index that names an item.
pub proof fn law_focus_stays_in_bounds(m: TextListModel, c: char, index: usize)
    requires
        m.focus_in_bounds(),
    ensures
        m.after_add_item().focus_in_bounds(),
        m.after_remove_item(index as int).focus_in_bounds(),
        m.after_focus_item(index as int).focus_in_bounds(),
        m.after_focus_new_item().focus_in_bounds(),
        m.after_insert(c).focus_in_bounds(),
        m.after_backspace().focus_in_bounds(),
        m.after_move_left().focus_in_bounds(),
        m.after_move_right().focus_in_bounds(),
        m.after_focus_prev().focus_in_bounds(),
        m.after_focus_next().focus_in_bounds(),
{
}

/// A cursor within the focused text can always type and delete there, and
/// moving the cursor, typing, deleting and moving the focus keep the cursor
/// within the focused text.
pub proof fn law_cursor_stays_in_field(m: TextListModel, c: char, index: usize)
    requires
        m.items.len() <= usize::MAX,
        m.focus_in_bounds(),
        m.cursor_in_field(),
    ensures
        m.can_insert(),
        m.can_backspace(),
        m.after_move_left().cursor_in_field(),
        m.after_move_right().cursor_in_field(),
        m.after_insert(c).cursor_in_field(),
        m.after_backspace().cursor_in_field(),
        m.after_add_item().cursor_in_field(),
        m.after_focus_item(index as int).cursor_in_field(),
        m.after_focus_new_item().cursor_in_field(),
        m.after_focus_prev().cursor_in_field(),
        m.after_focus_next().cursor_in_field(),
{
    if m.inserts() {
        lemma_insert_then_remove_char(m.target()->0, m.cursor as int, c);
    }
    if m.backspaces() && m.target() is Some {
        let t = m.target()->0;
        assert(remove_char(t, m.cursor - 1).len() == t.len() - 1);
    }
}

/// Moving right and then left returns the cursor to where it was, when it
/// was not already at the end of the focused text.
pub proof fn law_move_right_then_left(m: TextListModel)
    requires
        m.cursor < m.target_len(),
    ensures
        m.after_move_right().after_move_left() == m,
{
    assert(m.after_move_right().after_move_left() =~= m);
}

/// Moving the focus onto a text puts the cursor at the end of that text:
/// after focusing an item, the "add new" field, or stepping the focus to
/// another text, the cursor equals the number of characters of the newly
/// focused text.
pub proof fn law_focus_moves_cursor_to_end(m: TextListModel, index: int)
    requires
        m.items.len() <= usize::MAX,
        m.can_focus_prev(),
    ensures
        0 <= index < m.items.len() ==> m.after_focus_item(index).cursor == m.items[index].len(),
        m.after_focus_new_item().cursor == m.new_item.len(),
        m.after_focus_prev().focused_item != m.focused_item ==> m.after_focus_prev().target() is Some
            && m.after_focus_prev().cursor == m.after_focus_prev().target()->0.len(),
        m.after_focus_next().focused_item != m.focused_item ==> m.after_focus_next().target() is Some
            && m.after_focus_next().cursor == m.after_focus_next().target()->0.len(),
{
}

/// Stepping the focus back and then forward from an item other than the
/// first returns to that item, with the cursor at its end.
pub proof fn law_focus_prev_then_next(m: TextListModel, i: usize)
    requires
        m.focused_item == Some(i),
        0 < i < m.items.len(),
    ensures
        m.after_focus_prev().after_focus_next() == (TextListModel {
            focused_item: Some(i),
            cursor: m.items[i as int].len(),
            ..m
        }),
{
    assert(m.after_focus_prev().after_focus_next() =~= (TextListModel {
        focused_item: Some(i),
        cursor: m.items[i as int].len(),
        ..m
    }));
}

impl TextListState {
    /// Create a new text list state
    pub fn new(label: &str) -> (s: Self)
        ensures
            s@ == (TextListModel {
                items: Seq::empty(),
                focused_item: None,
                cursor: 0,
                new_item: Seq::empty(),
                label: label@,
                focus: FocusState::Normal,
            }),
    {
        let s = Self {
            items: Vec::new(),
            focused_item: None,
            cursor: 0,
            new_item_text: String::new(),
            label: label.to_owned(),
            focus: FocusState::Normal,
        };
        assert(s.items@.map_values(|s: String| s@) =~= Seq::<Seq<char>>::empty());
        s
    }

    /// Set the initial items
    pub fn with_items(self, items: Vec<String>) -> (s: Self)
        ensures
            s@ == (TextListModel { items: items@.map_values(|t: String| t@), ..self@ }),
    {
        let mut s = self;
        s.items = items;
        s
    }

    /// Set the focus state
    pub fn with_focus(self, focus: FocusState) -> (s: Self)
        ensures
            s@ == (TextListModel { focus, ..self@ }),
    {
        let mut s = self;
        s.focus = focus;
        s
    }

    /// Add a new item from the new_item_text field
    pub fn add_item(&mut self)
        ensures
            final(self)@ == old(self)@.after_add_item(),
    {
        if self.focus == FocusState::Disabled || self.new_item_text.as_str().is_empty() {
            return;
        }
        let mut taken = String::new();
        core::mem::swap(&mut taken, &mut self.new_item_text);
        self.items.push(taken);
        self.cursor = 0;
        assert(self@.items =~= old(self)@.items.push(old(self)@.new_item));
        assert(self@ =~= old(self)@.after_add_item());
    }

    /// Remove an item by index
    pub fn remove_item(&mut self, index: usize)
        ensures
            final(self)@ == old(self)@.after_remove_item(index as int),
    {
        if self.focus == FocusState::Disabled || index >= self.items.len() {
            return;
        }
        self.items.remove(index);
        assert(self@.items =~= old(self)@.items.remove(index as int));
        // Adjust focused_item if needed
        if let Some(focused) = self.focused_item {
            if focused >= self.items.len() {
                self.focused_item = if self.items.len() == 0 {
                    None
                } else {
                    Some(self.items.len() - 1)
                };
            }
        }
        assert(self@ =~= old(self)@.after_remove_item(index as int));
    }

    /// Focus on an item for editing
    pub fn focus_item(&mut self, index: usize)
        ensures
            final(self)@ == old(self)@.after_focus_item(index as int),
    {
        if index < self.items.len() {
            self.focused_item = Some(index);
            self.cursor = char_count(self.items[index].as_str());
        }
        assert(self@ =~= old(self)@.after_focus_item(index as int));
    }

    /// Focus on the new item field
    pub fn focus_new_item(&mut self)
        ensures
            final(self)@ == old(self)@.after_focus_new_item(),
    {
        self.focused_item = None;
        self.cursor = char_count(self.new_item_text.as_str());
        assert(self@ =~= old(self)@.after_focus_new_item());
    }

    /// Insert a character in the focused field
    pub fn insert(&mut self, c: char)
        requires
            old(self)@.can_insert(),
        ensures
            final(self)@ == old(self)@.after_insert(c),
    {
        if self.focus == FocusState::Disabled {
            return;
        }
        match self.focused_item {
            Some(idx) => {
                if idx < self.items.len() {
                    insert_char_at(&mut self.items[idx], self.cursor, c);
                    let n = char_count(self.items[idx].as_str());
                    assert(n == old(self)@.items[idx as int].len() + 1);
                    self.cursor = self.cursor + 1;
                    assert(self@.items =~= old(self)@.items.update(
                        idx as int,
                        insert_char(old(self)@.items[idx as int], old(self).cursor as int, c),
                    ));
                }
            },
            None => {
                insert_char_at(&mut self.new_item_text, self.cursor, c);
                let n = char_count(self.new_item_text.as_str());
                assert(n == old(self)@.new_item.len() + 1);
                self.cursor = self.cursor + 1;
            },
        }
        assert(self@ =~= old(self)@.after_insert(c));
    }

    /// Backspace in the focused field
    pub fn backspace(&mut self)
        requires
            old(self)@.can_backspace(),
        ensures
            final(self)@ == old(self)@.after_backspace(),
    {
        if self.focus == FocusState::Disabled || self.cursor == 0 {
            return;
        }
        self.cursor = self.cursor - 1;
        match self.focused_item {
            Some(idx) => {
                if idx < self.items.len() {
                    remove_char_at(&mut self.items[idx], self.cursor);
                    assert(self@.items =~= old(self)@.items.update(
                        idx as int,
                        remove_char(old(self)@.items[idx as int], self.cursor as int),
                    ));
                }
            },
            None => {
                remove_char_at(&mut self.new_item_text, self.cursor);
            },
        }
        assert(self@ =~= old(self)@.after_backspace());
    }

    /// Move cursor left
    pub fn move_left(&mut self)
        ensures
            final(self)@ == old(self)@.after_move_left(),
    {
        if self.cursor > 0 {
            self.cursor = self.cursor - 1;
        }
        assert(self@ =~= old(self)@.after_move_left());
    }

    /// Move cursor right
    pub fn move_right(&mut self)
        ensures
            final(self)@ == old(self)@.after_move_right(),
    {
        let max = match self.focused_item {
            Some(idx) => if idx < self.items.len() {
                char_count(self.items[idx].as_str())
            } else {
                0
            },
            None => char_count(self.new_item_text.as_str()),
        };
        if self.cursor < max {
            self.cursor = self.cursor + 1;
        }
        assert(self@ =~= old(self)@.after_move_right());
    }

    /// Move focus to previous item
    pub fn focus_prev(&mut self)
        requires
            old(self)@.can_focus_prev(),
        ensures
            final(self)@ == old(self)@.after_focus_prev(),
    {
        match self.focused_item {
            Some(idx) => {
                if idx > 0 {
                    self.focused_item = Some(idx - 1);
                    self.cursor = char_count(self.items[idx - 1].as_str());
                }
            },
            None => {
                if self.items.len() > 0 {
                    let last = self.items.len() - 1;
                    self.focused_item = Some(last);
                    self.cursor = char_count(self.items[last].as_str());
                }
            },
        }
        assert(self@ =~= old(self)@.after_focus_prev());
    }

    /// Move focus to next item
    pub fn focus_next(&mut self)
        requires
            old(self)@.can_focus_next(),
        ensures
            final(self)@ == old(self)@.after_focus_next(),
    {
        match self.focused_item {
            Some(idx) => {
                if idx + 1 < self.items.len() {
                    self.focused_item = Some(idx + 1);
                    self.cursor = char_count(self.items[idx + 1].as_str());
                } else {
                    self.focused_item = None;
                    self.cursor = char_count(self.new_item_text.as_str());
                }
            },
            None => {},
        }
        assert(self@ =~= old(self)@.after_focus_next());
    }
}

/// Hit area for a text list row
#[derive(Debug, Clone, Copy)]
pub struct TextListRowLayout {
    /// The text field area
    pub text_area: Rect,
    /// The button area (remove or add)
    pub button_area: Rect,
    /// Index of this row (None for add-new row)
    pub index: Option<usize>,
}

/// Layout information returned after rendering for hit testing
#[derive(Debug, Clone)]
pub struct TextListLayout {
    /// Layout for each row
    pub rows: Vec<TextListRowLayout>,
    /// The full control area
    pub full_area: Rect,
}

/// Result of hit testing on a text list
#[derive(Debug, Clone, Copy, PartialEq, Eq, Structural)]
pub enum TextListHit {
    /// Clicked on a text field (None = add-new field)
    TextField(Option<usize>),
    /// Clicked on a button (None = add button, Some = remove button)
    Button(Option<usize>),
}

/// The cell `(x, y)` is on the row of `text` and between the ends of `part`.
pub open spec fn on_part(text: Rect, part: Rect, x: int, y: int) -> bool {
    text.y <= y < text.y + text.height && part.x <= x < part.x + part.width
}

/// What a click at `(x, y)` hits, trying the rows from `i` on in order and,
/// within a row, the button before the text field.
pub open spec fn hit_from(rows: Seq<TextListRowLayout>, x: int, y: int, i: int) -> Option<TextListHit>
    decreases rows.len() - i,
{
    if i < 0 || i >= rows.len() {
        None
    } else if on_part(rows[i].text_area, rows[i].button_area, x, y) {
        Some(TextListHit::Button(rows[i].index))
    } else if on_part(rows[i].text_area, rows[i].text_area, x, y) {
        Some(TextListHit::TextField(rows[i].index))
    } else {
        hit_from(rows, x, y, i + 1)
    }
}

/// The right and bottom edges of every row's areas fit in `u16`.
pub open spec fn rows_well_formed(rows: Seq<TextListRowLayout>) -> bool {
    forall|i: int|
        0 <= i < rows.len() ==> (#[trigger] rows[i]).text_area.well_formed()
            && rows[i].button_area.well_formed()
}

impl TextListLayout {
    /// Find which row and component was clicked
    pub fn hit_test(&self, x: u16, y: u16) -> (hit: Option<TextListHit>)
        requires
            rows_well_formed(self.rows@),
        ensures
            hit == hit_from(self.rows@, x as int, y as int, 0),
    {
        let mut i: usize = 0;
        while i < self.rows.len()
            invariant
                i <= self.rows.len(),
                rows_well_formed(self.rows@),
                hit_from(self.rows@, x as int, y as int, 0) == hit_from(
                    self.rows@,
                    x as int,
                    y as int,
                    i as int,
                ),
            decreases self.rows.len() - i,
        {
            let row = &self.rows[i];
            assert(row.text_area.well_formed() && row.button_area.well_formed());
            if y >= row.text_area.y && y < row.text_area.y + row.text_area.height && x
                >= row.button_area.x && x < row.button_area.x + row.button_area.width {
                return Some(TextListHit::Button(row.index));
            }
            if y >= row.text_area.y && y < row.text_area.y + row.text_area.height && x
                >= row.text_area.x && x < row.text_area.x + row.text_area.width {
                return Some(TextListHit::TextField(row.index));
            }
            i = i + 1;
        }
        None
    }
}

/// Width of each text field: the requested width, but no more than the area
/// leaves after the indent, the brackets and the button.
pub open spec fn field_width_in(area: Rect, field_width: u16) -> u16 {
    let room: u16 = if area.width >= 7 { (area.width - 7) as u16 } else { 0 };
    if field_width < room { field_width } else { room }
}

/// The areas of the row on screen line `line` below the label.
pub open spec fn row_at(area: Rect, field_width: u16, line: int, index: Option<usize>) -> TextListRowLayout {
    let fw = field_width_in(area, field_width);
    TextListRowLayout {
        text_area: rect_new(area.x + 2, area.y + 1 + line, fw + 2, 1),
        button_area: rect_new(area.x + 2 + fw + 3, area.y + 1 + line, 3, 1),
        index,
    }
}

/// Number of items that get a row: those that fit below the label.
pub open spec fn shown_items(area: Rect, n_items: nat) -> nat {
    if n_items < area.height - 1 { n_items } else { (area.height - 1) as nat }
}

/// The rows of a text list drawn into `area`: one per item that fits, then
/// the "add new" row if there is a line left; none when the area is smaller
/// than one line or ten columns.
pub open spec fn text_list_rows(area: Rect, n_items: nat, field_width: u16) -> Seq<TextListRowLayout> {
    if area.height == 0 || area.width < 10 {
        Seq::empty()
    } else {
        let k = shown_items(area, n_items);
        let items = Seq::new(k, |i: int| row_at(area, field_width, i, Some(i as usize)));
        if 1 + k < area.height {
            items.push(row_at(area, field_width, k as int, None))
        } else {
            items
        }
    }
}

/// A text list is drawn into `area` only when it has a row and ten columns.
pub fn text_list_fits(area: Rect) -> (b: bool)
    ensures
        b == !(area.height == 0 || area.width < 10),
{
    !(area.height == 0 || area.width < 10)
}

/// The rows of a text list rendered into `area` with text fields
/// `field_width` columns wide.
pub fn text_list_layout(area: Rect, state: &TextListState, field_width: u16) -> (layout: TextListLayout)
    requires
        !(area.height == 0 || area.width < 10) ==> area.y + area.height <= u16::MAX,
        !(area.height == 0 || area.width < 10) && area.height >= 2 ==> area.x + 5
            + field_width_in(area, field_width) <= u16::MAX,
    ensures
        layout.full_area == area,
        layout.rows@ == text_list_rows(area, state.items@.len(), field_width),
        rows_well_formed(layout.rows@),
{
    if area.height == 0 || area.width < 10 {
        return TextListLayout { rows: Vec::new(), full_area: area };
    }
    let mut rows: Vec<TextListRowLayout> = Vec::new();
    let mut y = area.y + 1;
    let indent: u16 = 2;
    let room = if area.width >= indent + 5 {
        area.width - (indent + 5)
    } else {
        0
    };
    let actual_field_width = if field_width < room {
        field_width
    } else {
        room
    };
    assert(actual_field_width == field_width_in(area, field_width));
    let ghost k = shown_items(area, state.items@.len());
    let mut idx: usize = 0;
    while idx < state.items.len()
        invariant
            area.y + area.height <= u16::MAX,
            area.height >= 2 ==> area.x + 5 + actual_field_width <= u16::MAX,
            area.height > 0,
            area.width >= 10,
            actual_field_width == field_width_in(area, field_width),
            actual_field_width + 7 <= area.width,
            indent == 2,
            k == shown_items(area, state.items@.len()),
            idx <= k,
            y == area.y + 1 + idx,
            rows@ == Seq::new(idx as nat, |i: int| row_at(area, field_width, i, Some(i as usize))),
            rows_well_formed(rows@),
        ensures
            idx == k,
            y == area.y + 1 + idx,
            rows@ == Seq::new(idx as nat, |i: int| row_at(area, field_width, i, Some(i as usize))),
            rows_well_formed(rows@),
        decreases state.items.len() - idx,
    {
        if y >= area.y + area.height {
            break;
        }
        let row = TextListRowLayout {
            text_area: Rect::new(area.x + indent, y, actual_field_width + 2, 1),
            button_area: Rect::new(area.x + indent + actual_field_width + 3, y, 3, 1),
            index: Some(idx),
        };
        assert(row == row_at(area, field_width, idx as int, Some(idx)));
        rows.push(row);
        assert(rows@ =~= Seq::new((idx + 1) as nat, |i: int| row_at(area, field_width, i, Some(i as usize))));
        y = y + 1;
        idx = idx + 1;
    }
    if y < area.y + area.height {
        let row = TextListRowLayout {
            text_area: Rect::new(area.x + indent, y, actual_field_width + 2, 1),
            button_area: Rect::new(area.x + indent + actual_field_width + 3, y, 3, 1),
            index: None,
        };
        assert(row == row_at(area, field_width, idx as int, None));
        rows.push(row);
    }
    assert(rows@ =~= text_list_rows(area, state.items@.len(), field_width));
    TextListLayout { rows, full_area: area }
}

/// Which of the text list's colors paints a part of it.
#[derive(Debug, Clone, Copy, PartialEq, Eq, Structural)]
pub enum TextListColorRole {
    Label,
    Text,
    Border,
    RemoveButton,
    AddButton,
    Focused,
    Cursor,
    Disabled,
}

/// The color of the label for a focus state.
pub open spec fn label_role_of(focus: FocusState) -> TextListColorRole {
    match focus {
        FocusState::Focused => TextListColorRole::Focused,
        FocusState::Hovered => TextListColorRole::Focused,
        FocusState::Disabled => TextListColorRole::Disabled,
        FocusState::Normal => TextListColorRole::Label,
    }
}

/// The color of a text list's label.
pub fn text_list_label_role(state: &TextListState) -> (r: TextListColorRole)
    ensures
        r == label_role_of(state.focus),
{
    match state.focus {
        FocusState::Focused => TextListColorRole::Focused,
        FocusState::Hovered => TextListColorRole::Focused,
        FocusState::Disabled => TextListColorRole::Disabled,
        FocusState::Normal => TextListColorRole::Label,
    }
}

/// How one row is painted: the colors of its brackets and text, the text
/// shown in the field, and the cursor cell (column and character), if any.
#[derive(Debug, Clone)]
pub struct TextListRowPaint {
    pub border: TextListColorRole,
    pub text: TextListColorRole,
    pub shown: String,
    pub cursor: Option<(u16, char)>,
}

/// The row with this index shows the cursor: it is the focused row and the
/// whole control has keyboard focus.
pub open spec fn row_is_focused(m: TextListModel, index: Option<usize>) -> bool {
    m.focused_item == index && m.focus == FocusState::Focused
}

/// The text of the row with this index (the "add new" text for `None`).
pub open spec fn row_text(m: TextListModel, index: Option<usize>) -> Seq<char> {
    match index {
        Some(i) => m.items[i as int],
        None => m.new_item,
    }
}

/// Number of characters that fit inside a field's brackets.
pub open spec fn inner_width_of(area: Rect, field_width: u16) -> nat {
    let fw = field_width_in(area, field_width);
    if fw >= 2 { (fw - 2) as nat } else { 0 }
}

/// How the row with this index is painted, for a control drawn into `area`.
pub open spec fn row_paint_of(m: TextListModel, index: Option<usize>, area: Rect, field_width: u16) -> (TextListColorRole, TextListColorRole, Seq<char>, Option<(u16, char)>) {
    let focused = row_is_focused(m, index);
    let roles = if focused {
        (TextListColorRole::Focused, TextListColorRole::Text)
    } else if m.focus == FocusState::Disabled {
        (TextListColorRole::Disabled, TextListColorRole::Disabled)
    } else {
        (TextListColorRole::Border, TextListColorRole::Text)
    };
    let t = row_text(m, index);
    let w = inner_width_of(area, field_width);
    let shown = padded(t.take(if w <= t.len() { w as int } else { t.len() as int }), w);
    let cursor = if focused && m.cursor <= w {
        Some(((area.x + 3 + m.cursor) as u16, if m.cursor < t.len() { t[m.cursor as int] } else { ' ' }))
    } else {
        None
    };
    (roles.0, roles.1, shown, cursor)
}

/// How the row with this index is painted: its colors, the visible part of
/// its text padded to the field, and where the cursor is drawn.
pub fn text_list_row_paint(state: &TextListState, index: Option<usize>, area: Rect, field_width: u16) -> (p: TextListRowPaint)
    requires
        area.width >= 10,
        row_is_focused(state@, index) && state.cursor <= inner_width_of(area, field_width) ==> area.x
            + 3 + state.cursor <= u16::MAX,
        index matches Some(i) ==> i < state.items@.len(),
    ensures
        (p.border, p.text, p.shown@, p.cursor) == row_paint_of(state@, index, area, field_width),
{
    let is_focused = state.focused_item == index && state.focus == FocusState::Focused;
    let (border, text) = if is_focused {
        (TextListColorRole::Focused, TextListColorRole::Text)
    } else if state.focus == FocusState::Disabled {
        (TextListColorRole::Disabled, TextListColorRole::Disabled)
    } else {
        (TextListColorRole::Border, TextListColorRole::Text)
    };
    let room: u16 = area.width - 7;
    let actual_field_width = if field_width < room {
        field_width
    } else {
        room
    };
    let inner_width: u16 = if actual_field_width >= 2 {
        actual_field_width - 2
    } else {
        0
    };
    let content: &String = match index {
        Some(i) => &state.items[i],
        None => &state.new_item_text,
    };
    assert(content@ == row_text(state@, index));
    let visible = take_chars(content.as_str(), inner_width as usize);
    let shown = pad_right(visible.as_str(), inner_width as usize);
    let cursor = if is_focused && state.cursor <= inner_width as usize {
        let cursor_x = area.x + 2 + 1 + state.cursor as u16;
        Some((cursor_x, char_at_or_space(content.as_str(), state.cursor)))
    } else {
        None
    };
    TextListRowPaint { border, text, shown, cursor }
}

/// Clicking the top left cell of a row's button hits that button, and
/// clicking the top left cell of its text field hits the field.
pub proof fn law_hit_test_finds_row(area: Rect, n_items: nat, field_width: u16, r: int)
    requires
        area.well_formed(),
        0 <= r < text_list_rows(area, n_items, field_width).len(),
    ensures
        ({
            let rows = text_list_rows(area, n_items, field_width);
            &&& hit_from(rows, rows[r].button_area.x as int, rows[r].button_area.y as int, 0)
                == Some(TextListHit::Button(rows[r].index))
            &&& hit_from(rows, rows[r].text_area.x as int, rows[r].text_area.y as int, 0)
                == Some(TextListHit::TextField(rows[r].index))
        }),
{
    let rows = text_list_rows(area, n_items, field_width);
    let fw = field_width_in(area, field_width);
    let k = shown_items(area, n_items);
    if area.height == 0 || area.width < 10 {
        assert(rows.len() == 0);
    }
    assert(area.height > 0 && area.width >= 10);
    assert(fw + 7 <= area.width);
    assert forall|i: int| 0 <= i < rows.len() implies #[trigger] rows[i] == row_at(area, field_width, i, if i < k { Some(i as usize) } else { None }) by {
    }
    assert forall|i: int| 0 <= i < rows.len() implies area.y + 1 + i < area.y + area.height
        && #[trigger] rows[i].index == (if i < k { Some(i as usize) } else { None }) by {
    }
    assert forall|i: int| 0 <= i < rows.len() implies (#[trigger] rows[i]).text_area.y == area.y
        + 1 + i && rows[i].text_area.height == 1 && rows[i].button_area.y == area.y + 1 + i
        && rows[i].text_area.x == area.x + 2 && rows[i].text_area.width == fw + 2
        && rows[i].button_area.x == area.x + fw + 5 && rows[i].button_area.width >= 1 by {
        let idx = if i < k { Some(i as usize) } else { None };
        assert(rows[i] == row_at(area, field_width, i, idx));
        assert(area.y + 1 + i < area.y + area.height);
        assert(rows[i].text_area == rect_new(area.x + 2, area.y + 1 + i, fw + 2, 1));
        assert(rows[i].button_area == rect_new(area.x + 2 + fw + 3, area.y + 1 + i, 3, 1));
        assert(clamp_extent((area.y + 1 + i) as u16, 1) == 1);
        assert(clamp_extent((area.x + 2) as u16, (fw + 2) as u16) == fw + 2);
        assert(clamp_extent((area.x + fw + 5) as u16, 3) >= 1);
    }
    lemma_hit_skips_from(rows, area, rows[r].button_area.x as int, area.y + 1 + r, r, 0);
    lemma_hit_skips_from(rows, area, rows[r].text_area.x as int, area.y + 1 + r, r, 0);
}

proof fn lemma_hit_skips_from(rows: Seq<TextListRowLayout>, area: Rect, x: int, y: int, r: int, i: int)
    requires
        0 <= i <= r < rows.len(),
        y == area.y + 1 + r,
        forall|j: int| 0 <= j < rows.len() ==> (#[trigger] rows[j]).text_area.y == area.y + 1 + j
            && rows[j].text_area.height == 1,
    ensures
        hit_from(rows, x, y, i) == hit_from(rows, x, y, r),
    decreases r - i,
{
    if i < r {
        assert(rows[i].text_area.y == area.y + 1 + i);
        lemma_hit_skips_from(rows, area, x, y, r, i + 1);
    }
}

/// The rows of a text list lie inside its area below the label, one per
/// line from the top, the items in order and the "add new" row last.
pub proof fn law_text_list_rows_in_order(area: Rect, n_items: nat, field_width: u16, r: int)
    requires
        area.well_formed(),
        0 <= r < text_list_rows(area, n_items, field_width).len(),
    ensures
        ({
            let rows = text_list_rows(area, n_items, field_width);
            &&& rows[r].text_area.y == area.y + 1 + r
            &&& rows[r].text_area.y < area.y + area.height
            &&& rows[r].text_area.x + rows[r].text_area.width <= area.x + area.width
            &&& rows[r].index == if r < n_items { Some(r as usize) } else { None::<usize> }
        }),
{
    let rows = text_list_rows(area, n_items, field_width);
    let k = shown_items(area, n_items);
    if area.height == 0 || area.width < 10 {
        assert(rows.len() == 0);
    }
    let fw = field_width_in(area, field_width);
    let idx = if r < k { Some(r as usize) } else { None };
    assert(rows[r] == row_at(area, field_width, r, idx));
    assert(area.y + 1 + r < area.y + area.height);
    assert(clamp_extent((area.x + 2) as u16, (fw + 2) as u16) == fw + 2);
    if r >= k {
        assert(r == k);
        assert(1 + k < area.height);
        assert(k == n_items);
    }
}

} // verus!

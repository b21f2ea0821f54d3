//! Map/Dictionary control for editing key-value pairs
//!
//! Renders as an expandable list of entries:
//! ```text
//! Languages:
//!   > rust
//!   > python
//!   v javascript (expanded)
//!       tab_size: 2
//!       auto_indent: [x]
//!   [+ Add entry...]
//! ```
use vstd::prelude::*;

use super::FocusState;
use crate::json::{copy_fields, fields_view, lemma_object_model, JsonModel, JsonValue};
use crate::layout::{rect_new, Rect};
use crate::text::{
    at_boundary, byte_len, char_at_or_space, char_count, char_index, chars_of, decimal,
    insert_char, insert_char_at, is_boundary, lemma_insert_then_remove_char, pad_right, padded,
    push_decimal, push_str, remove_char, remove_char_at, str_prefix, string_push, take_chars,
    text_byte_len,
};

verus! {

/// A map entry as the contracts see it: the key's characters and the value's model.
pub type EntryModel = (Seq<char>, JsonModel);

/// `a` sorts strictly before `b`: lexicographic order of the characters,
/// compared by code point (the order of `String`s, which compare their UTF-8
/// bytes).
pub open spec fn key_lt(a: Seq<char>, b: Seq<char>) -> bool
    decreases a.len(),
{
    if a.len() == 0 {
        b.len() > 0
    } else if b.len() == 0 {
        false
    } else if a[0] != b[0] {
        (a[0] as u32) < (b[0] as u32)
    } else {
        key_lt(a.drop_first(), b.drop_first())
    }
}

proof fn lemma_key_lt_skip(a: Seq<char>, b: Seq<char>, i: int)
    requires
        0 <= i <= a.len(),
        i <= b.len(),
        a.take(i) == b.take(i),
    ensures
        key_lt(a, b) == key_lt(a.skip(i), b.skip(i)),
    decreases i,
{
    if i > 0 {
        assert(a[0] == a.take(i)[0]);
        assert(b[0] == b.take(i)[0]);
        assert(a.drop_first().take(i - 1) =~= a.take(i).drop_first());
        assert(b.drop_first().take(i - 1) =~= b.take(i).drop_first());
        lemma_key_lt_skip(a.drop_first(), b.drop_first(), i - 1);
        assert(a.drop_first().skip(i - 1) =~= a.skip(i));
        assert(b.drop_first().skip(i - 1) =~= b.skip(i));
    } else {
        assert(a.skip(0) =~= a);
        assert(b.skip(0) =~= b);
    }
}

/// Whether key `a` sorts strictly before key `b`.
pub fn key_before(a: &String, b: &String) -> (lt: bool)
    ensures
        lt == key_lt(a@, b@),
{
    let x = chars_of(a.as_str());
    let y = chars_of(b.as_str());
    let mut i: usize = 0;
    while i < x.len() && i < y.len() && x[i] == y[i]
        invariant
            x@ == a@,
            y@ == b@,
            i <= x.len(),
            i <= y.len(),
            a@.take(i as int) == b@.take(i as int),
        decreases x.len() - i,
    {
        i = i + 1;
        assert(a@.take(i as int) =~= a@.take(i - 1).push(a@[i - 1]));
        assert(b@.take(i as int) =~= b@.take(i - 1).push(b@[i - 1]));
    }
    proof {
        lemma_key_lt_skip(a@, b@, i as int);
    }
    if i < x.len() && i < y.len() {
        assert(a@.skip(i as int)[0] == x@[i as int]);
        assert(b@.skip(i as int)[0] == y@[i as int]);
        (x[i] as u32) < (y[i] as u32)
    } else {
        i == x.len() && i < y.len()
    }
}

/// Position at which a key goes in `s`, scanning from `i`: before the first
/// entry whose key sorts after it, or at the end.
pub open spec fn insert_pos(s: Seq<EntryModel>, k: Seq<char>, i: int) -> int
    decreases s.len() - i,
{
    if i < 0 || i >= s.len() {
        s.len() as int
    } else if key_lt(k, s[i].0) {
        i
    } else {
        insert_pos(s, k, i + 1)
    }
}

/// `s` with `e` placed after every entry whose key does not sort after its key.
pub open spec fn sorted_insert(s: Seq<EntryModel>, e: EntryModel) -> Seq<EntryModel> {
    s.insert(insert_pos(s, e.0, 0), e)
}

/// The entries stably sorted by key: entries with equal keys keep their
/// order, as a stable sort by key leaves them.
pub open spec fn sort_by_key(s: Seq<EntryModel>) -> Seq<EntryModel>
    decreases s.len(),
{
    if s.len() == 0 {
        s
    } else {
        sorted_insert(sort_by_key(s.drop_last()), s.last())
    }
}

/// The contracts' view of a list of entries.
pub open spec fn entries_model(v: Seq<(String, JsonValue)>) -> Seq<EntryModel> {
    fields_view(v)
}

/// Sorts entries by key, keeping entries with equal keys in their order.
pub fn sort_entries(v: Vec<(String, JsonValue)>) -> (sorted: Vec<(String, JsonValue)>)
    ensures
        entries_model(sorted@) == sort_by_key(entries_model(v@)),
{
    let ghost orig = entries_model(v@);
    let mut rest = v;
    let mut out: Vec<(String, JsonValue)> = Vec::new();
    let ghost mut done: int = 0;
    while rest.len() > 0
        invariant
            0 <= done <= orig.len(),
            rest.len() == orig.len() - done,
            entries_model(rest@) == orig.skip(done),
            entries_model(out@) == sort_by_key(orig.take(done)),
        decreases rest.len(),
    {
        let ghost rest_before = entries_model(rest@);
        assert(rest_before[0] == orig[done]);
        let ghost rest_vec = rest@;
        let e = rest.remove(0);
        assert(rest@ =~= rest_vec.subrange(1, rest_vec.len() as int));
        assert(entries_model(rest@) =~= rest_before.subrange(1, rest_before.len() as int));
        let ghost em = (e.0@, e.1@);
        assert(em == orig[done]);
        let mut j: usize = 0;
        while j < out.len() && !key_before(&e.0, &out[j].0)
            invariant
                j <= out.len(),
                insert_pos(entries_model(out@), e.0@, 0) == insert_pos(entries_model(out@), e.0@, j as int),
            decreases out.len() - j,
        {
            j = j + 1;
        }
        assert(insert_pos(entries_model(out@), e.0@, 0) == j);
        let ghost before = entries_model(out@);
        out.insert(j, e);
        assert(entries_model(out@) =~= before.insert(j as int, em));
        proof {
            assert(orig.take(done + 1).drop_last() =~= orig.take(done));
            assert(orig.take(done + 1).last() == em);
            done = done + 1;
        }
        assert(entries_model(rest@) =~= orig.skip(done));
    }
    assert(orig.take(done) =~= orig);
    out
}

/// State for a map/dictionary control
#[derive(Debug, Clone)]
pub struct MapState {
    /// Map entries as (key, value) pairs where value is JSON
    pub entries: Vec<(String, JsonValue)>,
    /// Currently focused entry index (None = add-new field)
    pub focused_entry: Option<usize>,
    /// Text in the "add new" key field
    pub new_key_text: String,
    /// Cursor position (in characters) in the new key field
    pub cursor: usize,
    /// Label for this map
    pub label: String,
    /// Focus state
    pub focus: FocusState,
    /// Expanded entry indices (for viewing/editing nested values)
    pub expanded: Vec<usize>,
}

/// Abstract value of a [`MapState`].
#[verifier::ext_equal]
pub struct MapModel {
    pub entries: Seq<EntryModel>,
    pub focused_entry: Option<usize>,
    pub new_key: Seq<char>,
    pub cursor: nat,
    pub label: Seq<char>,
    pub focus: FocusState,
    pub expanded: Seq<usize>,
}

impl View for MapState {
    type V = MapModel;

    open spec fn view(&self) -> MapModel {
        MapModel {
            entries: entries_model(self.entries@),
            focused_entry: self.focused_entry,
            new_key: self.new_key_text@,
            cursor: self.cursor as nat,
            label: self.label@,
            focus: self.focus,
            expanded: self.expanded@,
        }
    }
}

/// Some entry has key `k`.
pub open spec fn has_key(entries: Seq<EntryModel>, k: Seq<char>) -> bool {
    exists|i: int| 0 <= i < entries.len() && (#[trigger] entries[i]).0 == k
}

/// The expanded indices after removing entry `index`: `index` itself is
/// dropped and the indices after it move down by one.
pub open spec fn expanded_after_remove(ex: Seq<usize>, index: usize) -> Seq<usize> {
    ex.filter(other_than(index)).map_values(shifted_past(index))
}

/// Indices other than `index`.
pub open spec fn other_than(index: usize) -> spec_fn(usize) -> bool {
    |i: usize| i != index
}

/// An index after `index` moved down by one; the others kept.
pub open spec fn shifted_past(index: usize) -> spec_fn(usize) -> usize {
    |i: usize| if i > index { (i - 1) as usize } else { i }
}

/// Position of the first occurrence of `v` in `s` at or after `k`.
pub open spec fn first_pos(s: Seq<usize>, v: usize, k: int) -> int
    decreases s.len() - k,
{
    if k < 0 || k >= s.len() {
        s.len() as int
    } else if s[k] == v {
        k
    } else {
        first_pos(s, v, k + 1)
    }
}

impl MapModel {
    pub open spec fn editable(self) -> bool {
        self.focus != FocusState::Disabled
    }

    /// What `add_entry(key, value)` leaves: a new key is added and the
    /// entries sorted by key; an empty or existing key changes nothing.
    pub open spec fn after_add_entry(self, key: Seq<char>, value: JsonModel) -> MapModel {
        if !self.editable() || key.len() == 0 || has_key(self.entries, key) {
            self
        } else {
            MapModel { entries: sort_by_key(self.entries.push((key, value))), ..self }
        }
    }

    /// What `add_entry_from_input` leaves: the typed key is taken out of the
    /// field and added with an empty object as its value.
    pub open spec fn after_add_from_input(self) -> MapModel {
        if self.new_key.len() == 0 {
            self
        } else {
            MapModel { new_key: Seq::empty(), cursor: 0, ..self }.after_add_entry(
                self.new_key,
                JsonModel::Object(Seq::empty()),
            )
        }
    }

    /// What `remove_entry(index)` leaves.
    pub open spec fn after_remove_entry(self, index: usize) -> MapModel {
        if !self.editable() || index >= self.entries.len() {
            self
        } else {
            let entries = self.entries.remove(index as int);
            let focused_entry = match self.focused_entry {
                Some(f) => if f >= entries.len() {
                    if entries.len() == 0 {
                        None
                    } else {
                        Some((entries.len() - 1) as usize)
                    }
                } else {
                    Some(f)
                },
                None => None,
            };
            MapModel {
                entries,
                focused_entry,
                expanded: expanded_after_remove(self.expanded, index),
                ..self
            }
        }
    }

    /// What `focus_entry(index)` leaves.
    pub open spec fn after_focus_entry(self, index: usize) -> MapModel {
        if index < self.entries.len() {
            MapModel { focused_entry: Some(index), ..self }
        } else {
            self
        }
    }

    /// What `focus_new_entry` leaves.
    pub open spec fn after_focus_new_entry(self) -> MapModel {
        MapModel { focused_entry: None, cursor: self.new_key.len(), ..self }
    }

    /// What `toggle_expand(index)` leaves.
    pub open spec fn after_toggle_expand(self, index: usize) -> MapModel {
        if index >= self.entries.len() {
            self
        } else if self.expanded.contains(index) {
            MapModel {
                expanded: self.expanded.remove(first_pos(self.expanded, index, 0)),
                ..self
            }
        } else {
            MapModel { expanded: self.expanded.push(index), ..self }
        }
    }

    /// Typing goes to the "add new" key field.
    pub open spec fn types_key(self) -> bool {
        self.editable() && self.focused_entry is None
    }

    /// `insert` does not panic.
    pub open spec fn can_insert(self) -> bool {
        self.types_key() ==> self.cursor <= self.new_key.len()
    }

    /// What `insert(c)` leaves.
    pub open spec fn after_insert(self, c: char) -> MapModel {
        if self.types_key() {
            MapModel {
                new_key: insert_char(self.new_key, self.cursor as int, c),
                cursor: self.cursor + 1,
                ..self
            }
        } else {
            self
        }
    }

    /// `backspace` deletes in the "add new" key field.
    pub open spec fn backspaces(self) -> bool {
        self.types_key() && self.cursor > 0
    }

    /// `backspace` does not panic.
    pub open spec fn can_backspace(self) -> bool {
        self.backspaces() ==> self.cursor <= self.new_key.len()
    }

    /// What `backspace` leaves.
    pub open spec fn after_backspace(self) -> MapModel {
        if self.backspaces() {
            MapModel {
                new_key: remove_char(self.new_key, self.cursor - 1),
                cursor: (self.cursor - 1) as nat,
                ..self
            }
        } else {
            self
        }
    }

    /// What `move_left` leaves.
    pub open spec fn after_move_left(self) -> MapModel {
        if self.cursor > 0 {
            MapModel { cursor: (self.cursor - 1) as nat, ..self }
        } else {
            self
        }
    }

    /// What `move_right` leaves.
    pub open spec fn after_move_right(self) -> MapModel {
        if self.cursor < self.new_key.len() {
            MapModel { cursor: self.cursor + 1, ..self }
        } else {
            self
        }
    }

    /// What `focus_prev` leaves.
    pub open spec fn after_focus_prev(self) -> MapModel {
        match self.focused_entry {
            Some(i) => if i == 0 {
                self
            } else {
                MapModel { focused_entry: Some((i - 1) as usize), ..self }
            },
            None => if self.entries.len() > 0 {
                MapModel { focused_entry: Some((self.entries.len() - 1) as usize), ..self }
            } else {
                self
            },
        }
    }

    /// `focus_next` does not panic.
    pub open spec fn can_focus_next(self) -> bool {
        match self.focused_entry {
            Some(i) => i < usize::MAX,
            None => true,
        }
    }

    /// What `focus_next` leaves.
    pub open spec fn after_focus_next(self) -> MapModel {
        match self.focused_entry {
            Some(i) => if i + 1 < self.entries.len() {
                MapModel { focused_entry: Some((i + 1) as usize), ..self }
            } else {
                MapModel { focused_entry: None, cursor: self.new_key.len(), ..self }
            },
            None => self,
        }
    }
}

impl MapState {
    /// Create a new map state
    pub fn new(label: &str) -> (s: Self)
        ensures
            s@ == (MapModel {
                entries: Seq::empty(),
                focused_entry: None,
                new_key: Seq::empty(),
                cursor: 0,
                label: label@,
                focus: FocusState::Normal,
                expanded: Seq::empty(),
            }),
    {
        let s = Self {
            entries: Vec::new(),
            focused_entry: None,
            new_key_text: String::new(),
            cursor: 0,
            label: label.to_owned(),
            focus: FocusState::Normal,
            expanded: Vec::new(),
        };
        assert(s@.entries =~= Seq::<EntryModel>::empty());
        s
    }

    /// Set the entries from a JSON object: its fields, sorted by key.
    /// Anything but an object leaves the entries as they are.
    pub fn with_entries(self, value: &JsonValue) -> (s: Self)
        ensures
            s@ == (match value@ {
                JsonModel::Object(fields) => MapModel { entries: sort_by_key(fields), ..self@ },
                _ => self@,
            }),
    {
        let mut s = self;
        match value {
            JsonValue::Object(fields) => {
                proof {
                    lemma_object_model(*fields);
                }
                let copy = copy_fields(fields);
                s.entries = sort_entries(copy);
            },
            _ => {},
        }
        s
    }

    /// Set the focus state
    pub fn with_focus(self, focus: FocusState) -> (s: Self)
        ensures
            s@ == (MapModel { focus, ..self@ }),
    {
        let mut s = self;
        s.focus = focus;
        s
    }

    /// Add a new entry with the given key and default value
    pub fn add_entry(&mut self, key: String, value: JsonValue)
        ensures
            final(self)@ == old(self)@.after_add_entry(key@, value@),
    {
        if self.focus == FocusState::Disabled || key.as_str().is_empty() {
            return;
        }
        // Check for duplicate key
        let mut i: usize = 0;
        while i < self.entries.len()
            invariant
                i <= self.entries.len(),
                self@ == old(self)@,
                forall|j: int| 0 <= j < i ==> (#[trigger] self@.entries[j]).0 != key@,
            decreases self.entries.len() - i,
        {
            if self.entries[i].0 == key {
                assert(self@.entries[i as int].0 == key@);
                return;
            }
            i = i + 1;
        }
        assert(!has_key(old(self)@.entries, key@));
        let mut v: Vec<(String, JsonValue)> = Vec::new();
        core::mem::swap(&mut v, &mut self.entries);
        let ghost k = key@;
        let ghost m = value@;
        v.push((key, value));
        assert(entries_model(v@) =~= old(self)@.entries.push((k, m)));
        self.entries = sort_entries(v);
        assert(self@ =~= old(self)@.after_add_entry(k, m));
    }

    /// Add entry from the new_key_text field with an empty object as value
    pub fn add_entry_from_input(&mut self)
        ensures
            final(self)@ == old(self)@.after_add_from_input(),
    {
        if self.new_key_text.as_str().is_empty() {
            return;
        }
        let mut key = String::new();
        core::mem::swap(&mut key, &mut self.new_key_text);
        self.cursor = 0;
        let value = JsonValue::Object(Vec::new());
        assert(value@ == JsonModel::Object(Seq::empty()));
        self.add_entry(key, value);
        assert(final(self)@ =~= old(self)@.after_add_from_input());
    }

    /// Remove an entry by index
    pub fn remove_entry(&mut self, index: usize)
        ensures
            final(self)@ == old(self)@.after_remove_entry(index),
    {
        if self.focus == FocusState::Disabled || index >= self.entries.len() {
            return;
        }
        self.entries.remove(index);
        assert(self@.entries =~= old(self)@.entries.remove(index as int));
        // Adjust focused_entry if needed
        if let Some(focused) = self.focused_entry {
            if focused >= self.entries.len() {
                self.focused_entry = if self.entries.len() == 0 {
                    None
                } else {
                    Some(self.entries.len() - 1)
                };
            }
        }
        // Remove from expanded list
        let ghost ex = self.expanded@;
        let mut kept: Vec<usize> = Vec::new();
        let mut i: usize = 0;
        while i < self.expanded.len()
            invariant
                ex == self.expanded@,
                i <= ex.len(),
                kept@ == ex.take(i as int).filter(other_than(index)),
            decreases ex.len() - i,
        {
            let v = self.expanded[i];
            proof {
                assert(ex.take(i + 1).drop_last() =~= ex.take(i as int));
                reveal_with_fuel(Seq::filter, 1);
            }
            if v != index {
                kept.push(v);
            }
            i = i + 1;
        }
        assert(ex.take(ex.len() as int) =~= ex);
        // Adjust expanded indices
        let mut shifted: Vec<usize> = Vec::new();
        let mut j: usize = 0;
        while j < kept.len()
            invariant
                j <= kept.len(),
                shifted@ =~= kept@.take(j as int).map_values(shifted_past(index)),
            decreases kept.len() - j,
        {
            let v = kept[j];
            if v > index {
                shifted.push(v - 1);
            } else {
                shifted.push(v);
            }
            j = j + 1;
        }
        assert(kept@.take(kept.len() as int) =~= kept@);
        assert(ex == old(self)@.expanded);
        assert(shifted@ =~= expanded_after_remove(ex, index));
        self.expanded = shifted;
        assert(self@.expanded == old(self)@.after_remove_entry(index).expanded);
        assert(self@.focused_entry == old(self)@.after_remove_entry(index).focused_entry);
        assert(self@ =~= old(self)@.after_remove_entry(index));
    }

    /// Focus on an entry
    pub fn focus_entry(&mut self, index: usize)
        ensures
            final(self)@ == old(self)@.after_focus_entry(index),
    {
        if index < self.entries.len() {
            self.focused_entry = Some(index);
        }
        assert(self@ =~= old(self)@.after_focus_entry(index));
    }

    /// Focus on the new entry field
    pub fn focus_new_entry(&mut self)
        ensures
            final(self)@ == old(self)@.after_focus_new_entry(),
    {
        self.focused_entry = None;
        self.cursor = char_count(self.new_key_text.as_str());
        assert(self@ =~= old(self)@.after_focus_new_entry());
    }

    /// Toggle expansion of an entry
    pub fn toggle_expand(&mut self, index: usize)
        ensures
            final(self)@ == old(self)@.after_toggle_expand(index),
    {
        if index >= self.entries.len() {
            return;
        }
        let mut p: usize = 0;
        while p < self.expanded.len() && self.expanded[p] != index
            invariant
                p <= self.expanded.len(),
                self@ == old(self)@,
                first_pos(self.expanded@, index, 0) == first_pos(self.expanded@, index, p as int),
                forall|q: int| 0 <= q < p ==> self.expanded@[q] != index,
            decreases self.expanded.len() - p,
        {
            p = p + 1;
        }
        if p < self.expanded.len() {
            assert(self.expanded@.contains(index));
            self.expanded.remove(p);
        } else {
            assert(!self.expanded@.contains(index));
            self.expanded.push(index);
        }
        assert(self@ =~= old(self)@.after_toggle_expand(index));
    }

    /// Check if an entry is expanded
    pub fn is_expanded(&self, index: usize) -> (b: bool)
        ensures
            b == self@.expanded.contains(index),
    {
        let mut p: usize = 0;
        while p < self.expanded.len()
            invariant
                p <= self.expanded.len(),
                forall|q: int| 0 <= q < p ==> self.expanded@[q] != index,
            decreases self.expanded.len() - p,
        {
            if self.expanded[p] == index {
                return true;
            }
            p = p + 1;
        }
        false
    }

    /// Insert a character in the new key field
    pub fn insert(&mut self, c: char)
        requires
            old(self)@.can_insert(),
        ensures
            final(self)@ == old(self)@.after_insert(c),
    {
        if self.focus == FocusState::Disabled || self.focused_entry.is_some() {
            return;
        }
        insert_char_at(&mut self.new_key_text, self.cursor, c);
        let n = char_count(self.new_key_text.as_str());
        assert(n == old(self)@.new_key.len() + 1);
        self.cursor = self.cursor + 1;
        assert(self@ =~= old(self)@.after_insert(c));
    }

    /// Backspace in the new key field
    pub fn backspace(&mut self)
        requires
            old(self)@.can_backspace(),
        ensures
            final(self)@ == old(self)@.after_backspace(),
    {
        if self.focus == FocusState::Disabled || self.focused_entry.is_some() || self.cursor == 0 {
            return;
        }
        self.cursor = self.cursor - 1;
        remove_char_at(&mut self.new_key_text, self.cursor);
        assert(self@ =~= old(self)@.after_backspace());
    }

    /// Move cursor left
    pub fn move_left(&mut self)
        ensures
            final(self)@ == old(self)@.after_move_left(),
    {
        if self.cursor > 0 {
            self.cursor = self.cursor - 1;
        }
        assert(self@ =~= old(self)@.after_move_left());
    }

    /// Move cursor right
    pub fn move_right(&mut self)
        ensures
            final(self)@ == old(self)@.after_move_right(),
    {
        if self.cursor < char_count(self.new_key_text.as_str()) {
            self.cursor = self.cursor + 1;
        }
        assert(self@ =~= old(self)@.after_move_right());
    }

    /// Move focus to previous entry
    pub fn focus_prev(&mut self)
        ensures
            final(self)@ == old(self)@.after_focus_prev(),
    {
        match self.focused_entry {
            Some(idx) => {
                if idx > 0 {
                    self.focused_entry = Some(idx - 1);
                }
            },
            None => {
                if self.entries.len() > 0 {
                    self.focused_entry = Some(self.entries.len() - 1);
                }
            },
        }
        assert(self@ =~= old(self)@.after_focus_prev());
    }

    /// Move focus to next entry
    pub fn focus_next(&mut self)
        requires
            old(self)@.can_focus_next(),
        ensures
            final(self)@ == old(self)@.after_focus_next(),
    {
        match self.focused_entry {
            Some(idx) => {
                if idx + 1 < self.entries.len() {
                    self.focused_entry = Some(idx + 1);
                } else {
                    self.focused_entry = None;
                    self.cursor = char_count(self.new_key_text.as_str());
                }
            },
            None => {},
        }
        assert(self@ =~= old(self)@.after_focus_next());
    }

    /// Get the number of entries
    pub fn len(&self) -> (n: usize)
        ensures
            n == self@.entries.len(),
    {
        self.entries.len()
    }

    /// Check if the map is empty
    pub fn is_empty(&self) -> (b: bool)
        ensures
            b == (self@.entries.len() == 0),
    {
        self.entries.len() == 0
    }

    /// Convert entries to a JSON object
    pub fn to_value(&self) -> (value: JsonValue)
        ensures
            value@ == JsonModel::Object(self@.entries),
    {
        let copy = copy_fields(&self.entries);
        proof {
            lemma_object_model(copy);
        }
        JsonValue::Object(copy)
    }
}

/// No key sorts before an earlier one.
pub open spec fn keys_sorted(s: Seq<EntryModel>) -> bool {
    forall|i: int, j: int| 0 <= i < j < s.len() ==> !key_lt(#[trigger] s[j].0, #[trigger] s[i].0)
}

/// No two entries share a key.
pub open spec fn keys_unique(s: Seq<EntryModel>) -> bool {
    forall|i: int, j: int| 0 <= i < s.len() && 0 <= j < s.len() && i != j ==> #[trigger] s[i].0
        != #[trigger] s[j].0
}

proof fn lemma_key_lt_irreflexive(a: Seq<char>)
    ensures
        !key_lt(a, a),
    decreases a.len(),
{
    if a.len() > 0 {
        lemma_key_lt_irreflexive(a.drop_first());
    }
}

proof fn lemma_key_lt_total(a: Seq<char>, b: Seq<char>)
    ensures
        key_lt(a, b) || key_lt(b, a) || a == b,
        !(key_lt(a, b) && key_lt(b, a)),
    decreases a.len(),
{
    if a.len() > 0 && b.len() > 0 {
        if a[0] == b[0] {
            lemma_key_lt_total(a.drop_first(), b.drop_first());
            if a.drop_first() == b.drop_first() {
                assert(a =~= seq![a[0]] + a.drop_first());
                assert(b =~= seq![b[0]] + b.drop_first());
            }
        } else {
            assert((a[0] as u32) != (b[0] as u32)) by {
                vstd::utf8::char_u32_cast(a[0], a[0] as u32);
                vstd::utf8::char_u32_cast(b[0], b[0] as u32);
            }
        }
    } else if a.len() == 0 && b.len() == 0 {
        assert(a =~= b);
    }
}

proof fn lemma_key_lt_transitive(a: Seq<char>, b: Seq<char>, c: Seq<char>)
    requires
        key_lt(a, b),
        key_lt(b, c),
    ensures
        key_lt(a, c),
    decreases a.len(),
{
    if a.len() > 0 && b.len() > 0 && c.len() > 0 && a[0] == b[0] && b[0] == c[0] {
        lemma_key_lt_transitive(a.drop_first(), b.drop_first(), c.drop_first());
    }
}

proof fn lemma_insert_pos(s: Seq<EntryModel>, k: Seq<char>, start: int)
    requires
        0 <= start <= s.len(),
    ensures
        start <= insert_pos(s, k, start) <= s.len(),
        forall|i: int| start <= i < insert_pos(s, k, start) ==> !key_lt(k, #[trigger] s[i].0),
        insert_pos(s, k, start) < s.len() ==> key_lt(k, s[insert_pos(s, k, start)].0),
    decreases s.len() - start,
{
    if start < s.len() && !key_lt(k, s[start].0) {
        lemma_insert_pos(s, k, start + 1);
    }
}

proof fn lemma_sorted_insert_sorted(s: Seq<EntryModel>, e: EntryModel)
    requires
        keys_sorted(s),
    ensures
        keys_sorted(sorted_insert(s, e)),
        sorted_insert(s, e).len() == s.len() + 1,
{
    lemma_insert_pos(s, e.0, 0);
    let p = insert_pos(s, e.0, 0);
    let t = sorted_insert(s, e);
    assert forall|i: int, j: int| 0 <= i < j < t.len() implies !key_lt(#[trigger] t[j].0, #[trigger] t[i].0) by {
        if j == p {
            // t[i] == s[i] with i < p
            assert(t[i] == s[i]);
            lemma_key_lt_total(e.0, s[i].0);
        } else if i == p {
            // t[j] == s[j - 1] with j - 1 >= p
            assert(t[j] == s[j - 1]);
            assert(key_lt(e.0, s[p].0));
            if j - 1 > p {
                assert(!key_lt(s[j - 1].0, s[p].0));
                lemma_key_lt_total(s[j - 1].0, s[p].0);
                if key_lt(s[p].0, s[j - 1].0) {
                    lemma_key_lt_transitive(e.0, s[p].0, s[j - 1].0);
                }
            }
            lemma_key_lt_total(e.0, s[j - 1].0);
        } else {
            let si = if i < p { i } else { i - 1 };
            let sj = if j < p { j } else { j - 1 };
            assert(t[i] == s[si]);
            assert(t[j] == s[sj]);
            if si == sj {
                lemma_key_lt_irreflexive(s[si].0);
            }
        }
    }
}

/// Stable sorting by key leaves the keys in order.
pub proof fn law_sort_by_key_sorts(s: Seq<EntryModel>)
    ensures
        keys_sorted(sort_by_key(s)),
        sort_by_key(s).len() == s.len(),
    decreases s.len(),
{
    if s.len() > 0 {
        law_sort_by_key_sorts(s.drop_last());
        lemma_sorted_insert_sorted(sort_by_key(s.drop_last()), s.last());
    }
}

/// Sorting entries whose keys are already in order changes nothing.
pub proof fn law_sort_by_key_keeps_sorted(s: Seq<EntryModel>)
    requires
        keys_sorted(s),
    ensures
        sort_by_key(s) == s,
    decreases s.len(),
{
    if s.len() > 0 {
        let d = s.drop_last();
        assert(keys_sorted(d));
        law_sort_by_key_keeps_sorted(d);
        lemma_insert_pos(d, s.last().0, 0);
        let p = insert_pos(d, s.last().0, 0);
        if p < d.len() {
            assert(!key_lt(s[s.len() - 1].0, s[p].0));
        }
        assert(d.insert(d.len() as int, s.last()) =~= s);
    }
}

/// Adding an entry to a map whose keys are in order and distinct keeps them
/// in order and distinct, and the new key is then present.
pub proof fn law_add_entry_keeps_keys_sorted_and_unique(m: MapModel, key: Seq<char>, value: JsonModel)
    requires
        keys_sorted(m.entries),
        keys_unique(m.entries),
    ensures
        keys_sorted(m.after_add_entry(key, value).entries),
        keys_unique(m.after_add_entry(key, value).entries),
        m.editable() && key.len() > 0 ==> has_key(m.after_add_entry(key, value).entries, key),
{
    if m.editable() && key.len() > 0 && !has_key(m.entries, key) {
        let s = m.entries;
        assert(s.push((key, value)).drop_last() =~= s);
        law_sort_by_key_keeps_sorted(s);
        lemma_sorted_insert_sorted(s, (key, value));
        lemma_insert_pos(s, key, 0);
        let p = insert_pos(s, key, 0);
        let t = sorted_insert(s, (key, value));
        assert(t == sort_by_key(s.push((key, value))));
        assert forall|i: int, j: int| 0 <= i < t.len() && 0 <= j < t.len() && i != j implies #[trigger] t[i].0 != #[trigger] t[j].0 by {
            let si = if i < p { i } else { i - 1 };
            let sj = if j < p { j } else { j - 1 };
            if i == p {
                assert(t[j] == s[sj]);
            } else if j == p {
                assert(t[i] == s[si]);
            } else {
                assert(t[i] == s[si]);
                assert(t[j] == s[sj]);
            }
        }
        assert(t[p].0 == key);
    } else if m.editable() && key.len() > 0 {
    }
}

/// Sorting by key keeps exactly the same entries: the result is a
/// permutation of the input.
pub proof fn law_sort_by_key_permutes(s: Seq<EntryModel>)
    ensures
        sort_by_key(s).to_multiset() == s.to_multiset(),
    decreases s.len(),
{
    broadcast use vstd::seq_lib::group_to_multiset_ensures;

    if s.len() > 0 {
        let d = s.drop_last();
        law_sort_by_key_permutes(d);
        law_sort_by_key_sorts(d);
        let t = sort_by_key(d);
        lemma_insert_pos(t, s.last().0, 0);
        let p = insert_pos(t, s.last().0, 0);
        vstd::seq_lib::to_multiset_insert(t, p, s.last());
        assert(d.push(s.last()) =~= s);
    }
}

/// Adding an entry keeps the old entries and adds exactly the new pair: the
/// entries afterwards are a permutation of the old ones with `(key, value)`
/// added, or the old ones when the key is empty, already present, or the
/// control is disabled.
pub proof fn law_add_entry_adds_the_pair(m: MapModel, key: Seq<char>, value: JsonModel)
    ensures
        m.after_add_entry(key, value).entries.to_multiset() == if m.editable() && key.len() > 0
            && !has_key(m.entries, key) {
            m.entries.to_multiset().insert((key, value))
        } else {
            m.entries.to_multiset()
        },
{
    broadcast use vstd::seq_lib::group_to_multiset_ensures;

    if m.editable() && key.len() > 0 && !has_key(m.entries, key) {
        law_sort_by_key_permutes(m.entries.push((key, value)));
    }
}

/// Removing an entry keeps the expansion marks with their entries: an entry
/// before the removed one stays expanded or collapsed as it was, and an
/// entry after it (now one place earlier) too.
pub proof fn law_remove_entry_keeps_expansion(m: MapModel, index: usize, j: usize)
    requires
        m.editable(),
        index < m.entries.len(),
        j < m.entries.len() - 1,
        m.entries.len() <= usize::MAX,
        expansion_valid(m.expanded, m.entries.len()),
    ensures
        m.after_remove_entry(index).expanded.contains(j) == m.expanded.contains(
            if j < index { j } else { (j + 1) as usize },
        ),
{
    let ex = m.expanded;
    let kept = ex.filter(other_than(index));
    let out = kept.map_values(shifted_past(index));
    let jo: usize = if j < index { j } else { (j + 1) as usize };
    assert(m.after_remove_entry(index).expanded == out);
    if ex.contains(jo) {
        let q = choose|q: int| 0 <= q < ex.len() && ex[q] == jo;
        assert(other_than(index)(ex[q]));
        ex.lemma_filter_contains(other_than(index), q);
        let a = choose|a: int| 0 <= a < kept.len() && kept[a] == jo;
        assert(out[a] == shifted_past(index)(kept[a]));
        assert(out[a] == j);
    }
    if out.contains(j) {
        let a = choose|a: int| 0 <= a < out.len() && out[a] == j;
        assert(out[a] == shifted_past(index)(kept[a]));
        ex.lemma_filter_pred(other_than(index), a);
        assert(kept.contains(kept[a]));
        ex.lemma_filter_contains_rev(other_than(index), kept[a]);
        assert(kept[a] == jo);
    }
}

/// Indices in `ex` name entries and none is listed twice.
pub open spec fn expansion_valid(ex: Seq<usize>, n: nat) -> bool {
    &&& forall|i: int| 0 <= i < ex.len() ==> #[trigger] ex[i] < n
    &&& forall|i: int, j: int| 0 <= i < j < ex.len() ==> #[trigger] ex[i] != #[trigger] ex[j]
}

proof fn lemma_first_pos(s: Seq<usize>, v: usize, k: int)
    requires
        0 <= k <= s.len(),
    ensures
        k <= first_pos(s, v, k) <= s.len(),
        first_pos(s, v, k) < s.len() ==> s[first_pos(s, v, k)] == v,
        forall|q: int| k <= q < first_pos(s, v, k) ==> s[q] != v,
    decreases s.len() - k,
{
    if k < s.len() && s[k] != v {
        lemma_first_pos(s, v, k + 1);
    }
}

/// Toggling the expansion of an entry twice leaves every entry expanded or
/// collapsed as before.
pub proof fn law_toggle_expand_twice(m: MapModel, index: usize, j: usize)
    requires
        expansion_valid(m.expanded, m.entries.len()),
    ensures
        m.after_toggle_expand(index).after_toggle_expand(index).expanded.contains(j)
            == m.expanded.contains(j),
        expansion_valid(m.after_toggle_expand(index).expanded, m.entries.len()),
{
    let ex = m.expanded;
    if index < m.entries.len() {
        if ex.contains(index) {
            lemma_first_pos(ex, index, 0);
            let p = first_pos(ex, index, 0);
            let r = ex.remove(p);
            assert(!r.contains(index)) by {
                if r.contains(index) {
                    let q = choose|q: int| 0 <= q < r.len() && r[q] == index;
                    if q < p {
                        assert(ex[q] == index);
                    } else {
                        assert(ex[q + 1] == index);
                    }
                }
            }
            let t = r.push(index);
            assert(m.after_toggle_expand(index).expanded == r);
            assert(m.after_toggle_expand(index).after_toggle_expand(index).expanded == t);
            if ex.contains(j) {
                let q = choose|q: int| 0 <= q < ex.len() && ex[q] == j;
                if j == index {
                    assert(t[r.len() as int] == j);
                } else if q < p {
                    assert(t[q] == j);
                } else {
                    assert(q != p);
                    assert(t[q - 1] == j);
                }
            }
            if t.contains(j) {
                let q = choose|q: int| 0 <= q < t.len() && t[q] == j;
                if q == r.len() {
                    assert(ex[p] == j);
                } else if q < p {
                    assert(ex[q] == j);
                } else {
                    assert(ex[q + 1] == j);
                }
            }
            assert forall|a: int, b: int| 0 <= a < b < r.len() implies #[trigger] r[a] != #[trigger] r[b] by {
                let ea = if a < p { a } else { a + 1 };
                let eb = if b < p { b } else { b + 1 };
                assert(r[a] == ex[ea]);
                assert(r[b] == ex[eb]);
            }
            assert forall|a: int| 0 <= a < r.len() implies #[trigger] r[a] < m.entries.len() by {
                let ea = if a < p { a } else { a + 1 };
                assert(r[a] == ex[ea]);
            }
        } else {
            let t = ex.push(index);
            assert(m.after_toggle_expand(index).expanded == t);
            assert(t[ex.len() as int] == index);
            assert(t.contains(index));
            lemma_first_pos(t, index, 0);
            let p = first_pos(t, index, 0);
            assert(p == ex.len()) by {
                if p < ex.len() {
                    assert(ex[p] == index);
                }
            }
            assert(t.remove(p) =~= ex);
            assert forall|a: int, b: int| 0 <= a < b < t.len() implies #[trigger] t[a] != #[trigger] t[b] by {
                if b == ex.len() {
                    assert(t[a] == ex[a]);
                }
            }
        }
    }
}

/// Removing an entry keeps the expanded indices naming entries, each once,
/// and keeps a focused index in range.
pub proof fn law_remove_entry_keeps_indices_valid(m: MapModel, index: usize)
    requires
        expansion_valid(m.expanded, m.entries.len()),
        m.entries.len() <= usize::MAX,
        m.focused_entry matches Some(f) ==> f < m.entries.len(),
    ensures
        expansion_valid(m.after_remove_entry(index).expanded, m.after_remove_entry(index).entries.len()),
        m.after_remove_entry(index).focused_entry matches Some(f) ==> f < m.after_remove_entry(index).entries.len(),
{
    if m.editable() && index < m.entries.len() {
        let ex = m.expanded;
        let n = m.entries.len();
        let kept = ex.filter(other_than(index));
        let out = kept.map_values(shifted_past(index));
        assert forall|a: int| 0 <= a < kept.len() implies #[trigger] kept[a] != index && kept[a] < n by {
            ex.lemma_filter_pred(other_than(index), a);
            assert(kept.contains(kept[a]));
            ex.lemma_filter_contains_rev(other_than(index), kept[a]);
        }
        assert forall|a: int| 0 <= a < out.len() implies #[trigger] out[a] < n - 1 by {
            assert(out[a] == shifted_past(index)(kept[a]));
        }
        lemma_filter_distinct(ex, index);
        assert forall|a: int, b: int| 0 <= a < b < out.len() implies #[trigger] out[a] != #[trigger] out[b] by {
            assert(kept[a] != kept[b]);
            assert(out[a] == shifted_past(index)(kept[a]));
            assert(out[b] == shifted_past(index)(kept[b]));
        }
    }
}

proof fn lemma_filter_distinct(ex: Seq<usize>, index: usize)
    requires
        forall|i: int, j: int| 0 <= i < j < ex.len() ==> #[trigger] ex[i] != #[trigger] ex[j],
    ensures
        forall|i: int, j: int| 0 <= i < j < ex.filter(other_than(index)).len() ==> #[trigger] ex.filter(other_than(index))[i] != #[trigger] ex.filter(other_than(index))[j],
    decreases ex.len(),
{
    reveal_with_fuel(Seq::filter, 1);
    if ex.len() > 0 {
        let d = ex.drop_last();
        assert forall|i: int, j: int| 0 <= i < j < d.len() implies #[trigger] d[i] != #[trigger] d[j] by {
            assert(d[i] == ex[i] && d[j] == ex[j]);
        }
        lemma_filter_distinct(d, index);
        let fd = d.filter(other_than(index));
        let last = ex.last();
        if other_than(index)(last) {
            assert(ex.filter(other_than(index)) == fd.push(last));
            assert forall|i: int| 0 <= i < fd.len() implies #[trigger] fd[i] != last by {
                assert(fd.contains(fd[i]));
                d.lemma_filter_contains_rev(other_than(index), fd[i]);
                let q = choose|q: int| 0 <= q < d.len() && d[q] == fd[i];
                assert(ex[q] == d[q]);
                assert(ex[ex.len() - 1] == last);
            }
        }
    }
}

/// Moving the focus to the "add new" key field puts the cursor at the end
/// of the typed key.
pub proof fn law_map_focus_new_entry_cursor_at_end(m: MapModel)
    ensures
        m.after_focus_new_entry().focused_entry is None,
        m.after_focus_new_entry().cursor == m.new_key.len(),
        m.focused_entry is Some && m.after_focus_next().focused_entry is None ==> m.after_focus_next().cursor
            == m.new_key.len(),
{
}

/// Typing a character into the "add new" key field and then deleting it
/// with backspace gives back the same key text and cursor.
pub proof fn law_map_insert_then_backspace(m: MapModel, c: char)
    requires
        m.types_key(),
        m.can_insert(),
    ensures
        m.after_insert(c).can_backspace(),
        m.after_insert(c).after_backspace() == m,
{
    lemma_insert_then_remove_char(m.new_key, m.cursor as int, c);
    assert(m.after_insert(c).after_backspace() =~= m);
}

/// Layout information for hit testing
#[derive(Debug, Clone)]
pub struct MapLayout {
    pub full_area: Rect,
    pub entry_areas: Vec<MapEntryLayout>,
    pub add_row_area: Option<Rect>,
}

/// Hit areas of one entry row
#[derive(Debug, Clone, Copy, PartialEq, Eq, Structural)]
pub struct MapEntryLayout {
    pub index: usize,
    pub row_area: Rect,
    pub expand_area: Rect,
    pub key_area: Rect,
    pub remove_area: Rect,
}

/// Width of the key column: the requested width, but no more than the area
/// leaves after the indent and the arrow.
pub open spec fn key_width_in(area: Rect, key_width: u16) -> u16 {
    let room: u16 = if area.width >= 10 { (area.width - 10) as u16 } else { 0 };
    if key_width < room { key_width } else { room }
}

/// The areas of entry `index` drawn on screen row `y`.
pub open spec fn entry_at(area: Rect, kw: u16, index: int, y: int) -> MapEntryLayout {
    MapEntryLayout {
        index: index as usize,
        row_area: rect_new(area.x as int, y, area.width as int, 1),
        expand_area: rect_new(area.x + 2, y, 1, 1),
        key_area: rect_new(area.x + 4, y, kw as int, 1),
        remove_area: rect_new(area.x + 4 + kw + 22, y, 3, 1),
    }
}

/// The row after the nested lines of an expanded object with `n` fields
/// that start at row `y`: up to five fields, then a "more" line when fields
/// were left out, as far as the area reaches.
pub open spec fn after_nested(area: Rect, y: int, n: nat) -> int {
    let bottom = area.y + area.height;
    let shown = if n < 5 { n as int } else { 5 };
    let room = if bottom - y > 0 { bottom - y } else { 0 };
    let y1 = y + if shown < room { shown } else { room };
    if n > 5 && y1 < bottom { y1 + 1 } else { y1 }
}

/// The lines a layout keeps under an expanded object entry are the nested
/// lines drawn for it: when they fit, one line for each field shown and one
/// for the "... and N more" line when there is one.
pub proof fn law_nested_rows_match_nested_lines(
    area: Rect,
    y: int,
    shown: Seq<(String, Option<String>)>,
    more: Option<String>,
    fields: Seq<EntryModel>,
)
    requires
        nested_lines_for(shown, more, fields),
        area.y <= y,
        y + 6 <= area.y + area.height,
    ensures
        after_nested(area, y, fields.len()) == y + shown.len() + if more is Some {
            1int
        } else {
            0int
        },
{
}

/// The entry rows from entry `i` on, when entry `i` would start at row `y`,
/// and the row after them. `nested[i]` is the number of fields of entry
/// `i`'s value when it is an object.
pub open spec fn entry_rows_from(
    area: Rect,
    kw: u16,
    expanded: Seq<usize>,
    nested: Seq<Option<usize>>,
    i: nat,
    y: int,
) -> (Seq<MapEntryLayout>, int)
    decreases nested.len() - i,
{
    if i >= nested.len() || y >= area.y + area.height {
        (Seq::empty(), y)
    } else {
        let y1 = y + 1;
        let y2 = if expanded.contains(i as usize) && y1 < area.y + area.height {
            match nested[i as int] {
                Some(n) => after_nested(area, y1, n as nat),
                None => y1,
            }
        } else {
            y1
        };
        let rest = entry_rows_from(area, kw, expanded, nested, i + 1, y2);
        (seq![entry_at(area, kw, i as int, y)] + rest.0, rest.1)
    }
}

/// The layout of a map control drawn into `area`: a row per entry that fits
/// below the label (followed by its nested lines when expanded), then the
/// "add entry" row if a line is left.
pub open spec fn map_layout_of(area: Rect, m: MapModel, key_width: u16, nested: Seq<Option<usize>>) -> (Seq<MapEntryLayout>, Option<Rect>) {
    if area.height == 0 || area.width < 15 {
        (Seq::empty(), None)
    } else {
        let rows = entry_rows_from(area, key_width_in(area, key_width), m.expanded, nested, 0, area.y + 1);
        (
            rows.0,
            if rows.1 < area.y + area.height {
                Some(rect_new(area.x as int, rows.1, area.width as int, 1))
            } else {
                None
            },
        )
    }
}

/// A map is drawn into `area` only when it has a row and fifteen columns.
pub fn map_fits(area: Rect) -> (b: bool)
    ensures
        b == !(area.height == 0 || area.width < 15),
{
    !(area.height == 0 || area.width < 15)
}

/// Width of the key column for a map drawn into `area`.
pub fn map_key_width(area: Rect, key_width: u16) -> (w: u16)
    ensures
        w == key_width_in(area, key_width),
{
    let room: u16 = if area.width >= 10 {
        area.width - 10
    } else {
        0
    };
    if key_width < room {
        key_width
    } else {
        room
    }
}

/// The number of fields of a value that is an object (`None` for other values).
pub open spec fn object_size(v: JsonModel) -> Option<usize> {
    match v {
        JsonModel::Object(fields) => Some(fields.len() as usize),
        _ => None,
    }
}

/// The number of fields of each entry's value, for those that are objects.
pub open spec fn nested_counts(entries: Seq<EntryModel>) -> Seq<Option<usize>> {
    entries.map_values(|e: EntryModel| object_size(e.1))
}

/// The number of fields of each entry's value, for those that are objects.
pub fn nested_field_counts(state: &MapState) -> (counts: Vec<Option<usize>>)
    ensures
        counts@ == nested_counts(state@.entries),
{
    let mut counts: Vec<Option<usize>> = Vec::new();
    let mut i: usize = 0;
    while i < state.entries.len()
        invariant
            i <= state.entries.len(),
            counts.len() == i,
            forall|j: int| 0 <= j < i ==> #[trigger] counts@[j] == object_size(state@.entries[j].1),
        decreases state.entries.len() - i,
    {
        let n = match &state.entries[i].1 {
            JsonValue::Object(fields) => {
                proof {
                    lemma_object_model(*fields);
                }
                Some(fields.len())
            },
            _ => None,
        };
        assert(state@.entries[i as int].1 == state.entries@[i as int].1@);
        counts.push(n);
        i = i + 1;
    }
    assert(counts@ =~= nested_counts(state@.entries));
    counts
}

/// The layout of a map control, asking each entry's value whether it is an
/// object and of how many fields.
pub fn map_layout(area: Rect, state: &MapState, key_width: u16) -> (layout: MapLayout)
    requires
        !(area.height == 0 || area.width < 15) ==> area.y + area.height <= u16::MAX,
        !(area.height == 0 || area.width < 15) && state.entries.len() > 0 && area.height >= 2
            ==> area.x + 26 + key_width_in(area, key_width) <= u16::MAX,
    ensures
        layout.full_area == area,
        (layout.entry_areas@, layout.add_row_area) == map_layout_of(
            area,
            state@,
            key_width,
            nested_counts(state@.entries),
        ),
{
    let nested = nested_field_counts(state);
    map_layout_with(area, state, key_width, &nested)
}

/// The layout of a map control when entry `i`'s value is an object of
/// `nested[i]` fields (`None` when it is not an object).
pub fn map_layout_with(area: Rect, state: &MapState, key_width: u16, nested: &Vec<Option<usize>>) -> (layout: MapLayout)
    requires
        !(area.height == 0 || area.width < 15) ==> area.y + area.height <= u16::MAX,
        !(area.height == 0 || area.width < 15) && state.entries.len() > 0 && area.height >= 2
            ==> area.x + 26 + key_width_in(area, key_width) <= u16::MAX,
        nested.len() == state.entries.len(),
    ensures
        layout.full_area == area,
        (layout.entry_areas@, layout.add_row_area) == map_layout_of(area, state@, key_width, nested@),
{
    if area.height == 0 || area.width < 15 {
        return MapLayout { full_area: area, entry_areas: Vec::new(), add_row_area: None };
    }
    let indent: u16 = 2;
    let room: u16 = area.width - (indent + 8);
    let actual_key_width = if key_width < room {
        key_width
    } else {
        room
    };
    let ghost kw = key_width_in(area, key_width);
    assert(actual_key_width == kw);
    let bottom = area.y + area.height;
    let mut y = area.y + 1;
    let ghost full = entry_rows_from(area, kw, state@.expanded, nested@, 0, area.y + 1);
    let mut entry_areas: Vec<MapEntryLayout> = Vec::new();
    let mut idx: usize = 0;
    while idx < nested.len()
        invariant
            area.y + area.height <= u16::MAX,
            nested.len() > 0 && area.height >= 2 ==> area.x + 26 + kw <= u16::MAX,
            area.height > 0,
            area.width >= 15,
            bottom == area.y + area.height,
            actual_key_width == kw,
            kw + 10 <= area.width,
            indent == 2,
            nested.len() == state.entries.len(),
            idx <= nested.len(),
            area.y + 1 <= y <= bottom,
            full.0 == entry_areas@ + entry_rows_from(area, kw, state@.expanded, nested@, idx as nat, y as int).0,
            full.1 == entry_rows_from(area, kw, state@.expanded, nested@, idx as nat, y as int).1,
        ensures
            full.0 == entry_areas@,
            full.1 == y,
        decreases nested.len() - idx,
    {
        if y >= bottom {
            assert(entry_areas@ + Seq::<MapEntryLayout>::empty() =~= entry_areas@);
            break;
        }
        let ghost y0 = y;
        let row = MapEntryLayout {
            index: idx,
            row_area: Rect::new(area.x, y, area.width, 1),
            expand_area: Rect::new(area.x + indent, y, 1, 1),
            key_area: Rect::new(area.x + indent + 2, y, actual_key_width, 1),
            remove_area: Rect::new(area.x + indent + 2 + actual_key_width + 22, y, 3, 1),
        };
        assert(row == entry_at(area, kw, idx as int, y as int));
        entry_areas.push(row);
        y = y + 1;
        if y < bottom && state.is_expanded(idx) {
            if let Some(n) = nested[idx] {
                let shown: usize = if n < 5 { n } else { 5 };
                let mut k: usize = 0;
                while k < shown
                    invariant
                        y as int == y0 + 1 + k,
                        y <= bottom,
                        k <= shown,
                    ensures
                        y as int == y0 + 1 + k,
                        y <= bottom,
                        k == shown || y == bottom,
                    decreases shown - k,
                {
                    if y >= bottom {
                        break;
                    }
                    y = y + 1;
                    k = k + 1;
                }
                if n > 5 && y < bottom {
                    y = y + 1;
                }
                assert(y == after_nested(area, y0 + 1, n as nat));
            }
        }
        let ghost rest = entry_rows_from(area, kw, state@.expanded, nested@, (idx + 1) as nat, y as int);
        assert(entry_rows_from(area, kw, state@.expanded, nested@, idx as nat, y0 as int).0 == seq![entry_at(area, kw, idx as int, y0 as int)] + rest.0);
        assert(full.0 =~= entry_areas@ + rest.0);
        idx = idx + 1;
    }
    if idx == nested.len() {
        assert(entry_areas@ + Seq::<MapEntryLayout>::empty() =~= entry_areas@);
    }
    let add_row_area = if y < bottom {
        Some(Rect::new(area.x, y, area.width, 1))
    } else {
        None
    };
    MapLayout { full_area: area, entry_areas, add_row_area }
}

/// The one-line preview of a JSON value before shortening: `null`, the
/// boolean, the number, the string in double quotes, `[n items]` for an
/// array and `{n fields}` for an object.
pub open spec fn preview_text(v: JsonModel) -> Seq<char> {
    match v {
        JsonModel::Null => seq!['n', 'u', 'l', 'l'],
        JsonModel::Bool(b) => if b {
            seq!['t', 'r', 'u', 'e']
        } else {
            seq!['f', 'a', 'l', 's', 'e']
        },
        JsonModel::Number(t) => t,
        JsonModel::Str(t) => seq!['"'] + t + seq!['"'],
        JsonModel::Array(items) => seq!['['] + decimal(items.len()) + seq![' ', 'i', 't', 'e', 'm', 's', ']'],
        JsonModel::Object(fields) => seq!['{'] + decimal(fields.len()) + seq![' ', 'f', 'i', 'e', 'l', 'd', 's', '}'],
    }
}

/// The preview of `v` shortened to `max_len` bytes, or `None` when the cut
/// cannot be made.
pub open spec fn preview_of(v: JsonModel, max_len: nat) -> Option<Seq<char>> {
    if can_shorten(preview_text(v), max_len) {
        Some(shortened(preview_text(v), max_len))
    } else {
        None
    }
}

/// `t` shortened to `max_len` bytes: when longer, its first `max_len - 3`
/// bytes followed by `...`.
pub open spec fn shortened(t: Seq<char>, max_len: nat) -> Seq<char> {
    if byte_len(t) > max_len {
        t.take(char_index(t, max_len - 3)) + seq!['.', '.', '.']
    } else {
        t
    }
}

/// Shortening `t` to `max_len` bytes does not panic: the cut falls on a
/// character boundary.
pub open spec fn can_shorten(t: Seq<char>, max_len: nat) -> bool {
    byte_len(t) > max_len ==> max_len >= 3 && is_boundary(t, max_len - 3)
}

/// The unshortened preview text of a value.
pub fn summary_preview(value: &JsonValue) -> (t: String)
    ensures
        t@ == preview_text(value@),
{
    let mut t = String::new();
    match value {
        JsonValue::Null => {
            string_push(&mut t, 'n');
            string_push(&mut t, 'u');
            string_push(&mut t, 'l');
            string_push(&mut t, 'l');
        },
        JsonValue::Bool(b) => {
            if *b {
                string_push(&mut t, 't');
                string_push(&mut t, 'r');
                string_push(&mut t, 'u');
                string_push(&mut t, 'e');
            } else {
                string_push(&mut t, 'f');
                string_push(&mut t, 'a');
                string_push(&mut t, 'l');
                string_push(&mut t, 's');
                string_push(&mut t, 'e');
            }
        },
        JsonValue::Number(n) => {
            push_str(&mut t, n.as_str());
        },
        JsonValue::Str(v) => {
            string_push(&mut t, '"');
            push_str(&mut t, v.as_str());
            string_push(&mut t, '"');
        },
        JsonValue::Array(items) => {
            proof {
                crate::json::lemma_array_model(*items);
            }
            string_push(&mut t, '[');
            push_decimal(&mut t, items.len());
            string_push(&mut t, ' ');
            string_push(&mut t, 'i');
            string_push(&mut t, 't');
            string_push(&mut t, 'e');
            string_push(&mut t, 'm');
            string_push(&mut t, 's');
            string_push(&mut t, ']');
        },
        JsonValue::Object(fields) => {
            proof {
                lemma_object_model(*fields);
            }
            string_push(&mut t, '{');
            push_decimal(&mut t, fields.len());
            string_push(&mut t, ' ');
            string_push(&mut t, 'f');
            string_push(&mut t, 'i');
            string_push(&mut t, 'e');
            string_push(&mut t, 'l');
            string_push(&mut t, 'd');
            string_push(&mut t, 's');
            string_push(&mut t, '}');
        },
    }
    assert(t@ =~= preview_text(value@));
    t
}

/// `t` shortened to at most `max_len` bytes with a trailing `...`.
pub fn shorten(t: &String, max_len: usize) -> (s: String)
    requires
        can_shorten(t@, max_len as nat),
    ensures
        s@ == shortened(t@, max_len as nat),
{
    if text_byte_len(t) > max_len {
        let head = str_prefix(t.as_str(), max_len - 3);
        let mut s = head.to_owned();
        string_push(&mut s, '.');
        string_push(&mut s, '.');
        string_push(&mut s, '.');
        assert(s@ =~= shortened(t@, max_len as nat));
        s
    } else {
        t.clone()
    }
}

/// The preview of a JSON value shortened to `max_len` bytes, or `None` when
/// the cut would split a character or `max_len` is below three (the cases
/// in which the preview cannot be made).
pub fn format_value_preview(value: &JsonValue, max_len: usize) -> (p: Option<String>)
    ensures
        match p {
            Some(t) => preview_of(value@, max_len as nat) == Some(t@),
            None => preview_of(value@, max_len as nat) is None,
        },
{
    let t = summary_preview(value);
    if text_byte_len(&t) > max_len && (max_len < 3 || !at_boundary(t.as_str(), max_len - 3)) {
        return None;
    }
    Some(shorten(&t, max_len))
}

/// Which of the map's colors paints a part of it.
#[derive(Debug, Clone, Copy, PartialEq, Eq, Structural)]
pub enum MapColorRole {
    Label,
    Key,
    ValuePreview,
    Border,
    RemoveButton,
    AddButton,
    Focused,
    Cursor,
    Disabled,
    ExpandArrow,
}

/// The color of a map's label.
pub fn map_label_role(state: &MapState) -> (r: MapColorRole)
    ensures
        r == (match state.focus {
            FocusState::Focused => MapColorRole::Focused,
            FocusState::Hovered => MapColorRole::Focused,
            FocusState::Disabled => MapColorRole::Disabled,
            FocusState::Normal => MapColorRole::Label,
        }),
{
    match state.focus {
        FocusState::Focused => MapColorRole::Focused,
        FocusState::Hovered => MapColorRole::Focused,
        FocusState::Disabled => MapColorRole::Disabled,
        FocusState::Normal => MapColorRole::Label,
    }
}

/// How an entry row is painted: the arrow and its color, the key padded to
/// the key column and its color.
#[derive(Debug, Clone)]
pub struct MapEntryPaint {
    pub arrow: char,
    pub arrow_role: MapColorRole,
    pub key_role: MapColorRole,
    pub key_text: String,
}

/// Arrow shown before an expanded entry.
pub open spec fn expanded_arrow() -> char {
    '\u{25bc}'
}

/// Arrow shown before a collapsed entry.
pub open spec fn collapsed_arrow() -> char {
    '\u{25b6}'
}

/// How entry `index` is painted with a key column `kw` wide.
pub fn map_entry_paint(state: &MapState, index: usize, kw: u16) -> (p: MapEntryPaint)
    requires
        index < state.entries.len(),
    ensures
        ({
            let focused = state.focused_entry == Some(index) && state.focus == FocusState::Focused;
            &&& p.arrow == if state@.expanded.contains(index) { expanded_arrow() } else { collapsed_arrow() }
            &&& p.arrow_role == if focused { MapColorRole::Focused } else { MapColorRole::ExpandArrow }
            &&& p.key_role == if focused { MapColorRole::Focused } else { MapColorRole::Key }
            &&& p.key_text@ == padded(state@.entries[index as int].0, kw as nat)
        }),
{
    let focused = state.focused_entry == Some(index) && state.focus == FocusState::Focused;
    let arrow = if state.is_expanded(index) {
        '\u{25bc}'
    } else {
        '\u{25b6}'
    };
    let arrow_role = if focused {
        MapColorRole::Focused
    } else {
        MapColorRole::ExpandArrow
    };
    let key_role = if focused {
        MapColorRole::Focused
    } else {
        MapColorRole::Key
    };
    let key_text = pad_right(state.entries[index].0.as_str(), kw as usize);
    MapEntryPaint { arrow, arrow_role, key_role, key_text }
}

/// The "... and N more" line under an expanded object with `n` fields.
pub open spec fn more_line(n: nat) -> Seq<char> {
    Seq::new(6, |i: int| ' ') + seq!['.', '.', '.', ' ', 'a', 'n', 'd', ' '] + decimal((n - 5) as nat)
        + seq![' ', 'm', 'o', 'r', 'e']
}

/// The "... and N more" line for an object with `n` (more than five) fields.
pub fn more_fields_line(n: usize) -> (t: String)
    requires
        n > 5,
    ensures
        t@ == more_line(n as nat),
{
    let mut t = String::new();
    let mut i: usize = 0;
    while i < 6
        invariant
            i <= 6,
            t@ == Seq::new(i as nat, |j: int| ' '),
        decreases 6 - i,
    {
        string_push(&mut t, ' ');
        i = i + 1;
        assert(t@ =~= Seq::new(i as nat, |j: int| ' '));
    }
    string_push(&mut t, '.');
    string_push(&mut t, '.');
    string_push(&mut t, '.');
    string_push(&mut t, ' ');
    string_push(&mut t, 'a');
    string_push(&mut t, 'n');
    string_push(&mut t, 'd');
    string_push(&mut t, ' ');
    push_decimal(&mut t, n - 5);
    string_push(&mut t, ' ');
    string_push(&mut t, 'm');
    string_push(&mut t, 'o');
    string_push(&mut t, 'r');
    string_push(&mut t, 'e');
    assert(t@ =~= more_line(n as nat));
    t
}

/// The key part `key: ` of a nested line.
pub fn nested_key_text(key: &String) -> (t: String)
    ensures
        t@ == key@ + seq![':', ' '],
{
    let mut t = key.clone();
    string_push(&mut t, ':');
    string_push(&mut t, ' ');
    t
}

/// How the "add entry" row is painted: the colors of its brackets and text,
/// the typed key padded to the field, and the cursor cell, if any.
#[derive(Debug, Clone)]
pub struct MapAddRowPaint {
    pub border: MapColorRole,
    pub text: MapColorRole,
    pub shown: String,
    pub cursor: Option<(u16, char)>,
}

/// How the "add entry" row is painted for a control drawn into `area` with a
/// key column `kw` wide.
pub fn map_add_row_paint(state: &MapState, area: Rect, kw: u16) -> (p: MapAddRowPaint)
    requires
        state.focused_entry is None && state.focus == FocusState::Focused && state.cursor <= (if kw
            >= 2 {
            kw - 2
        } else {
            0
        }) ==> area.x + 3 + state.cursor <= u16::MAX,
    ensures
        ({
            let focused = state.focused_entry is None && state.focus == FocusState::Focused;
            let inner: nat = if kw >= 2 { (kw - 2) as nat } else { 0 };
            let t = state@.new_key;
            &&& (p.border, p.text) == (if focused {
                (MapColorRole::Focused, MapColorRole::Label)
            } else if state.focus == FocusState::Disabled {
                (MapColorRole::Disabled, MapColorRole::Disabled)
            } else {
                (MapColorRole::Border, MapColorRole::Label)
            })
            &&& p.shown@ == padded(t.take(if inner <= t.len() { inner as int } else { t.len() as int }), inner)
            &&& p.cursor == if focused && state.cursor <= inner {
                Some(((area.x + 3 + state.cursor) as u16, if state.cursor < t.len() { t[state.cursor as int] } else { ' ' }))
            } else {
                None
            }
        }),
{
    let focused = state.focused_entry.is_none() && state.focus == FocusState::Focused;
    let (border, text) = if focused {
        (MapColorRole::Focused, MapColorRole::Label)
    } else if state.focus == FocusState::Disabled {
        (MapColorRole::Disabled, MapColorRole::Disabled)
    } else {
        (MapColorRole::Border, MapColorRole::Label)
    };
    let inner: u16 = if kw >= 2 {
        kw - 2
    } else {
        0
    };
    let visible = take_chars(state.new_key_text.as_str(), inner as usize);
    let shown = pad_right(visible.as_str(), inner as usize);
    let cursor = if focused && state.cursor <= inner as usize {
        Some((area.x + 3 + state.cursor as u16, char_at_or_space(state.new_key_text.as_str(), state.cursor)))
    } else {
        None
    };
    MapAddRowPaint { border, text, shown, cursor }
}

/// The characters of an optional text.
pub open spec fn opt_text(o: Option<String>) -> Option<Seq<char>> {
    match o {
        Some(t) => Some(t@),
        None => None,
    }
}

/// `shown` and `more` are the nested lines of an object with the given
/// fields, in order: a `key: ` part and the value's preview shortened to 15
/// bytes (`None` where it cannot be made) for each of the first five fields,
/// and the "... and N more" line exactly when there are more than five.
pub open spec fn nested_lines_for(shown: Seq<(String, Option<String>)>, more: Option<String>, fields: Seq<EntryModel>) -> bool {
    &&& shown.len() == if fields.len() < 5 { fields.len() as int } else { 5 }
    &&& forall|i: int| 0 <= i < shown.len() ==> #[trigger] shown[i].0@ == fields[i].0 + seq![':', ' ']
    &&& forall|i: int| 0 <= i < shown.len() ==> opt_text(#[trigger] shown[i].1) == preview_of(fields[i].1, 15)
    &&& match more {
        Some(t) => fields.len() > 5 && t@ == more_line(fields.len()),
        None => fields.len() <= 5,
    }
}

/// The nested lines shown under an expanded entry whose value is an object
/// (`None` for other values).
pub fn map_nested_lines(value: &JsonValue) -> (lines: Option<(Vec<(String, Option<String>)>, Option<String>)>)
    ensures
        match value@ {
            JsonModel::Object(fields) => lines matches Some((shown, more)) && nested_lines_for(
                shown@,
                more,
                fields,
            ),
            _ => lines is None,
        },
{
    match value {
        JsonValue::Object(fields) => {
            proof {
                lemma_object_model(*fields);
            }
            Some(nested_lines_of(fields))
        },
        _ => None,
    }
}

/// The nested lines for an object with the given fields.
pub fn nested_lines_of(fields: &Vec<(String, JsonValue)>) -> (lines: (Vec<(String, Option<String>)>, Option<String>))
    ensures
        nested_lines_for(lines.0@, lines.1, fields_view(fields@)),
{
    let ghost fv = fields_view(fields@);
    let mut shown: Vec<(String, Option<String>)> = Vec::new();
    let mut i: usize = 0;
    while i < fields.len() && i < 5
        invariant
            i <= fields.len(),
            i <= 5,
            fv == fields_view(fields@),
            shown.len() == i,
            forall|j: int| 0 <= j < i ==> #[trigger] shown@[j].0@ == fv[j].0 + seq![':', ' '],
            forall|j: int| 0 <= j < i ==> opt_text(#[trigger] shown@[j].1) == preview_of(fv[j].1, 15),
        decreases fields.len() - i,
    {
        let key = nested_key_text(&fields[i].0);
        let preview = format_value_preview(&fields[i].1, 15);
        shown.push((key, preview));
        i = i + 1;
    }
    let more = if fields.len() > 5 {
        Some(more_fields_line(fields.len()))
    } else {
        None
    };
    (shown, more)
}

} // verus!

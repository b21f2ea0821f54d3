//! Settings state management
//!
//! Tracks the current state of the settings UI: which category and item
//! are selected, scrolling, search, dialogs, and the pending changes.
use vstd::prelude::*;

use crate::json::{
    copy_fields, fields_view, json_equal, json_pointer, json_same, json_text,
    pointer_replace, pointer_replace_in, lemma_array_model,
    lemma_object_model, pointer_lookup, value_text, JsonModel, JsonValue,
};
use crate::view::controls::map_input::{sort_by_key, sort_entries, MapModel, MapState};
use crate::view::controls::text_list::{TextListModel, TextListState};
use crate::view::controls::FocusState;
use crate::view::settings::items::{
    control_with_focus, number_as_i64, parse_i64, set_control_focus, ControlModel, ItemModel,
    SettingControl, SettingItem, SettingsPage,
};
use crate::text::{push_str, string_push};

verus! {

/// A search hit: the page and the item on it.
#[derive(Debug, Clone, Copy, PartialEq, Eq, Structural)]
pub struct SearchResult {
    pub page_index: usize,
    pub item_index: usize,
}

/// The pending changes: (path, new value) pairs in the order recorded, each
/// path at most once.
#[derive(Debug)]
pub struct PendingChanges {
    entries: Vec<(String, JsonValue)>,
}

impl View for PendingChanges {
    type V = Seq<(Seq<char>, JsonModel)>;

    closed spec fn view(&self) -> Seq<(Seq<char>, JsonModel)> {
        fields_view(self.entries@)
    }
}

impl PendingChanges {
    /// No path has two pending changes.
    #[verifier::type_invariant]
    spec fn paths_are_unique(self) -> bool {
        paths_unique(fields_view(self.entries@))
    }

    /// No pending changes.
    pub fn new() -> (p: Self)
        ensures
            p@ == Seq::<(Seq<char>, JsonModel)>::empty(),
    {
        let p = PendingChanges { entries: Vec::new() };
        assert(p@ =~= Seq::<(Seq<char>, JsonModel)>::empty());
        p
    }

    /// Number of pending changes
    pub fn len(&self) -> (n: usize)
        ensures
            n == self@.len(),
    {
        self.entries.len()
    }

    /// Whether there are no pending changes
    pub fn is_empty(&self) -> (b: bool)
        ensures
            b == (self@.len() == 0),
    {
        self.entries.len() == 0
    }

    /// The `i`-th pending change
    pub fn get(&self, i: usize) -> (e: &(String, JsonValue))
        requires
            i < self@.len(),
        ensures
            (e.0@, e.1@) == self@[i as int],
    {
        &self.entries[i]
    }

}

/// The state of the settings UI
#[derive(Debug)]
pub struct SettingsState {
    /// Pages of settings (one per category)
    pub pages: Vec<SettingsPage>,
    /// Currently selected category index
    pub selected_category: usize,
    /// Currently selected item index within the category
    pub selected_item: usize,
    /// Whether we're focused on the category list (left panel)
    pub category_focus: bool,
    /// Pending changes (path -> new value), each path at most once
    pub pending_changes: PendingChanges,
    /// The original config value (for detecting changes)
    original_config: JsonValue,
    /// Whether the settings panel is visible
    pub visible: bool,
    /// Current search query
    pub search_query: String,
    /// Whether search is active
    pub search_active: bool,
    /// Current search results
    pub search_results: Vec<SearchResult>,
    /// Selected search result index
    pub selected_search_result: usize,
    /// Whether the unsaved changes confirmation dialog is showing
    pub showing_confirm_dialog: bool,
    /// Selected option in confirmation dialog (0=Save, 1=Discard, 2=Cancel)
    pub confirm_dialog_selection: usize,
    /// Whether the help overlay is showing
    pub showing_help: bool,
    /// Scroll offset for the settings panel (in items)
    pub scroll_offset: usize,
    /// Number of visible items (set during rendering)
    pub visible_items: usize,
    /// Whether we're in text editing mode (for TextList controls)
    pub editing_text: bool,
    /// Current mouse hover position (for hover feedback)
    pub hover_position: Option<(u16, u16)>,
}

/// Abstract value of a [`SettingsState`].
#[verifier::ext_equal]
pub struct SettingsModel {
    /// The pages: each setting's path and control
    pub pages: Seq<Seq<ItemModel>>,
    pub selected_category: usize,
    pub selected_item: usize,
    pub category_focus: bool,
    /// The pending changes, as (path, new value), in the order recorded
    pub pending: Seq<(Seq<char>, JsonModel)>,
    /// The configuration as it was when the settings were opened
    pub original: JsonModel,
    pub visible: bool,
    pub search_query: Seq<char>,
    pub search_active: bool,
    pub search_results: Seq<SearchResult>,
    pub selected_search_result: usize,
    pub showing_confirm_dialog: bool,
    pub confirm_dialog_selection: usize,
    pub showing_help: bool,
    pub scroll_offset: usize,
    pub visible_items: usize,
    pub editing_text: bool,
    pub hover_position: Option<(u16, u16)>,
}

impl View for SettingsState {
    type V = SettingsModel;

    closed spec fn view(&self) -> SettingsModel {
        SettingsModel {
            pages: self.pages@.map_values(|p: SettingsPage| p@),
            selected_category: self.selected_category,
            selected_item: self.selected_item,
            category_focus: self.category_focus,
            pending: self.pending_changes@,
            original: self.original_config@,
            visible: self.visible,
            search_query: self.search_query@,
            search_active: self.search_active,
            search_results: self.search_results@,
            selected_search_result: self.selected_search_result,
            showing_confirm_dialog: self.showing_confirm_dialog,
            confirm_dialog_selection: self.confirm_dialog_selection,
            showing_help: self.showing_help,
            scroll_offset: self.scroll_offset,
            visible_items: self.visible_items,
            editing_text: self.editing_text,
            hover_position: self.hover_position,
        }
    }
}

/// Pending changes to paths other than `path`.
pub open spec fn path_other_than(path: Seq<char>) -> spec_fn((Seq<char>, JsonModel)) -> bool {
    |e: (Seq<char>, JsonModel)| e.0 != path
}

/// The text of a pending change's new value: booleans and numbers as
/// written, strings in double quotes, anything else as its compact JSON text.
pub open spec fn value_text_of(v: JsonModel) -> Seq<char> {
    match v {
        JsonModel::Bool(b) => if b {
            seq!['t', 'r', 'u', 'e']
        } else {
            seq!['f', 'a', 'l', 's', 'e']
        },
        JsonModel::Number(t) => t,
        JsonModel::Str(t) => seq!['"'] + t + seq!['"'],
        _ => json_text(v),
    }
}

/// The description of a pending change: `path: value`.
pub open spec fn change_text(e: (Seq<char>, JsonModel)) -> Seq<char> {
    e.0 + seq![':', ' '] + value_text_of(e.1)
}

/// The pending changes as a map from path to new value.
pub open spec fn pending_map(s: Seq<(Seq<char>, JsonModel)>) -> Map<Seq<char>, JsonModel>
    decreases s.len(),
{
    if s.len() == 0 {
        Map::empty()
    } else {
        pending_map(s.drop_last()).insert(s.last().0, s.last().1)
    }
}

/// No path has two pending changes.
pub open spec fn paths_unique(s: Seq<(Seq<char>, JsonModel)>) -> bool {
    forall|i: int, j: int| 0 <= i < s.len() && 0 <= j < s.len() && i != j ==> #[trigger] s[i].0
        != #[trigger] s[j].0
}

impl SettingsModel {
    /// Number of items on the selected page (0 when there is no such page).
    pub open spec fn current_page_len(self) -> nat {
        if self.selected_category < self.pages.len() {
            self.pages[self.selected_category as int].len()
        } else {
            0
        }
    }

    /// What `show` leaves.
    pub open spec fn after_show(self) -> SettingsModel {
        SettingsModel {
            visible: true,
            category_focus: true,
            selected_category: 0,
            selected_item: 0,
            scroll_offset: 0,
            ..self
        }
    }

    /// What `hide_panel` leaves.
    pub open spec fn after_hide(self) -> SettingsModel {
        SettingsModel { visible: false, search_active: false, search_query: Seq::empty(), ..self }
    }

    /// `ensure_visible` does not overflow.
    pub open spec fn can_ensure_visible(self) -> bool {
        let s1 = if self.selected_item < self.scroll_offset {
            self.selected_item
        } else {
            self.scroll_offset
        };
        !self.category_focus && self.visible_items > 0 ==> s1 + self.visible_items <= usize::MAX
    }

    /// What `ensure_visible` leaves: in the settings panel, the viewport is
    /// scrolled so that it shows the selected item.
    pub open spec fn after_ensure_visible(self) -> SettingsModel {
        if self.category_focus {
            self
        } else {
            let s1 = if self.selected_item < self.scroll_offset {
                self.selected_item
            } else {
                self.scroll_offset
            };
            let s2 = if self.visible_items > 0 && self.selected_item >= s1 + self.visible_items {
                (self.selected_item - (self.visible_items - 1)) as usize
            } else {
                s1
            };
            SettingsModel { scroll_offset: s2, ..self }
        }
    }

    /// `select_prev` does not overflow.
    pub open spec fn can_select_prev(self) -> bool {
        (!self.category_focus && self.selected_item > 0) ==> (SettingsModel {
            selected_item: (self.selected_item - 1) as usize,
            ..self
        }).can_ensure_visible()
    }

    /// What `select_prev` leaves.
    pub open spec fn after_select_prev(self) -> SettingsModel {
        if self.category_focus {
            if self.selected_category > 0 {
                SettingsModel {
                    selected_category: (self.selected_category - 1) as usize,
                    selected_item: 0,
                    scroll_offset: 0,
                    ..self
                }
            } else {
                self
            }
        } else if self.selected_item > 0 {
            SettingsModel { selected_item: (self.selected_item - 1) as usize, ..self }.after_ensure_visible()
        } else {
            self
        }
    }

    /// `select_next` does not overflow.
    pub open spec fn can_select_next(self) -> bool {
        &&& self.category_focus ==> self.selected_category < usize::MAX
        &&& !self.category_focus && self.selected_category < self.pages.len() ==> self.selected_item < usize::MAX
        &&& (!self.category_focus && self.selected_category < self.pages.len() && self.selected_item + 1 < self.current_page_len()) ==> (SettingsModel {
            selected_item: (self.selected_item + 1) as usize,
            ..self
        }).can_ensure_visible()
    }

    /// What `select_next` leaves.
    pub open spec fn after_select_next(self) -> SettingsModel {
        if self.category_focus {
            if self.selected_category + 1 < self.pages.len() {
                SettingsModel {
                    selected_category: (self.selected_category + 1) as usize,
                    selected_item: 0,
                    scroll_offset: 0,
                    ..self
                }
            } else {
                self
            }
        } else if self.selected_category < self.pages.len() && self.selected_item + 1
            < self.current_page_len() {
            SettingsModel { selected_item: (self.selected_item + 1) as usize, ..self }.after_ensure_visible()
        } else {
            self
        }
    }

    /// `toggle_focus` does not overflow.
    pub open spec fn can_toggle_focus(self) -> bool {
        self.category_focus ==> self.toggled_selection().can_ensure_visible()
    }

    /// The state right after the focus switch of `toggle_focus`, before scrolling.
    pub open spec fn toggled_selection(self) -> SettingsModel {
        let focus = !self.category_focus;
        if !focus && self.selected_item >= self.current_page_len() {
            SettingsModel { category_focus: focus, selected_item: 0, ..self }
        } else {
            SettingsModel { category_focus: focus, ..self }
        }
    }

    /// What `toggle_focus` leaves.
    pub open spec fn after_toggle_focus(self) -> SettingsModel {
        self.toggled_selection().after_ensure_visible()
    }

    /// What `start_search` and `cancel_search` leave, but for `search_active`.
    pub open spec fn search_cleared(self, active: bool) -> SettingsModel {
        SettingsModel {
            search_active: active,
            search_query: Seq::empty(),
            search_results: Seq::empty(),
            selected_search_result: 0,
            ..self
        }
    }

    /// What `search_prev` leaves.
    pub open spec fn after_search_prev(self) -> SettingsModel {
        if self.search_results.len() > 0 && self.selected_search_result > 0 {
            SettingsModel { selected_search_result: (self.selected_search_result - 1) as usize, ..self }
        } else {
            self
        }
    }

    /// What `search_next` leaves.
    pub open spec fn after_search_next(self) -> SettingsModel {
        if self.search_results.len() > 0 && self.selected_search_result + 1
            < self.search_results.len() {
            SettingsModel { selected_search_result: (self.selected_search_result + 1) as usize, ..self }
        } else {
            self
        }
    }

    /// The selected search result, if there is one.
    pub open spec fn current_result(self) -> Option<SearchResult> {
        if self.selected_search_result < self.search_results.len() {
            Some(self.search_results[self.selected_search_result as int])
        } else {
            None
        }
    }

    /// The state right after `jump_to_search_result` selects the result `r`, before scrolling.
    pub open spec fn jumped(self, r: SearchResult) -> SettingsModel {
        SettingsModel {
            selected_category: r.page_index,
            selected_item: r.item_index,
            category_focus: false,
            scroll_offset: 0,
            ..self
        }
    }

    /// What `jump_to_search_result` leaves.
    pub open spec fn after_jump(self) -> SettingsModel {
        match self.current_result() {
            Some(r) => self.jumped(r).after_ensure_visible().search_cleared(false),
            None => self,
        }
    }

    /// The selected item, if there is one.
    pub open spec fn current_item(self) -> Option<ItemModel> {
        if self.selected_category < self.pages.len() && self.selected_item
            < self.pages[self.selected_category as int].len() {
            Some(self.pages[self.selected_category as int][self.selected_item as int])
        } else {
            None
        }
    }

    /// The control of the selected item, if there is one.
    pub open spec fn current_control(self) -> Option<ControlModel> {
        match self.current_item() {
            Some(it) => Some(it.control),
            None => None,
        }
    }

    /// The model with the selected item replaced by `it`.
    pub open spec fn with_current_item(self, it: ItemModel) -> SettingsModel {
        let p = self.selected_category as int;
        let i = self.selected_item as int;
        SettingsModel { pages: self.pages.update(p, self.pages[p].update(i, it)), ..self }
    }

    /// The model with the selected item's control replaced by `c`.
    pub open spec fn with_current_control(self, c: ControlModel) -> SettingsModel {
        self.with_current_item(
            ItemModel {
                control: c,
                ..self.pages[self.selected_category as int][self.selected_item as int]
            },
        )
    }

    /// What `reset_current_to_default` leaves: when the selected item has a
    /// default, the default is recorded as its pending value, its control is
    /// set from the default and it is no longer marked modified.
    pub open spec fn after_reset(self) -> SettingsModel {
        match self.current_item() {
            Some(it) => match it.default {
                Some(d) => self.after_set_pending(it.path, d).with_current_item(
                    ItemModel { control: control_after_value(it.control, d), modified: false, ..it },
                ),
                None => self,
            },
            None => self,
        }
    }

    /// What an edit `op` of the selected text list leaves: the selected
    /// item's text list edited, or nothing when the selected item is not a
    /// text list.
    pub open spec fn after_text_op(self, op: TextListOp) -> SettingsModel {
        match self.current_control() {
            Some(ControlModel::TextList(m)) => self.with_current_control(
                ControlModel::TextList(text_op_result(m, op)),
            ),
            _ => self,
        }
    }

    /// An edit `op` of the selected text list does not panic.
    pub open spec fn can_text_op(self, op: TextListOp) -> bool {
        self.current_control() matches Some(ControlModel::TextList(m)) ==> text_op_allowed(m, op)
    }

    /// What `confirm_dialog_next` leaves.
    pub open spec fn after_dialog_next(self) -> SettingsModel {
        SettingsModel { confirm_dialog_selection: ((self.confirm_dialog_selection + 1) % 3) as usize, ..self }
    }

    /// What `confirm_dialog_prev` leaves.
    pub open spec fn after_dialog_prev(self) -> SettingsModel {
        SettingsModel {
            confirm_dialog_selection: if self.confirm_dialog_selection == 0 {
                2
            } else {
                (self.confirm_dialog_selection - 1) as usize
            },
            ..self
        }
    }

    /// What recording `value` as the new value of `path` leaves, when
    /// `unchanged` tells whether it equals the original configuration there.
    pub open spec fn after_pending_change(self, path: Seq<char>, value: JsonModel, unchanged: bool) -> SettingsModel {
        let others = self.pending.filter(path_other_than(path));
        SettingsModel {
            pending: if unchanged { others } else { others.push((path, value)) },
            ..self
        }
    }

    /// What `set_pending_change(path, value)` leaves: the change is dropped
    /// exactly when the value equals the original configuration at `path`.
    pub open spec fn after_set_pending(self, path: Seq<char>, value: JsonModel) -> SettingsModel {
        self.after_pending_change(path, value, same_as_original(self.original, path, value))
    }
}

/// A pending change is described by its path, `: ` and its value: a
/// string as its characters in double quotes, any other value as its
/// compact JSON text.
pub proof fn law_change_text_shows_json(e: (Seq<char>, JsonModel))
    ensures
        change_text(e) == e.0 + seq![':', ' '] + match e.1 {
            JsonModel::Str(s) => seq!['"'] + s + seq!['"'],
            _ => json_text(e.1),
        },
{
}

/// A pending change described as `path: value`.
pub fn change_description(path: &String, value: &JsonValue) -> (d: String)
    ensures
        d@ == change_text((path@, value@)),
{
    let mut d = path.clone();
    string_push(&mut d, ':');
    string_push(&mut d, ' ');
    match value {
        JsonValue::Bool(b) => {
            if *b {
                push_str(&mut d, "true");
            } else {
                push_str(&mut d, "false");
            }
        },
        JsonValue::Number(t) => push_str(&mut d, t.as_str()),
        JsonValue::Str(t) => {
            string_push(&mut d, '"');
            push_str(&mut d, t.as_str());
            string_push(&mut d, '"');
        },
        _ => {
            let text = value_text(value);
            push_str(&mut d, text.as_str());
        },
    }
    proof {
        reveal_strlit("true");
        reveal_strlit("false");
    }
    assert(d@ =~= change_text((path@, value@)));
    d
}

impl SettingsState {
    /// Create the settings state for pages with the given numbers of items
    /// and the configuration they edit.
    pub fn from_pages(pages: Vec<SettingsPage>, original_config: JsonValue) -> (s: Self)
        ensures
            s@ == (SettingsModel {
                pages: pages@.map_values(|p: SettingsPage| p@),
                selected_category: 0,
                selected_item: 0,
                category_focus: true,
                pending: Seq::empty(),
                original: original_config@,
                visible: false,
                search_query: Seq::empty(),
                search_active: false,
                search_results: Seq::empty(),
                selected_search_result: 0,
                showing_confirm_dialog: false,
                confirm_dialog_selection: 0,
                showing_help: false,
                scroll_offset: 0,
                visible_items: 10,
                editing_text: false,
                hover_position: None,
            }),
    {
        let ghost original = original_config@;
        let ghost pm = pages@.map_values(|p: SettingsPage| p@);
        let s = Self {
            pages,
            selected_category: 0,
            selected_item: 0,
            category_focus: true,
            pending_changes: PendingChanges::new(),
            original_config,
            visible: false,
            search_query: String::new(),
            search_active: false,
            search_results: Vec::new(),
            selected_search_result: 0,
            showing_confirm_dialog: false,
            confirm_dialog_selection: 0,
            showing_help: false,
            scroll_offset: 0,
            visible_items: 10,
            editing_text: false,
            hover_position: None,
        };
        assert(s@.pending =~= Seq::<(Seq<char>, JsonModel)>::empty());
        assert(s@.original == original);
        assert(s@.pages == pm);
        s
    }

    /// Show the settings panel
    pub fn show(&mut self)
        ensures
            final(self)@ == old(self)@.after_show(),
    {
        self.visible = true;
        self.category_focus = true;
        self.selected_category = 0;
        self.selected_item = 0;
        self.scroll_offset = 0;
        assert(self@ =~= old(self)@.after_show());
    }

    /// Hide the settings panel
    pub fn hide_panel(&mut self)
        ensures
            final(self)@ == old(self)@.after_hide(),
    {
        self.visible = false;
        self.search_active = false;
        self.search_query = String::new();
        assert(self@ =~= old(self)@.after_hide());
    }

    /// Number of items on the selected page (0 when there is no such page)
    pub fn current_page_len(&self) -> (n: usize)
        ensures
            n == self@.current_page_len(),
    {
        if self.selected_category < self.pages.len() {
            self.pages[self.selected_category].items.len()
        } else {
            0
        }
    }

    /// Move selection up
    pub fn select_prev(&mut self)
        requires
            old(self)@.can_select_prev(),
        ensures
            final(self)@ == old(self)@.after_select_prev(),
    {
        if self.category_focus {
            if self.selected_category > 0 {
                self.selected_category = self.selected_category - 1;
                self.selected_item = 0;
                self.scroll_offset = 0;
            }
        } else if self.selected_item > 0 {
            self.selected_item = self.selected_item - 1;
            self.ensure_visible();
        }
        assert(self@ =~= old(self)@.after_select_prev());
    }

    /// Move selection down
    pub fn select_next(&mut self)
        requires
            old(self)@.can_select_next(),
        ensures
            final(self)@ == old(self)@.after_select_next(),
    {
        if self.category_focus {
            if self.selected_category + 1 < self.pages.len() {
                self.selected_category = self.selected_category + 1;
                self.selected_item = 0;
                self.scroll_offset = 0;
            }
        } else if self.selected_category < self.pages.len() {
            let count = self.pages[self.selected_category].items.len();
            if self.selected_item + 1 < count {
                self.selected_item = self.selected_item + 1;
                self.ensure_visible();
            }
        }
        assert(self@ =~= old(self)@.after_select_next());
    }

    /// Switch focus between category list and settings
    pub fn toggle_focus(&mut self)
        requires
            old(self)@.can_toggle_focus(),
        ensures
            final(self)@ == old(self)@.after_toggle_focus(),
    {
        self.category_focus = !self.category_focus;
        // Reset item selection when switching to settings
        if !self.category_focus && self.selected_item >= self.current_page_len() {
            self.selected_item = 0;
        }
        assert(self@ =~= old(self)@.toggled_selection());
        self.ensure_visible();
    }

    /// Ensure the selected item is visible in the viewport
    pub fn ensure_visible(&mut self)
        requires
            old(self)@.can_ensure_visible(),
        ensures
            final(self)@ == old(self)@.after_ensure_visible(),
    {
        if self.category_focus {
            return;
        }
        // If selection is before the viewport, scroll up
        if self.selected_item < self.scroll_offset {
            self.scroll_offset = self.selected_item;
        }
        // If selection is after the viewport, scroll down
        if self.visible_items > 0 && self.selected_item >= self.scroll_offset + self.visible_items {
            self.scroll_offset = self.selected_item - (self.visible_items - 1);
        }
        assert(self@ =~= old(self)@.after_ensure_visible());
    }

    /// Record a pending change for a setting: it is dropped when the value
    /// equals the original configuration at that path.
    pub fn set_pending_change(&mut self, path: &str, value: JsonValue)
        ensures
            final(self)@ == old(self)@.after_set_pending(path@, value@),
            paths_unique(final(self)@.pending),
    {
        let unchanged = match pointer_lookup(&self.original_config, path) {
            Some(original) => json_equal(original, &value),
            None => false,
        };
        self.set_pending_change_with(path, value, unchanged);
    }

    /// Record a pending change for a setting, given whether the value equals
    /// the original configuration at that path.
    pub fn set_pending_change_with(&mut self, path: &str, value: JsonValue, unchanged: bool)
        ensures
            final(self)@ == old(self)@.after_pending_change(path@, value@, unchanged),
            paths_unique(final(self)@.pending),
    {
        let ghost pred = path_other_than(path@);
        let ghost old_pending = old(self)@.pending;
        proof {
            use_type_invariant(&self.pending_changes);
        }
        let mut kept: Vec<(String, JsonValue)> = Vec::new();
        let mut taken = PendingChanges::new();
        core::mem::swap(&mut taken, &mut self.pending_changes);
        let PendingChanges { entries: mut rest } = taken;
        let ghost orig = rest@;
        let key = path.to_owned();
        let ghost mut done: int = 0;
        while rest.len() > 0
            invariant
                0 <= done <= orig.len(),
                key@ == path@,
                pred == path_other_than(path@),
                rest.len() == orig.len() - done,
                rest@ == orig.subrange(done, orig.len() as int),
                old_pending == fields_view(orig),
                fields_view(kept@) == old_pending.take(done).filter(pred),
            decreases rest.len(),
        {
            let e = rest.remove(0);
            let ghost t0 = old_pending.take(done);
            let ghost t1 = old_pending.take(done + 1);
            proof {
                assert(t1.drop_last() =~= t0);
                assert(old_pending[done] == (e.0@, e.1@));
                assert(t1.last() == (e.0@, e.1@));
                reveal_with_fuel(Seq::filter, 1);
                assert(t1.filter(pred) == if pred(t1.last()) {
                    t0.filter(pred).push(t1.last())
                } else {
                    t0.filter(pred)
                });
            }
            let same = e.0 == key;
            assert(same == !pred((e.0@, e.1@)));
            if !same {
                let ghost before = kept@;
                kept.push(e);
                assert(fields_view(kept@) =~= fields_view(before).push(old_pending[done]));
            }
            proof {
                done = done + 1;
            }
            assert(rest@ =~= orig.subrange(done, orig.len() as int));
        }
        assert(old_pending.take(done) =~= old_pending);
        let ghost vm = value@;
        if !unchanged {
            let ghost before = kept@;
            kept.push((path.to_owned(), value));
            assert(fields_view(kept@) =~= fields_view(before).push((path@, vm)));
        }
        proof {
            law_pending_changes_are_a_map(old(self)@, path@, vm, unchanged);
            assert(fields_view(kept@) == old(self)@.after_pending_change(path@, vm, unchanged).pending);
        }
        self.pending_changes = PendingChanges { entries: kept };
        assert(self@ =~= old(self)@.after_pending_change(path@, vm, unchanged));
    }

    /// Apply the pending changes to the JSON value of a configuration: each
    /// change, in the order recorded, replaces the value its path names
    /// (a path that names nothing is skipped).
    pub fn apply_changes(&self, config: &JsonValue) -> (r: JsonValue)
        ensures
            r@ == apply_pending(config@, self@.pending),
    {
        let mut value = config.deep_copy();
        let mut i: usize = 0;
        while i < self.pending_changes.entries.len()
            invariant
                i <= self.pending_changes.entries.len(),
                self@.pending == fields_view(self.pending_changes.entries@),
                value@ == apply_pending(config@, self@.pending.take(i as int)),
            decreases self.pending_changes.entries.len() - i,
        {
            let (path, new) = &self.pending_changes.entries[i];
            assert(self@.pending.take(i + 1).drop_last() =~= self@.pending.take(i as int));
            assert(self@.pending.take(i + 1).last() == (path@, new@));
            match pointer_replace_in(&value, path.as_str(), new) {
                Some(w) => {
                    value = w;
                },
                None => {},
            }
            i = i + 1;
        }
        assert(self@.pending.take(i as int) =~= self@.pending);
        value
    }

    /// Check if there are unsaved changes
    pub fn has_changes(&self) -> (b: bool)
        ensures
            b == (self@.pending.len() > 0),
    {
        self.pending_changes.len() > 0
    }

    /// Discard all pending changes
    pub fn discard_changes(&mut self)
        ensures
            final(self)@ == (SettingsModel { pending: Seq::empty(), ..old(self)@ }),
    {
        self.pending_changes = PendingChanges::new();
        assert(self@ =~= (SettingsModel { pending: Seq::empty(), ..old(self)@ }));
    }

    /// Start search mode
    pub fn start_search(&mut self)
        ensures
            final(self)@ == old(self)@.search_cleared(true),
    {
        self.search_active = true;
        self.search_query = String::new();
        self.search_results = Vec::new();
        self.selected_search_result = 0;
        assert(self@ =~= old(self)@.search_cleared(true));
    }

    /// Cancel search mode
    pub fn cancel_search(&mut self)
        ensures
            final(self)@ == old(self)@.search_cleared(false),
    {
        self.search_active = false;
        self.search_query = String::new();
        self.search_results = Vec::new();
        self.selected_search_result = 0;
        assert(self@ =~= old(self)@.search_cleared(false));
    }

    /// Navigate to previous search result
    pub fn search_prev(&mut self)
        ensures
            final(self)@ == old(self)@.after_search_prev(),
    {
        if self.search_results.len() > 0 && self.selected_search_result > 0 {
            self.selected_search_result = self.selected_search_result - 1;
        }
        assert(self@ =~= old(self)@.after_search_prev());
    }

    /// Navigate to next search result
    pub fn search_next(&mut self)
        requires
            old(self)@.search_results.len() > 0 ==> old(self)@.selected_search_result < usize::MAX,
        ensures
            final(self)@ == old(self)@.after_search_next(),
    {
        if self.search_results.len() > 0 && self.selected_search_result + 1
            < self.search_results.len() {
            self.selected_search_result = self.selected_search_result + 1;
        }
        assert(self@ =~= old(self)@.after_search_next());
    }

    /// Jump to the currently selected search result
    pub fn jump_to_search_result(&mut self)
        ensures
            final(self)@ == old(self)@.after_jump(),
    {
        if self.selected_search_result < self.search_results.len() {
            let result = self.search_results[self.selected_search_result];
            self.selected_category = result.page_index;
            self.selected_item = result.item_index;
            self.category_focus = false;
            self.scroll_offset = 0;  // Reset scroll when jumping to new category
            assert(self@ =~= old(self)@.jumped(result));
            self.ensure_visible();
            self.cancel_search();
        }
    }

    /// Get the currently selected search result
    pub fn current_search_result(&self) -> (r: Option<SearchResult>)
        ensures
            r == self@.current_result(),
    {
        if self.selected_search_result < self.search_results.len() {
            Some(self.search_results[self.selected_search_result])
        } else {
            None
        }
    }

    /// Show the unsaved changes confirmation dialog
    pub fn show_confirm_dialog(&mut self)
        ensures
            final(self)@ == (SettingsModel {
                showing_confirm_dialog: true,
                confirm_dialog_selection: 0,
                ..old(self)@
            }),
    {
        self.showing_confirm_dialog = true;
        self.confirm_dialog_selection = 0;  // Default to "Save and Exit"
        assert(self@ =~= (SettingsModel { showing_confirm_dialog: true, confirm_dialog_selection: 0, ..old(self)@ }));
    }

    /// Hide the confirmation dialog
    pub fn hide_confirm_dialog(&mut self)
        ensures
            final(self)@ == (SettingsModel {
                showing_confirm_dialog: false,
                confirm_dialog_selection: 0,
                ..old(self)@
            }),
    {
        self.showing_confirm_dialog = false;
        self.confirm_dialog_selection = 0;
        assert(self@ =~= (SettingsModel { showing_confirm_dialog: false, confirm_dialog_selection: 0, ..old(self)@ }));
    }

    /// Move to next option in confirmation dialog
    pub fn confirm_dialog_next(&mut self)
        requires
            old(self)@.confirm_dialog_selection < usize::MAX,
        ensures
            final(self)@ == old(self)@.after_dialog_next(),
    {
        self.confirm_dialog_selection = (self.confirm_dialog_selection + 1) % 3;
        assert(self@ =~= old(self)@.after_dialog_next());
    }

    /// Move to previous option in confirmation dialog
    pub fn confirm_dialog_prev(&mut self)
        ensures
            final(self)@ == old(self)@.after_dialog_prev(),
    {
        self.confirm_dialog_selection = if self.confirm_dialog_selection == 0 {
            2
        } else {
            self.confirm_dialog_selection - 1
        };
        assert(self@ =~= old(self)@.after_dialog_prev());
    }

    /// Toggle the help overlay
    pub fn toggle_help(&mut self)
        ensures
            final(self)@ == (SettingsModel { showing_help: !old(self)@.showing_help, ..old(self)@ }),
    {
        self.showing_help = !self.showing_help;
        assert(self@ =~= (SettingsModel { showing_help: !old(self)@.showing_help, ..old(self)@ }));
    }

    /// Hide the help overlay
    pub fn hide_help(&mut self)
        ensures
            final(self)@ == (SettingsModel { showing_help: false, ..old(self)@ }),
    {
        self.showing_help = false;
        assert(self@ =~= (SettingsModel { showing_help: false, ..old(self)@ }));
    }

    /// Stop text editing mode
    /// Whether there is a selected item.
    fn has_current_item(&self) -> (b: bool)
        ensures
            b == self@.current_control() is Some,
    {
        self.selected_category < self.pages.len() && self.selected_item
            < self.pages[self.selected_category].items.len()
    }

    /// The currently selected page
    pub fn current_page(&self) -> (page: Option<&SettingsPage>)
        ensures
            match page {
                Some(p) => self@.selected_category < self@.pages.len() && p@ == self@.pages[self@.selected_category as int],
                None => self@.selected_category >= self@.pages.len(),
            },
    {
        if self.selected_category < self.pages.len() {
            Some(&self.pages[self.selected_category])
        } else {
            None
        }
    }

    /// The currently selected item
    pub fn current_item(&self) -> (item: Option<&SettingItem>)
        ensures
            match item {
                Some(it) => self@.current_item() == Some(it@),
                None => self@.current_control() is None,
            },
    {
        if self.has_current_item() {
            Some(&self.pages[self.selected_category].items[self.selected_item])
        } else {
            None
        }
    }

    /// Check if the current item is a TextList
    pub fn is_text_list(&self) -> (b: bool)
        ensures
            b == (self@.current_control() matches Some(ControlModel::TextList(_))),
    {
        match self.current_item() {
            Some(item) => match &item.control {
                SettingControl::TextList(_) => true,
                _ => false,
            },
            None => false,
        }
    }

    /// Start text editing mode for TextList controls
    pub fn start_editing(&mut self)
        ensures
            final(self)@ == if old(self)@.current_control() matches Some(ControlModel::TextList(_)) {
                SettingsModel { editing_text: true, ..old(self)@ }
            } else {
                old(self)@
            },
    {
        if self.is_text_list() {
            self.editing_text = true;
        }
        assert(self@ =~= (if old(self)@.current_control() matches Some(ControlModel::TextList(_)) {
            SettingsModel { editing_text: true, ..old(self)@ }
        } else {
            old(self)@
        }));
    }

    /// Puts `it` in place of the selected item and returns the item that
    /// was there.
    fn swap_current_item(&mut self, it: SettingItem) -> (prev: SettingItem)
        requires
            old(self)@.current_item() is Some,
        ensures
            Some(prev@) == old(self)@.current_item(),
            final(self)@ == old(self)@.with_current_item(it@),
    {
        let ghost m = self@;
        let p = self.selected_category;
        let i = self.selected_item;
        let mut pages: Vec<SettingsPage> = Vec::new();
        core::mem::swap(&mut pages, &mut self.pages);
        let mut page = pages.remove(p);
        let mut items: Vec<SettingItem> = Vec::new();
        core::mem::swap(&mut items, &mut page.items);
        let ghost iv = items@;
        let ghost new_item = it@;
        let prev = items.remove(i);
        items.insert(i, it);
        page.items = items;
        pages.insert(p, page);
        self.pages = pages;
        assert(self@.pages[p as int] =~= m.pages[p as int].update(i as int, new_item));
        assert(self@.pages =~= m.pages.update(p as int, m.pages[p as int].update(i as int, new_item)));
        assert(self@ =~= m.with_current_item(new_item));
        prev
    }

    /// Applies the edit `op` to the selected item's text list, if it is one.
    fn text_op(&mut self, op: TextListOp)
        requires
            old(self)@.can_text_op(op),
        ensures
            final(self)@ == old(self)@.after_text_op(op),
    {
        if !self.has_current_item() {
            return;
        }
        let ghost m = self@;
        let placeholder = SettingItem {
            path: String::new(),
            control: SettingControl::Complex { kind: String::new() },
            default: None,
            modified: false,
        };
        let mut item = self.swap_current_item(placeholder);
        let ghost before = item@;
        let mut control = SettingControl::Complex { kind: String::new() };
        core::mem::swap(&mut control, &mut item.control);
        let edited = match control {
            SettingControl::TextList(mut list) => {
                apply_text_op(&mut list, op);
                SettingControl::TextList(list)
            },
            other => other,
        };
        item.control = edited;
        let ghost mid = self@;
        let ghost e = item@;
        let _ = self.swap_current_item(item);
        proof {
            let p = m.selected_category as int;
            let i = m.selected_item as int;
            assert(mid.pages[p].update(i, e) =~= m.pages[p].update(i, e));
            assert(self@.pages =~= m.pages.update(p, m.pages[p].update(i, e)));
            match m.current_control() {
                Some(ControlModel::TextList(_)) => {
                    assert(e =~= (ItemModel { control: e.control, ..m.pages[p][i] }));
                },
                _ => {
                    assert(e =~= m.pages[p][i]);
                    assert(m.pages[p].update(i, e) =~= m.pages[p]);
                    assert(m.pages.update(p, m.pages[p].update(i, e)) =~= m.pages);
                },
            }
        }
        assert(self@ =~= m.after_text_op(op));
    }

    /// Reset the current item to its default value: record the default as
    /// a pending change and set the control from it.
    pub fn reset_current_to_default(&mut self)
        ensures
            final(self)@ == old(self)@.after_reset(),
    {
        let ghost m = self@;
        if !self.has_current_item() {
            return;
        }
        let info = match &self.pages[self.selected_category].items[self.selected_item].default {
            Some(d) => Some(
                (self.pages[self.selected_category].items[self.selected_item].path.clone(), d.deep_copy()),
            ),
            None => None,
        };
        match info {
            Some((path, default)) => {
                let copy = default.deep_copy();
                self.set_pending_change(path.as_str(), copy);
                let ghost m1 = self@;
                assert(m1.pages == m.pages);
                let placeholder = SettingItem {
                    path: String::new(),
                    control: SettingControl::Complex { kind: String::new() },
                    default: None,
                    modified: false,
                };
                let mut item = self.swap_current_item(placeholder);
                update_control_from_value(&mut item.control, &default);
                item.modified = false;
                let ghost mid = self@;
                let ghost e = item@;
                let _ = self.swap_current_item(item);
                proof {
                    let p = m.selected_category as int;
                    let i = m.selected_item as int;
                    assert(mid.pages[p].update(i, e) =~= m1.pages[p].update(i, e));
                    assert(self@.pages =~= m1.pages.update(p, m1.pages[p].update(i, e)));
                }
                assert(self@ =~= m.after_reset());
            },
            None => {},
        }
    }

    /// Insert a character into the current TextList
    pub fn text_insert(&mut self, c: char)
        requires
            old(self)@.can_text_op(TextListOp::Insert(c)),
        ensures
            final(self)@ == old(self)@.after_text_op(TextListOp::Insert(c)),
    {
        self.text_op(TextListOp::Insert(c));
    }

    /// Backspace in the current TextList
    pub fn text_backspace(&mut self)
        requires
            old(self)@.can_text_op(TextListOp::Backspace),
        ensures
            final(self)@ == old(self)@.after_text_op(TextListOp::Backspace),
    {
        self.text_op(TextListOp::Backspace);
    }

    /// Move cursor left in the current TextList
    pub fn text_move_left(&mut self)
        ensures
            final(self)@ == old(self)@.after_text_op(TextListOp::MoveLeft),
    {
        self.text_op(TextListOp::MoveLeft);
    }

    /// Move cursor right in the current TextList
    pub fn text_move_right(&mut self)
        ensures
            final(self)@ == old(self)@.after_text_op(TextListOp::MoveRight),
    {
        self.text_op(TextListOp::MoveRight);
    }

    /// Move focus to previous item in TextList
    pub fn text_focus_prev(&mut self)
        requires
            old(self)@.can_text_op(TextListOp::FocusPrev),
        ensures
            final(self)@ == old(self)@.after_text_op(TextListOp::FocusPrev),
    {
        self.text_op(TextListOp::FocusPrev);
    }

    /// Move focus to next item in TextList
    pub fn text_focus_next(&mut self)
        requires
            old(self)@.can_text_op(TextListOp::FocusNext),
        ensures
            final(self)@ == old(self)@.after_text_op(TextListOp::FocusNext),
    {
        self.text_op(TextListOp::FocusNext);
    }

    pub fn stop_editing(&mut self)
        ensures
            final(self)@ == (SettingsModel { editing_text: false, ..old(self)@ }),
    {
        self.editing_text = false;
        assert(self@ =~= (SettingsModel { editing_text: false, ..old(self)@ }));
    }

    /// Get list of pending changes for display, one `path: value` line per change
    pub fn get_change_descriptions(&self) -> (descs: Vec<String>)
        ensures
            descs.len() == self@.pending.len(),
            forall|i: int| 0 <= i < descs.len() ==> #[trigger] descs@[i]@ == change_text(self@.pending[i]),
    {
        let mut descs: Vec<String> = Vec::new();
        let mut i: usize = 0;
        while i < self.pending_changes.entries.len()
            invariant
                i <= self.pending_changes.entries.len(),
                self@.pending == fields_view(self.pending_changes.entries@),
                descs.len() == i,
                forall|j: int| 0 <= j < i ==> #[trigger] descs@[j]@ == change_text(self@.pending[j]),
            decreases self.pending_changes.entries.len() - i,
        {
            let (path, value) = &self.pending_changes.entries[i];
            let d = change_description(path, value);
            assert(self@.pending[i as int] == (path@, value@));
            descs.push(d);
            i = i + 1;
        }
        descs
    }

    /// The focus that `update_focus_states` gives the control of item
    /// `item_idx` on page `page_idx`.
    pub fn item_focus(&self, page_idx: usize, item_idx: usize) -> (f: FocusState)
        ensures
            f == item_focus_of(self@, page_idx as int, item_idx as int),
    {
        if !self.category_focus && page_idx == self.selected_category && item_idx
            == self.selected_item {
            FocusState::Focused
        } else {
            FocusState::Normal
        }
    }

    /// Update focus states for rendering: the control of the selected item
    /// is focused when the settings panel has the focus, every other control
    /// is not; complex settings are left as they are.
    pub fn update_focus_states(&mut self)
        ensures
            final(self)@ == (SettingsModel { pages: focused_pages(old(self)@), ..old(self)@ }),
    {
        let ghost m = self@;
        let mut rest: Vec<SettingsPage> = Vec::new();
        core::mem::swap(&mut rest, &mut self.pages);
        let ghost orig = rest@;
        let total = rest.len();
        assert(total == orig.len());
        let mut out: Vec<SettingsPage> = Vec::new();
        let mut p: usize = 0;
        while rest.len() > 0
            invariant
                p + rest.len() == orig.len(),
                orig.len() <= usize::MAX,
                rest@ == orig.subrange(p as int, orig.len() as int),
                out.len() == p,
                m.pages == orig.map_values(|pg: SettingsPage| pg@),
                m.category_focus == self.category_focus,
                m.selected_category == self.selected_category,
                m.selected_item == self.selected_item,
                forall|q: int| 0 <= q < p ==> (#[trigger] out@[q])@ == focused_pages(m)[q],
            decreases rest.len(),
        {
            let ghost rv = rest@;
            let mut page = rest.remove(0);
            assert(rest@ =~= rv.subrange(1, rv.len() as int));
            assert(page == orig[p as int]);
            let mut items: Vec<SettingItem> = Vec::new();
            core::mem::swap(&mut items, &mut page.items);
            let ghost before = items@;
            let focused = focus_items(
                items,
                p,
                self.category_focus,
                self.selected_category,
                self.selected_item,
            );
            page.items = focused;
            assert(page@ =~= focused_pages(m)[p as int]) by {
                assert(m.pages[p as int] == before.map_values(|i: SettingItem| i@));
            }
            out.push(page);
            p = p + 1;
            assert(rest@ =~= orig.subrange(p as int, orig.len() as int));
        }
        self.pages = out;
        assert(self@.pages =~= focused_pages(m));
        assert(self@ =~= (SettingsModel { pages: focused_pages(m), ..m }));
    }
}

/// The items with each control's focus set as `update_focus_states` sets it
/// on page `page_idx`.
fn focus_items(
    items: Vec<SettingItem>,
    page_idx: usize,
    category_focus: bool,
    selected_category: usize,
    selected_item: usize,
) -> (out: Vec<SettingItem>)
    ensures
        out@.len() == items@.len(),
        forall|i: int|
            0 <= i < items@.len() ==> (#[trigger] out@[i])@ == (ItemModel {
                control: control_with_focus(
                    items@[i].control@,
                    focus_at(category_focus, selected_category, selected_item, page_idx as int, i),
                ),
                ..items@[i]@
            }),
{
    let ghost orig = items@;
    let total = items.len();
    assert(total == orig.len());
    let mut rest = items;
    let mut out: Vec<SettingItem> = Vec::new();
    let mut i: usize = 0;
    while rest.len() > 0
        invariant
            i + rest.len() == orig.len(),
            orig.len() <= usize::MAX,
            rest@ == orig.subrange(i as int, orig.len() as int),
            out.len() == i,
            forall|k: int|
                0 <= k < i ==> (#[trigger] out@[k])@ == (ItemModel {
                    control: control_with_focus(
                        orig[k].control@,
                        focus_at(category_focus, selected_category, selected_item, page_idx as int, k),
                    ),
                    ..orig[k]@
                }),
        decreases rest.len(),
    {
        let ghost rv = rest@;
        let mut item = rest.remove(0);
        assert(rest@ =~= rv.subrange(1, rv.len() as int));
        assert(item == orig[i as int]);
        let focus = if !category_focus && page_idx == selected_category && i == selected_item {
            FocusState::Focused
        } else {
            FocusState::Normal
        };
        set_control_focus(&mut item.control, focus);
        out.push(item);
        i = i + 1;
        assert(rest@ =~= orig.subrange(i as int, orig.len() as int));
    }
    out
}

/// The focus of the control of item `item_idx` on page `page_idx`, for the
/// given selection: focused exactly when the settings panel has the focus
/// and that item is selected.
pub open spec fn focus_at(category_focus: bool, selected_category: usize, selected_item: usize, page_idx: int, item_idx: int) -> FocusState {
    if !category_focus && page_idx == selected_category && item_idx == selected_item {
        FocusState::Focused
    } else {
        FocusState::Normal
    }
}

/// Item `i` of page `p` with its control's focus set by `update_focus_states`.
pub open spec fn focused_item(m: SettingsModel, p: int, i: int) -> ItemModel {
    ItemModel {
        control: control_with_focus(m.pages[p][i].control, item_focus_of(m, p, i)),
        ..m.pages[p][i]
    }
}

/// The pages after `update_focus_states`.
pub open spec fn focused_pages(m: SettingsModel) -> Seq<Seq<ItemModel>> {
    Seq::new(m.pages.len(), |p: int| Seq::new(m.pages[p].len(), |i: int| focused_item(m, p, i)))
}

/// The focus of the control of item `item_idx` on page `page_idx`: focused
/// exactly when the settings panel has the focus and that item is selected.
pub open spec fn item_focus_of(m: SettingsModel, page_idx: int, item_idx: int) -> FocusState {
    focus_at(m.category_focus, m.selected_category, m.selected_item, page_idx, item_idx)
}

/// After `ensure_visible` in the settings panel the selected item lies in
/// the viewport of `visible_items` rows starting at `scroll_offset`.
pub proof fn law_ensure_visible_shows_selection(m: SettingsModel)
    requires
        !m.category_focus,
        m.visible_items > 0,
        m.can_ensure_visible(),
    ensures
        m.after_ensure_visible().scroll_offset <= m.selected_item,
        m.selected_item < m.after_ensure_visible().scroll_offset + m.visible_items,
{
}

/// Moving to the next option of the confirmation dialog and back (or back
/// and then on) returns to the same option, and the selection stays among
/// the three options.
pub proof fn law_dialog_cycle(m: SettingsModel)
    requires
        m.confirm_dialog_selection < 3,
    ensures
        m.after_dialog_next().after_dialog_prev() == m,
        m.after_dialog_prev().after_dialog_next() == m,
        m.after_dialog_next().confirm_dialog_selection < 3,
        m.after_dialog_prev().confirm_dialog_selection < 3,
{
    assert(m.after_dialog_next().after_dialog_prev() =~= m);
    assert(m.after_dialog_prev().after_dialog_next() =~= m);
}

/// Moving through items keeps the selection on an item of the page, and
/// moving through categories keeps it on a category.
pub proof fn law_selection_stays_in_page(m: SettingsModel)
    requires
        m.can_select_next(),
        m.can_select_prev(),
        m.category_focus ==> m.selected_category < m.pages.len(),
        !m.category_focus ==> m.selected_item < m.current_page_len(),
    ensures
        m.after_select_next().category_focus ==> m.after_select_next().selected_category
            < m.pages.len(),
        !m.after_select_next().category_focus ==> m.after_select_next().selected_item
            < m.after_select_next().current_page_len(),
        m.after_select_prev().category_focus ==> m.after_select_prev().selected_category
            < m.pages.len(),
        !m.after_select_prev().category_focus ==> m.after_select_prev().selected_item
            < m.after_select_prev().current_page_len(),
{
}

proof fn lemma_pending_map_filter(s: Seq<(Seq<char>, JsonModel)>, path: Seq<char>)
    requires
        paths_unique(s),
    ensures
        pending_map(s.filter(path_other_than(path))) == pending_map(s).remove(path),
        paths_unique(s.filter(path_other_than(path))),
        forall|e: (Seq<char>, JsonModel)| s.filter(path_other_than(path)).contains(e) ==> s.contains(e),
    decreases s.len(),
{
    reveal_with_fuel(Seq::filter, 1);
    if s.len() == 0 {
        assert(pending_map(s) =~= pending_map(s).remove(path));
    } else {
        let d = s.drop_last();
        assert(paths_unique(d)) by {
            assert forall|i: int, j: int| 0 <= i < d.len() && 0 <= j < d.len() && i != j implies #[trigger] d[i].0 != #[trigger] d[j].0 by {
                assert(d[i] == s[i] && d[j] == s[j]);
            }
        }
        lemma_pending_map_filter(d, path);
        let last = s.last();
        let fd = d.filter(path_other_than(path));
        lemma_pending_map_keys(d);
        assert(!pending_map(d).contains_key(last.0)) by {
            if pending_map(d).contains_key(last.0) {
                let q = choose|q: int| 0 <= q < d.len() && d[q].0 == last.0;
                assert(s[q].0 == s[s.len() - 1].0);
            }
        }
        if path_other_than(path)(last) {
            assert(s.filter(path_other_than(path)) == fd.push(last));
            assert(pending_map(fd.push(last)) == pending_map(fd).insert(last.0, last.1)) by {
                assert(fd.push(last).drop_last() =~= fd);
            }
            assert(pending_map(s).remove(path) =~= pending_map(d).remove(path).insert(last.0, last.1));
            assert forall|i: int, j: int| 0 <= i < fd.push(last).len() && 0 <= j < fd.push(last).len() && i != j implies #[trigger] fd.push(last)[i].0 != #[trigger] fd.push(last)[j].0 by {
                if i == fd.len() || j == fd.len() {
                    let k = if i == fd.len() { j } else { i };
                    assert(fd.contains(fd[k]));
                    assert(d.contains(fd[k]));
                    let q = choose|q: int| 0 <= q < d.len() && d[q] == fd[k];
                    assert(s[q] == d[q]);
                } else {
                    assert(fd.push(last)[i] == fd[i] && fd.push(last)[j] == fd[j]);
                }
            }
            assert forall|e: (Seq<char>, JsonModel)| fd.push(last).contains(e) implies s.contains(e) by {
                let q = choose|q: int| 0 <= q < fd.push(last).len() && fd.push(last)[q] == e;
                if q == fd.len() {
                    assert(s[s.len() - 1] == e);
                } else {
                    assert(fd.contains(e));
                    assert(d.contains(e));
                    let r = choose|r: int| 0 <= r < d.len() && d[r] == e;
                    assert(s[r] == e);
                }
            }
        } else {
            assert(s.filter(path_other_than(path)) == fd);
            assert(pending_map(s).remove(path) =~= pending_map(d).remove(path));
            assert forall|e: (Seq<char>, JsonModel)| fd.contains(e) implies s.contains(e) by {
                assert(d.contains(e));
                let r = choose|r: int| 0 <= r < d.len() && d[r] == e;
                assert(s[r] == e);
            }
        }
    }
}

proof fn lemma_pending_map_keys(s: Seq<(Seq<char>, JsonModel)>)
    ensures
        forall|k: Seq<char>| #[trigger] pending_map(s).contains_key(k) ==> exists|q: int| 0 <= q < s.len() && s[q].0 == k,
    decreases s.len(),
{
    if s.len() > 0 {
        lemma_pending_map_keys(s.drop_last());
        assert forall|k: Seq<char>| #[trigger] pending_map(s).contains_key(k) implies exists|q: int| 0 <= q < s.len() && s[q].0 == k by {
            if k == s.last().0 {
                assert(s[s.len() - 1].0 == k);
            } else {
                assert(pending_map(s.drop_last()).contains_key(k));
                let q = choose|q: int| 0 <= q < s.drop_last().len() && s.drop_last()[q].0 == k;
                assert(s[q].0 == k);
            }
        }
    }
}

/// Recording a change works like a map from path to value: a value equal
/// to the original configuration removes the path's pending change, any
/// other value becomes the path's pending value, and other paths are not
/// touched; no path ever has two pending changes.
pub proof fn law_pending_changes_are_a_map(m: SettingsModel, path: Seq<char>, value: JsonModel, unchanged: bool)
    requires
        paths_unique(m.pending),
    ensures
        paths_unique(m.after_pending_change(path, value, unchanged).pending),
        pending_map(m.after_pending_change(path, value, unchanged).pending) == if unchanged {
            pending_map(m.pending).remove(path)
        } else {
            pending_map(m.pending).insert(path, value)
        },
{
    lemma_pending_map_filter(m.pending, path);
    let others = m.pending.filter(path_other_than(path));
    if !unchanged {
        let t = others.push((path, value));
        assert(t.drop_last() =~= others);
        assert(pending_map(t) =~= pending_map(m.pending).insert(path, value));
        assert forall|i: int, j: int| 0 <= i < t.len() && 0 <= j < t.len() && i != j implies #[trigger] t[i].0 != #[trigger] t[j].0 by {
            if i == others.len() || j == others.len() {
                let k = if i == others.len() { j } else { i };
                assert(t[k] == others[k]);
                m.pending.lemma_filter_pred(path_other_than(path), k);
            } else {
                assert(t[i] == others[i] && t[j] == others[j]);
            }
        }
    }
}

/// `value` equals (as serde_json compares values) the value that `path`
/// names in the original configuration `original`.
pub open spec fn same_as_original(original: JsonModel, path: Seq<char>, value: JsonModel) -> bool {
    match json_pointer(original, path) {
        Some(o) => json_same(o, value),
        None => false,
    }
}

/// Every pending change records a value that differs from the original
/// configuration at its path, and no path has two.
pub open spec fn pending_consistent(m: SettingsModel) -> bool {
    &&& paths_unique(m.pending)
    &&& forall|i: int|
        0 <= i < m.pending.len() ==> !same_as_original(m.original, (#[trigger] m.pending[i]).0, m.pending[i].1)
}

/// The pending changes are exactly the settings that differ from the
/// original configuration: recording a value keeps every pending change
/// different from the original, and afterwards the path has a pending
/// change, holding that value, exactly when the value differs from the
/// original configuration at that path (so that there are then changes).
pub proof fn law_pending_changes_differ_from_original(m: SettingsModel, path: Seq<char>, value: JsonModel)
    requires
        pending_consistent(m),
    ensures
        pending_consistent(m.after_set_pending(path, value)),
        pending_map(m.after_set_pending(path, value).pending).contains_key(path) <==> !same_as_original(m.original, path, value),
        pending_map(m.after_set_pending(path, value).pending).contains_key(path) ==> pending_map(
            m.after_set_pending(path, value).pending,
        )[path] == value,
        !same_as_original(m.original, path, value) ==> m.after_set_pending(path, value).pending.len()
            > 0,
{
    let unchanged = same_as_original(m.original, path, value);
    law_pending_changes_are_a_map(m, path, value, unchanged);
    lemma_pending_map_filter(m.pending, path);
    let others = m.pending.filter(path_other_than(path));
    let n = m.after_set_pending(path, value);
    assert forall|i: int| 0 <= i < others.len() implies !same_as_original(m.original, (#[trigger] others[i]).0, others[i].1) by {
        assert(others.contains(others[i]));
        assert(m.pending.contains(others[i]));
        let q = choose|q: int| 0 <= q < m.pending.len() && m.pending[q] == others[i];
        assert(!same_as_original(m.original, m.pending[q].0, m.pending[q].1));
    }
    if !unchanged {
        let t = others.push((path, value));
        assert forall|i: int| 0 <= i < t.len() implies !same_as_original(m.original, (#[trigger] t[i]).0, t[i].1) by {
            if i < others.len() {
                assert(t[i] == others[i]);
            }
        }
    }
    assert(n.original == m.original);
}

/// Moving to the next item of the page and back returns to the same item,
/// and moving to the next category and back returns to the same category.
pub proof fn law_select_next_then_prev(m: SettingsModel)
    requires
        m.can_select_next(),
        m.after_select_next().can_select_prev(),
    ensures
        !m.category_focus && m.selected_category < m.pages.len() && m.selected_item + 1
            < m.current_page_len() ==> {
            let r = m.after_select_next().after_select_prev();
            &&& r.selected_item == m.selected_item
            &&& r.selected_category == m.selected_category
            &&& !r.category_focus
        },
        m.category_focus && m.selected_category + 1 < m.pages.len() ==> {
            let r = m.after_select_next().after_select_prev();
            &&& r.selected_category == m.selected_category
            &&& r.selected_item == 0
            &&& r.category_focus
        },
{
}

/// The string elements of an array, in order.
pub open spec fn array_strings(items: Seq<JsonModel>) -> Seq<Seq<char>>
    decreases items.len(),
{
    if items.len() == 0 {
        Seq::empty()
    } else {
        let rest = array_strings(items.drop_last());
        match items.last() {
            JsonModel::Str(s) => rest.push(s),
            _ => rest,
        }
    }
}

/// Update a text list control from a JSON value: an array sets the items to
/// its string elements, in order; any other value leaves the control as it is.
pub fn update_text_list_from_value(state: &mut TextListState, value: &JsonValue)
    ensures
        final(state)@ == (match value@ {
            JsonModel::Array(items) => TextListModel { items: array_strings(items), ..old(state)@ },
            _ => old(state)@,
        }),
{
    match value {
        JsonValue::Array(elements) => {
            proof {
                lemma_array_model(*elements);
            }
            let ghost ev = elements@.map_values(|v: JsonValue| v@);
            let mut items: Vec<String> = Vec::new();
            let mut i: usize = 0;
            while i < elements.len()
                invariant
                    i <= elements.len(),
                    ev == elements@.map_values(|v: JsonValue| v@),
                    items@.map_values(|s: String| s@) == array_strings(ev.take(i as int)),
                decreases elements.len() - i,
            {
                proof {
                    assert(ev.take(i + 1).drop_last() =~= ev.take(i as int));
                    assert(ev.take(i + 1).last() == elements@[i as int]@);
                }
                match &elements[i] {
                    JsonValue::Str(s) => {
                        let ghost before = items@;
                        items.push(s.clone());
                        assert(items@.map_values(|s: String| s@) =~= before.map_values(
                            |s: String| s@,
                        ).push(s@));
                    },
                    _ => {},
                }
                i = i + 1;
            }
            assert(ev.take(elements.len() as int) =~= ev);
            state.items = items;
        },
        _ => {},
    }
}

/// Update a map control from a JSON value: an object sets the entries to
/// its fields, sorted by key; any other value leaves the control as it is.
pub fn update_map_from_value(state: &mut MapState, value: &JsonValue)
    ensures
        final(state)@ == (match value@ {
            JsonModel::Object(fields) => MapModel { entries: sort_by_key(fields), ..old(state)@ },
            _ => old(state)@,
        }),
{
    match value {
        JsonValue::Object(fields) => {
            proof {
                lemma_object_model(*fields);
            }
            let copy = copy_fields(fields);
            state.entries = sort_entries(copy);
        },
        _ => {},
    }
}

/// An edit of a text list made through the settings panel.
#[derive(Debug, Clone, Copy, PartialEq, Eq, Structural)]
pub enum TextListOp {
    Insert(char),
    Backspace,
    MoveLeft,
    MoveRight,
    FocusPrev,
    FocusNext,
}

/// The text list after the edit `op`.
pub open spec fn text_op_result(m: TextListModel, op: TextListOp) -> TextListModel {
    match op {
        TextListOp::Insert(c) => m.after_insert(c),
        TextListOp::Backspace => m.after_backspace(),
        TextListOp::MoveLeft => m.after_move_left(),
        TextListOp::MoveRight => m.after_move_right(),
        TextListOp::FocusPrev => m.after_focus_prev(),
        TextListOp::FocusNext => m.after_focus_next(),
    }
}

/// The edit `op` does not panic on the text list.
pub open spec fn text_op_allowed(m: TextListModel, op: TextListOp) -> bool {
    match op {
        TextListOp::Insert(_) => m.can_insert(),
        TextListOp::Backspace => m.can_backspace(),
        TextListOp::MoveLeft => true,
        TextListOp::MoveRight => true,
        TextListOp::FocusPrev => m.can_focus_prev(),
        TextListOp::FocusNext => m.can_focus_next(),
    }
}

/// Applies the edit `op` to a text list.
pub fn apply_text_op(list: &mut TextListState, op: TextListOp)
    requires
        text_op_allowed(old(list)@, op),
    ensures
        final(list)@ == text_op_result(old(list)@, op),
{
    match op {
        TextListOp::Insert(c) => list.insert(c),
        TextListOp::Backspace => list.backspace(),
        TextListOp::MoveLeft => list.move_left(),
        TextListOp::MoveRight => list.move_right(),
        TextListOp::FocusPrev => list.focus_prev(),
        TextListOp::FocusNext => list.focus_next(),
    }
}

/// The configuration `v` with the pending changes applied in order: each
/// replaces the value its path names, when the path names one.
pub open spec fn apply_pending(v: JsonModel, pending: Seq<(Seq<char>, JsonModel)>) -> JsonModel
    decreases pending.len(),
{
    if pending.len() == 0 {
        v
    } else {
        let w = apply_pending(v, pending.drop_last());
        match pointer_replace(w, pending.last().0, pending.last().1) {
            Some(x) => x,
            None => w,
        }
    }
}

/// Position of the first option equal to `t`, from position `k` on.
pub open spec fn option_index(options: Seq<Seq<char>>, t: Seq<char>, k: int) -> Option<usize>
    decreases options.len() - k,
{
    if k < 0 || k >= options.len() {
        None
    } else if options[k] == t {
        Some(k as usize)
    } else {
        option_index(options, t, k + 1)
    }
}

/// What setting a control from a JSON value leaves: a boolean turns a
/// toggle on or off, an integer that fits in `i64` sets a number input, a
/// string that is one of a dropdown's options selects its first occurrence,
/// a string sets a text input (with the cursor after its last character),
/// an array sets a text list's items to its strings and an object sets a
/// map's entries to its fields sorted by key. Any other combination, and a
/// complex setting, leave the control as it is.
pub open spec fn control_after_value(c: ControlModel, v: JsonModel) -> ControlModel {
    match c {
        ControlModel::Toggle { checked, focus } => match v {
            JsonModel::Bool(b) => ControlModel::Toggle { checked: b, focus },
            _ => c,
        },
        ControlModel::Number { value, focus } => match v {
            JsonModel::Number(t) => match number_as_i64(t) {
                Some(n) => ControlModel::Number { value: n, focus },
                None => c,
            },
            _ => c,
        },
        ControlModel::Dropdown { options, selected, focus } => match v {
            JsonModel::Str(t) => match option_index(options, t, 0) {
                Some(i) => ControlModel::Dropdown { options, selected: i, focus },
                None => c,
            },
            _ => c,
        },
        ControlModel::Text { value, cursor, focus } => match v {
            JsonModel::Str(t) => ControlModel::Text { value: t, cursor: t.len(), focus },
            _ => c,
        },
        ControlModel::TextList(m) => match v {
            JsonModel::Array(items) => ControlModel::TextList(
                TextListModel { items: array_strings(items), ..m },
            ),
            _ => c,
        },
        ControlModel::KeyValue(m) => match v {
            JsonModel::Object(fields) => ControlModel::KeyValue(
                MapModel { entries: sort_by_key(fields), ..m },
            ),
            _ => c,
        },
        ControlModel::Complex { .. } => c,
    }
}

proof fn lemma_option_index(options: Seq<Seq<char>>, t: Seq<char>, k: int)
    requires
        0 <= k,
        options.len() <= usize::MAX,
    ensures
        option_index(options, t, k) matches Some(i) ==> k <= i < options.len() && options[i as int]
            == t && forall|j: int| k <= j < i ==> options[j] != t,
        option_index(options, t, k) is None ==> forall|j: int| k <= j < options.len() ==> options[j]
            != t,
    decreases options.len() - k,
{
    if k < options.len() && options[k] != t {
        lemma_option_index(options, t, k + 1);
    }
}

/// Setting a dropdown from a string selects the first option equal to it,
/// and leaves the selection as it was when no option equals it; the
/// options and the focus never change.
pub proof fn law_dropdown_selects_first_match(options: Seq<Seq<char>>, selected: usize, focus: FocusState, t: Seq<char>)
    requires
        options.len() <= usize::MAX,
    ensures
        control_after_value(ControlModel::Dropdown { options, selected, focus }, JsonModel::Str(t)) matches ControlModel::Dropdown { options: o, selected: s, focus: f }
            && o == options && f == focus && (if exists|j: int| 0 <= j < options.len() && options[j] == t {
            s < options.len() && options[s as int] == t && forall|j: int| 0 <= j < s ==> options[j] != t
        } else {
            s == selected
        }),
{
    lemma_option_index(options, t, 0);
}

/// Update a control's state from a JSON value.
pub fn update_control_from_value(control: &mut SettingControl, value: &JsonValue)
    ensures
        final(control)@ == control_after_value(old(control)@, value@),
{
    let ghost c0 = control@;
    let mut c = SettingControl::Complex { kind: String::new() };
    core::mem::swap(&mut c, control);
    assert(c@ == c0);
    let updated = match c {
        SettingControl::Toggle(mut s) => {
            if let JsonValue::Bool(b) = value {
                s.checked = *b;
            }
            assert(SettingControl::Toggle(s)@ =~= control_after_value(c0, value@));
            SettingControl::Toggle(s)
        },
        SettingControl::Number(mut s) => {
            if let JsonValue::Number(t) = value {
                if let Some(n) = parse_i64(t.as_str()) {
                    s.value = n;
                }
            }
            assert(SettingControl::Number(s)@ =~= control_after_value(c0, value@));
            SettingControl::Number(s)
        },
        SettingControl::Dropdown(mut s) => {
            if let JsonValue::Str(t) = value {
                let ghost opts = s.options@.map_values(|o: String| o@);
                let mut k: usize = 0;
                while k < s.options.len()
                    invariant
                        k <= s.options.len(),
                        opts == s.options@.map_values(|o: String| o@),
                        option_index(opts, t@, 0) == option_index(opts, t@, k as int),
                    ensures
                        k <= s.options.len(),
                        option_index(opts, t@, 0) == option_index(opts, t@, k as int),
                        k < s.options.len() ==> opts[k as int] == t@,
                    decreases s.options.len() - k,
                {
                    if crate::json::chars_equal(s.options[k].as_str(), t.as_str()) {
                        break;
                    }
                    k = k + 1;
                }
                if k < s.options.len() {
                    s.selected = k;
                }
            }
            assert(SettingControl::Dropdown(s)@ =~= control_after_value(c0, value@));
            SettingControl::Dropdown(s)
        },
        SettingControl::Text(mut s) => {
            if let JsonValue::Str(t) = value {
                s.value = t.clone();
                s.cursor = crate::text::char_count(t.as_str());
            }
            assert(SettingControl::Text(s)@ =~= control_after_value(c0, value@));
            SettingControl::Text(s)
        },
        SettingControl::TextList(mut s) => {
            update_text_list_from_value(&mut s, value);
            assert(SettingControl::TextList(s)@ =~= control_after_value(c0, value@));
            SettingControl::TextList(s)
        },
        SettingControl::KeyValue(mut s) => {
            update_map_from_value(&mut s, value);
            assert(SettingControl::KeyValue(s)@ =~= control_after_value(c0, value@));
            SettingControl::KeyValue(s)
        },
        SettingControl::Complex { kind } => SettingControl::Complex { kind },
    };
    *control = updated;
}

} // verus!

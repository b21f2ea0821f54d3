//! Setting items: the path of each setting and the control that edits it,
//! grouped into pages, one per category.
use vstd::prelude::*;

use crate::json::{
    all_digits, digits_value, is_digit, lemma_digits_nonneg, lemma_digits_prefix, JsonModel,
    JsonValue,
};
use crate::text::chars_of;
use crate::view::controls::map_input::{MapModel, MapState};
use crate::view::controls::text_list::{TextListModel, TextListState};
use crate::view::controls::FocusState;

verus! {

/// State of an on/off toggle control
#[derive(Debug, Clone)]
pub struct ToggleState {
    /// Whether the toggle is on
    pub checked: bool,
    /// Focus state
    pub focus: FocusState,
}

/// State of a number input control
#[derive(Debug, Clone)]
pub struct NumberInputState {
    /// The number shown
    pub value: i64,
    /// Focus state
    pub focus: FocusState,
}

/// State of a dropdown control
#[derive(Debug, Clone)]
pub struct DropdownState {
    /// The options to choose from
    pub options: Vec<String>,
    /// Index of the selected option
    pub selected: usize,
    /// Focus state
    pub focus: FocusState,
}

/// State of a single-line text input control
#[derive(Debug, Clone)]
pub struct TextInputState {
    /// The text
    pub value: String,
    /// Cursor position (in characters) within the text
    pub cursor: usize,
    /// Focus state
    pub focus: FocusState,
}

/// The control that edits a setting
#[derive(Debug, Clone)]
pub enum SettingControl {
    Toggle(ToggleState),
    Number(NumberInputState),
    Dropdown(DropdownState),
    Text(TextInputState),
    TextList(TextListState),
    KeyValue(MapState),
    /// A setting too complex for a control of its own; edited elsewhere
    Complex { kind: String },
}

/// Abstract value of a [`SettingControl`].
#[verifier::ext_equal]
pub enum ControlModel {
    Toggle { checked: bool, focus: FocusState },
    Number { value: i64, focus: FocusState },
    Dropdown { options: Seq<Seq<char>>, selected: usize, focus: FocusState },
    Text { value: Seq<char>, cursor: nat, focus: FocusState },
    TextList(TextListModel),
    KeyValue(MapModel),
    Complex { kind: Seq<char> },
}

impl View for SettingControl {
    type V = ControlModel;

    open spec fn view(&self) -> ControlModel {
        match *self {
            SettingControl::Toggle(t) => ControlModel::Toggle { checked: t.checked, focus: t.focus },
            SettingControl::Number(n) => ControlModel::Number { value: n.value, focus: n.focus },
            SettingControl::Dropdown(d) => ControlModel::Dropdown {
                options: d.options@.map_values(|o: String| o@),
                selected: d.selected,
                focus: d.focus,
            },
            SettingControl::Text(t) => ControlModel::Text {
                value: t.value@,
                cursor: t.cursor as nat,
                focus: t.focus,
            },
            SettingControl::TextList(l) => ControlModel::TextList(l@),
            SettingControl::KeyValue(m) => ControlModel::KeyValue(m@),
            SettingControl::Complex { kind } => ControlModel::Complex { kind: kind@ },
        }
    }
}

/// A setting: its JSON Pointer path in the configuration, its control, its
/// default value and whether it differs from that default
#[derive(Debug, Clone)]
pub struct SettingItem {
    /// JSON Pointer path of the setting
    pub path: String,
    /// The control that edits it
    pub control: SettingControl,
    /// The default value, if the setting has one
    pub default: Option<JsonValue>,
    /// Whether the value differs from the default
    pub modified: bool,
}

/// Abstract value of a [`SettingItem`].
#[verifier::ext_equal]
pub struct ItemModel {
    pub path: Seq<char>,
    pub control: ControlModel,
    pub default: Option<JsonModel>,
    pub modified: bool,
}

/// The model of an optional JSON value.
pub open spec fn opt_json(v: Option<JsonValue>) -> Option<JsonModel> {
    match v {
        Some(x) => Some(x@),
        None => None,
    }
}

impl View for SettingItem {
    type V = ItemModel;

    open spec fn view(&self) -> ItemModel {
        ItemModel {
            path: self.path@,
            control: self.control@,
            default: opt_json(self.default),
            modified: self.modified,
        }
    }
}

/// The settings of one category
#[derive(Debug, Clone)]
pub struct SettingsPage {
    /// The settings, in display order
    pub items: Vec<SettingItem>,
}

impl View for SettingsPage {
    type V = Seq<ItemModel>;

    open spec fn view(&self) -> Seq<ItemModel> {
        self.items@.map_values(|i: SettingItem| i@)
    }
}

/// The control with its focus set to `focus`; a complex setting has no
/// focus of its own and is left as it is.
pub open spec fn control_with_focus(c: ControlModel, focus: FocusState) -> ControlModel {
    match c {
        ControlModel::Toggle { checked, .. } => ControlModel::Toggle { checked, focus },
        ControlModel::Number { value, .. } => ControlModel::Number { value, focus },
        ControlModel::Dropdown { options, selected, .. } => ControlModel::Dropdown {
            options,
            selected,
            focus,
        },
        ControlModel::Text { value, cursor, .. } => ControlModel::Text { value, cursor, focus },
        ControlModel::TextList(m) => ControlModel::TextList(TextListModel { focus, ..m }),
        ControlModel::KeyValue(m) => ControlModel::KeyValue(MapModel { focus, ..m }),
        ControlModel::Complex { .. } => c,
    }
}

/// Sets the focus state of a control (complex settings have none).
pub fn set_control_focus(control: &mut SettingControl, focus: FocusState)
    ensures
        final(control)@ == control_with_focus(old(control)@, focus),
{
    let mut c = SettingControl::Complex { kind: String::new() };
    core::mem::swap(&mut c, control);
    let updated = match c {
        SettingControl::Toggle(mut s) => {
            s.focus = focus;
            SettingControl::Toggle(s)
        },
        SettingControl::Number(mut s) => {
            s.focus = focus;
            SettingControl::Number(s)
        },
        SettingControl::Dropdown(mut s) => {
            s.focus = focus;
            SettingControl::Dropdown(s)
        },
        SettingControl::Text(mut s) => {
            s.focus = focus;
            SettingControl::Text(s)
        },
        SettingControl::TextList(mut s) => {
            s.focus = focus;
            assert(s@ =~= (TextListModel { focus, ..old(control)@->TextList_0 }));
            SettingControl::TextList(s)
        },
        SettingControl::KeyValue(mut s) => {
            s.focus = focus;
            assert(s@ =~= (MapModel { focus, ..old(control)@->KeyValue_0 }));
            SettingControl::KeyValue(s)
        },
        SettingControl::Complex { kind } => SettingControl::Complex { kind },
    };
    *control = updated;
}

/// The number that a JSON number's text writes, when it is an integer that
/// fits in `i64` (serde_json's `as_i64`): digits, or `-` and digits. Floats
/// are printed with a `.` or an exponent and give nothing.
pub open spec fn number_as_i64(t: Seq<char>) -> Option<i64> {
    if t.len() > 0 && all_digits(t) {
        if digits_value(t) <= i64::MAX {
            Some(digits_value(t) as i64)
        } else {
            None
        }
    } else if t.len() > 1 && t[0] == '-' && all_digits(t.skip(1)) {
        if digits_value(t.skip(1)) <= 0x8000_0000_0000_0000 {
            Some((-digits_value(t.skip(1))) as i64)
        } else {
            None
        }
    } else {
        None
    }
}

/// The value of the digits of `cs` from `start` on, when all are digits and
/// the value fits in `u64`.
fn digits_from(cs: &Vec<char>, start: usize) -> (r: Option<u64>)
    requires
        start <= cs.len(),
    ensures
        match r {
            Some(v) => all_digits(cs@.skip(start as int)) && v == digits_value(cs@.skip(start as int)),
            None => !all_digits(cs@.skip(start as int)) || digits_value(cs@.skip(start as int))
                > u64::MAX,
        },
{
    let ghost t = cs@.skip(start as int);
    let mut val: u64 = 0;
    let mut i: usize = start;
    assert(t.take(0) =~= Seq::<char>::empty());
    while i < cs.len()
        invariant
            start <= i <= cs.len(),
            t == cs@.skip(start as int),
            all_digits(t.take(i - start)),
            val == digits_value(t.take(i - start)),
        decreases cs.len() - i,
    {
        let k: usize = i - start;
        let c = cs[i];
        assert(t[k as int] == c);
        if !('0' <= c && c <= '9') {
            assert(!is_digit(t[k as int]));
            return None;
        }
        let d: u64 = (c as u32 - 48) as u64;
        assert(t.take(k + 1).drop_last() =~= t.take(k as int));
        assert(all_digits(t.take(k + 1))) by {
            assert forall|j: int| 0 <= j < k + 1 implies is_digit(#[trigger] t.take(k + 1)[j]) by {
                if j < k {
                    assert(t.take(k + 1)[j] == t.take(k as int)[j]);
                }
            }
        }
        match val.checked_mul(10) {
            Some(m) => match m.checked_add(d) {
                Some(v) => {
                    val = v;
                },
                None => {
                    proof {
                        if all_digits(t) {
                            lemma_digits_prefix(t, k + 1);
                        }
                    }
                    return None;
                },
            },
            None => {
                proof {
                    if all_digits(t) {
                        lemma_digits_prefix(t, k + 1);
                        lemma_digits_nonneg(t.take(k as int));
                    }
                }
                return None;
            },
        }
        i = i + 1;
    }
    assert(t.take(t.len() as int) =~= t);
    Some(val)
}

/// The number that a JSON number's text writes, when it is an integer that
/// fits in `i64`.
pub fn parse_i64(text: &str) -> (r: Option<i64>)
    ensures
        r == number_as_i64(text@),
{
    let cs = chars_of(text);
    if cs.len() == 0 {
        return None;
    }
    if cs[0] == '-' {
        if cs.len() == 1 {
            assert(!all_digits(text@)) by {
                assert(!is_digit(text@[0]));
            }
            return None;
        }
        assert(!all_digits(text@)) by {
            assert(!is_digit(text@[0]));
        }
        match digits_from(&cs, 1) {
            Some(v) => {
                if v <= 0x8000_0000_0000_0000 {
                    if v == 0x8000_0000_0000_0000 {
                        Some(i64::MIN)
                    } else {
                        let n: i64 = v as i64;
                        Some(-n)
                    }
                } else {
                    None
                }
            },
            None => None,
        }
    } else {
        assert(cs@.skip(0) =~= cs@);
        match digits_from(&cs, 0) {
            Some(v) => {
                if v <= 0x7fff_ffff_ffff_ffff {
                    Some(v as i64)
                } else {
                    None
                }
            },
            None => None,
        }
    }
}

} // verus!

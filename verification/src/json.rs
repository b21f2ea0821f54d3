//! The JSON values that the settings controls carry, held as plain values,
//! and what the controls ask of them: copies, equality, JSON Pointer lookups
//! and their compact JSON text.
use vstd::prelude::*;

use crate::text::{chars_of, push_str, string_push};

verus! {

/// A JSON value. A number keeps the text that serde_json prints for it; an
/// object keeps its fields in the order serde_json's map walks them (by key,
/// each key once).
#[derive(Debug)]
pub enum JsonValue {
    Null,
    Bool(bool),
    Number(String),
    Str(String),
    Array(Vec<JsonValue>),
    Object(Vec<(String, JsonValue)>),
}

/// Abstract value of a [`JsonValue`]: texts as their characters.
pub enum JsonModel {
    Null,
    Bool(bool),
    Number(Seq<char>),
    Str(Seq<char>),
    Array(Seq<JsonModel>),
    Object(Seq<(Seq<char>, JsonModel)>),
}

impl View for JsonValue {
    type V = JsonModel;

    open spec fn view(&self) -> JsonModel {
        json_model(*self)
    }
}

/// The model of a JSON value.
pub open spec fn json_model(v: JsonValue) -> JsonModel
    decreases v, 0nat,
{
    match v {
        JsonValue::Null => JsonModel::Null,
        JsonValue::Bool(b) => JsonModel::Bool(b),
        JsonValue::Number(t) => JsonModel::Number(t@),
        JsonValue::Str(t) => JsonModel::Str(t@),
        JsonValue::Array(items) => JsonModel::Array(items_model(items@, items@.len())),
        JsonValue::Object(fields) => JsonModel::Object(fields_model(fields@, fields@.len())),
    }
}

/// The models of the first `n` elements of `s`.
pub open spec fn items_model(s: Seq<JsonValue>, n: nat) -> Seq<JsonModel>
    decreases s, n,
{
    if n == 0 || n > s.len() {
        Seq::empty()
    } else {
        items_model(s, (n - 1) as nat).push(json_model(s[n - 1]))
    }
}

/// The models of the first `n` fields of `s`.
pub open spec fn fields_model(s: Seq<(String, JsonValue)>, n: nat) -> Seq<(Seq<char>, JsonModel)>
    decreases s, n,
{
    if n == 0 || n > s.len() {
        Seq::empty()
    } else {
        fields_model(s, (n - 1) as nat).push((s[n - 1].0@, json_model(s[n - 1].1)))
    }
}

/// The model of a list of fields, field by field.
pub open spec fn fields_view(s: Seq<(String, JsonValue)>) -> Seq<(Seq<char>, JsonModel)> {
    s.map_values(|f: (String, JsonValue)| (f.0@, f.1@))
}

/// Element `i` of the models is the model of element `i`.
pub proof fn lemma_items_model(s: Seq<JsonValue>, n: nat)
    requires
        n <= s.len(),
    ensures
        items_model(s, n).len() == n,
        forall|i: int| 0 <= i < n ==> #[trigger] items_model(s, n)[i] == s[i]@,
    decreases n,
{
    if n > 0 {
        lemma_items_model(s, (n - 1) as nat);
    }
}

/// The models of all fields are the fields taken field by field.
pub proof fn lemma_fields_model(s: Seq<(String, JsonValue)>, n: nat)
    requires
        n <= s.len(),
    ensures
        fields_model(s, n) == fields_view(s).take(n as int),
    decreases n,
{
    if n > 0 {
        lemma_fields_model(s, (n - 1) as nat);
        assert(fields_model(s, n) =~= fields_view(s).take(n as int));
    } else {
        assert(fields_model(s, n) =~= fields_view(s).take(n as int));
    }
}

/// The model of an object is its fields taken one by one.
pub proof fn lemma_object_model(fields: Vec<(String, JsonValue)>)
    ensures
        JsonValue::Object(fields)@ == JsonModel::Object(fields_view(fields@)),
{
    lemma_fields_model(fields@, fields@.len());
    assert(fields_view(fields@).take(fields@.len() as int) =~= fields_view(fields@));
}

/// The model of an array is its elements taken one by one.
pub proof fn lemma_array_model(items: Vec<JsonValue>)
    ensures
        JsonValue::Array(items)@ == JsonModel::Array(items@.map_values(|v: JsonValue| v@)),
{
    lemma_items_model(items@, items@.len());
    assert(items_model(items@, items@.len()) =~= items@.map_values(|v: JsonValue| v@));
}

impl JsonValue {
    /// A copy of the value.
    pub fn deep_copy(&self) -> (r: JsonValue)
        ensures
            r@ == self@,
        decreases self, 1nat,
    {
        match self {
            JsonValue::Null => JsonValue::Null,
            JsonValue::Bool(b) => JsonValue::Bool(*b),
            JsonValue::Number(t) => JsonValue::Number(t.clone()),
            JsonValue::Str(t) => JsonValue::Str(t.clone()),
            JsonValue::Array(items) => {
                let out = copy_items(items);
                proof {
                    lemma_array_model(out);
                    lemma_array_model(*items);
                }
                JsonValue::Array(out)
            },
            JsonValue::Object(fields) => {
                let out = copy_fields(fields);
                proof {
                    lemma_object_model(out);
                    lemma_object_model(*fields);
                }
                JsonValue::Object(out)
            },
        }
    }
}

impl Clone for JsonValue {
    fn clone(&self) -> (r: Self)
        ensures
            r@ == self@,
    {
        self.deep_copy()
    }
}

/// A copy of a list of values.
pub fn copy_items(items: &Vec<JsonValue>) -> (out: Vec<JsonValue>)
    ensures
        out@.map_values(|v: JsonValue| v@) == items@.map_values(|v: JsonValue| v@),
    decreases items@, 0nat,
{
    let mut out: Vec<JsonValue> = Vec::new();
    let mut i: usize = 0;
    while i < items.len()
        invariant
            i <= items.len(),
            out.len() == i,
            forall|j: int| 0 <= j < i ==> (#[trigger] out@[j])@ == items@[j]@,
        decreases items.len() - i,
    {
        assert(decreases_to!(items@ => items@[i as int]));
        let c = items[i].deep_copy();
        out.push(c);
        i = i + 1;
    }
    assert(out@.map_values(|v: JsonValue| v@) =~= items@.map_values(|v: JsonValue| v@));
    out
}

/// A copy of a list of fields.
pub fn copy_fields(fields: &Vec<(String, JsonValue)>) -> (out: Vec<(String, JsonValue)>)
    ensures
        fields_view(out@) == fields_view(fields@),
    decreases fields@, 0nat,
{
    let mut out: Vec<(String, JsonValue)> = Vec::new();
    let mut i: usize = 0;
    while i < fields.len()
        invariant
            i <= fields.len(),
            out.len() == i,
            forall|j: int| 0 <= j < i ==> (#[trigger] out@[j]).0@ == fields@[j].0@ && out@[j].1@
                == fields@[j].1@,
        decreases fields.len() - i,
    {
        assert(decreases_to!(fields@ => fields@[i as int].1));
        let c = fields[i].1.deep_copy();
        out.push((fields[i].0.clone(), c));
        i = i + 1;
    }
    assert(fields_view(out@) =~= fields_view(fields@));
    out
}

/// The text serde_json prints for a floating-point zero.
pub open spec fn is_float_zero(t: Seq<char>) -> bool {
    t == seq!['0', '.', '0'] || t == seq!['-', '0', '.', '0']
}

/// Two numbers, given by their printed texts, are equal as serde_json
/// compares them: the same number has the same text, but for the zero
/// floats `0.0` and `-0.0`, which compare equal.
pub open spec fn numbers_equal(a: Seq<char>, b: Seq<char>) -> bool {
    a == b || (is_float_zero(a) && is_float_zero(b))
}

/// Two values are equal as serde_json's `==` compares them: the same kind,
/// equal numbers, strings, elements in order, and fields in order.
pub open spec fn json_same(a: JsonModel, b: JsonModel) -> bool
    decreases a, 0nat,
{
    match a {
        JsonModel::Null => b is Null,
        JsonModel::Bool(x) => b matches JsonModel::Bool(y) && x == y,
        JsonModel::Number(x) => b matches JsonModel::Number(y) && numbers_equal(x, y),
        JsonModel::Str(x) => b matches JsonModel::Str(y) && x == y,
        JsonModel::Array(x) => b matches JsonModel::Array(y) && x.len() == y.len() && items_same(
            x,
            y,
            x.len(),
        ),
        JsonModel::Object(x) => b matches JsonModel::Object(y) && x.len() == y.len() && fields_same(
            x,
            y,
            x.len(),
        ),
    }
}

/// The first `n` elements of `x` and `y` are pairwise equal.
pub open spec fn items_same(x: Seq<JsonModel>, y: Seq<JsonModel>, n: nat) -> bool
    decreases x, n,
{
    if n == 0 || n > x.len() {
        true
    } else {
        items_same(x, y, (n - 1) as nat) && json_same(x[n - 1], y[n - 1])
    }
}

/// The first `n` fields of `x` and `y` have the same keys and equal values.
pub open spec fn fields_same(x: Seq<(Seq<char>, JsonModel)>, y: Seq<(Seq<char>, JsonModel)>, n: nat) -> bool
    decreases x, n,
{
    if n == 0 || n > x.len() {
        true
    } else {
        fields_same(x, y, (n - 1) as nat) && x[n - 1].0 == y[n - 1].0 && json_same(
            x[n - 1].1,
            y[n - 1].1,
        )
    }
}

proof fn lemma_items_same_prefix(x: Seq<JsonModel>, y: Seq<JsonModel>, k: nat, n: nat)
    requires
        k <= n <= x.len(),
        items_same(x, y, n),
    ensures
        items_same(x, y, k),
    decreases n - k,
{
    if k < n {
        lemma_items_same_prefix(x, y, k, (n - 1) as nat);
    }
}

proof fn lemma_fields_same_prefix(x: Seq<(Seq<char>, JsonModel)>, y: Seq<(Seq<char>, JsonModel)>, k: nat, n: nat)
    requires
        k <= n <= x.len(),
        fields_same(x, y, n),
    ensures
        fields_same(x, y, k),
    decreases n - k,
{
    if k < n {
        lemma_fields_same_prefix(x, y, k, (n - 1) as nat);
    }
}

/// Whether a number's text is that of a zero float.
fn is_float_zero_text(t: &str) -> (r: bool)
    ensures
        r == is_float_zero(t@),
{
    let cs = chars_of(t);
    let r = if cs.len() == 3 {
        cs[0] == '0' && cs[1] == '.' && cs[2] == '0'
    } else if cs.len() == 4 {
        cs[0] == '-' && cs[1] == '0' && cs[2] == '.' && cs[3] == '0'
    } else {
        false
    };
    proof {
        if r {
            if cs.len() == 3 {
                assert(t@ =~= seq!['0', '.', '0']);
            } else {
                assert(t@ =~= seq!['-', '0', '.', '0']);
            }
        }
    }
    r
}

/// Whether two values are equal, as serde_json compares them.
pub fn json_equal(a: &JsonValue, b: &JsonValue) -> (same: bool)
    ensures
        same == json_same(a@, b@),
    decreases a, 1nat,
{
    match (a, b) {
        (JsonValue::Null, JsonValue::Null) => true,
        (JsonValue::Bool(x), JsonValue::Bool(y)) => *x == *y,
        (JsonValue::Number(x), JsonValue::Number(y)) => {
            chars_equal(x.as_str(), y.as_str()) || (is_float_zero_text(x.as_str())
                && is_float_zero_text(y.as_str()))
        },
        (JsonValue::Str(x), JsonValue::Str(y)) => chars_equal(x.as_str(), y.as_str()),
        (JsonValue::Array(x), JsonValue::Array(y)) => {
            proof {
                lemma_array_model(*x);
                lemma_array_model(*y);
            }
            items_equal(x, y)
        },
        (JsonValue::Object(x), JsonValue::Object(y)) => {
            proof {
                lemma_object_model(*x);
                lemma_object_model(*y);
            }
            let r = fields_equal(x, y);
            r
        },
        (JsonValue::Null, _) => false,
        (JsonValue::Bool(_), _) => false,
        (JsonValue::Number(_), _) => false,
        (JsonValue::Str(_), _) => false,
        (JsonValue::Array(_), _) => false,
        (JsonValue::Object(_), _) => false,
    }
}

/// Whether two lists of values are equal, element by element.
pub fn items_equal(x: &Vec<JsonValue>, y: &Vec<JsonValue>) -> (same: bool)
    ensures
        same == (x@.len() == y@.len() && items_same(
            x@.map_values(|v: JsonValue| v@),
            y@.map_values(|v: JsonValue| v@),
            x@.len(),
        )),
    decreases x@, 0nat,
{
    let ghost mx = x@.map_values(|v: JsonValue| v@);
    let ghost my = y@.map_values(|v: JsonValue| v@);
    if x.len() != y.len() {
        return false;
    }
    let mut i: usize = 0;
    while i < x.len()
        invariant
            i <= x.len(),
            x.len() == y.len(),
            mx == x@.map_values(|v: JsonValue| v@),
            my == y@.map_values(|v: JsonValue| v@),
            items_same(mx, my, i as nat),
        decreases x.len() - i,
    {
        assert(decreases_to!(x@ => x@[i as int]));
        if !json_equal(&x[i], &y[i]) {
            proof {
                if items_same(mx, my, x@.len()) {
                    lemma_items_same_prefix(mx, my, (i + 1) as nat, x@.len());
                }
            }
            return false;
        }
        i = i + 1;
    }
    true
}

/// Whether two lists of fields are equal, key by key and value by value.
pub fn fields_equal(x: &Vec<(String, JsonValue)>, y: &Vec<(String, JsonValue)>) -> (same: bool)
    ensures
        same == (x@.len() == y@.len() && fields_same(fields_view(x@), fields_view(y@), x@.len())),
    decreases x@, 0nat,
{
    let ghost mx = fields_view(x@);
    let ghost my = fields_view(y@);
    if x.len() != y.len() {
        return false;
    }
    let mut i: usize = 0;
    while i < x.len()
        invariant
            i <= x.len(),
            x.len() == y.len(),
            mx == fields_view(x@),
            my == fields_view(y@),
            fields_same(mx, my, i as nat),
        decreases x.len() - i,
    {
        let same_key = chars_equal(x[i].0.as_str(), y[i].0.as_str());
        assert(decreases_to!(x@ => x@[i as int].1));
        if !same_key || !json_equal(&x[i].1, &y[i].1) {
            proof {
                if fields_same(mx, my, x@.len()) {
                    lemma_fields_same_prefix(mx, my, (i + 1) as nat, x@.len());
                }
            }
            return false;
        }
        i = i + 1;
    }
    true
}

/// Whether two texts have the same characters.
pub fn chars_equal(a: &str, b: &str) -> (same: bool)
    ensures
        same == (a@ == b@),
{
    let x = chars_of(a);
    let y = chars_of(b);
    seq_equal(&x, &y)
}

/// Whether two character vectors are equal.
pub fn seq_equal(x: &Vec<char>, y: &Vec<char>) -> (same: bool)
    ensures
        same == (x@ == y@),
{
    if x.len() != y.len() {
        return false;
    }
    let mut i: usize = 0;
    while i < x.len()
        invariant
            i <= x.len(),
            x.len() == y.len(),
            forall|j: int| 0 <= j < i ==> x@[j] == y@[j],
        decreases x.len() - i,
    {
        if x[i] != y[i] {
            return false;
        }
        i = i + 1;
    }
    assert(x@ =~= y@);
    true
}


/// `s` with each `~` followed by `a` replaced by `r`, scanning from the left.
pub open spec fn unescape_pair(s: Seq<char>, a: char, r: char) -> Seq<char>
    decreases s.len(),
{
    if s.len() < 2 {
        s
    } else if s[0] == '~' && s[1] == a {
        seq![r] + unescape_pair(s.skip(2), a, r)
    } else {
        seq![s[0]] + unescape_pair(s.skip(1), a, r)
    }
}

/// A JSON Pointer token with its escapes undone: `~1` becomes `/`, then
/// `~0` becomes `~`.
pub open spec fn unescape(t: Seq<char>) -> Seq<char> {
    unescape_pair(unescape_pair(t, '1', '/'), '0', '~')
}

/// `c` is a decimal digit.
pub open spec fn is_digit(c: char) -> bool {
    '0' <= c && c <= '9'
}

/// Every character of `t` is a decimal digit.
pub open spec fn all_digits(t: Seq<char>) -> bool {
    forall|i: int| 0 <= i < t.len() ==> is_digit(#[trigger] t[i])
}

/// The number that the decimal digits `t` write.
pub open spec fn digits_value(t: Seq<char>) -> int
    decreases t.len(),
{
    if t.len() == 0 {
        0
    } else {
        digits_value(t.drop_last()) * 10 + ((t.last() as u32) - 48)
    }
}

/// The array index that a pointer token names: decimal digits without a
/// leading zero (but `0` itself) that fit in `usize`.
pub open spec fn array_index(t: Seq<char>) -> Option<nat> {
    if t.len() > 0 && all_digits(t) && !(t[0] == '0' && t.len() != 1) && digits_value(t)
        <= usize::MAX {
        Some(digits_value(t) as nat)
    } else {
        None
    }
}

/// The value of the first field with key `key`.
pub open spec fn field_of(fields: Seq<(Seq<char>, JsonModel)>, key: Seq<char>) -> Option<JsonModel>
    decreases fields.len(),
{
    if fields.len() == 0 {
        None
    } else if fields[0].0 == key {
        Some(fields[0].1)
    } else {
        field_of(fields.drop_first(), key)
    }
}

/// One step of a JSON Pointer: the field of an object named by `token`, or
/// the element of an array at the index it writes.
pub open spec fn pointer_step(v: JsonModel, token: Seq<char>) -> Option<JsonModel> {
    match v {
        JsonModel::Object(fields) => field_of(fields, token),
        JsonModel::Array(items) => match array_index(token) {
            Some(i) => if i < items.len() {
                Some(items[i as int])
            } else {
                None
            },
            None => None,
        },
        _ => None,
    }
}

/// Follows the tokens of `rest` (separated by `/`) from `v`, the current
/// token having read `token` so far.
pub open spec fn pointer_walk(v: JsonModel, token: Seq<char>, rest: Seq<char>) -> Option<JsonModel>
    decreases rest.len(),
{
    if rest.len() == 0 {
        pointer_step(v, unescape(token))
    } else if rest[0] == '/' {
        match pointer_step(v, unescape(token)) {
            Some(w) => pointer_walk(w, Seq::empty(), rest.drop_first()),
            None => None,
        }
    } else {
        pointer_walk(v, token.push(rest[0]), rest.drop_first())
    }
}

/// The value that the JSON Pointer `path` names inside `v`, as serde_json's
/// `Value::pointer` finds it: the whole value for the empty path, nothing
/// for a path that does not start with `/`, and otherwise the value reached
/// by following each `/`-separated token.
pub open spec fn json_pointer(v: JsonModel, path: Seq<char>) -> Option<JsonModel> {
    if path.len() == 0 {
        Some(v)
    } else if path[0] != '/' {
        None
    } else {
        pointer_walk(v, Seq::empty(), path.drop_first())
    }
}

/// A token with each `~` followed by `a` replaced by `r`.
fn unescape_pair_of(s: &Vec<char>, a: char, r: char) -> (out: Vec<char>)
    ensures
        out@ == unescape_pair(s@, a, r),
{
    let mut out: Vec<char> = Vec::new();
    let mut i: usize = 0;
    assert(s@.skip(0) =~= s@);
    assert(out@ + unescape_pair(s@, a, r) =~= unescape_pair(s@, a, r));
    while i < s.len()
        invariant
            i <= s.len(),
            out@ + unescape_pair(s@.skip(i as int), a, r) == unescape_pair(s@, a, r),
        decreases s.len() - i,
    {
        let ghost rest = s@.skip(i as int);
        if i + 1 < s.len() && s[i] == '~' && s[i + 1] == a {
            assert(rest[0] == s@[i as int] && rest[1] == s@[i + 1]);
            assert(rest.skip(2) =~= s@.skip(i + 2));
            out.push(r);
            i = i + 2;
            assert(out@ + unescape_pair(s@.skip(i as int), a, r) =~= unescape_pair(s@, a, r));
        } else {
            if i + 1 < s.len() {
                assert(rest[0] == s@[i as int] && rest[1] == s@[i + 1]);
                assert(rest.skip(1) =~= s@.skip(i + 1));
                out.push(s[i]);
                i = i + 1;
                assert(out@ + unescape_pair(s@.skip(i as int), a, r) =~= unescape_pair(s@, a, r));
            } else {
                assert(rest =~= seq![s@[i as int]]);
                out.push(s[i]);
                i = i + 1;
                assert(s@.skip(i as int) =~= Seq::<char>::empty());
                assert(out@ + unescape_pair(s@.skip(i as int), a, r) =~= unescape_pair(s@, a, r));
            }
        }
    }
    assert(s@.skip(i as int) =~= Seq::<char>::empty());
    assert(out@ =~= out@ + unescape_pair(s@.skip(i as int), a, r));
    out
}

pub proof fn lemma_digits_prefix(t: Seq<char>, k: int)
    requires
        all_digits(t),
        0 <= k <= t.len(),
    ensures
        0 <= digits_value(t.take(k)) <= digits_value(t),
    decreases t.len() - k,
{
    if k < t.len() {
        lemma_digits_prefix(t, k + 1);
        assert(t.take(k + 1).drop_last() =~= t.take(k));
        assert(is_digit(t[k]));
    } else {
        assert(t.take(k) =~= t);
        lemma_digits_nonneg(t);
    }
}

pub proof fn lemma_digits_nonneg(t: Seq<char>)
    requires
        all_digits(t),
    ensures
        digits_value(t) >= 0,
    decreases t.len(),
{
    if t.len() > 0 {
        assert(all_digits(t.drop_last())) by {
            assert forall|i: int| 0 <= i < t.drop_last().len() implies is_digit(
                #[trigger] t.drop_last()[i],
            ) by {
                assert(t.drop_last()[i] == t[i]);
            }
        }
        lemma_digits_nonneg(t.drop_last());
        assert(is_digit(t[t.len() - 1]));
    }
}

/// The array index that a pointer token names, if any.
fn parse_array_index(t: &Vec<char>) -> (r: Option<usize>)
    ensures
        match r {
            Some(n) => array_index(t@) == Some(n as nat),
            None => array_index(t@) is None,
        },
{
    if t.len() == 0 {
        return None;
    }
    if t[0] == '0' && t.len() != 1 {
        return None;
    }
    let mut val: usize = 0;
    let mut i: usize = 0;
    assert(t@.take(0) =~= Seq::<char>::empty());
    while i < t.len()
        invariant
            i <= t.len(),
            all_digits(t@.take(i as int)),
            val == digits_value(t@.take(i as int)),
        decreases t.len() - i,
    {
        let c = t[i];
        if !('0' <= c && c <= '9') {
            assert(!is_digit(t@[i as int]));
            return None;
        }
        let d: usize = (c as u32 - 48) as usize;
        assert(t@.take(i + 1).drop_last() =~= t@.take(i as int));
        assert(all_digits(t@.take(i + 1))) by {
            assert forall|j: int| 0 <= j < i + 1 implies is_digit(#[trigger] t@.take(i + 1)[j]) by {
                if j < i {
                    assert(t@.take(i + 1)[j] == t@.take(i as int)[j]);
                }
            }
        }
        match val.checked_mul(10) {
            Some(m) => match m.checked_add(d) {
                Some(v) => {
                    val = v;
                },
                None => {
                    proof {
                        if all_digits(t@) {
                            lemma_digits_prefix(t@, i + 1);
                        }
                    }
                    return None;
                },
            },
            None => {
                proof {
                    if all_digits(t@) {
                        lemma_digits_prefix(t@, i + 1);
                        lemma_digits_nonneg(t@.take(i as int));
                    }
                }
                return None;
            },
        }
        i = i + 1;
    }
    assert(t@.take(t.len() as int) =~= t@);
    Some(val)
}

/// One pointer step from `v` along `token` (its escapes already undone).
fn pointer_step_of<'a>(v: &'a JsonValue, token: &Vec<char>) -> (r: Option<&'a JsonValue>)
    ensures
        match r {
            Some(w) => pointer_step(v@, token@) == Some(w@),
            None => pointer_step(v@, token@) is None,
        },
{
    match v {
        JsonValue::Object(fields) => {
            proof {
                lemma_object_model(*fields);
            }
            let ghost fv = fields_view(fields@);
            let mut i: usize = 0;
            assert(fv.skip(0) =~= fv);
            assert(v@ == JsonModel::Object(fv));
            while i < fields.len()
                invariant
                    i <= fields.len(),
                    fv == fields_view(fields@),
                    v@ == JsonModel::Object(fv),
                    field_of(fv, token@) == field_of(fv.skip(i as int), token@),
                decreases fields.len() - i,
            {
                assert(fv.skip(i as int)[0] == fv[i as int]);
                assert(fv.skip(i as int).drop_first() =~= fv.skip(i + 1));
                let key = chars_of(fields[i].0.as_str());
                assert(fv[i as int] == (fields@[i as int].0@, fields@[i as int].1@));
                if seq_equal(&key, token) {
                    assert(fv.skip(i as int)[0].0 == token@);
                    assert(field_of(fv.skip(i as int), token@) == Some(fields@[i as int].1@));
                    return Some(&fields[i].1);
                }
                i = i + 1;
            }
            assert(fv.skip(i as int) =~= Seq::<(Seq<char>, JsonModel)>::empty());
            None
        },
        JsonValue::Array(items) => {
            proof {
                lemma_items_model(items@, items@.len());
            }
            match parse_array_index(token) {
                Some(n) => {
                    if n < items.len() {
                        Some(&items[n])
                    } else {
                        None
                    }
                },
                None => None,
            }
        },
        _ => None,
    }
}

/// The value that the JSON Pointer `path` names inside `root`, if any.
pub fn pointer_lookup<'a>(root: &'a JsonValue, path: &str) -> (found: Option<&'a JsonValue>)
    ensures
        match found {
            Some(v) => json_pointer(root@, path@) == Some(v@),
            None => json_pointer(root@, path@) is None,
        },
{
    let cs = chars_of(path);
    if cs.len() == 0 {
        return Some(root);
    }
    if cs[0] != '/' {
        return None;
    }
    let mut cur: &JsonValue = root;
    let mut token: Vec<char> = Vec::new();
    let mut i: usize = 1;
    assert(path@.skip(1) =~= path@.drop_first());
    assert(token@ =~= Seq::<char>::empty());
    while i < cs.len()
        invariant
            1 <= i <= cs.len(),
            cs@ == path@,
            path@.len() > 0,
            path@[0] == '/',
            json_pointer(root@, path@) == pointer_walk(cur@, token@, path@.skip(i as int)),
        decreases cs.len() - i,
    {
        let ghost rest = path@.skip(i as int);
        assert(rest[0] == cs@[i as int]);
        assert(rest.drop_first() =~= path@.skip(i + 1));
        if cs[i] == '/' {
            let t1 = unescape_pair_of(&token, '1', '/');
            let t = unescape_pair_of(&t1, '0', '~');
            match pointer_step_of(cur, &t) {
                Some(w) => {
                    cur = w;
                    token = Vec::new();
                    assert(token@ =~= Seq::<char>::empty());
                },
                None => {
                    return None;
                },
            }
        } else {
            token.push(cs[i]);
        }
        i = i + 1;
    }
    assert(path@.skip(i as int) =~= Seq::<char>::empty());
    let t1 = unescape_pair_of(&token, '1', '/');
    let t = unescape_pair_of(&t1, '0', '~');
    pointer_step_of(cur, &t)
}

/// Position of the first field with key `key`, from position `k` on.
pub open spec fn field_pos(fields: Seq<(Seq<char>, JsonModel)>, key: Seq<char>, k: int) -> Option<int>
    decreases fields.len() - k,
{
    if k < 0 || k >= fields.len() {
        None
    } else if fields[k].0 == key {
        Some(k)
    } else {
        field_pos(fields, key, k + 1)
    }
}

/// `v` with the value that one pointer step along `token` names replaced
/// by `c` (unchanged when the step names nothing).
pub open spec fn put_child(v: JsonModel, token: Seq<char>, c: JsonModel) -> JsonModel {
    match v {
        JsonModel::Object(fields) => match field_pos(fields, token, 0) {
            Some(i) => JsonModel::Object(fields.update(i, (fields[i].0, c))),
            None => v,
        },
        JsonModel::Array(items) => match array_index(token) {
            Some(i) => if i < items.len() {
                JsonModel::Array(items.update(i as int, c))
            } else {
                v
            },
            None => v,
        },
        _ => v,
    }
}

/// `v` with the value that the tokens of `rest` name, below the current
/// token `token`, replaced by `new`; `None` when they name nothing.
pub open spec fn replace_walk(v: JsonModel, token: Seq<char>, rest: Seq<char>, new: JsonModel) -> Option<JsonModel>
    decreases rest.len(),
{
    if rest.len() == 0 {
        match pointer_step(v, unescape(token)) {
            Some(_) => Some(put_child(v, unescape(token), new)),
            None => None,
        }
    } else if rest[0] == '/' {
        match pointer_step(v, unescape(token)) {
            Some(c) => match replace_walk(c, Seq::empty(), rest.drop_first(), new) {
                Some(c2) => Some(put_child(v, unescape(token), c2)),
                None => None,
            },
            None => None,
        }
    } else {
        replace_walk(v, token.push(rest[0]), rest.drop_first(), new)
    }
}

/// `v` with the value that the JSON Pointer `path` names replaced by `new`,
/// as serde_json's `pointer_mut` and an assignment through it leave it;
/// `None` when the path names nothing.
pub open spec fn pointer_replace(v: JsonModel, path: Seq<char>, new: JsonModel) -> Option<JsonModel> {
    if path.len() == 0 {
        Some(new)
    } else if path[0] != '/' {
        None
    } else {
        replace_walk(v, Seq::empty(), path.drop_first(), new)
    }
}

/// The model of an optional value.
pub open spec fn opt_model(v: Option<JsonValue>) -> Option<JsonModel> {
    match v {
        Some(x) => Some(x@),
        None => None,
    }
}

proof fn lemma_field_of_pos(fields: Seq<(Seq<char>, JsonModel)>, key: Seq<char>, j: int)
    requires
        0 <= j <= fields.len(),
    ensures
        field_of(fields.skip(j), key) == match field_pos(fields, key, j) {
            Some(i) => Some(fields[i].1),
            None => None::<JsonModel>,
        },
        field_pos(fields, key, j) matches Some(i) ==> j <= i < fields.len() && fields[i].0 == key
            && forall|k: int| j <= k < i ==> fields[k].0 != key,
    decreases fields.len() - j,
{
    if j < fields.len() {
        lemma_field_of_pos(fields, key, j + 1);
        assert(fields.skip(j).drop_first() =~= fields.skip(j + 1));
        assert(fields.skip(j)[0] == fields[j]);
    } else {
        assert(fields.skip(j).len() == 0);
    }
}

proof fn lemma_field_pos_same_keys(f: Seq<(Seq<char>, JsonModel)>, g: Seq<(Seq<char>, JsonModel)>, key: Seq<char>, j: int)
    requires
        0 <= j <= f.len(),
        f.len() == g.len(),
        forall|k: int| 0 <= k < f.len() ==> #[trigger] f[k].0 == g[k].0,
    ensures
        field_pos(f, key, j) == field_pos(g, key, j),
    decreases f.len() - j,
{
    if j < f.len() {
        lemma_field_pos_same_keys(f, g, key, j + 1);
    }
}

/// After a pointer step's target is replaced by `c`, the same step finds `c`.
proof fn lemma_step_after_put(v: JsonModel, token: Seq<char>, c: JsonModel)
    requires
        pointer_step(v, token) is Some,
    ensures
        pointer_step(put_child(v, token, c), token) == Some(c),
{
    match v {
        JsonModel::Object(fields) => {
            lemma_field_of_pos(fields, token, 0);
            assert(fields.skip(0) =~= fields);
            let i = field_pos(fields, token, 0)->0;
            let g = fields.update(i, (fields[i].0, c));
            lemma_field_pos_same_keys(fields, g, token, 0);
            lemma_field_of_pos(g, token, 0);
            assert(g.skip(0) =~= g);
        },
        _ => {},
    }
}

proof fn lemma_walk_after_replace(v: JsonModel, token: Seq<char>, rest: Seq<char>, new: JsonModel)
    requires
        replace_walk(v, token, rest, new) is Some,
    ensures
        pointer_walk(replace_walk(v, token, rest, new)->0, token, rest) == Some(new),
    decreases rest.len(),
{
    let u = unescape(token);
    if rest.len() == 0 {
        lemma_step_after_put(v, u, new);
    } else if rest[0] == '/' {
        let c = pointer_step(v, u)->0;
        let c2 = replace_walk(c, Seq::empty(), rest.drop_first(), new)->0;
        lemma_step_after_put(v, u, c2);
        lemma_walk_after_replace(c, Seq::empty(), rest.drop_first(), new);
    } else {
        lemma_walk_after_replace(v, token.push(rest[0]), rest.drop_first(), new);
    }
}

/// Reading back what a write through a JSON Pointer wrote: after the value
/// that `path` names is replaced by `new`, `path` names `new`.
pub proof fn law_pointer_reads_back_write(v: JsonModel, path: Seq<char>, new: JsonModel)
    requires
        pointer_replace(v, path, new) is Some,
    ensures
        json_pointer(pointer_replace(v, path, new)->0, path) == Some(new),
{
    if path.len() > 0 {
        lemma_walk_after_replace(v, Seq::empty(), path.drop_first(), new);
    }
}

proof fn lemma_items_same_all(x: Seq<JsonModel>, y: Seq<JsonModel>, n: nat)
    requires
        n <= x.len(),
        n <= y.len(),
    ensures
        items_same(x, y, n) <==> forall|i: int| 0 <= i < n ==> json_same(x[i], y[i]),
    decreases n,
{
    if n > 0 {
        lemma_items_same_all(x, y, (n - 1) as nat);
    }
}

proof fn lemma_fields_same_all(x: Seq<(Seq<char>, JsonModel)>, y: Seq<(Seq<char>, JsonModel)>, n: nat)
    requires
        n <= x.len(),
        n <= y.len(),
    ensures
        fields_same(x, y, n) <==> forall|i: int|
            0 <= i < n ==> x[i].0 == y[i].0 && json_same(x[i].1, y[i].1),
    decreases n,
{
    if n > 0 {
        lemma_fields_same_all(x, y, (n - 1) as nat);
    }
}

/// JSON equality is structural: two values are equal only when they are of
/// the same kind, and then arrays are equal exactly when they have the same
/// length and equal elements at each position, objects exactly when they
/// have the same keys in the same order with equal values, strings and
/// booleans exactly when they are the same, and numbers exactly when they
/// are written the same or are both zero floats.
pub proof fn law_json_equality_is_structural(a: JsonModel, b: JsonModel)
    ensures
        json_same(a, b) ==> (a is Null <==> b is Null) && (a is Bool <==> b is Bool) && (a is Number
            <==> b is Number) && (a is Str <==> b is Str) && (a is Array <==> b is Array) && (a is Object
            <==> b is Object),
        a is Null && b is Null ==> json_same(a, b),
        a matches JsonModel::Bool(p) ==> b matches JsonModel::Bool(q) ==> (json_same(a, b) <==> (p
            == q)),
        a matches JsonModel::Str(s) ==> b matches JsonModel::Str(t) ==> (json_same(a, b) <==> (s
            == t)),
        a matches JsonModel::Number(s) ==> b matches JsonModel::Number(t) ==> (json_same(a, b) <==> (s
            == t || (is_float_zero(s) && is_float_zero(t)))),
        a matches JsonModel::Array(x) ==> b matches JsonModel::Array(y) ==> (json_same(a, b) <==> (x.len()
            == y.len() && forall|i: int| 0 <= i < x.len() ==> json_same(x[i], y[i]))),
        a matches JsonModel::Object(x) ==> b matches JsonModel::Object(y) ==> (json_same(a, b) <==> (
        x.len() == y.len() && forall|i: int|
            0 <= i < x.len() ==> x[i].0 == y[i].0 && json_same(x[i].1, y[i].1))),
{
    match (a, b) {
        (JsonModel::Array(x), JsonModel::Array(y)) => {
            if x.len() == y.len() {
                lemma_items_same_all(x, y, x.len());
            }
        },
        (JsonModel::Object(x), JsonModel::Object(y)) => {
            if x.len() == y.len() {
                lemma_fields_same_all(x, y, x.len());
            }
        },
        _ => {},
    }
}

/// The characters of a pointer's remaining text before its next `/`.
pub open spec fn pointer_head(rest: Seq<char>) -> Seq<char>
    decreases rest.len(),
{
    if rest.len() == 0 || rest[0] == '/' {
        Seq::empty()
    } else {
        seq![rest[0]] + pointer_head(rest.drop_first())
    }
}

proof fn lemma_walk_shape(v: JsonModel, token: Seq<char>, rest: Seq<char>, new: JsonModel) -> (c: JsonModel)
    requires
        replace_walk(v, token, rest, new) is Some,
    ensures
        pointer_step(v, unescape(token + pointer_head(rest))) is Some,
        replace_walk(v, token, rest, new)->0 == put_child(v, unescape(token + pointer_head(rest)), c),
    decreases rest.len(),
{
    if rest.len() == 0 {
        assert(token + pointer_head(rest) =~= token);
        new
    } else if rest[0] == '/' {
        assert(token + pointer_head(rest) =~= token);
        let c = pointer_step(v, unescape(token))->0;
        replace_walk(c, Seq::empty(), rest.drop_first(), new)->0
    } else {
        let c = lemma_walk_shape(v, token.push(rest[0]), rest.drop_first(), new);
        assert(token.push(rest[0]) + pointer_head(rest.drop_first()) =~= token + pointer_head(rest));
        c
    }
}

/// A write through a JSON Pointer keeps the shape of the value it starts
/// from and every part beside the path: an object keeps its keys in order
/// and the values of the keys other than the path's first token, an array
/// keeps its length and the elements at other indices.
pub proof fn law_pointer_write_keeps_siblings(v: JsonModel, path: Seq<char>, new: JsonModel)
    requires
        path.len() > 0,
        pointer_replace(v, path, new) is Some,
    ensures
        ({
            let w = pointer_replace(v, path, new)->0;
            let key = unescape(pointer_head(path.drop_first()));
            &&& v matches JsonModel::Object(f) ==> w matches JsonModel::Object(g) && g.len() == f.len()
                && forall|i: int|
                0 <= i < f.len() ==> g[i].0 == f[i].0 && (f[i].0 != key ==> g[i].1 == f[i].1)
            &&& v matches JsonModel::Array(x) ==> w matches JsonModel::Array(y) && y.len() == x.len()
                && forall|i: int|
                0 <= i < x.len() && array_index(key) != Some(i as nat) ==> y[i] == x[i]
        }),
{
    let rest = path.drop_first();
    let c = lemma_walk_shape(v, Seq::empty(), rest, new);
    assert(Seq::<char>::empty() + pointer_head(rest) =~= pointer_head(rest));
    let key = unescape(pointer_head(rest));
    match v {
        JsonModel::Object(f) => {
            lemma_field_of_pos(f, key, 0);
            assert(f.skip(0) =~= f);
        },
        _ => {},
    }
}

/// `v` with the value that one pointer step along `token` names replaced by `c`.
fn put_child_of(v: &JsonValue, token: &Vec<char>, c: JsonValue) -> (r: JsonValue)
    ensures
        r@ == put_child(v@, token@, c@),
{
    match v {
        JsonValue::Object(fields) => {
            proof {
                lemma_object_model(*fields);
            }
            let ghost fv = fields_view(fields@);
            let mut i: usize = 0;
            assert(v@ == JsonModel::Object(fv));
            while i < fields.len()
                invariant
                    i <= fields.len(),
                    fv == fields_view(fields@),
                    v@ == JsonModel::Object(fv),
                    field_pos(fv, token@, 0) == field_pos(fv, token@, i as int),
                decreases fields.len() - i,
            {
                let key = chars_of(fields[i].0.as_str());
                assert(fv[i as int] == (fields@[i as int].0@, fields@[i as int].1@));
                if seq_equal(&key, token) {
                    let mut out = copy_fields(fields);
                    let old_field = out.remove(i);
                    out.insert(i, (old_field.0, c));
                    proof {
                        lemma_object_model(out);
                        assert(field_pos(fv, token@, i as int) == Some(i as int));
                        assert(fields_view(out@) =~= fv.update(i as int, (fv[i as int].0, c@)));
                    }
                    return JsonValue::Object(out);
                }
                i = i + 1;
            }
            v.deep_copy()
        },
        JsonValue::Array(items) => {
            proof {
                lemma_array_model(*items);
            }
            match parse_array_index(token) {
                Some(n) => {
                    if n < items.len() {
                        let mut out = copy_items(items);
                        let _ = out.remove(n);
                        let ghost cm = c@;
                        out.insert(n, c);
                        proof {
                            lemma_array_model(out);
                            assert(out@.map_values(|x: JsonValue| x@) =~= items@.map_values(
                                |x: JsonValue| x@,
                            ).update(n as int, cm));
                        }
                        JsonValue::Array(out)
                    } else {
                        v.deep_copy()
                    }
                },
                None => v.deep_copy(),
            }
        },
        _ => v.deep_copy(),
    }
}

/// `v` with the value that the tokens of the path from position `i` on name
/// replaced by a copy of `new`, if they name one.
fn replace_from(v: &JsonValue, cs: &Vec<char>, i: usize, new: &JsonValue) -> (r: Option<JsonValue>)
    requires
        i <= cs.len(),
    ensures
        opt_model(r) == replace_walk(v@, Seq::empty(), cs@.skip(i as int), new@),
    decreases cs.len() - i,
{
    let mut token: Vec<char> = Vec::new();
    let mut j: usize = i;
    assert(token@ =~= Seq::<char>::empty());
    while j < cs.len() && cs[j] != '/'
        invariant
            i <= j <= cs.len(),
            replace_walk(v@, Seq::empty(), cs@.skip(i as int), new@) == replace_walk(
                v@,
                token@,
                cs@.skip(j as int),
                new@,
            ),
        decreases cs.len() - j,
    {
        assert(cs@.skip(j as int)[0] == cs@[j as int]);
        assert(cs@.skip(j as int).drop_first() =~= cs@.skip(j + 1));
        token.push(cs[j]);
        j = j + 1;
    }
    let t1 = unescape_pair_of(&token, '1', '/');
    let t = unescape_pair_of(&t1, '0', '~');
    match pointer_step_of(v, &t) {
        None => {
            proof {
                if j < cs.len() {
                    assert(cs@.skip(j as int)[0] == cs@[j as int]);
                } else {
                    assert(cs@.skip(j as int).len() == 0);
                }
            }
            None
        },
        Some(child) => {
            if j == cs.len() {
                assert(cs@.skip(j as int).len() == 0);
                let copy = new.deep_copy();
                Some(put_child_of(v, &t, copy))
            } else {
                assert(cs@.skip(j as int)[0] == cs@[j as int]);
                assert(cs@.skip(j as int).drop_first() =~= cs@.skip(j + 1));
                match replace_from(child, cs, j + 1, new) {
                    Some(c2) => Some(put_child_of(v, &t, c2)),
                    None => None,
                }
            }
        },
    }
}

/// `root` with the value that the JSON Pointer `path` names replaced by a
/// copy of `new` (`None` when the path names nothing).
pub fn pointer_replace_in(root: &JsonValue, path: &str, new: &JsonValue) -> (r: Option<JsonValue>)
    ensures
        opt_model(r) == pointer_replace(root@, path@, new@),
{
    let cs = chars_of(path);
    if cs.len() == 0 {
        return Some(new.deep_copy());
    }
    if cs[0] != '/' {
        return None;
    }
    assert(path@.skip(1) =~= path@.drop_first());
    replace_from(root, &cs, 1, new)
}

/// The hexadecimal digit `d` (for `d < 16`), lower case.
pub open spec fn hex_digit(d: nat) -> char {
    seq!['0', '1', '2', '3', '4', '5', '6', '7', '8', '9', 'a', 'b', 'c', 'd', 'e', 'f'][d as int]
}

/// How JSON writes `c` inside a string: `"` and `\` and the control
/// characters escaped (the common ones by letter, the others as `\u00XX`),
/// everything else as it is.
pub open spec fn escaped_char(c: char) -> Seq<char> {
    if c == '"' {
        seq!['\\', '"']
    } else if c == '\\' {
        seq!['\\', '\\']
    } else if c == '\u{8}' {
        seq!['\\', 'b']
    } else if c == '\u{c}' {
        seq!['\\', 'f']
    } else if c == '\n' {
        seq!['\\', 'n']
    } else if c == '\r' {
        seq!['\\', 'r']
    } else if c == '\t' {
        seq!['\\', 't']
    } else if (c as u32) < 0x20 {
        seq!['\\', 'u', '0', '0', hex_digit((c as u32 / 16) as nat), hex_digit((c as u32 % 16) as nat)]
    } else {
        seq![c]
    }
}

/// The characters of `s`, each as JSON writes it inside a string.
pub open spec fn escaped(s: Seq<char>) -> Seq<char>
    decreases s.len(),
{
    if s.len() == 0 {
        Seq::empty()
    } else {
        escaped(s.drop_last()) + escaped_char(s.last())
    }
}

/// The JSON text of the string `s`: in double quotes, escaped.
pub open spec fn json_quoted(s: Seq<char>) -> Seq<char> {
    seq!['"'] + escaped(s) + seq!['"']
}

/// `serde_json::to_string` of a `str`: the string's JSON text. Writing a
/// `str` into a `String` does not fail, so the error arm is never taken.
/// Claimed: the text is the string in double quotes with `"`, `\` and the
/// control characters escaped as serde_json's escape table gives them.
#[verifier::external_body]
fn quoted_text(s: &str) -> (t: String)
    ensures
        t@ == json_quoted(s@),
{
    match serde_json::to_string(s) {
        Ok(t) => t,
        Err(_) => String::new(),
    }
}

/// The compact JSON text of a value, as serde_json's `to_string` writes it:
/// no spaces, elements and fields separated by commas.
pub open spec fn json_text(v: JsonModel) -> Seq<char>
    decreases v, 0nat,
{
    match v {
        JsonModel::Null => seq!['n', 'u', 'l', 'l'],
        JsonModel::Bool(b) => if b {
            seq!['t', 'r', 'u', 'e']
        } else {
            seq!['f', 'a', 'l', 's', 'e']
        },
        JsonModel::Number(t) => t,
        JsonModel::Str(s) => json_quoted(s),
        JsonModel::Array(items) => seq!['['] + items_text(items, items.len()) + seq![']'],
        JsonModel::Object(fields) => seq!['{'] + fields_text(fields, fields.len()) + seq!['}'],
    }
}

/// The texts of the first `n` elements, separated by commas.
pub open spec fn items_text(s: Seq<JsonModel>, n: nat) -> Seq<char>
    decreases s, n,
{
    if n == 0 || n > s.len() {
        Seq::empty()
    } else if n == 1 {
        json_text(s[0])
    } else {
        items_text(s, (n - 1) as nat) + seq![','] + json_text(s[n - 1])
    }
}

/// The texts `"key":value` of the first `n` fields, separated by commas.
pub open spec fn fields_text(s: Seq<(Seq<char>, JsonModel)>, n: nat) -> Seq<char>
    decreases s, n,
{
    if n == 0 || n > s.len() {
        Seq::empty()
    } else if n == 1 {
        json_quoted(s[0].0) + seq![':'] + json_text(s[0].1)
    } else {
        fields_text(s, (n - 1) as nat) + seq![','] + json_quoted(s[n - 1].0) + seq![':']
            + json_text(s[n - 1].1)
    }
}

/// The compact JSON text of a value.
pub fn value_text(v: &JsonValue) -> (t: String)
    ensures
        t@ == json_text(v@),
    decreases v, 1nat,
{
    let mut t = String::new();
    match v {
        JsonValue::Null => {
            push_str(&mut t, "null");
            proof {
                reveal_strlit("null");
            }
        },
        JsonValue::Bool(b) => {
            if *b {
                push_str(&mut t, "true");
            } else {
                push_str(&mut t, "false");
            }
            proof {
                reveal_strlit("true");
                reveal_strlit("false");
            }
        },
        JsonValue::Number(n) => {
            push_str(&mut t, n.as_str());
        },
        JsonValue::Str(s) => {
            t = quoted_text(s.as_str());
        },
        JsonValue::Array(items) => {
            proof {
                lemma_array_model(*items);
            }
            t = items_text_of(items);
        },
        JsonValue::Object(fields) => {
            proof {
                lemma_object_model(*fields);
            }
            t = fields_text_of(fields);
        },
    }
    assert(t@ =~= json_text(v@));
    t
}

/// The JSON text of an array with these elements.
pub fn items_text_of(items: &Vec<JsonValue>) -> (t: String)
    ensures
        t@ == seq!['['] + items_text(items@.map_values(|v: JsonValue| v@), items@.len()) + seq![']'],
    decreases items@, 0nat,
{
    let ghost m = items@.map_values(|v: JsonValue| v@);
    let mut t = String::new();
    string_push(&mut t, '[');
    let mut i: usize = 0;
    while i < items.len()
        invariant
            i <= items.len(),
            m == items@.map_values(|v: JsonValue| v@),
            t@ == seq!['['] + items_text(m, i as nat),
        decreases items.len() - i,
    {
        if i > 0 {
            string_push(&mut t, ',');
        }
        assert(decreases_to!(items@ => items@[i as int]));
        let part = value_text(&items[i]);
        push_str(&mut t, part.as_str());
        i = i + 1;
        assert(t@ =~= seq!['['] + items_text(m, i as nat));
    }
    string_push(&mut t, ']');
    t
}

/// The JSON text of an object with these fields.
pub fn fields_text_of(fields: &Vec<(String, JsonValue)>) -> (t: String)
    ensures
        t@ == seq!['{'] + fields_text(fields_view(fields@), fields@.len()) + seq!['}'],
    decreases fields@, 0nat,
{
    let ghost m = fields_view(fields@);
    let mut t = String::new();
    string_push(&mut t, '{');
    let mut i: usize = 0;
    while i < fields.len()
        invariant
            i <= fields.len(),
            m == fields_view(fields@),
            t@ == seq!['{'] + fields_text(m, i as nat),
        decreases fields.len() - i,
    {
        if i > 0 {
            string_push(&mut t, ',');
        }
        let key = quoted_text(fields[i].0.as_str());
        push_str(&mut t, key.as_str());
        string_push(&mut t, ':');
        assert(decreases_to!(fields@ => fields@[i as int].1));
        let part = value_text(&fields[i].1);
        push_str(&mut t, part.as_str());
        i = i + 1;
        assert(t@ =~= seq!['{'] + fields_text(m, i as nat));
    }
    string_push(&mut t, '}');
    t
}

} // verus!

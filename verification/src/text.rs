//! Characters and byte positions inside UTF-8 text.
//!
//! A string is modelled by its characters (`Seq<char>`). The controls keep
//! their cursors as character positions; the standard library's `String`
//! edits at byte positions, and the byte offset of the `k`-th character is
//! the length of the UTF-8 encoding of the first `k` characters.
use vstd::prelude::*;
use vstd::std_specs::iter::IteratorSpec;
use vstd::utf8::*;

verus! {

/// Number of bytes in the UTF-8 encoding of `s`.
pub open spec fn byte_len(s: Seq<char>) -> nat {
    encode_utf8(s).len()
}

/// Byte offset at which the `k`-th character of `s` starts.
pub open spec fn byte_offset(s: Seq<char>, k: int) -> nat {
    byte_len(s.take(k))
}

/// `b` is a character boundary of `s`: the start of some character, or the end.
pub open spec fn is_boundary(s: Seq<char>, b: int) -> bool {
    exists|k: int| 0 <= k <= s.len() && #[trigger] byte_offset(s, k) == b
}

/// Index of the character that starts at byte `b` (meaningful when `is_boundary(s, b)`).
pub open spec fn char_index(s: Seq<char>, b: int) -> int {
    choose|k: int| 0 <= k <= s.len() && #[trigger] byte_offset(s, k) == b
}

/// `s` with `c` inserted at byte position `b`.
pub open spec fn insert_at_byte(s: Seq<char>, b: int, c: char) -> Seq<char> {
    let k = char_index(s, b);
    s.take(k).push(c) + s.skip(k)
}

/// `s` with the character that starts at byte position `b` removed.
pub open spec fn remove_at_byte(s: Seq<char>, b: int) -> Seq<char> {
    let k = char_index(s, b);
    s.take(k) + s.skip(k + 1)
}

/// The UTF-8 encoding of a character takes one to four bytes.
pub proof fn lemma_scalar_width(c: char)
    ensures
        1 <= encode_scalar(c as u32).len() <= 4,
        (c as u32) < 0x80 ==> encode_scalar(c as u32).len() == 1,
{
}

/// Encoding distributes over concatenation.
pub proof fn lemma_encode_concat(a: Seq<char>, b: Seq<char>)
    ensures
        encode_utf8(a + b) == encode_utf8(a) + encode_utf8(b),
    decreases a.len(),
{
    if a.len() == 0 {
        assert(a + b =~= b);
        assert(encode_utf8(a) =~= Seq::<u8>::empty());
        assert(encode_utf8(a) + encode_utf8(b) =~= encode_utf8(b));
    } else {
        lemma_encode_concat(a.drop_first(), b);
        assert((a + b).drop_first() =~= a.drop_first() + b);
        assert((a + b)[0] == a[0]);
        assert(encode_utf8(a + b) =~= encode_scalar(a[0] as u32) + encode_utf8(a.drop_first() + b));
        assert(encode_utf8(a) + encode_utf8(b) =~= encode_scalar(a[0] as u32) + (encode_utf8(
            a.drop_first(),
        ) + encode_utf8(b)));
    }
}

/// Byte length of a sequence that ends with `c`.
pub proof fn lemma_byte_len_push(s: Seq<char>, c: char)
    ensures
        byte_len(s.push(c)) == byte_len(s) + encode_scalar(c as u32).len(),
{
    lemma_encode_concat(s, seq![c]);
    assert(s.push(c) =~= s + seq![c]);
    assert(seq![c].drop_first() =~= Seq::<char>::empty());
    assert(encode_utf8(Seq::<char>::empty()) =~= Seq::<u8>::empty());
}

/// The offset of the next character is the offset of this one plus its width.
pub proof fn lemma_byte_offset_step(s: Seq<char>, k: int)
    requires
        0 <= k < s.len(),
    ensures
        byte_offset(s, k + 1) == byte_offset(s, k) + encode_scalar(s[k] as u32).len(),
        byte_offset(s, k) < byte_offset(s, k + 1),
{
    assert(s.take(k + 1) =~= s.take(k).push(s[k]));
    lemma_byte_len_push(s.take(k), s[k]);
    lemma_scalar_width(s[k]);
}

/// Byte offsets grow strictly with the character index.
pub proof fn lemma_byte_offset_strict(s: Seq<char>, i: int, j: int)
    requires
        0 <= i < j <= s.len(),
    ensures
        byte_offset(s, i) < byte_offset(s, j),
    decreases j - i,
{
    lemma_byte_offset_step(s, j - 1);
    if i < j - 1 {
        lemma_byte_offset_strict(s, i, j - 1);
    }
}

/// The character index of the `k`-th character's offset is `k`.
pub proof fn lemma_char_index_of_offset(s: Seq<char>, k: int)
    requires
        0 <= k <= s.len(),
    ensures
        is_boundary(s, byte_offset(s, k) as int),
        char_index(s, byte_offset(s, k) as int) == k,
{
    let b = byte_offset(s, k) as int;
    assert(0 <= k <= s.len() && byte_offset(s, k) == b);
    let j = char_index(s, b);
    if j < k {
        lemma_byte_offset_strict(s, j, k);
    } else if k < j {
        lemma_byte_offset_strict(s, k, j);
    }
}

/// The whole text ends at a boundary, and offsets never pass the end.
pub proof fn lemma_byte_offset_bounds(s: Seq<char>, k: int)
    requires
        0 <= k <= s.len(),
    ensures
        byte_offset(s, k) <= byte_len(s),
        k < s.len() ==> byte_offset(s, k) < byte_len(s),
        byte_offset(s, s.len() as int) == byte_len(s),
{
    assert(s.take(s.len() as int) =~= s);
    if k < s.len() {
        lemma_byte_offset_strict(s, k, s.len() as int);
    }
}

/// `0` is always a boundary, and so is the end of the text.
pub proof fn lemma_ends_are_boundaries(s: Seq<char>)
    ensures
        is_boundary(s, 0),
        char_index(s, 0) == 0,
        is_boundary(s, byte_len(s) as int),
        char_index(s, byte_len(s) as int) == s.len(),
{
    assert(s.take(0) =~= Seq::<char>::empty());
    assert(encode_utf8(Seq::<char>::empty()) =~= Seq::<u8>::empty());
    lemma_char_index_of_offset(s, 0);
    lemma_byte_offset_bounds(s, s.len() as int);
    lemma_char_index_of_offset(s, s.len() as int);
}

/// Std `String::insert`: inserts `ch` at byte position `idx`. It panics when
/// `idx` is past the end or not on a character boundary, so both are required.
/// Claimed: the characters afterwards are the old ones with `ch` at that place.
#[verifier::external_body]
pub fn string_insert(s: &mut String, idx: usize, ch: char)
    requires
        is_boundary(old(s)@, idx as int),
    ensures
        final(s)@ == insert_at_byte(old(s)@, idx as int, ch),
{
    s.insert(idx, ch)
}

/// Std `String::remove`: removes and returns the character that starts at
/// byte position `idx`. It panics when `idx` is not below the length or not on
/// a character boundary, so both are required. Claimed: the result is that
/// character and the text afterwards lacks exactly it.
#[verifier::external_body]
pub fn string_remove(s: &mut String, idx: usize) -> (ch: char)
    requires
        is_boundary(old(s)@, idx as int),
        idx < byte_len(old(s)@),
    ensures
        final(s)@ == remove_at_byte(old(s)@, idx as int),
        ch == old(s)@[char_index(old(s)@, idx as int)],
{
    s.remove(idx)
}

/// Std `String::push`: appends `ch` at the end. Claimed: the characters
/// afterwards are the old ones followed by `ch`.
#[verifier::external_body]
pub fn string_push(s: &mut String, ch: char)
    ensures
        final(s)@ == old(s)@.push(ch),
{
    s.push(ch)
}

/// The characters of `s`, in order.
pub fn chars_of(s: &str) -> (v: Vec<char>)
    ensures
        v@ == s@,
{
    let mut it = s.chars();
    let mut v: Vec<char> = Vec::new();
    loop
        invariant
            it.obeys_prophetic_iter_laws(),
            v.len() <= s@.len(),
            v@ == s@.take(v.len() as int),
            it.remaining() == s@.skip(v.len() as int),
        ensures
            v@ == s@,
        decreases s@.len() - v.len(),
    {
        let ghost before = it.remaining();
        match it.next() {
            Some(c) => {
                assert(before.len() > 0);
                assert(c == s@[v.len() as int]);
                v.push(c);
                assert(v@ =~= s@.take(v.len() as int));
                assert(it.remaining() =~= s@.skip(v.len() as int));
            },
            None => {
                assert(before.len() == 0);
                assert(v@ =~= s@);
                break ;
            },
        }
    }
    v
}

/// A `String` holding the given characters.
pub fn string_of(cs: &Vec<char>) -> (s: String)
    ensures
        s@ == cs@,
{
    let mut s = String::new();
    let mut i: usize = 0;
    while i < cs.len()
        invariant
            i <= cs.len(),
            s@ == cs@.take(i as int),
        decreases cs.len() - i,
    {
        string_push(&mut s, cs[i]);
        i = i + 1;
        assert(s@ =~= cs@.take(i as int));
    }
    assert(cs@.take(cs.len() as int) =~= cs@);
    s
}

/// The first `n` characters of `s` (all of them when it is shorter).
pub fn take_chars(s: &str, n: usize) -> (t: String)
    ensures
        t@ == s@.take(if n <= s@.len() { n as int } else { s@.len() as int }),
{
    let cs = chars_of(s);
    let mut out: Vec<char> = Vec::new();
    let mut i: usize = 0;
    while i < n && i < cs.len()
        invariant
            i <= cs.len(),
            i <= n,
            cs@ == s@,
            out@ == s@.take(i as int),
        decreases cs.len() - i,
    {
        out.push(cs[i]);
        i = i + 1;
        assert(out@ =~= s@.take(i as int));
    }
    string_of(&out)
}

/// `s` followed by spaces up to `width` characters; unchanged when it is
/// already that long.
pub open spec fn padded(s: Seq<char>, width: nat) -> Seq<char> {
    if s.len() >= width {
        s
    } else {
        s + Seq::new((width - s.len()) as nat, |i: int| ' ')
    }
}

/// Pads `s` with spaces on the right to at least `width` characters, as the
/// `{:width$}` format of a string does.
pub fn pad_right(s: &str, width: usize) -> (t: String)
    ensures
        t@ == padded(s@, width as nat),
{
    let mut cs = chars_of(s);
    let ghost n0 = cs.len();
    while cs.len() < width
        invariant
            n0 == s@.len(),
            cs.len() >= n0,
            cs.len() > n0 ==> cs.len() <= width,
            cs@ == s@ + Seq::new((cs.len() - n0) as nat, |i: int| ' '),
        decreases width - cs.len(),
    {
        cs.push(' ');
        assert(cs@ =~= s@ + Seq::new((cs.len() - n0) as nat, |i: int| ' '));
    }
    proof {
        if s@.len() >= width {
            assert(cs@ =~= s@);
        } else {
            assert(cs@ =~= padded(s@, width as nat));
        }
    }
    string_of(&cs)
}

/// The character at character index `i` of `s`, or a space past its end.
pub fn char_at_or_space(s: &str, i: usize) -> (c: char)
    ensures
        c == (if i < s@.len() { s@[i as int] } else { ' ' }),
{
    let cs = chars_of(s);
    if i < cs.len() {
        cs[i]
    } else {
        ' '
    }
}

/// Std `str` slicing `&s[..end]`: the text before byte position `end`. It
/// panics when `end` is not on a character boundary, so that is required.
/// Claimed: the result is the characters before that boundary.
#[verifier::external_body]
pub fn str_prefix(s: &str, end: usize) -> (p: &str)
    requires
        is_boundary(s@, end as int),
    ensures
        p@ == s@.take(char_index(s@, end as int)),
{
    &s[..end]
}

/// The decimal digit `d` (for `d < 10`).
pub open spec fn digit_char(d: nat) -> char {
    if d == 0 { '0' } else if d == 1 { '1' } else if d == 2 { '2' } else if d == 3 { '3' }
    else if d == 4 { '4' } else if d == 5 { '5' } else if d == 6 { '6' } else if d == 7 { '7' }
    else if d == 8 { '8' } else { '9' }
}

/// The decimal digits of `n`, as `Display` writes an unsigned integer.
pub open spec fn decimal(n: nat) -> Seq<char>
    decreases n,
{
    if n < 10 {
        seq![digit_char(n)]
    } else {
        decimal(n / 10).push(digit_char(n % 10))
    }
}

/// Appends the decimal digits of `n` to `s`.
pub fn push_decimal(s: &mut String, n: usize)
    ensures
        final(s)@ == old(s)@ + decimal(n as nat),
    decreases n,
{
    if n >= 10 {
        push_decimal(s, n / 10);
    }
    let d = n % 10;
    let c = if d == 0 { '0' } else if d == 1 { '1' } else if d == 2 { '2' } else if d == 3 { '3' }
    else if d == 4 { '4' } else if d == 5 { '5' } else if d == 6 { '6' } else if d == 7 { '7' }
    else if d == 8 { '8' } else { '9' };
    string_push(s, c);
    assert(s@ =~= old(s)@ + decimal(n as nat));
}

/// Appends the characters of `t` to `s`.
pub fn push_str(s: &mut String, t: &str)
    ensures
        final(s)@ == old(s)@ + t@,
{
    let cs = chars_of(t);
    let mut i: usize = 0;
    while i < cs.len()
        invariant
            i <= cs.len(),
            cs@ == t@,
            s@ == old(s)@ + t@.take(i as int),
        decreases cs.len() - i,
    {
        string_push(s, cs[i]);
        i = i + 1;
        assert(s@ =~= old(s)@ + t@.take(i as int));
    }
    assert(t@.take(cs.len() as int) =~= t@);
}

/// Number of bytes in the UTF-8 encoding of `c`.
pub fn char_width(c: char) -> (w: usize)
    ensures
        w == encode_scalar(c as u32).len(),
{
    let v = c as u32;
    if v < 0x80 {
        1
    } else if v < 0x800 {
        2
    } else if v < 0x10000 {
        assert(!(0xD800 <= v <= 0xDFFF)) by {
            char_is_scalar(c);
        }
        3
    } else {
        assert(v <= 0x10FFFF) by {
            char_is_scalar(c);
        }
        4
    }
}

/// Whether byte position `b` is a character boundary of `s`.
pub fn at_boundary(s: &str, b: usize) -> (r: bool)
    ensures
        r == is_boundary(s@, b as int),
{
    let cs = chars_of(s);
    let mut k: usize = 0;
    let mut off: usize = 0;
    proof {
        lemma_ends_are_boundaries(s@);
    }
    while k < cs.len() && off < b
        invariant
            cs@ == s@,
            k <= cs.len(),
            off == byte_offset(s@, k as int),
            forall|j: int| 0 <= j < k ==> byte_offset(s@, j) < b,
        decreases cs.len() - k,
    {
        proof {
            lemma_byte_offset_step(s@, k as int);
        }
        let w = char_width(cs[k]);
        if w > b - off {
            // the next offset passes b, so b lies inside character k
            proof {
                assert forall|j: int| 0 <= j <= s@.len() implies byte_offset(s@, j) != b by {
                    if j > k + 1 {
                        lemma_byte_offset_strict(s@, k + 1, j);
                    }
                }
            }
            return false;
        }
        off = off + w;
        k = k + 1;
    }
    proof {
        if off == b {
            assert(byte_offset(s@, k as int) == b);
        } else if off < b {
            // every character was passed and the text ends before b
            assert(k == cs.len());
            assert forall|j: int| 0 <= j <= s@.len() implies byte_offset(s@, j) != b by {
                if j < k {
                    lemma_byte_offset_strict(s@, j, k as int);
                }
            }
        } else {
            assert forall|j: int| 0 <= j <= s@.len() implies byte_offset(s@, j) != b by {
                if j < k {
                } else if j > k {
                    lemma_byte_offset_strict(s@, k as int, j);
                }
            }
        }
    }
    off == b
}

/// Std `String::len`: the length of the text in bytes, that is, of its UTF-8
/// encoding. Claimed: the result is exactly that length.
#[verifier::external_body]
pub fn text_byte_len(s: &String) -> (n: usize)
    ensures
        n == byte_len(s@),
{
    s.len()
}


/// `s` with `c` inserted before its `k`-th character.
pub open spec fn insert_char(s: Seq<char>, k: int, c: char) -> Seq<char> {
    s.take(k).push(c) + s.skip(k)
}

/// `s` without its `k`-th character.
pub open spec fn remove_char(s: Seq<char>, k: int) -> Seq<char> {
    s.take(k) + s.skip(k + 1)
}

/// Removing the character just inserted gives the text back.
pub proof fn lemma_insert_then_remove_char(s: Seq<char>, k: int, c: char)
    requires
        0 <= k <= s.len(),
    ensures
        insert_char(s, k, c).len() == s.len() + 1,
        insert_char(s, k, c)[k] == c,
        remove_char(insert_char(s, k, c), k) == s,
{
    let t = insert_char(s, k, c);
    assert(t.take(k) =~= s.take(k));
    assert(t.skip(k + 1) =~= s.skip(k));
    assert(remove_char(t, k) =~= s);
}

/// Number of characters of `s`.
pub fn char_count(s: &str) -> (n: usize)
    ensures
        n == s@.len(),
{
    chars_of(s).len()
}

/// The byte position at which character `k` of `s` starts.
pub fn byte_index_of(s: &String, k: usize) -> (b: usize)
    requires
        k <= s@.len(),
    ensures
        b == byte_offset(s@, k as int),
{
    let cs = chars_of(s.as_str());
    let total = text_byte_len(s);
    let mut off: usize = 0;
    let mut i: usize = 0;
    assert(s@.take(0) =~= Seq::<char>::empty());
    assert(encode_utf8(Seq::<char>::empty()) =~= Seq::<u8>::empty());
    while i < k
        invariant
            i <= k,
            k <= cs.len(),
            cs@ == s@,
            off == byte_offset(s@, i as int),
            total == byte_len(s@),
        decreases k - i,
    {
        proof {
            lemma_byte_offset_step(s@, i as int);
            lemma_byte_offset_bounds(s@, i + 1);
        }
        off = off + char_width(cs[i]);
        i = i + 1;
    }
    off
}

/// Inserts `c` before character `k` of `s`.
pub fn insert_char_at(s: &mut String, k: usize, c: char)
    requires
        k <= old(s)@.len(),
    ensures
        final(s)@ == insert_char(old(s)@, k as int, c),
{
    let b = byte_index_of(s, k);
    proof {
        lemma_char_index_of_offset(s@, k as int);
    }
    string_insert(s, b, c);
}

/// Removes character `k` of `s`.
pub fn remove_char_at(s: &mut String, k: usize)
    requires
        k < old(s)@.len(),
    ensures
        final(s)@ == remove_char(old(s)@, k as int),
{
    let b = byte_index_of(s, k);
    proof {
        lemma_char_index_of_offset(s@, k as int);
        lemma_byte_offset_bounds(s@, k as int);
    }
    let _ = string_remove(s, b);
}

} // verus!

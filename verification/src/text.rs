//! UTF-8 byte offsets over character sequences, and the string edits the
//! panel's text inputs are made of.

use vstd::prelude::*;
use vstd::utf8::*;

verus! {

/// Number of bytes in the UTF-8 encoding of `c`.
pub open spec fn utf8_width(c: char) -> nat {
    let v = c as u32;
    if v <= 0x7F {
        1
    } else if v <= 0x7FF {
        2
    } else if v <= 0xFFFF {
        3
    } else {
        4
    }
}

/// Number of bytes in the UTF-8 encoding of `s`.
pub open spec fn utf8_len(s: Seq<char>) -> nat
    decreases s.len(),
{
    if s.len() == 0 {
        0
    } else {
        utf8_width(s[0]) + utf8_len(s.drop_first())
    }
}

/// Byte offset at which the `k`-th character of `s` starts.
pub open spec fn byte_offset(s: Seq<char>, k: int) -> nat {
    utf8_len(s.take(k))
}

/// `b` is a character boundary of `s`: the byte offset of some character
/// index from `0` to `s.len()` (inclusive).
pub open spec fn is_boundary(s: Seq<char>, b: int) -> bool {
    exists|k: int| 0 <= k <= s.len() && #[trigger] byte_offset(s, k) == b
}

/// The character index whose byte offset is the boundary `b`.
pub open spec fn char_index(s: Seq<char>, b: int) -> int {
    choose|k: int| 0 <= k <= s.len() && #[trigger] byte_offset(s, k) == b
}

pub proof fn lemma_utf8_width_bounds(c: char)
    ensures
        1 <= utf8_width(c) <= 4,
{
}

pub proof fn lemma_utf8_len_concat(a: Seq<char>, b: Seq<char>)
    ensures
        utf8_len(a + b) == utf8_len(a) + utf8_len(b),
    decreases a.len(),
{
    if a.len() == 0 {
        assert(a + b =~= b);
    } else {
        assert((a + b).drop_first() =~= a.drop_first() + b);
        lemma_utf8_len_concat(a.drop_first(), b);
    }
}

pub proof fn lemma_utf8_len_single(c: char)
    ensures
        utf8_len(seq![c]) == utf8_width(c),
{
    assert(seq![c].drop_first() =~= Seq::<char>::empty());
    assert(utf8_len(Seq::<char>::empty()) == 0);
}

/// The byte length computed here is the length of vstd's UTF-8 encoding.
pub proof fn lemma_utf8_len_encode(s: Seq<char>)
    ensures
        utf8_len(s) == encode_utf8(s).len(),
    decreases s.len(),
{
    if s.len() > 0 {
        char_is_scalar(s[0]);
        lemma_utf8_len_encode(s.drop_first());
    }
}

pub proof fn lemma_offset_step(s: Seq<char>, k: int)
    requires
        0 <= k < s.len(),
    ensures
        byte_offset(s, k + 1) == byte_offset(s, k) + utf8_width(s[k]),
{
    assert(s.take(k + 1) =~= s.take(k) + seq![s[k]]);
    lemma_utf8_len_concat(s.take(k), seq![s[k]]);
    lemma_utf8_len_single(s[k]);
}

pub proof fn lemma_offset_full(s: Seq<char>)
    ensures
        byte_offset(s, s.len() as int) == utf8_len(s),
{
    assert(s.take(s.len() as int) =~= s);
}

pub proof fn lemma_offset_mono(s: Seq<char>, i: int, j: int)
    requires
        0 <= i <= j <= s.len(),
    ensures
        byte_offset(s, i) + (j - i) <= byte_offset(s, j),
    decreases j - i,
{
    if i < j {
        lemma_offset_mono(s, i, j - 1);
        lemma_offset_step(s, j - 1);
    }
}

pub proof fn lemma_offset_bounded(s: Seq<char>, k: int)
    requires
        0 <= k <= s.len(),
    ensures
        byte_offset(s, k) <= utf8_len(s),
        k < s.len() ==> byte_offset(s, k) < utf8_len(s),
{
    lemma_offset_mono(s, k, s.len() as int);
    lemma_offset_full(s);
}

/// A boundary names exactly one character index.
pub proof fn lemma_char_index(s: Seq<char>, b: int)
    requires
        is_boundary(s, b),
    ensures
        0 <= char_index(s, b) <= s.len(),
        byte_offset(s, char_index(s, b)) == b,
        forall|k: int| 0 <= k <= s.len() && byte_offset(s, k) == b ==> k == char_index(s, b),
        0 <= b <= utf8_len(s),
{
    let c = char_index(s, b);
    assert forall|k: int| 0 <= k <= s.len() && byte_offset(s, k) == b implies k == c by {
        if k < c {
            lemma_offset_mono(s, k, c);
        } else if c < k {
            lemma_offset_mono(s, c, k);
        }
    }
    lemma_offset_bounded(s, c);
}

/// The offset of index `k` is a boundary whose index is `k`.
pub proof fn lemma_boundary_of_index(s: Seq<char>, k: int)
    requires
        0 <= k <= s.len(),
    ensures
        is_boundary(s, byte_offset(s, k) as int),
        char_index(s, byte_offset(s, k) as int) == k,
{
    assert(byte_offset(s, k) == byte_offset(s, k));
    lemma_char_index(s, byte_offset(s, k) as int);
}

/// Offsets into a concatenation.
pub proof fn lemma_offset_concat(a: Seq<char>, b: Seq<char>, i: int)
    requires
        0 <= i <= a.len() + b.len(),
    ensures
        i <= a.len() ==> byte_offset(a + b, i) == byte_offset(a, i),
        i >= a.len() ==> byte_offset(a + b, i) == utf8_len(a) + byte_offset(b, i - a.len()),
{
    if i <= a.len() {
        assert((a + b).take(i) =~= a.take(i));
    } else {
        assert((a + b).take(i) =~= a + b.take(i - a.len()));
        lemma_utf8_len_concat(a, b.take(i - a.len()));
    }
    if i == a.len() {
        assert(b.take(0) =~= Seq::<char>::empty());
        lemma_offset_full(a);
    }
}

/// Executable width of a character's UTF-8 encoding.
pub fn char_utf8_width(c: char) -> (w: usize)
    ensures
        w == utf8_width(c),
{
    let v = c as u32;
    if v <= 0x7F {
        1
    } else if v <= 0x7FF {
        2
    } else if v <= 0xFFFF {
        3
    } else {
        4
    }
}

/// Byte length of a string slice, in terms of its characters.
pub fn str_byte_len(s: &str) -> (n: usize)
    ensures
        n == utf8_len(s@),
{
    proof {
        lemma_utf8_len_encode(s@);
    }
    s.as_bytes().len()
}

/// The byte offset of character `k` of `s`, or nothing past its end.
pub fn nth_char_offset(s: &str, k: usize) -> (r: Option<usize>)
    ensures
        r == if k < s@.len() {
            Some(byte_offset(s@, k as int) as usize)
        } else {
            None::<usize>
        },
{
    let n = str_byte_len(s);
    let chars = str_chars(s);
    if k >= chars.len() {
        return None;
    }
    let mut offset: usize = 0;
    let mut i: usize = 0;
    assert(s@.take(0) =~= Seq::<char>::empty());
    while i < k
        invariant
            chars@ == s@,
            k < chars@.len(),
            i <= k,
            n == utf8_len(s@),
            offset == byte_offset(s@, i as int),
        decreases k - i,
    {
        proof {
            lemma_offset_step(s@, i as int);
            lemma_offset_bounded(s@, (i + 1) as int);
        }
        offset = offset + char_utf8_width(chars[i]);
        i = i + 1;
    }
    Some(offset)
}


/// Byte offset and character of each character of `line`, in order.
pub fn char_offsets(line: &str) -> (v: Vec<(usize, char)>)
    requires
        utf8_len(line@) <= usize::MAX,
    ensures
        v@.len() == line@.len(),
        forall|k: int|
            0 <= k < line@.len() ==> #[trigger] v@[k] == (byte_offset(line@, k) as usize, line@[k]),
{
    let chars = str_chars(line);
    let mut v: Vec<(usize, char)> = Vec::new();
    let mut offset: usize = 0;
    let mut i: usize = 0;
    while i < chars.len()
        invariant
            chars@ == line@,
            utf8_len(line@) <= usize::MAX,
            i <= chars@.len(),
            v@.len() == i,
            offset == byte_offset(line@, i as int),
            forall|k: int|
                0 <= k < i ==> #[trigger] v@[k] == (byte_offset(line@, k) as usize, line@[k]),
        decreases chars@.len() - i,
    {
        let c = chars[i];
        v.push((offset, c));
        proof {
            lemma_offset_step(line@, i as int);
            lemma_offset_bounded(line@, (i + 1) as int);
        }
        offset = offset + char_utf8_width(c);
        i = i + 1;
    }
    v
}

/// The character index of the byte offset `b` of `line`, when `b` is a
/// character boundary of it.
pub fn boundary_index(line: &str, b: usize) -> (r: Option<usize>)
    ensures
        match r {
            Some(k) => is_boundary(line@, b as int) && k == char_index(line@, b as int),
            None => !is_boundary(line@, b as int),
        },
{
    let chars = str_chars(line);
    let mut offset: u128 = 0;
    let mut k: usize = 0;
    while k < chars.len()
        invariant
            chars@ == line@,
            k <= chars@.len(),
            offset == byte_offset(line@, k as int),
            forall|j: int| 0 <= j < k ==> byte_offset(line@, j) != b,
            offset <= 4 * k,
        decreases chars@.len() - k,
    {
        if offset == b as u128 {
            proof {
                lemma_boundary_of_index(line@, k as int);
            }
            return Some(k);
        }
        if offset > b as u128 {
            proof {
                assert forall|j: int| 0 <= j <= line@.len() implies byte_offset(line@, j) != b by {
                    if j >= k {
                        lemma_offset_mono(line@, k as int, j);
                    }
                }
            }
            return None;
        }
        proof {
            lemma_offset_step(line@, k as int);
            lemma_utf8_width_bounds(chars@[k as int]);
        }
        offset = offset + char_utf8_width(chars[k]) as u128;
        k = k + 1;
    }
    if offset == b as u128 {
        proof {
            lemma_boundary_of_index(line@, k as int);
        }
        Some(k)
    } else {
        None
    }
}

/// The characters of a string slice.
pub(crate) fn str_chars(s: &str) -> (v: Vec<char>)
    ensures
        v@ == s@,
{
    broadcast use vstd::string::axiom_spec_iter;
    let mut v: Vec<char> = Vec::new();
    for c in it: s.chars()
        invariant
            it.seq() == s@,
            v@ == it.seq().take(it.index() as int),
    {
        v.push(c);
        assert(it.seq().take(it.index() + 1) =~= it.seq().take(it.index() as int).push(c));
    }
    assert(s@.take(s@.len() as int) =~= s@);
    v
}

/// `String::insert`: inserts `c` at the character boundary `idx`.
/// std panics when `idx` is not a boundary; the contract asks for one.
#[verifier::external_body]
pub(crate) fn string_insert(s: &mut String, idx: usize, c: char)
    requires
        is_boundary(old(s)@, idx as int),
    ensures
        final(s)@ == old(s)@.take(char_index(old(s)@, idx as int)).push(c) + old(s)@.skip(
            char_index(old(s)@, idx as int),
        ),
{
    s.insert(idx, c)
}

/// `String::insert_str`: inserts `t` at the character boundary `idx`.
#[verifier::external_body]
pub(crate) fn string_insert_str(s: &mut String, idx: usize, t: &str)
    requires
        is_boundary(old(s)@, idx as int),
    ensures
        final(s)@ == old(s)@.take(char_index(old(s)@, idx as int)) + t@ + old(s)@.skip(
            char_index(old(s)@, idx as int),
        ),
{
    s.insert_str(idx, t)
}

/// `String::replace_range(from..to, "")`: removes the characters between two
/// boundaries.  std panics unless both are boundaries and `from <= to`.
#[verifier::external_body]
pub(crate) fn string_remove_range(s: &mut String, from: usize, to: usize)
    requires
        is_boundary(old(s)@, from as int),
        is_boundary(old(s)@, to as int),
        from <= to,
    ensures
        final(s)@ == old(s)@.take(char_index(old(s)@, from as int)) + old(s)@.skip(
            char_index(old(s)@, to as int),
        ),
{
    s.replace_range(from..to, "")
}

/// `String::truncate`: keeps the characters before the boundary `n`.
#[verifier::external_body]
pub(crate) fn string_truncate(s: &mut String, n: usize)
    requires
        is_boundary(old(s)@, n as int),
    ensures
        final(s)@ == old(s)@.take(char_index(old(s)@, n as int)),
{
    s.truncate(n)
}

/// The characters of `s` from the boundary `from` on.
pub(crate) fn str_tail(s: &str, from: usize) -> (t: String)
    requires
        is_boundary(s@, from as int),
    ensures
        t@ == s@.skip(char_index(s@, from as int)),
{
    let mut t = s.to_owned();
    proof {
        assert(s@.take(0) =~= Seq::<char>::empty());
        lemma_boundary_of_index(s@, 0);
    }
    string_remove_range(&mut t, 0, from);
    assert(t@ =~= s@.skip(char_index(s@, from as int)));
    t
}

/// `String::push`: appends one character.
#[verifier::external_body]
pub(crate) fn string_push(s: &mut String, c: char)
    ensures
        final(s)@ == old(s)@.push(c),
{
    s.push(c)
}

} // verus!

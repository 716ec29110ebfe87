//! Document text held in a `ropey::Rope`, the index conversions the search
//! makes on it, and the regular-expression search over it.

use regex_cursor::engines::meta::Builder;
use regex_cursor::regex_automata::util::syntax::Config;
use regex_cursor::Input;
use ropey::Rope;
use vstd::prelude::*;

use crate::text::{utf8_len, utf8_width};

verus! {

#[verifier::external_type_specification]
#[verifier::external_body]
pub struct ExRope(Rope);

/// The characters a rope holds.
pub uninterp spec fn rope_chars(r: Rope) -> Seq<char>;

/// The characters ropey ends a line at (its default features recognise the
/// Unicode mandatory breaks): LF, VT, FF, CR, NEL, LS and PS.
pub open spec fn is_line_break_char(c: char) -> bool {
    c == '\n' || c == '\u{0B}' || c == '\u{0C}' || c == '\r' || c == '\u{85}' || c == '\u{2028}'
        || c == '\u{2029}'
}

/// Whether a new line starts at index `j` of `text`: right after a line
/// break, a CR followed by LF counting as one break (ending after the LF).
pub open spec fn starts_line(text: Seq<char>, j: int) -> bool {
    &&& 0 < j <= text.len()
    &&& is_line_break_char(text[j - 1])
    &&& !(text[j - 1] == '\r' && j < text.len() && text[j] == '\n')
}

/// How many lines start after index 0, up to and including index `i`.
pub open spec fn line_starts_upto(text: Seq<char>, i: int) -> nat
    decreases i,
{
    if i <= 0 {
        0
    } else {
        line_starts_upto(text, i - 1) + if starts_line(text, i) {
            1nat
        } else {
            0nat
        }
    }
}

/// `Rope::len_lines`: the number of line breaks plus one.
pub open spec fn rope_len_lines(text: Seq<char>) -> usize {
    (line_starts_upto(text, text.len() as int) + 1) as usize
}

/// `Rope::char_to_line`: the number of lines that start after index 0 at or
/// before the character.
pub open spec fn rope_char_to_line(text: Seq<char>, char_idx: usize) -> usize {
    line_starts_upto(text, char_idx as int) as usize
}

/// `Rope::line_to_char`: the index the line starts at (0 for the first line,
/// the character count for the line one past the last).
pub open spec fn rope_line_to_char(text: Seq<char>, line_idx: usize) -> usize {
    if line_idx == 0 {
        0
    } else if exists|j: int| starts_line(text, j) && line_starts_upto(text, j) == line_idx {
        (choose|j: int| starts_line(text, j) && line_starts_upto(text, j) == line_idx) as usize
    } else {
        text.len() as usize
    }
}

/// `Rope::line(..)` as a string: the characters from the line's start to the
/// next line's start (or the end), its line break included.
pub open spec fn rope_line(text: Seq<char>, line_idx: usize) -> Seq<char> {
    let start = rope_line_to_char(text, line_idx) as int;
    let end = if line_idx + 1 < rope_len_lines(text) {
        rope_line_to_char(text, (line_idx + 1) as usize) as int
    } else {
        text.len() as int
    };
    text.subrange(start, end)
}

/// `Rope::byte_to_char`: the index of the character the byte belongs to
/// (the character count for the one-past-the-end byte).
pub open spec fn char_at_byte(s: Seq<char>, b: int) -> int
    decreases s.len(),
{
    if s.len() == 0 || b < utf8_width(s[0]) {
        0
    } else {
        1 + char_at_byte(s.drop_first(), b - utf8_width(s[0]))
    }
}

pub proof fn lemma_char_at_byte_bounds(s: Seq<char>, b: int)
    ensures
        0 <= char_at_byte(s, b) <= s.len(),
    decreases s.len(),
{
    if s.len() > 0 && b >= utf8_width(s[0]) {
        lemma_char_at_byte_bounds(s.drop_first(), b - utf8_width(s[0]));
    }
}

pub proof fn lemma_char_at_byte_mono(s: Seq<char>, a: int, b: int)
    requires
        a <= b,
    ensures
        char_at_byte(s, a) <= char_at_byte(s, b),
    decreases s.len(),
{
    lemma_char_at_byte_bounds(s, b);
    if s.len() > 0 && a >= utf8_width(s[0]) {
        lemma_char_at_byte_mono(s.drop_first(), a - utf8_width(s[0]), b - utf8_width(s[0]));
    }
}

/// Trusted: `Rope::len_chars`.  Claimed: the number of characters held.
#[verifier::external_body]
pub(crate) fn rope_len_chars(r: &Rope) -> (n: usize)
    ensures
        n == rope_chars(*r).len(),
{
    r.len_chars()
}

/// Trusted: `Rope::len_lines`.  Claimed: the number of line breaks plus one,
/// as ropey documents its line breaks (`rope_len_lines`).
#[verifier::external_body]
pub(crate) fn rope_lines(r: &Rope) -> (n: usize)
    ensures
        n == rope_len_lines(rope_chars(*r)),
        n >= 1,
{
    r.len_lines()
}

/// Trusted: `Rope::byte_to_char`, which panics past the end (hence the
/// `requires`).  Claimed: the character the byte belongs to, as documented.
#[verifier::external_body]
pub(crate) fn rope_byte_to_char(r: &Rope, byte_idx: usize) -> (c: usize)
    requires
        byte_idx <= utf8_len(rope_chars(*r)),
    ensures
        c == char_at_byte(rope_chars(*r), byte_idx as int),
{
    r.byte_to_char(byte_idx)
}

/// Trusted: `Rope::char_to_line`, which panics past the end.  Claimed: the
/// line the character is on (`rope_char_to_line`), a line of the rope (the
/// one-past-the-end character gives the last line).
#[verifier::external_body]
pub(crate) fn rope_char_line(r: &Rope, char_idx: usize) -> (l: usize)
    requires
        char_idx <= rope_chars(*r).len(),
    ensures
        l == rope_char_to_line(rope_chars(*r), char_idx),
        l < rope_len_lines(rope_chars(*r)),
{
    r.char_to_line(char_idx)
}

/// Trusted: `Rope::line_to_char`, which panics past one-past-the-end.
/// Claimed: where the line starts (`rope_line_to_char`), at most the
/// character count.
#[verifier::external_body]
pub(crate) fn rope_line_start(r: &Rope, line_idx: usize) -> (c: usize)
    requires
        line_idx <= rope_len_lines(rope_chars(*r)),
    ensures
        c == rope_line_to_char(rope_chars(*r), line_idx),
        c <= rope_chars(*r).len(),
{
    r.line_to_char(line_idx)
}

/// Trusted: `Rope::line(line_idx).to_string()`, which panics for a line
/// that does not exist.  Claimed: the line's characters, its break included
/// (`rope_line`).
#[verifier::external_body]
pub(crate) fn rope_line_string(r: &Rope, line_idx: usize) -> (s: String)
    requires
        line_idx < rope_len_lines(rope_chars(*r)),
    ensures
        s@ == rope_line(rope_chars(*r), line_idx),
{
    r.line(line_idx).to_string()
}

/// Trusted: `Rope::slice(start..end).to_string()`, which panics unless
/// `start <= end <= len_chars`.  Claimed: the characters in that range.
#[verifier::external_body]
pub(crate) fn rope_slice_string(r: &Rope, start: usize, end: usize) -> (s: String)
    requires
        start <= end <= rope_chars(*r).len(),
    ensures
        s@ == rope_chars(*r).subrange(start as int, end as int),
{
    r.slice(start..end).to_string()
}

/// What a buffer search with `regex_cursor`'s meta regex finds: on success
/// the byte spans of the successive non-overlapping matches of `pattern`
/// (compiled with the given case-insensitivity and multi-line mode) in the
/// text; on failure the error's message.
pub uninterp spec fn buffer_regex_search(
    pattern: Seq<char>,
    case_insensitive: bool,
    text: Seq<char>,
) -> Result<Seq<(usize, usize)>, Seq<char>>;

/// Trusted: builds `regex_cursor::engines::meta::Regex` from `pattern` with
/// `Config::new().case_insensitive(..).multi_line(true)` and collects the
/// spans of `find_iter` over the rope; a build error becomes its message.
/// Building and iterating are one computation here because only together is
/// the outcome a function of plain values.  Claimed: the outcome is the named
/// function of the pattern, the flag and the text, and every span lies in
/// the text with its start at or before its end.
#[verifier::external_body]
pub(crate) fn regex_find_in_rope(pattern: &str, case_insensitive: bool, text: &Rope) -> (r: Result<
    Vec<(usize, usize)>,
    String,
>)
    ensures
        match r {
            Ok(spans) => {
                &&& buffer_regex_search(pattern@, case_insensitive, rope_chars(*text)) == Ok::<
                    Seq<(usize, usize)>,
                    Seq<char>,
                >(spans@)
                &&& forall|i: int|
                    0 <= i < spans@.len() ==> #[trigger] spans@[i].0 <= spans@[i].1 <= utf8_len(
                        rope_chars(*text),
                    )
            },
            Err(e) => buffer_regex_search(pattern@, case_insensitive, rope_chars(*text)) == Err::<
                Seq<(usize, usize)>,
                Seq<char>,
            >(e@),
        },
{
    let re = match Builder::new().syntax(
        Config::new().case_insensitive(case_insensitive).multi_line(true),
    ).build(pattern) {
        Ok(re) => re,
        Err(e) => return Err(format!("{e}")),
    };
    Ok(re.find_iter(Input::new(text)).map(|m| (m.start(), m.end())).collect())
}

} // verus!

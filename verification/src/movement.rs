//! Cursor movements inside a single-line input: by grapheme cluster and by
//! whitespace-separated word, with byte offsets as positions.

use unicode_segmentation::GraphemeCursor;
use vstd::prelude::*;

use crate::text::{
    byte_offset, char_index, char_offsets, is_boundary, lemma_boundary_of_index, lemma_char_index,
    lemma_offset_bounded, lemma_offset_full, str_byte_len, utf8_len,
};

verus! {

/// A cursor movement, repeated the given number of times.
#[derive(Clone, Copy, Debug)]
pub enum Movement {
    BackwardChar(usize),
    BackwardWord(usize),
    ForwardChar(usize),
    ForwardWord(usize),
}

/// The next extended-or-legacy grapheme boundary after byte `pos` of `s`, as
/// `unicode_segmentation::GraphemeCursor` (legacy clusters) reports it.
pub uninterp spec fn next_grapheme_boundary(s: Seq<char>, pos: usize) -> Option<usize>;

/// The previous grapheme boundary before byte `pos` of `s`, as
/// `unicode_segmentation::GraphemeCursor` (legacy clusters) reports it.
pub uninterp spec fn prev_grapheme_boundary(s: Seq<char>, pos: usize) -> Option<usize>;

/// Whether `char::is_whitespace` holds of `c` (the Unicode `White_Space`
/// property).
pub uninterp spec fn is_whitespace_char(c: char) -> bool;

/// Trusted: `GraphemeCursor::new(pos, line.len(), false)` followed by
/// `next_boundary(line, 0)` on the whole line; an error counts as no boundary.
/// Claimed: the result is the named function of the line and position; at the
/// end of the line there is none; before the end there is one, a character
/// boundary after `pos` (the cursor walks whole characters and, given the
/// whole line from offset 0, reports the end of the line as a boundary).
#[verifier::external_body]
pub(crate) fn grapheme_next(line: &str, pos: usize) -> (r: Option<usize>)
    requires
        is_boundary(line@, pos as int),
    ensures
        r == next_grapheme_boundary(line@, pos),
        match r {
            Some(b) => pos < b && is_boundary(line@, b as int),
            None => pos == utf8_len(line@),
        },
{
    let mut gc = GraphemeCursor::new(pos, line.len(), false);
    match gc.next_boundary(line, 0) {
        Ok(r) => r,
        Err(_) => None,
    }
}

/// Trusted: `GraphemeCursor::new(pos, line.len(), false)` followed by
/// `prev_boundary(line, 0)` on the whole line; an error counts as no boundary.
/// Claimed: the result is the named function of the line and position; at
/// offset 0 there is none; after it there is one, a character boundary before
/// `pos`.
#[verifier::external_body]
fn grapheme_prev(line: &str, pos: usize) -> (r: Option<usize>)
    requires
        is_boundary(line@, pos as int),
    ensures
        r == prev_grapheme_boundary(line@, pos),
        match r {
            Some(b) => b < pos && is_boundary(line@, b as int),
            None => pos == 0,
        },
{
    let mut gc = GraphemeCursor::new(pos, line.len(), false);
    match gc.prev_boundary(line, 0) {
        Ok(r) => r,
        Err(_) => None,
    }
}

/// Trusted: `char::is_whitespace`.  Claimed: the result is the named property
/// of `c`.
#[verifier::external_body]
fn char_is_whitespace(c: char) -> (r: bool)
    ensures
        r == is_whitespace_char(c),
{
    c.is_whitespace()
}

/// Position after moving forward over up to `n` grapheme clusters from `pos`
/// (each step to the next grapheme boundary, a character boundary after the
/// position, until there is none).
pub open spec fn forward_chars(s: Seq<char>, pos: usize, n: nat) -> usize
    decreases n,
{
    if n == 0 {
        pos
    } else {
        match next_grapheme_boundary(s, pos) {
            Some(p) => if pos < p && is_boundary(s, p as int) {
                forward_chars(s, p, (n - 1) as nat)
            } else {
                pos
            },
            None => pos,
        }
    }
}

/// Position after moving backward over up to `n` grapheme clusters from `pos`
/// (each step to the previous grapheme boundary, a character boundary before
/// the position, until there is none).
pub open spec fn backward_chars(s: Seq<char>, pos: usize, n: nat) -> usize
    decreases n,
{
    if n == 0 {
        pos
    } else {
        match prev_grapheme_boundary(s, pos) {
            Some(p) => if p < pos && is_boundary(s, p as int) {
                backward_chars(s, p, (n - 1) as nat)
            } else {
                pos
            },
            None => pos,
        }
    }
}

/// Moving forward by grapheme clusters from a boundary lands on a boundary
/// at or after it.
pub proof fn lemma_forward_chars(s: Seq<char>, pos: usize, n: nat)
    requires
        is_boundary(s, pos as int),
    ensures
        is_boundary(s, forward_chars(s, pos, n) as int),
        forward_chars(s, pos, n) >= pos,
    decreases n,
{
    if n > 0 {
        match next_grapheme_boundary(s, pos) {
            Some(p) => if pos < p && is_boundary(s, p as int) {
                lemma_forward_chars(s, p, (n - 1) as nat);
            },
            None => {},
        }
    }
}

/// Moving backward by grapheme clusters from a boundary lands on a boundary
/// at or before it.
pub proof fn lemma_backward_chars(s: Seq<char>, pos: usize, n: nat)
    requires
        is_boundary(s, pos as int),
    ensures
        is_boundary(s, backward_chars(s, pos, n) as int),
        backward_chars(s, pos, n) <= pos,
    decreases n,
{
    if n > 0 {
        match prev_grapheme_boundary(s, pos) {
            Some(p) => if p < pos && is_boundary(s, p as int) {
                lemma_backward_chars(s, p, (n - 1) as nat);
            },
            None => {},
        }
    }
}

/// The largest index below `end` that holds whitespace, or -1.
pub open spec fn last_space_before(s: Seq<char>, end: int) -> int
    decreases end,
{
    if end <= 0 {
        -1
    } else if is_whitespace_char(s[end - 1]) {
        end - 1
    } else {
        last_space_before(s, end - 1)
    }
}

/// One backward word step from character index `p`: just after the last
/// whitespace strictly before index `p - 1`, or the start.
pub open spec fn word_back_step(s: Seq<char>, p: int) -> int {
    if p <= 0 {
        0
    } else {
        last_space_before(s, p - 1) + 1
    }
}

pub open spec fn word_back(s: Seq<char>, p: int, n: nat) -> int
    decreases n,
{
    if n == 0 {
        p
    } else {
        word_back(s, word_back_step(s, p), (n - 1) as nat)
    }
}

/// First index at or after `p` that is whitespace or the end.
pub open spec fn skip_word(s: Seq<char>, p: int) -> int
    decreases s.len() - p,
{
    if p < 0 || p >= s.len() {
        p
    } else if !is_whitespace_char(s[p]) {
        skip_word(s, p + 1)
    } else {
        p
    }
}

/// First index at or after `p` that is not whitespace, or the end.
pub open spec fn skip_space(s: Seq<char>, p: int) -> int
    decreases s.len() - p,
{
    if p < 0 || p >= s.len() {
        p
    } else if is_whitespace_char(s[p]) {
        skip_space(s, p + 1)
    } else {
        p
    }
}

pub open spec fn word_forward(s: Seq<char>, p: int, n: nat) -> int
    decreases n,
{
    if n == 0 {
        p
    } else {
        word_forward(s, skip_space(s, skip_word(s, p)), (n - 1) as nat)
    }
}

/// Character index a backward word movement starts from: the cursor's index,
/// or the last character when the cursor is at the end.
pub open spec fn word_back_start(s: Seq<char>, cursor: usize) -> int {
    let k = char_index(s, cursor as int);
    if k < s.len() {
        k
    } else if s.len() > 0 {
        s.len() - 1
    } else {
        0
    }
}

/// Byte position that `m` moves a cursor at `cursor` to in the line `s`.
pub open spec fn movement_target(s: Seq<char>, cursor: usize, m: Movement) -> int {
    match m {
        Movement::BackwardChar(n) => backward_chars(s, cursor, n as nat) as int,
        Movement::ForwardChar(n) => forward_chars(s, cursor, n as nat) as int,
        Movement::BackwardWord(n) => {
            if s.len() == 0 {
                cursor as int
            } else {
                byte_offset(s, word_back(s, word_back_start(s, cursor), n as nat)) as int
            }
        },
        Movement::ForwardWord(n) => {
            if s.len() == 0 {
                cursor as int
            } else {
                byte_offset(s, word_forward(s, char_index(s, cursor as int), n as nat)) as int
            }
        },
    }
}


/// A movement from a boundary lands on a boundary, never to the right of the
/// cursor for a backward movement and never to its left for a forward one.
pub proof fn lemma_movement_target(s: Seq<char>, cursor: usize, m: Movement)
    requires
        is_boundary(s, cursor as int),
    ensures
        is_boundary(s, movement_target(s, cursor, m)),
        0 <= movement_target(s, cursor, m) <= utf8_len(s),
        match m {
            Movement::BackwardChar(_) => movement_target(s, cursor, m) <= cursor,
            Movement::BackwardWord(_) => movement_target(s, cursor, m) <= cursor,
            Movement::ForwardChar(_) => movement_target(s, cursor, m) >= cursor,
            Movement::ForwardWord(_) => movement_target(s, cursor, m) >= cursor,
        },
{
    lemma_char_index(s, cursor as int);
    lemma_offset_full(s);
    match m {
        Movement::BackwardChar(n) => {
            lemma_backward_chars(s, cursor, n as nat);
            lemma_char_index(s, backward_chars(s, cursor, n as nat) as int);
        },
        Movement::ForwardChar(n) => {
            lemma_forward_chars(s, cursor, n as nat);
            lemma_char_index(s, forward_chars(s, cursor, n as nat) as int);
        },
        Movement::BackwardWord(n) => {
            if s.len() > 0 {
                let start = word_back_start(s, cursor);
                lemma_word_back_bounds(s, start, n as nat);
                let wb = word_back(s, start, n as nat);
                lemma_boundary_of_index(s, wb);
                lemma_offset_bounded(s, wb);
                if char_index(s, cursor as int) < s.len() {
                    crate::text::lemma_offset_mono(s, wb, start);
                } else {
                    crate::text::lemma_offset_mono(s, wb, s.len() as int);
                }
            }
        },
        Movement::ForwardWord(n) => {
            if s.len() > 0 {
                let k = char_index(s, cursor as int);
                lemma_word_forward_bounds(s, k, n as nat);
                let wf = word_forward(s, k, n as nat);
                lemma_boundary_of_index(s, wf);
                lemma_offset_bounded(s, wf);
                crate::text::lemma_offset_mono(s, k, wf);
            }
        },
    }
}

proof fn lemma_word_back_from_start(s: Seq<char>, n: nat)
    ensures
        word_back(s, 0, n) == 0,
    decreases n,
{
    if n > 0 {
        lemma_word_back_from_start(s, (n - 1) as nat);
    }
}

proof fn lemma_skip_word_bounds(s: Seq<char>, p: int)
    requires
        0 <= p <= s.len(),
    ensures
        p <= skip_word(s, p) <= s.len(),
    decreases s.len() - p,
{
    if p < s.len() && !is_whitespace_char(s[p]) {
        lemma_skip_word_bounds(s, p + 1);
    }
}

proof fn lemma_skip_space_bounds(s: Seq<char>, p: int)
    requires
        0 <= p <= s.len(),
    ensures
        p <= skip_space(s, p) <= s.len(),
    decreases s.len() - p,
{
    if p < s.len() && is_whitespace_char(s[p]) {
        lemma_skip_space_bounds(s, p + 1);
    }
}

proof fn lemma_last_space_bounds(s: Seq<char>, end: int)
    requires
        end <= s.len(),
    ensures
        -1 <= last_space_before(s, end) < if end > 0 { end } else { 0 },
    decreases end,
{
    if end > 0 && !is_whitespace_char(s[end - 1]) {
        lemma_last_space_bounds(s, end - 1);
    }
}

proof fn lemma_word_back_bounds(s: Seq<char>, p: int, n: nat)
    requires
        0 <= p <= s.len(),
    ensures
        0 <= word_back(s, p, n) <= p,
    decreases n,
{
    if n > 0 {
        let q = word_back_step(s, p);
        if p > 0 {
            lemma_last_space_bounds(s, p - 1);
        }
        lemma_word_back_bounds(s, q, (n - 1) as nat);
    }
}

proof fn lemma_word_forward_bounds(s: Seq<char>, p: int, n: nat)
    requires
        0 <= p <= s.len(),
    ensures
        p <= word_forward(s, p, n) <= s.len(),
    decreases n,
{
    if n > 0 {
        lemma_skip_word_bounds(s, p);
        lemma_skip_space_bounds(s, skip_word(s, p));
        lemma_word_forward_bounds(s, skip_space(s, skip_word(s, p)), (n - 1) as nat);
    }
}

/// Index of the character that starts at byte `cursor`, if any.
fn offset_position(ci: &Vec<(usize, char)>, line: &str, cursor: usize) -> (r: Option<usize>)
    requires
        is_boundary(line@, cursor as int),
        utf8_len(line@) <= usize::MAX,
        ci@.len() == line@.len(),
        forall|k: int|
            0 <= k < line@.len() ==> #[trigger] ci@[k] == (byte_offset(line@, k) as usize, line@[k]),
    ensures
        r == if char_index(line@, cursor as int) < line@.len() {
            Some(char_index(line@, cursor as int) as usize)
        } else {
            None::<usize>
        },
{
    proof {
        lemma_char_index(line@, cursor as int);
    }
    let mut j: usize = 0;
    while j < ci.len()
        invariant
            is_boundary(line@, cursor as int),
            utf8_len(line@) <= usize::MAX,
            0 <= char_index(line@, cursor as int) <= line@.len(),
            byte_offset(line@, char_index(line@, cursor as int)) == cursor,
            forall|k: int|
                0 <= k <= line@.len() && byte_offset(line@, k) == cursor ==> k == char_index(
                    line@,
                    cursor as int,
                ),
            j <= ci@.len(),
            ci@.len() == line@.len(),
            forall|k: int|
                0 <= k < line@.len() ==> #[trigger] ci@[k] == (byte_offset(line@, k) as usize, line@[k]),
            char_index(line@, cursor as int) >= j,
        decreases ci@.len() - j,
    {
        proof {
            lemma_offset_bounded(line@, j as int);
        }
        if ci[j].0 == cursor {
            return Some(j);
        }
        j = j + 1;
    }
    None
}

/// The byte position that `movement` takes a cursor at byte `cursor` of
/// `line` to.  Character movements step over grapheme clusters; a backward
/// word step goes to just after the last whitespace before the character in
/// front of the cursor; a forward word step skips the rest of a word and the
/// whitespace after it.
pub fn eval_movement_in(line: &str, cursor: usize, movement: Movement) -> (pos: usize)
    requires
        is_boundary(line@, cursor as int),
        utf8_len(line@) <= usize::MAX,
    ensures
        pos == movement_target(line@, cursor, movement),
        is_boundary(line@, pos as int),
        match movement {
            Movement::BackwardChar(n) => pos <= cursor && (n > 0 && cursor > 0 ==> pos < cursor),
            Movement::BackwardWord(_) => pos <= cursor,
            Movement::ForwardChar(n) => pos >= cursor && (n > 0 && cursor < utf8_len(line@)
                ==> pos > cursor),
            Movement::ForwardWord(_) => pos >= cursor,
        },
{
    let ghost s = line@;
    proof {
        lemma_char_index(s, cursor as int);
    }
    match movement {
        Movement::BackwardChar(rep) => {
            let mut position = cursor;
            let mut i: usize = 0;
            while i < rep
                invariant
                    i <= rep,
                    is_boundary(s, position as int),
                    position <= cursor,
                    i > 0 ==> position < cursor || cursor == 0,
                    s == line@,
                    backward_chars(s, cursor, rep as nat) == backward_chars(
                        s,
                        position,
                        (rep - i) as nat,
                    ),
                decreases rep - i,
            {
                match grapheme_prev(line, position) {
                    Some(p) => {
                        position = p;
                        i = i + 1;
                    },
                    None => {
                        i = rep;
                    },
                }
            }
            position
        },
        Movement::ForwardChar(rep) => {
            let mut position = cursor;
            let mut i: usize = 0;
            while i < rep
                invariant
                    i <= rep,
                    is_boundary(s, position as int),
                    position >= cursor,
                    i > 0 ==> position > cursor || cursor == utf8_len(s),
                    s == line@,
                    forward_chars(s, cursor, rep as nat) == forward_chars(
                        s,
                        position,
                        (rep - i) as nat,
                    ),
                decreases rep - i,
            {
                match grapheme_next(line, position) {
                    Some(p) => {
                        position = p;
                        i = i + 1;
                    },
                    None => {
                        i = rep;
                    },
                }
            }
            position
        },
        Movement::BackwardWord(rep) => {
            let ci = char_offsets(line);
            if ci.len() == 0 {
                return cursor;
            }
            let mut char_pos = match offset_position(&ci, line, cursor) {
                Some(j) => j,
                None => ci.len() - 1,
            };
            let ghost start = char_pos as int;
            assert(start == word_back_start(s, cursor));
            let mut i: usize = 0;
            while i < rep
                invariant
                    i <= rep,
                    s == line@,
                    ci@.len() == s.len(),
                    forall|k: int|
                        0 <= k < s.len() ==> #[trigger] ci@[k] == (byte_offset(s, k) as usize, s[k]),
                    char_pos < ci@.len(),
                    word_back(s, start, rep as nat) == word_back(s, char_pos as int, (rep - i) as nat),
                decreases rep - i,
            {
                if char_pos == 0 {
                    proof {
                        lemma_word_back_from_start(s, (rep - i) as nat);
                        lemma_word_back_from_start(s, 0);
                    }
                    i = rep;
                } else {
                    let mut found: Option<usize> = None;
                    let mut prev: usize = char_pos - 1;
                    while prev > 0 && found.is_none()
                        invariant
                            prev <= char_pos - 1,
                            0 < char_pos < ci@.len(),
                            s == line@,
                            ci@.len() == s.len(),
                            forall|k: int|
                                0 <= k < s.len() ==> #[trigger] ci@[k] == (
                                    byte_offset(s, k) as usize,
                                    s[k],
                                ),
                            found matches Some(f) ==> f == last_space_before(s, char_pos - 1) + 1,
                            found is None ==> last_space_before(s, char_pos - 1)
                                == last_space_before(s, prev as int),
                        decreases prev,
                    {
                        prev = prev - 1;
                        if char_is_whitespace(ci[prev].1) {
                            found = Some(prev + 1);
                        }
                    }
                    let next = match found {
                        Some(f) => f,
                        None => 0,
                    };
                    proof {
                        lemma_last_space_bounds(s, char_pos - 1);
                        assert(next == word_back_step(s, char_pos as int));
                    }
                    char_pos = next;
                    i = i + 1;
                }
            }
            proof {
                lemma_offset_bounded(s, char_pos as int);
                lemma_boundary_of_index(s, char_pos as int);
                lemma_word_back_bounds(s, start, rep as nat);
                if char_index(s, cursor as int) < s.len() {
                    lemma_offset_bounded(s, char_pos as int);
                    crate::text::lemma_offset_mono(s, char_pos as int, start);
                } else {
                    crate::text::lemma_offset_mono(s, char_pos as int, s.len() as int);
                    lemma_offset_full(s);
                }
            }
            ci[char_pos].0
        },
        Movement::ForwardWord(rep) => {
            let ci = char_offsets(line);
            if ci.len() == 0 {
                return cursor;
            }
            let mut char_pos = match offset_position(&ci, line, cursor) {
                Some(j) => j,
                None => ci.len(),
            };
            let ghost start = char_pos as int;
            assert(start == char_index(s, cursor as int));
            let mut i: usize = 0;
            while i < rep
                invariant
                    i <= rep,
                    s == line@,
                    ci@.len() == s.len(),
                    forall|k: int|
                        0 <= k < s.len() ==> #[trigger] ci@[k] == (byte_offset(s, k) as usize, s[k]),
                    char_pos <= ci@.len(),
                    word_forward(s, start, rep as nat) == word_forward(
                        s,
                        char_pos as int,
                        (rep - i) as nat,
                    ),
                decreases rep - i,
            {
                let ghost p0 = char_pos as int;
                while char_pos < ci.len() && !char_is_whitespace(ci[char_pos].1)
                    invariant
                        p0 <= char_pos <= ci@.len(),
                        s == line@,
                        ci@.len() == s.len(),
                        forall|k: int|
                            0 <= k < s.len() ==> #[trigger] ci@[k] == (byte_offset(s, k) as usize, s[k]),
                        skip_word(s, p0) == skip_word(s, char_pos as int),
                    decreases ci@.len() - char_pos,
                {
                    char_pos = char_pos + 1;
                }
                let ghost p1 = char_pos as int;
                assert(p1 == skip_word(s, p0));
                while char_pos < ci.len() && char_is_whitespace(ci[char_pos].1)
                    invariant
                        p1 <= char_pos <= ci@.len(),
                        s == line@,
                        ci@.len() == s.len(),
                        forall|k: int|
                            0 <= k < s.len() ==> #[trigger] ci@[k] == (byte_offset(s, k) as usize, s[k]),
                        skip_space(s, p1) == skip_space(s, char_pos as int),
                    decreases ci@.len() - char_pos,
                {
                    char_pos = char_pos + 1;
                }
                i = i + 1;
            }
            proof {
                lemma_word_forward_bounds(s, start, rep as nat);
                lemma_boundary_of_index(s, char_pos as int);
                crate::text::lemma_offset_mono(s, start, char_pos as int);
                lemma_offset_bounded(s, char_pos as int);
            }
            if char_pos < ci.len() {
                ci[char_pos].0
            } else {
                proof {
                    lemma_offset_full(s);
                }
                str_byte_len(line)
            }
        },
    }
}

} // verus!

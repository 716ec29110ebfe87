//! What the panel draws: the texts of its rows and the geometry of its list
//! and preview, computed from the panel's state.  Putting them on a terminal
//! surface is the caller's.

use unicode_width::{UnicodeWidthChar, UnicodeWidthStr};
use vstd::prelude::*;

use crate::format::{decimal, decimal_string};
use crate::model::{FocusedField, ResultView, SearchScope, results_view};
use crate::panel::{PanelView, SearchReplace, panel_ok};
use crate::pattern::replacement_text;
use crate::text::{
    boundary_index, byte_offset, char_index, is_boundary, lemma_boundary_of_index,
    lemma_char_index, str_byte_len, str_chars, string_push, utf8_len,
};
use crate::workspace::{trim_line, trimmed_line};

verus! {

/// The display width `unicode_width` gives a character (`None` for control
/// characters).
pub uninterp spec fn char_display_width(c: char) -> Option<usize>;

/// The display width `unicode_width` gives a string.
pub uninterp spec fn str_display_width(s: Seq<char>) -> usize;

/// Trusted: `UnicodeWidthChar::width`.  Claimed: the named width of `c`.
#[verifier::external_body]
fn char_width(c: char) -> (w: Option<usize>)
    ensures
        w == char_display_width(c),
{
    c.width()
}

/// Trusted: `UnicodeWidthStr::width` of `s[..b]`, where `b` is a character
/// boundary (slicing elsewhere panics).  Claimed: the named width of the
/// characters before `b`.
#[verifier::external_body]
fn prefix_width(s: &str, b: usize) -> (w: usize)
    requires
        is_boundary(s@, b as int),
    ensures
        w == str_display_width(s@.take(char_index(s@, b as int))),
{
    s[..b].width()
}

/// `n` spaces.
pub open spec fn spaces(n: nat) -> Seq<char> {
    Seq::new(n, |i: int| ' ')
}

/// `n` horizontal box-drawing lines.
pub open spec fn dashes(n: nat) -> Seq<char> {
    Seq::new(n, |i: int| '─')
}

fn repeat_char(c: char, n: usize) -> (s: String)
    ensures
        s@ == Seq::new(n as nat, |i: int| c),
{
    let mut s = String::new();
    let mut i: usize = 0;
    while i < n
        invariant
            i <= n,
            s@ == Seq::new(i as nat, |k: int| c),
        decreases n - i,
    {
        string_push(&mut s, c);
        assert(s@ =~= Seq::new((i + 1) as nat, |k: int| c));
        i = i + 1;
    }
    s
}

/// The characters of `s` between the boundaries `from` and `to`.
pub fn substring(s: &str, from: usize, to: usize) -> (t: String)
    requires
        is_boundary(s@, from as int),
        is_boundary(s@, to as int),
        from <= to,
    ensures
        t@ == s@.subrange(char_index(s@, from as int), char_index(s@, to as int)),
{
    proof {
        lemma_char_index(s@, from as int);
        lemma_char_index(s@, to as int);
        if char_index(s@, to as int) < char_index(s@, from as int) {
            crate::text::lemma_offset_mono(
                s@,
                char_index(s@, to as int),
                char_index(s@, from as int),
            );
        }
    }
    let chars = str_chars(s);
    let i0 = match boundary_index(s, from) {
        Some(k) => k,
        None => 0,
    };
    let i1 = match boundary_index(s, to) {
        Some(k) => k,
        None => 0,
    };
    let mut t = String::new();
    let mut i = i0;
    while i < i1
        invariant
            i0 <= i <= i1 <= chars@.len(),
            chars@ == s@,
            t@ == s@.subrange(i0 as int, i as int),
        decreases i1 - i,
    {
        string_push(&mut t, chars[i]);
        assert(s@.subrange(i0 as int, i + 1) =~= s@.subrange(i0 as int, i as int).push(chars@[i as int]));
        i = i + 1;
    }
    t
}

/// An option's button: `[label](key) ` when on, ` label (key) ` when off.
pub open spec fn option_button_text(label: Seq<char>, key: Seq<char>, active: bool) -> Seq<char> {
    if active {
        "["@ + label + "]("@ + key + ") "@
    } else {
        " "@ + label + " ("@ + key + ") "@
    }
}

pub fn option_button(label: &str, key: &str, active: bool) -> (s: String)
    ensures
        s@ == option_button_text(label@, key@, active),
{
    let mut s = if active {
        String::from_str("[")
    } else {
        String::from_str(" ")
    };
    s.append(label);
    if active {
        s.append("](");
    } else {
        s.append(" (");
    }
    s.append(key);
    s.append(") ");
    s
}

pub open spec fn scope_name(scope: SearchScope) -> Seq<char> {
    match scope {
        SearchScope::Buffer => "buffer"@,
        SearchScope::Workspace => "workspace"@,
    }
}

/// The title of the panel's border.
pub open spec fn title_text(scope: SearchScope) -> Seq<char> {
    match scope {
        SearchScope::Buffer => " Search & Replace — buffer "@,
        SearchScope::Workspace => " Search & Replace — workspace "@,
    }
}

pub fn title(scope: SearchScope) -> (s: String)
    ensures
        s@ == title_text(scope),
{
    match scope {
        SearchScope::Buffer => String::from_str(" Search & Replace — buffer "),
        SearchScope::Workspace => String::from_str(" Search & Replace — workspace "),
    }
}

/// The scope indicator at the right of the option row.
pub fn scope_hint(scope: SearchScope) -> (s: String)
    ensures
        s@ == "scope: "@ + scope_name(scope) + " (ctrl-s)"@,
{
    let mut s = String::from_str("scope: ");
    match scope {
        SearchScope::Buffer => s.append("buffer"),
        SearchScope::Workspace => s.append("workspace"),
    }
    s.append(" (ctrl-s)");
    s
}

pub open spec fn count_selected(rs: Seq<ResultView>) -> nat {
    rs.filter(|r: ResultView| r.selected).len()
}

/// The text of the bottom row: the status with the selection count and the
/// keys of the list when there are results, the status alone otherwise, and
/// a key summary when there is no status.
pub open spec fn status_line_text(p: PanelView) -> Seq<char> {
    let total = p.results.len();
    match p.status {
        Some(s) => if total > 0 {
            s + "  ("@ + decimal(count_selected(p.results)) + "/"@ + decimal(total)
                + " sel)  <enter>:replace this  R:replace all selected  [space]:toggle  [a]ll  [n]one"@
        } else {
            s
        },
        None => "Tab:move focus  <enter>:replace hovered  R:replace selected  [a]/[n]:select all/none"@,
    }
}

/// `text` cut to `width` bytes and right-aligned, by its character count, in
/// `padding + cut` columns where `padding` is half the room left.
pub open spec fn centered_text(text: Seq<char>, width: usize) -> Seq<char> {
    let len = utf8_len(text);
    let text_len = if len < width {
        len
    } else {
        width as nat
    };
    let padding = (width - text_len) / 2;
    let cut = text.take(char_index(text, text_len as int));
    let fill = padding + text_len - cut.len();
    if fill > 0 {
        spaces(fill as nat) + cut
    } else {
        cut
    }
}

/// Cutting `text` to `width` bytes lands on a character boundary (slicing
/// elsewhere panics).
pub open spec fn centering_ok(text: Seq<char>, width: usize) -> bool {
    let len = utf8_len(text);
    let text_len = if len < width {
        len
    } else {
        width as nat
    };
    len <= usize::MAX && is_boundary(text, text_len as int)
}

/// The status row's text centered in `width` columns.
pub fn centered(text: &str, width: usize) -> (s: String)
    requires
        centering_ok(text@, width),
    ensures
        s@ == centered_text(text@, width),
{
    let len = str_byte_len(text);
    let text_len = if len < width {
        len
    } else {
        width
    };
    let padding = (width - text_len) / 2;
    proof {
        lemma_char_index(text@, text_len as int);
        lemma_boundary_of_index(text@, 0);
        assert(text@.take(0) =~= Seq::<char>::empty());
    }
    let cut = substring(text, 0, text_len);
    assert(cut@ =~= text@.take(char_index(text@, text_len as int)));
    let n = text_len + padding;
    proof {
        crate::text::lemma_offset_mono(text@, 0, char_index(text@, text_len as int));
    }
    let chars = str_chars(cut.as_str());
    let count = chars.len();
    if n > count {
        let mut s = repeat_char(' ', n - count);
        s.append(cut.as_str());
        assert(s@ =~= spaces((padding + text_len - cut@.len()) as nat) + cut@);
        s
    } else {
        cut
    }
}

/// The width of the result list: 38% of the row, at least 20 columns, and
/// at most three less than the row (rows narrower than three columns, where
/// that subtraction would underflow, are left out).
pub open spec fn list_width_for(width: usize) -> usize {
    let w = (width * 38) as int / 100;
    let w = if w < 20 {
        20
    } else {
        w
    };
    if w < width - 3 {
        w as usize
    } else {
        (width - 3) as usize
    }
}

pub fn list_width(width: usize) -> (w: usize)
    requires
        3 <= width,
        width * 38 <= usize::MAX,
    ensures
        w == list_width_for(width),
{
    let w = width * 38 / 100;
    let w = if w < 20 {
        20
    } else {
        w
    };
    if w < width - 3 {
        w
    } else {
        width - 3
    }
}

/// The area inside a border of one cell: `(x, y, width, height)`, empty when
/// there is no inside.
pub open spec fn inner_area(x: u16, y: u16, width: u16, height: u16) -> (u16, u16, u16, u16) {
    if width < 2 || height < 2 {
        (0, 0, 0, 0)
    } else {
        ((x + 1) as u16, (y + 1) as u16, (width - 2) as u16, (height - 2) as u16)
    }
}

/// Where the parts of the panel go inside its border.
pub struct Frame {
    /// The area inside the border.
    pub x: u16,
    pub y: u16,
    pub width: u16,
    pub height: u16,
    /// The inputs, the options row and the divider under them: only when
    /// the inside has at least five rows.
    pub inputs: bool,
    /// Where the input fields start (after their labels) and how wide they are.
    pub input_x: u16,
    pub input_width: usize,
    /// The result list, the preview and the status rows: only when the inside
    /// has more than five rows.
    pub body: Option<Body>,
}

/// The rows and columns of the result list, the preview and the status.
pub struct Body {
    pub sep_row: u16,
    pub status_row: u16,
    pub list_y: u16,
    pub list_height: usize,
    pub list_width: usize,
    pub divider_x: u16,
    pub preview_x: u16,
    pub preview_width: usize,
    /// The preview is drawn only when it has at least six columns.
    pub preview: bool,
    /// The column just past the inside.
    pub right: u16,
}

/// The panel's geometry holds together: the inside lies on the screen, the
/// input fields start on it, and an inside with a body is at least three
/// columns wide (a narrower one leaves no room for the list and its
/// divider, and computing the list's width underflows).
pub open spec fn frame_ok(x: u16, y: u16, width: u16, height: u16) -> bool {
    let (ix, iy, iw, ih) = inner_area(x, y, width, height);
    &&& x + width <= u16::MAX
    &&& y + height <= u16::MAX
    &&& (ih >= 5 ==> ix + 10 <= u16::MAX)
    &&& (ih > 5 ==> iw >= 3)
}

/// Where the parts of a panel drawn in the `width` x `height` area at
/// `(x, y)` go: the inside of the border; when it has five rows or more, the
/// input fields after their ten-column labels; when it has more, the two
/// status rows at the bottom, the result list from the fifth row down to
/// them with its width, the divider after the list, and the preview to the
/// right of the divider, drawn when it is six columns wide or more.
pub fn frame_layout(x: u16, y: u16, width: u16, height: u16) -> (f: Frame)
    requires
        frame_ok(x, y, width, height),
    ensures
        (f.x, f.y, f.width, f.height) == inner_area(x, y, width, height),
        f.inputs == (f.height >= 5),
        f.inputs ==> f.input_x == f.x + 10 && f.input_width == if f.width >= 10 {
            f.width - 10
        } else {
            0
        },
        match f.body {
            Some(b) => {
                &&& f.height > 5
                &&& b.sep_row == f.y + f.height - 2
                &&& b.status_row == f.y + f.height - 1
                &&& b.list_y == f.y + 4
                &&& b.list_height == f.height - 6
                &&& b.list_width == list_width_for(f.width as usize)
                &&& b.divider_x == f.x + b.list_width
                &&& b.preview_x == f.x + b.list_width + 1
                &&& b.right == f.x + f.width
                &&& b.preview_width == b.right - b.preview_x
                &&& b.preview == (b.preview_width >= 6)
            },
            None => f.height <= 5,
        },
{
    let (ix, iy, iw, ih) = if width < 2 || height < 2 {
        (0u16, 0u16, 0u16, 0u16)
    } else {
        (x + 1, y + 1, width - 2, height - 2)
    };
    let inputs = ih >= 5;
    let (input_x, input_width) = if inputs {
        (ix + 10, if iw >= 10 {
            (iw - 10) as usize
        } else {
            0
        })
    } else {
        (0, 0)
    };
    let body = if ih > 5 {
        let lw = list_width(iw as usize);
        let right = ix + iw;
        let divider_x = ix + lw as u16;
        let preview_x = divider_x + 1;
        let preview_width = (right - preview_x) as usize;
        Some(
            Body {
                sep_row: iy + ih - 2,
                status_row: iy + ih - 1,
                list_y: iy + 4,
                list_height: (ih - 6) as usize,
                list_width: lw,
                divider_x,
                preview_x,
                preview_width,
                preview: preview_width >= 6,
                right,
            },
        )
    } else {
        None
    };
    Frame { x: ix, y: iy, width: iw, height: ih, inputs, input_x, input_width, body }
}

/// The columns left for a result's path in a list `list_width` columns wide,
/// after the two-column indicator, the line number label of `label_len`
/// columns and a space.
pub fn path_room(list_width: usize, label_len: usize) -> (r: usize)
    requires
        label_len + 3 <= usize::MAX,
    ensures
        r == if list_width >= label_len + 3 {
            list_width - label_len - 3
        } else {
            0
        },
{
    list_width.saturating_sub(2 + label_len + 1)
}

/// The columns from `from` up to the column `to` (none when `from` is not
/// before it).
pub fn cells_between(from: u16, to: u16) -> (r: usize)
    ensures
        r == if from <= to {
            to - from
        } else {
            0
        },
{
    to.saturating_sub(from) as usize
}

/// The size the panel asks for in a viewport of `width` by `height` cells:
/// at most 120 columns, and three quarters of the rows but at least 15.
pub fn required_size(width: u16, height: u16) -> (r: (u16, u16))
    requires
        height * 3 <= u16::MAX,
    ensures
        r.0 == if width < 120 {
            width
        } else {
            120
        },
        r.1 == if (height * 3) as int / 4 > 15 {
            (height * 3) as int / 4
        } else {
            15
        },
{
    let w = if width < 120 {
        width
    } else {
        120
    };
    let h = height * 3 / 4;
    let h = if h > 15 {
        h
    } else {
        15
    };
    (w, h)
}

/// `:` and the 1-indexed line number.
pub fn line_number_label(line_num: usize) -> (s: String)
    requires
        line_num < usize::MAX,
    ensures
        s@ == ":"@ + decimal((line_num + 1) as nat),
{
    let mut s = String::from_str(":");
    s.append(decimal_string(line_num + 1).as_str());
    s
}

/// A path cut from the left to fit `avail` bytes, marked with `…`.
pub open spec fn truncated_path(path: Seq<char>, avail: usize) -> Seq<char> {
    let len = utf8_len(path);
    if len > avail {
        let keep = if avail >= 1 {
            avail - 1
        } else {
            0
        };
        let from = if len >= keep {
            len - keep
        } else {
            0
        };
        seq!['…'] + path.skip(char_index(path, from as int))
    } else {
        path
    }
}

pub open spec fn truncation_ok(path: Seq<char>, avail: usize) -> bool {
    let len = utf8_len(path);
    let keep = if avail >= 1 {
        avail - 1
    } else {
        0
    };
    len <= usize::MAX && (len > avail ==> is_boundary(path, len - keep))
}

pub fn truncate_path(path: &str, avail: usize) -> (s: String)
    requires
        truncation_ok(path@, avail),
    ensures
        s@ == truncated_path(path@, avail),
{
    let len = str_byte_len(path);
    if len > avail {
        let keep = if avail >= 1 {
            avail - 1
        } else {
            0
        };
        let from = len - keep;
        proof {
            lemma_char_index(path@, from as int);
            crate::text::lemma_offset_full(path@);
            lemma_boundary_of_index(path@, path@.len() as int);
        }
        let mut s = String::new();
        string_push(&mut s, '…');
        let tail = substring(path, from, len);
        s.append(tail.as_str());
        proof {
            assert(char_index(path@, len as int) == path@.len());
            assert(tail@ =~= path@.skip(char_index(path@, from as int)));
        }
        s
    } else {
        String::from_str(path)
    }
}

/// The scrollbar of a list of `total` results shown `height` at a time from
/// `scroll`: its first row and its length, when the list does not fit.
pub open spec fn scrollbar_for(total: usize, height: usize, scroll: usize) -> Option<(usize, usize)> {
    if total > height && height > 0 {
        let h = (height * height) as int / (total as int);
        let h = if h < 1 {
            1
        } else {
            h
        };
        Some((((scroll * height) as int / (total as int)) as usize, h as usize))
    } else {
        None
    }
}

pub fn scrollbar(total: usize, height: usize, scroll: usize) -> (r: Option<(usize, usize)>)
    requires
        height * height <= usize::MAX,
        scroll * height <= usize::MAX,
    ensures
        r == scrollbar_for(total, height, scroll),
{
    if total > height && height > 0 {
        let h = height * height / total;
        let h = if h < 1 {
            1
        } else {
            h
        };
        Some((scroll * height / total, h))
    } else {
        None
    }
}

/// The preview's header: ` Preview ` centered in dashes over `width` columns.
pub open spec fn preview_header_text(width: usize) -> Seq<char> {
    let total: nat = if width >= 9 {
        (width - 9) as nat
    } else {
        0
    };
    let left = total / 2;
    dashes(left) + " Preview "@ + dashes((total - left) as nat)
}

pub fn preview_header(width: usize) -> (s: String)
    ensures
        s@ == preview_header_text(width),
{
    let total = if width >= 9 {
        width - 9
    } else {
        0
    };
    let left = total / 2;
    let right = total - left;
    let mut s = repeat_char('─', left);
    s.append(" Preview ");
    let r = repeat_char('─', right);
    s.append(r.as_str());
    s
}

/// A line split for a diff row: without its terminators, the part before the
/// highlight, the highlight, and the rest (offsets clamped to the line).
pub open spec fn diff_split(line: Seq<char>, ms: usize, me: usize) -> (Seq<char>, Seq<char>, Seq<char>) {
    let t = trimmed_line(line);
    let len = utf8_len(t);
    let a = if ms <= len {
        ms as int
    } else {
        len as int
    };
    let b = if me <= len {
        me as int
    } else {
        len as int
    };
    let i = char_index(t, a);
    let j = char_index(t, b);
    (t.take(i), t.subrange(i, j), t.skip(j))
}

pub open spec fn diff_split_ok(line: Seq<char>, ms: usize, me: usize) -> bool {
    let t = trimmed_line(line);
    let len = utf8_len(t);
    let a = if ms <= len {
        ms as int
    } else {
        len as int
    };
    let b = if me <= len {
        me as int
    } else {
        len as int
    };
    len <= usize::MAX && is_boundary(t, a) && is_boundary(t, b) && a <= b
}

/// Splits a line for a diff row.
pub fn diff_parts(line: &str, ms: usize, me: usize) -> (r: (String, String, String))
    requires
        diff_split_ok(line@, ms, me),
    ensures
        (r.0@, r.1@, r.2@) == diff_split(line@, ms, me),
{
    let t = trim_line(line);
    let len = str_byte_len(t.as_str());
    let a = if ms <= len {
        ms
    } else {
        len
    };
    let b = if me <= len {
        me
    } else {
        len
    };
    proof {
        lemma_boundary_of_index(t@, 0);
        assert(t@.take(0) =~= Seq::<char>::empty());
        crate::text::lemma_offset_full(t@);
        lemma_boundary_of_index(t@, t@.len() as int);
        lemma_char_index(t@, a as int);
        lemma_char_index(t@, b as int);
    }
    let before = substring(t.as_str(), 0, a);
    let matched = substring(t.as_str(), a, b);
    let after = substring(t.as_str(), b, len);
    proof {
        assert(before@ =~= t@.take(char_index(t@, a as int)));
        assert(after@ =~= t@.skip(char_index(t@, b as int)));
    }
    (before, matched, after)
}

/// The columns a character takes in an input: its width, or one for a
/// control character.
pub open spec fn char_cols(c: char) -> nat {
    match char_display_width(c) {
        Some(w) => w as nat,
        None => 1,
    }
}

/// The byte offset from which an input is drawn: the first character at
/// which the columns of the characters before it reach `target`, or the end.
pub open spec fn anchor_from(s: Seq<char>, k: int, cols: nat, target: nat) -> int
    decreases s.len() - k,
{
    if k >= s.len() || k < 0 {
        utf8_len(s) as int
    } else if cols >= target {
        byte_offset(s, k) as int
    } else {
        anchor_from(s, k + 1, cols + char_cols(s[k]), target)
    }
}

/// Where an input of `width` columns starts drawing so that its cursor is
/// visible: from the start while the text before the cursor fits, else from
/// the first character that leaves the cursor in the last column.
pub open spec fn input_anchor_for(s: Seq<char>, cursor: usize, width: usize) -> int {
    let len = utf8_len(s);
    let cb = if cursor <= len {
        cursor as int
    } else {
        len as int
    };
    let cd = str_display_width(s.take(char_index(s, cb)));
    if width == 0 || cd < width {
        0
    } else {
        anchor_from(s, 0, 0, (cd - width + 1) as nat)
    }
}

pub open spec fn anchor_ok(s: Seq<char>, cursor: usize) -> bool {
    let len = utf8_len(s);
    len <= usize::MAX && is_boundary(
        s,
        if cursor <= len {
            cursor as int
        } else {
            len as int
        },
    )
}

/// The byte offset from which an input is drawn in `width` columns.
pub fn input_anchor(text: &str, cursor: usize, width: usize) -> (a: usize)
    requires
        anchor_ok(text@, cursor),
    ensures
        a == input_anchor_for(text@, cursor, width),
{
    if width == 0 {
        return 0;
    }
    let len = str_byte_len(text);
    let cb = if cursor <= len {
        cursor
    } else {
        len
    };
    let cd = prefix_width(text, cb);
    if cd < width {
        return 0;
    }
    let target = cd - width + 1;
    assert(input_anchor_for(text@, cursor, width) == anchor_from(text@, 0, 0, target as nat));
    let chars = str_chars(text);
    let mut cols: u128 = 0;
    let mut offset: usize = 0;
    let mut k: usize = 0;
    proof {
        crate::text::lemma_offset_full(text@);
    }
    while k < chars.len()
        invariant
            k <= chars@.len(),
            chars@ == text@,
            utf8_len(text@) <= usize::MAX,
            offset == byte_offset(text@, k as int),
            cols <= k * (usize::MAX as int),
            input_anchor_for(text@, cursor, width) == anchor_from(text@, 0, 0, target as nat),
            anchor_from(text@, 0, 0, target as nat) == anchor_from(
                text@,
                k as int,
                cols as nat,
                target as nat,
            ),
        decreases chars@.len() - k,
    {
        if cols >= target as u128 {
            assert(anchor_from(text@, k as int, cols as nat, target as nat) == byte_offset(
                text@,
                k as int,
            ));
            return offset;
        }
        let c = chars[k];
        let w: usize = match char_width(c) {
            Some(w) => w,
            None => 1,
        };
        proof {
            crate::text::lemma_offset_step(text@, k as int);
            crate::text::lemma_offset_bounded(text@, (k + 1) as int);
            let m = usize::MAX as int;
            assert((k + 1) * m == k * m + m) by (nonlinear_arith);
            assert((k + 1) * m <= m * m) by (nonlinear_arith)
                requires
                    k + 1 <= m,
                    0 <= m,
            ;
            assert(m * m <= 0xffff_ffff_ffff_ffff * 0xffff_ffff_ffff_ffffint) by (nonlinear_arith)
                requires
                    0 <= m <= 0xffff_ffff_ffff_ffffint,
            ;
        }
        cols = cols + w as u128;
        offset = offset + crate::text::char_utf8_width(c);
        k = k + 1;
    }
    len
}

proof fn lemma_anchor_from_boundary(s: Seq<char>, k: int, cols: nat, target: nat)
    requires
        0 <= k,
    ensures
        is_boundary(s, anchor_from(s, k, cols, target)),
    decreases s.len() - k,
{
    if k >= s.len() {
        crate::text::lemma_offset_full(s);
        lemma_boundary_of_index(s, s.len() as int);
    } else if cols >= target {
        lemma_boundary_of_index(s, k);
    } else {
        lemma_anchor_from_boundary(s, k + 1, cols + char_cols(s[k]), target);
    }
}

/// The anchor an input is drawn from is a character boundary.
proof fn lemma_anchor_boundary(s: Seq<char>, cursor: usize, width: usize)
    ensures
        is_boundary(s, input_anchor_for(s, cursor, width)),
{
    lemma_boundary_of_index(s, 0);
    assert(s.take(0) =~= Seq::<char>::empty());
    let len = utf8_len(s);
    let cb = if cursor <= len {
        cursor as int
    } else {
        len as int
    };
    let cd = str_display_width(s.take(char_index(s, cb)));
    if !(width == 0 || cd < width) {
        lemma_anchor_from_boundary(s, 0, 0, (cd - width + 1) as nat);
    }
}

/// The columns of an input drawn in `width` columns that come before its
/// cursor: the width of the text from the anchor to the cursor (none when
/// the anchor lies past the cursor).
pub open spec fn scrolled_cols(s: Seq<char>, cursor: usize, width: usize) -> usize {
    let a = input_anchor_for(s, cursor, width);
    if a <= cursor {
        str_display_width(s.subrange(char_index(s, a), char_index(s, cursor as int)))
    } else {
        0
    }
}

fn scrolled_prefix_width(s: &str, cursor: usize, width: usize) -> (w: usize)
    requires
        is_boundary(s@, cursor as int),
        utf8_len(s@) <= isize::MAX,
    ensures
        w == scrolled_cols(s@, cursor, width),
{
    proof {
        lemma_char_index(s@, cursor as int);
        lemma_anchor_boundary(s@, cursor, width);
    }
    let a = input_anchor(s, cursor, width);
    if a <= cursor {
        proof {
            lemma_char_index(s@, a as int);
        }
        let sub = substring(s, a, cursor);
        let n = str_byte_len(sub.as_str());
        proof {
            crate::text::lemma_offset_full(sub@);
            lemma_boundary_of_index(sub@, sub@.len() as int);
            assert(sub@.take(sub@.len() as int) =~= sub@);
        }
        prefix_width(sub.as_str(), n)
    } else {
        0
    }
}

/// The hovered result as the preview shows it: its line, the highlighted
/// bytes (clamped to the line), the line with the replacement spliced in,
/// and the end of the replacement in that line.
pub struct Preview {
    pub line: String,
    pub match_start: usize,
    pub match_end: usize,
    pub after: String,
    pub after_end: usize,
}

pub open spec fn clamp(x: usize, len: nat) -> int {
    if x <= len {
        x as int
    } else {
        len as int
    }
}

/// The preview of the hovered result: the highlighted span clamped to its
/// line, the replacement for that span, the line with the replacement spliced
/// in, and where the replacement ends in it (capped at the line's end).
pub open spec fn preview_of(p: PanelView) -> Option<(Seq<char>, usize, usize, Seq<char>, usize)> {
    if p.result_cursor < p.results.len() {
        let r = p.results[p.result_cursor as int];
        let line = r.line_content;
        let len = utf8_len(line);
        let ms = clamp(r.match_start_in_line, len);
        let me = clamp(r.match_end_in_line, len);
        let i = char_index(line, ms);
        let j = char_index(line, me);
        let rep = replacement_text(p.search, p.replace, p.options, line.subrange(i, j));
        let after = line.take(i) + rep + line.skip(j);
        let sum = ms + (utf8_len(rep) as usize);
        let end = if sum <= usize::MAX {
            sum
        } else {
            usize::MAX as int
        };
        let after_len = utf8_len(after) as usize;
        Some(
            (
                line,
                ms as usize,
                me as usize,
                after,
                if end < after_len {
                    end as usize
                } else {
                    after_len
                },
            ),
        )
    } else {
        None
    }
}

/// Slicing the hovered line at the clamped span does not panic.
pub open spec fn preview_ok(p: PanelView) -> bool {
    p.result_cursor < p.results.len() ==> {
        let r = p.results[p.result_cursor as int];
        let len = utf8_len(r.line_content);
        &&& len <= usize::MAX
        &&& is_boundary(r.line_content, clamp(r.match_start_in_line, len))
        &&& is_boundary(r.line_content, clamp(r.match_end_in_line, len))
        &&& clamp(r.match_start_in_line, len) <= clamp(r.match_end_in_line, len)
    }
}

impl SearchReplace {
    /// The preview of the hovered result, if the result cursor is on one.
    pub fn preview(&self) -> (r: Option<Preview>)
        requires
            preview_ok(self@),
        ensures
            match r {
                Some(pv) => preview_of(self@) == Some(
                    (pv.line@, pv.match_start, pv.match_end, pv.after@, pv.after_end),
                ),
                None => preview_of(self@) is None,
            },
    {
        let cursor = self.result_cursor();
        let rs = self.results();
        if cursor >= rs.len() {
            return None;
        }
        let result = &rs[cursor];
        assert(results_view(rs@)[cursor as int] == result@);
        let line = result.line_content.as_str();
        let len = str_byte_len(line);
        let ms = if result.match_start_in_line <= len {
            result.match_start_in_line
        } else {
            len
        };
        let me = if result.match_end_in_line <= len {
            result.match_end_in_line
        } else {
            len
        };
        proof {
            lemma_boundary_of_index(line@, 0);
            assert(line@.take(0) =~= Seq::<char>::empty());
            crate::text::lemma_offset_full(line@);
            lemma_boundary_of_index(line@, line@.len() as int);
            lemma_char_index(line@, ms as int);
            lemma_char_index(line@, me as int);
        }
        let matched = substring(line, ms, me);
        let replacement = self.compute_replacement_for(matched.as_str());
        let mut after = substring(line, 0, ms);
        after.append(replacement.as_str());
        let rest = substring(line, me, len);
        after.append(rest.as_str());
        proof {
            assert(after@ =~= line@.take(char_index(line@, ms as int)) + replacement@ + line@.skip(
                char_index(line@, me as int),
            ));
        }
        let rep_len = str_byte_len(replacement.as_str());
        let after_len = str_byte_len(after.as_str());
        let end = ms.saturating_add(rep_len);
        let after_end = if end < after_len {
            end
        } else {
            after_len
        };
        Some(
            Preview {
                line: String::from_str(line),
                match_start: ms,
                match_end: me,
                after,
                after_end,
            },
        )
    }

    /// The results drawn in a list of `height` rows: indices from the scroll
    /// offset up to the end of the list or of the rows.
    pub fn visible_rows(&self, height: usize) -> (r: (usize, usize))
        ensures
            r.0 == self@.scroll_offset,
            r.1 == if self@.scroll_offset >= self@.results.len() {
                self@.scroll_offset as int
            } else if self@.results.len() - self@.scroll_offset <= height {
                self@.results.len() as int
            } else {
                self@.scroll_offset + height
            },
    {
        let start = self.scroll_offset();
        let len = self.results().len();
        if start >= len {
            (start, start)
        } else if len - start <= height {
            (start, len)
        } else {
            (start, start + height)
        }
    }

    /// What the preview says when no result is hovered: nothing for an empty
    /// search, that the workspace is being searched, or that nothing matched.
    pub fn empty_preview_message(&self) -> (m: Option<String>)
        ensures
            match m {
                Some(t) => self@.result_cursor >= self@.results.len() && self@.search.len() > 0
                    && t@ == if self@.scope == SearchScope::Workspace {
                    "Searching workspace…"@
                } else {
                    "No matches"@
                },
                None => self@.result_cursor < self@.results.len() || self@.search.len() == 0,
            },
    {
        if self.result_cursor() < self.results().len() || self.search_input().is_empty() {
            None
        } else if self.scope() == SearchScope::Workspace {
            Some(String::from_str("Searching workspace…"))
        } else {
            Some(String::from_str("No matches"))
        }
    }

    /// The status row's text.
    pub fn status_text(&self) -> (s: String)
        ensures
            s@ == status_line_text(self@),
    {
        let total = self.results().len();
        match self.status() {
            Some(st) => {
                if total > 0 {
                    let sel = self.selected_count();
                    let mut s = String::from_str(st);
                    s.append("  (");
                    s.append(decimal_string(sel).as_str());
                    s.append("/");
                    s.append(decimal_string(total).as_str());
                    s.append(
                        " sel)  <enter>:replace this  R:replace all selected  [space]:toggle  [a]ll  [n]one",
                    );
                    s
                } else {
                    String::from_str(st)
                }
            },
            None => String::from_str(
                "Tab:move focus  <enter>:replace hovered  R:replace selected  [a]/[n]:select all/none",
            ),
        }
    }

    /// How many results are selected.
    pub fn selected_count(&self) -> (n: usize)
        ensures
            n == count_selected(self@.results),
    {
        let rs = self.results();
        let ghost v = results_view(rs@);
        let ghost pred = |r: ResultView| r.selected;
        let mut n: usize = 0;
        let mut i: usize = 0;
        while i < rs.len()
            invariant
                i <= rs@.len(),
                v == results_view(rs@),
                v == self@.results,
                pred == (|r: ResultView| r.selected),
                n == v.take(i as int).filter(pred).len(),
                n <= i,
            decreases rs@.len() - i,
        {
            proof {
                assert(v.take(i + 1) =~= v.take(i as int).push(v[i as int]));
                v.take(i as int).lemma_filter_push(v[i as int], pred);
                assert(v[i as int] == rs@[i as int]@);
            }
            if rs[i].selected {
                n = n + 1;
            }
            i = i + 1;
        }
        proof {
            assert(v.take(rs@.len() as int) =~= v);
        }
        n
    }

    /// Where the terminal cursor goes in an input field `width` columns wide:
    /// the row (1 for the search input, 2 for the replacement) and the
    /// columns of the text drawn before the cursor, from the anchor the field
    /// is scrolled to; none while the result list has focus.
    pub fn cursor_column(&self, width: usize) -> (r: Option<(usize, usize)>)
        requires
            panel_ok(self@),
        ensures
            match r {
                Some((row, col)) => self@.focused != FocusedField::Results && (if self@.focused
                    == FocusedField::Search {
                    row == 1 && col == scrolled_cols(self@.search, self@.search_cursor, width)
                } else {
                    row == 2 && col == scrolled_cols(self@.replace, self@.replace_cursor, width)
                }),
                None => self@.focused == FocusedField::Results,
            },
    {
        match self.focused() {
            FocusedField::Search => Some(
                (1, scrolled_prefix_width(self.search_input(), self.search_cursor(), width)),
            ),
            FocusedField::Replace => Some(
                (2, scrolled_prefix_width(self.replace_input(), self.replace_cursor(), width)),
            ),
            FocusedField::Results => None,
        }
    }
}

} // verus!

//! The panel's state and the rules that change it: the two text inputs and
//! their cursors, the result list and its cursor, and the status line.

use vstd::prelude::*;

use ropey::Rope;

use crate::format::{decimal, decimal_string, decimal_string_wide};
use crate::grouping::{FileGroup, GroupView, all_keys_fit, group_selected, groups_of, keys_fit};
use crate::keys::{Event, KeyAction, classify_key, key_action};
use crate::model::{
    FocusedField, MatchLocation, ResultView, SearchOptions, SearchResult, SearchScope, results_view,
};
use crate::pattern::{build_pattern, pattern_for, replacement_for, replacement_text};
use crate::rope::{
    char_at_byte, lemma_char_at_byte_bounds, regex_find_in_rope, rope_byte_to_char, rope_char_line,
    rope_char_to_line, rope_chars, rope_line, rope_line_start, rope_line_string,
    rope_line_to_char, buffer_regex_search, rope_len_chars, rope_len_lines,
    rope_lines, rope_slice_string,
};
use crate::movement::{
    Movement, eval_movement_in, grapheme_next, movement_target, next_grapheme_boundary,
};
use crate::text::{
    byte_offset, char_index, is_boundary, lemma_boundary_of_index, lemma_char_index,
    lemma_offset_bounded, lemma_offset_concat, lemma_utf8_len_concat,
    lemma_utf8_len_single, lemma_utf8_width_bounds, boundary_index, nth_char_offset, string_insert,
    string_remove_range,
    string_insert_str, string_truncate, str_byte_len, str_tail, utf8_len, utf8_width,
};

verus! {

/// The panel, taken as plain values.
pub struct PanelView {
    pub scope: SearchScope,
    pub options: SearchOptions,
    pub search: Seq<char>,
    pub replace: Seq<char>,
    pub search_cursor: usize,
    pub replace_cursor: usize,
    pub focused: FocusedField,
    pub results: Seq<ResultView>,
    pub result_cursor: usize,
    pub scroll_offset: usize,
    pub status: Option<Seq<char>>,
}

/// The interactive search-and-replace panel.
pub struct SearchReplace {
    scope: SearchScope,
    options: SearchOptions,
    search_input: String,
    replace_input: String,
    /// Byte offset into `search_input`.
    search_cursor: usize,
    /// Byte offset into `replace_input`.
    replace_cursor: usize,
    focused: FocusedField,
    results: Vec<SearchResult>,
    result_cursor: usize,
    scroll_offset: usize,
    status: Option<String>,
}

pub open spec fn opt_view(s: Option<String>) -> Option<Seq<char>> {
    match s {
        Some(t) => Some(t@),
        None => None,
    }
}

impl View for SearchReplace {
    type V = PanelView;

    closed spec fn view(&self) -> PanelView {
        PanelView {
            scope: self.scope,
            options: self.options,
            search: self.search_input@,
            replace: self.replace_input@,
            search_cursor: self.search_cursor,
            replace_cursor: self.replace_cursor,
            focused: self.focused,
            results: results_view(self.results@),
            result_cursor: self.result_cursor,
            scroll_offset: self.scroll_offset,
            status: opt_view(self.status),
        }
    }
}

/// Each input's cursor is a character boundary of it, each input's encoding
/// fits in `isize::MAX` bytes, and the result cursor is on a result whenever
/// the list has any.
pub open spec fn panel_ok(p: PanelView) -> bool {
    &&& inputs_ok(p)
    &&& (p.results.len() > 0 ==> p.result_cursor < p.results.len())
}

/// The part of `panel_ok` about the two inputs.
pub open spec fn inputs_ok(p: PanelView) -> bool {
    &&& is_boundary(p.search, p.search_cursor as int)
    &&& is_boundary(p.replace, p.replace_cursor as int)
    &&& utf8_len(p.search) <= isize::MAX
    &&& utf8_len(p.replace) <= isize::MAX
}

/// The input that editing keys act on: the replacement when it has focus,
/// the search input otherwise (also while the result list has focus).
pub open spec fn active_text(p: PanelView) -> Seq<char> {
    match p.focused {
        FocusedField::Replace => p.replace,
        _ => p.search,
    }
}

pub open spec fn active_pos(p: PanelView) -> usize {
    match p.focused {
        FocusedField::Replace => p.replace_cursor,
        _ => p.search_cursor,
    }
}

/// `p` with the active input and its cursor replaced.
pub open spec fn set_active(p: PanelView, text: Seq<char>, cursor: usize) -> PanelView {
    match p.focused {
        FocusedField::Replace => PanelView { replace: text, replace_cursor: cursor, ..p },
        _ => PanelView { search: text, search_cursor: cursor, ..p },
    }
}

/// `s` without the characters between the boundaries `from` and `to`.
pub open spec fn cut(s: Seq<char>, from: usize, to: usize) -> Seq<char> {
    s.take(char_index(s, from as int)) + s.skip(char_index(s, to as int))
}

/// `s` with `c` inserted at the boundary `at`.
pub open spec fn insert_at(s: Seq<char>, at: usize, c: char) -> Seq<char> {
    s.take(char_index(s, at as int)).push(c) + s.skip(char_index(s, at as int))
}

/// A fresh panel: empty inputs, no results, focus on the search input.
pub open spec fn initial_view(scope: SearchScope) -> PanelView {
    PanelView {
        scope,
        options: SearchOptions { match_case: false, regex_mode: false, whole_word: false },
        search: Seq::<char>::empty(),
        replace: Seq::<char>::empty(),
        search_cursor: 0,
        replace_cursor: 0,
        focused: FocusedField::Search,
        results: Seq::<ResultView>::empty(),
        result_cursor: 0,
        scroll_offset: 0,
        status: None,
    }
}

pub open spec fn insert_char_view(p: PanelView, c: char) -> PanelView {
    let s = active_text(p);
    let at = active_pos(p);
    let t = insert_at(s, at, c);
    let cursor = match next_grapheme_boundary(t, at) {
        Some(b) => if is_boundary(t, b as int) {
            b
        } else {
            at
        },
        None => at,
    };
    set_active(p, t, cursor)
}

pub open spec fn delete_back_view(p: PanelView) -> PanelView {
    let s = active_text(p);
    let pos = movement_target(s, active_pos(p), Movement::BackwardChar(1)) as usize;
    set_active(p, cut(s, pos, active_pos(p)), pos)
}

pub open spec fn delete_forward_view(p: PanelView) -> PanelView {
    let s = active_text(p);
    let pos = movement_target(s, active_pos(p), Movement::ForwardChar(1)) as usize;
    set_active(p, cut(s, active_pos(p), pos), active_pos(p))
}

pub open spec fn delete_word_view(p: PanelView) -> PanelView {
    let s = active_text(p);
    let pos = movement_target(s, active_pos(p), Movement::BackwardWord(1)) as usize;
    set_active(p, cut(s, pos, active_pos(p)), pos)
}

pub open spec fn kill_to_end_view(p: PanelView) -> PanelView {
    let s = active_text(p);
    set_active(p, s.take(char_index(s, active_pos(p) as int)), active_pos(p))
}

pub open spec fn kill_to_start_view(p: PanelView) -> PanelView {
    let s = active_text(p);
    set_active(p, s.skip(char_index(s, active_pos(p) as int)), 0)
}

/// Removing the characters between two boundaries leaves the first one a
/// boundary of the result, with the same index.
pub proof fn lemma_cut(s: Seq<char>, from: usize, to: usize)
    requires
        is_boundary(s, from as int),
        is_boundary(s, to as int),
        from <= to,
    ensures
        is_boundary(cut(s, from, to), from as int),
        utf8_len(cut(s, from, to)) <= utf8_len(s),
        char_index(s, from as int) <= char_index(s, to as int),
{
    lemma_char_index(s, from as int);
    lemma_char_index(s, to as int);
    let i = char_index(s, from as int);
    let j = char_index(s, to as int);
    if j < i {
        crate::text::lemma_offset_mono(s, j, i);
    }
    let a = s.take(i);
    let b = s.skip(j);
    lemma_offset_concat(a, b, i);
    assert(a.take(i) =~= a);
    crate::text::lemma_offset_full(a);
    assert(byte_offset(s, i) == utf8_len(a));
    lemma_boundary_of_index(a + b, i);
    assert(s =~= s.take(j) + b);
    lemma_utf8_len_concat(s.take(j), b);
    lemma_utf8_len_concat(a, b);
    crate::text::lemma_offset_mono(s, i, j);
}

/// The document a buffer search runs over: its path and its text.
pub struct BufferDoc {
    pub path: String,
    pub text: Rope,
}

/// A search to run over the workspace: the pattern and the options.
pub struct WorkspaceQuery {
    pub pattern: String,
    pub options: SearchOptions,
}

/// The status line after a search found `total` matches.
pub open spec fn count_text(total: nat) -> Seq<char> {
    if total == 1 {
        decimal(total) + " match"@
    } else {
        decimal(total) + " matches"@
    }
}

/// `update_status`: the match count (or that nothing matched a non-empty
/// search, or nothing at all), and the result cursor pulled back onto the
/// last result when it is past the end of a non-empty list.
pub open spec fn status_updated(p: PanelView) -> PanelView {
    let total = p.results.len();
    let status = if total == 0 {
        if p.search.len() > 0 {
            Some("No matches found"@)
        } else {
            None
        }
    } else {
        Some(count_text(total))
    };
    let rc = if p.result_cursor >= total && total > 0 {
        (total - 1) as usize
    } else {
        p.result_cursor
    };
    PanelView { status, result_cursor: rc, ..p }
}

/// `scroll_to_cursor`: the smallest change of the scroll offset that shows
/// the result cursor in a list of `height` rows.
pub open spec fn scrolled(p: PanelView, height: usize) -> PanelView {
    if height == 0 {
        p
    } else if p.result_cursor < p.scroll_offset {
        PanelView { scroll_offset: p.result_cursor, ..p }
    } else if p.result_cursor >= p.scroll_offset + height {
        PanelView { scroll_offset: (p.result_cursor + 1 - height) as usize, ..p }
    } else {
        p
    }
}

pub open spec fn sat_sub(a: usize, b: usize) -> usize {
    if a >= b {
        (a - b) as usize
    } else {
        0
    }
}

/// The result a buffer match spanning the bytes `span` of `text` is listed
/// as: its character offsets, its line, and the bytes of that line to
/// highlight (the line's start and end standing in for offsets outside it).
pub open spec fn buffer_result(path: Seq<char>, text: Seq<char>, span: (usize, usize)) -> ResultView {
    let char_start = char_at_byte(text, span.0 as int) as usize;
    let char_end = char_at_byte(text, span.1 as int) as usize;
    let line_num = rope_char_to_line(text, char_start);
    let line_char_start = rope_line_to_char(text, line_num);
    let line = rope_line(text, line_num);
    let ws = sat_sub(char_start, line_char_start);
    let we = sat_sub(char_end, line_char_start);
    ResultView {
        path,
        line_num,
        line_content: line,
        match_start_in_line: if ws < line.len() {
            byte_offset(line, ws as int) as usize
        } else {
            0
        },
        match_end_in_line: if we < line.len() {
            byte_offset(line, we as int) as usize
        } else {
            utf8_len(line) as usize
        },
        location: MatchLocation::BufferChars { char_start, char_end },
        selected: true,
    }
}

/// Every span lies in the text, its start at or before its end.
pub open spec fn spans_fit(spans: Seq<(usize, usize)>, text: Seq<char>) -> bool {
    forall|i: int| 0 <= i < spans.len() ==> #[trigger] spans[i].0 <= spans[i].1 <= utf8_len(text)
}

/// Every listed line's encoding fits in a `usize` (as the text of a string
/// does).
pub open spec fn lines_fit(rs: Seq<ResultView>) -> bool {
    forall|i: int| 0 <= i < rs.len() ==> utf8_len(#[trigger] rs[i].line_content) <= usize::MAX
}

/// `run_search_buffer`: the list cleared; with an empty search, no status;
/// when the pattern does not compile, its error in the status; otherwise one
/// selected result per match, in order, and the status updated.
pub open spec fn buffer_searched(p: PanelView, path: Seq<char>, text: Seq<char>) -> PanelView {
    if p.search.len() == 0 {
        PanelView { results: Seq::<ResultView>::empty(), status: None, ..p }
    } else {
        match buffer_regex_search(pattern_for(p.search, p.options), !p.options.match_case, text) {
            Err(msg) => PanelView {
                results: Seq::<ResultView>::empty(),
                status: Some("Invalid pattern: "@ + msg),
                ..p
            },
            Ok(spans) => if spans_fit(spans, text) && lines_fit(
                spans.map_values(|sp: (usize, usize)| buffer_result(path, text, sp)),
            ) {
                status_updated(
                    PanelView {
                        results: spans.map_values(|sp: (usize, usize)| buffer_result(path, text, sp)),
                        ..p
                    },
                )
            } else {
                PanelView { results: Seq::<ResultView>::empty(), status: None, ..p }
            },
        }
    }
}

/// Every result is a buffer match whose character span is ordered and lies
/// in `text`.
pub open spec fn spans_in_text(rs: Seq<ResultView>, text: Seq<char>) -> bool {
    forall|i: int|
        0 <= i < rs.len() ==> match #[trigger] rs[i].location {
            MatchLocation::BufferChars { char_start, char_end } => char_start <= char_end
                <= text.len(),
            _ => false,
        }
}

/// `on_search_input_changed`: the result and scroll cursors back to the top,
/// then a buffer search of `doc` in buffer scope, or in workspace scope the
/// status saying a search is under way.
pub open spec fn input_changed(p: PanelView, path: Seq<char>, text: Seq<char>) -> PanelView {
    let q = PanelView { result_cursor: 0, scroll_offset: 0, ..p };
    if p.scope == SearchScope::Buffer {
        buffer_searched(q, path, text)
    } else {
        PanelView { status: Some("Searching…"@), ..q }
    }
}

/// The workspace query `on_search_input_changed` hands out: none in buffer
/// scope; in workspace scope the pattern for the search input and the
/// options.
pub open spec fn query_matches(p: PanelView, q: Option<WorkspaceQuery>) -> bool {
    match q {
        None => p.scope == SearchScope::Buffer,
        Some(q) => p.scope == SearchScope::Workspace && q.pattern@ == pattern_for(p.search, p.options)
            && q.options == p.options,
    }
}

/// What the editor should do after the panel handled an event.
#[derive(Clone, Copy, PartialEq, Eq, Debug, Structural)]
pub enum Outcome {
    /// The event is not the panel's.
    Ignored,
    /// The panel handled the event.
    Consumed,
    /// The panel asks to be closed.
    Close,
    /// The panel asks for the hovered result to be replaced
    /// (`apply_single_replacement` with the result cursor).
    ReplaceHovered,
    /// The panel asks for all selected results to be replaced
    /// (`apply_replacements`).
    ReplaceSelected,
}

/// The reply to an event: what the editor should do, and the workspace
/// search to start, if any.
pub struct Reaction {
    pub outcome: Outcome,
    pub query: Option<WorkspaceQuery>,
}

pub open spec fn flipped(s: SearchScope) -> SearchScope {
    match s {
        SearchScope::Buffer => SearchScope::Workspace,
        SearchScope::Workspace => SearchScope::Buffer,
    }
}

/// Tab: search, then replace, then the results when there are any.
pub open spec fn focus_next(p: PanelView) -> FocusedField {
    match p.focused {
        FocusedField::Search => FocusedField::Replace,
        FocusedField::Replace => if p.results.len() > 0 {
            FocusedField::Results
        } else {
            FocusedField::Search
        },
        FocusedField::Results => FocusedField::Search,
    }
}

/// Shift-Tab: the same cycle backwards.
pub open spec fn focus_prev(p: PanelView) -> FocusedField {
    match p.focused {
        FocusedField::Search => if p.results.len() > 0 {
            FocusedField::Results
        } else {
            FocusedField::Replace
        },
        FocusedField::Replace => FocusedField::Search,
        FocusedField::Results => FocusedField::Replace,
    }
}

/// `s` with `t` inserted at the boundary `at`.
pub open spec fn insert_str_at(s: Seq<char>, at: usize, t: Seq<char>) -> Seq<char> {
    s.take(char_index(s, at as int)) + t + s.skip(char_index(s, at as int))
}

/// A paste: the text inserted at the cursor, the cursor moved past it.
pub open spec fn pasted(p: PanelView, t: Seq<char>) -> PanelView {
    set_active(
        p,
        insert_str_at(active_text(p), active_pos(p), t),
        (active_pos(p) + utf8_len(t)) as usize,
    )
}

pub open spec fn with_selection(rs: Seq<ResultView>, on: bool) -> Seq<ResultView> {
    rs.map_values(|r: ResultView| ResultView { selected: on, ..r })
}

/// The state a key edits before the search restarts, for the keys that
/// restart it: the option toggles, the scope switch of the inputs, and the
/// edits of the active input.
pub open spec fn search_restart_state(p: PanelView, a: KeyAction) -> Option<PanelView> {
    match a {
        KeyAction::ToggleMatchCase => Some(
            PanelView {
                options: SearchOptions { match_case: !p.options.match_case, ..p.options },
                ..p
            },
        ),
        KeyAction::ToggleRegex => Some(
            PanelView { options: SearchOptions { regex_mode: !p.options.regex_mode, ..p.options }, ..p },
        ),
        KeyAction::ToggleWholeWord => Some(
            PanelView { options: SearchOptions { whole_word: !p.options.whole_word, ..p.options }, ..p },
        ),
        KeyAction::SwitchScope => Some(
            PanelView {
                scope: flipped(p.scope),
                results: Seq::<ResultView>::empty(),
                status: None,
                ..p
            },
        ),
        KeyAction::DeleteBack => Some(delete_back_view(p)),
        KeyAction::DeleteForward => Some(delete_forward_view(p)),
        KeyAction::DeleteWord => Some(delete_word_view(p)),
        KeyAction::KillToEnd => Some(kill_to_end_view(p)),
        KeyAction::KillToStart => Some(kill_to_start_view(p)),
        KeyAction::Insert(c) => Some(insert_char_view(p, c)),
        _ => None,
    }
}

/// The cursor moved to `pos` in the active input.
pub open spec fn moved(p: PanelView, m: Movement) -> PanelView {
    set_active(p, active_text(p), movement_target(active_text(p), active_pos(p), m) as usize)
}

/// What a key action does to the panel (`path` and `text` are the current
/// document, which buffer searches run over).
pub open spec fn key_step(p: PanelView, a: KeyAction, path: Seq<char>, text: Seq<char>) -> PanelView {
    match search_restart_state(p, a) {
        Some(q) => input_changed(q, path, text),
        None => match a {
            KeyAction::FocusNext => PanelView { focused: focus_next(p), ..p },
            KeyAction::FocusPrev => PanelView { focused: focus_prev(p), ..p },
            KeyAction::Submit => {
                let q = if p.scope == SearchScope::Buffer {
                    buffer_searched(p, path, text)
                } else {
                    p
                };
                if q.results.len() > 0 {
                    PanelView { focused: FocusedField::Results, ..q }
                } else {
                    q
                }
            },
            KeyAction::CharLeft => moved(p, Movement::BackwardChar(1)),
            KeyAction::CharRight => moved(p, Movement::ForwardChar(1)),
            KeyAction::WordLeft => moved(p, Movement::BackwardWord(1)),
            KeyAction::WordRight => moved(p, Movement::ForwardWord(1)),
            KeyAction::LineStart => set_active(p, active_text(p), 0),
            KeyAction::LineEnd => set_active(p, active_text(p), utf8_len(active_text(p)) as usize),
            KeyAction::ResultDown => if p.result_cursor + 1 < p.results.len() {
                PanelView { result_cursor: (p.result_cursor + 1) as usize, ..p }
            } else {
                p
            },
            KeyAction::ResultUp => PanelView { result_cursor: sat_sub(p.result_cursor, 1), ..p },
            KeyAction::ToggleResult => if p.result_cursor < p.results.len() {
                PanelView {
                    results: p.results.update(
                        p.result_cursor as int,
                        ResultView {
                            selected: !p.results[p.result_cursor as int].selected,
                            ..p.results[p.result_cursor as int]
                        },
                    ),
                    ..p
                }
            } else {
                p
            },
            KeyAction::SelectAll => status_updated(
                PanelView { results: with_selection(p.results, true), ..p },
            ),
            KeyAction::SelectNone => status_updated(
                PanelView { results: with_selection(p.results, false), ..p },
            ),
            KeyAction::ResultsSwitchScope => PanelView {
                scope: flipped(p.scope),
                results: Seq::<ResultView>::empty(),
                status: None,
                focused: FocusedField::Search,
                ..p
            },
            _ => p,
        },
    }
}

pub open spec fn key_outcome(a: KeyAction) -> Outcome {
    match a {
        KeyAction::Close => Outcome::Close,
        KeyAction::ReplaceHovered => Outcome::ReplaceHovered,
        KeyAction::ReplaceSelected => Outcome::ReplaceSelected,
        _ => Outcome::Consumed,
    }
}

/// A key that types a character, or a paste into an input, leaves the active
/// input within `isize::MAX` bytes (past that, the insertion itself would
/// panic); no other event grows an input.
pub open spec fn event_fits(p: PanelView, ev: Event) -> bool {
    match ev {
        Event::Key(k) => match key_action(p.focused, k) {
            KeyAction::Insert(c) => utf8_len(active_text(p)) + utf8_width(c) <= isize::MAX,
            _ => true,
        },
        Event::Paste(t) => p.focused != FocusedField::Results ==> utf8_len(active_text(p))
            + utf8_len(t@) <= isize::MAX,
        _ => true,
    }
}

pub open spec fn event_step(p: PanelView, ev: Event, path: Seq<char>, text: Seq<char>) -> PanelView {
    match ev {
        Event::Key(k) => key_step(p, key_action(p.focused, k), path, text),
        Event::Paste(t) => if p.focused != FocusedField::Results {
            input_changed(pasted(p, t@), path, text)
        } else {
            p
        },
        _ => p,
    }
}

pub open spec fn event_outcome(p: PanelView, ev: Event) -> Outcome {
    match ev {
        Event::Key(k) => key_outcome(key_action(p.focused, k)),
        Event::Other => Outcome::Ignored,
        _ => Outcome::Consumed,
    }
}

pub open spec fn event_restart_state(p: PanelView, ev: Event) -> Option<PanelView> {
    match ev {
        Event::Key(k) => search_restart_state(p, key_action(p.focused, k)),
        Event::Paste(t) => if p.focused != FocusedField::Results {
            Some(pasted(p, t@))
        } else {
            None
        },
        _ => None,
    }
}

pub proof fn lemma_insert_str(s: Seq<char>, at: usize, t: Seq<char>)
    requires
        is_boundary(s, at as int),
    ensures
        is_boundary(insert_str_at(s, at, t), at + utf8_len(t)),
        utf8_len(insert_str_at(s, at, t)) == utf8_len(s) + utf8_len(t),
{
    lemma_char_index(s, at as int);
    let k = char_index(s, at as int);
    let a = s.take(k) + t;
    let u = insert_str_at(s, at, t);
    assert(u == a + s.skip(k));
    assert(s =~= s.take(k) + s.skip(k));
    lemma_utf8_len_concat(s.take(k), s.skip(k));
    lemma_utf8_len_concat(s.take(k), t);
    lemma_utf8_len_concat(a, s.skip(k));
    lemma_offset_concat(a, s.skip(k), a.len() as int);
    assert(a.take(a.len() as int) =~= a);
    crate::text::lemma_offset_full(a);
    assert(s.skip(k).take(0) =~= Seq::<char>::empty());
    assert(byte_offset(s, k) == utf8_len(s.take(k))) by {
        assert(s.take(k).take(k) =~= s.take(k));
    }
    lemma_boundary_of_index(u, a.len() as int);
}

pub proof fn lemma_end_boundary(s: Seq<char>)
    ensures
        is_boundary(s, utf8_len(s) as int),
{
    crate::text::lemma_offset_full(s);
    lemma_boundary_of_index(s, s.len() as int);
}

impl SearchReplace {
    /// A fresh panel for `scope`.
    pub fn new(scope: SearchScope) -> (r: Self)
        ensures
            r@ == initial_view(scope),
            panel_ok(r@),
    {
        let r = SearchReplace {
            scope,
            options: SearchOptions::default(),
            search_input: String::new(),
            replace_input: String::new(),
            search_cursor: 0,
            replace_cursor: 0,
            focused: FocusedField::Search,
            results: Vec::new(),
            result_cursor: 0,
            scroll_offset: 0,
            status: None,
        };
        proof {
            lemma_boundary_of_index(Seq::<char>::empty(), 0);
            assert(Seq::<char>::empty().take(0) =~= Seq::<char>::empty());
            assert(results_view(r.results@) =~= Seq::<ResultView>::empty());
        }
        r
    }

    /// The input that editing keys act on.
    pub fn active_input(&self) -> (s: &str)
        ensures
            s@ == active_text(self@),
    {
        match self.focused {
            FocusedField::Search | FocusedField::Results => self.search_input.as_str(),
            FocusedField::Replace => self.replace_input.as_str(),
        }
    }

    /// The cursor of the active input.
    pub fn active_cursor(&self) -> (c: usize)
        ensures
            c == active_pos(self@),
    {
        match self.focused {
            FocusedField::Search | FocusedField::Results => self.search_cursor,
            FocusedField::Replace => self.replace_cursor,
        }
    }

    /// Moves the active cursor to the boundary `pos`.
    pub fn move_cursor_to(&mut self, pos: usize)
        requires
            panel_ok(old(self)@),
            is_boundary(active_text(old(self)@), pos as int),
        ensures
            final(self)@ == set_active(old(self)@, active_text(old(self)@), pos),
            panel_ok(final(self)@),
    {
        match self.focused {
            FocusedField::Search | FocusedField::Results => self.search_cursor = pos,
            FocusedField::Replace => self.replace_cursor = pos,
        }
    }

    /// Where `movement` takes the active cursor.
    pub fn eval_movement(&self, movement: Movement) -> (pos: usize)
        requires
            panel_ok(self@),
        ensures
            pos == movement_target(active_text(self@), active_pos(self@), movement),
            is_boundary(active_text(self@), pos as int),
            match movement {
                Movement::BackwardChar(n) => pos <= active_pos(self@) && (n > 0 && active_pos(self@)
                    > 0 ==> pos < active_pos(self@)),
                Movement::BackwardWord(_) => pos <= active_pos(self@),
                Movement::ForwardChar(n) => pos >= active_pos(self@) && (n > 0 && active_pos(self@)
                    < utf8_len(active_text(self@)) ==> pos > active_pos(self@)),
                Movement::ForwardWord(_) => pos >= active_pos(self@),
            },
    {
        let line = self.active_input();
        let cursor = self.active_cursor();
        eval_movement_in(line, cursor, movement)
    }

    /// Removes the characters between the boundaries `from` and `to` of the
    /// active input and puts its cursor at `from`.
    fn cut_active(&mut self, from: usize, to: usize)
        requires
            panel_ok(old(self)@),
            is_boundary(active_text(old(self)@), from as int),
            is_boundary(active_text(old(self)@), to as int),
            from <= to,
        ensures
            final(self)@ == set_active(old(self)@, cut(active_text(old(self)@), from, to), from),
            panel_ok(final(self)@),
    {
        proof {
            lemma_cut(active_text(self@), from, to);
        }
        match self.focused {
            FocusedField::Search | FocusedField::Results => {
                string_remove_range(&mut self.search_input, from, to);
                self.search_cursor = from;
            },
            FocusedField::Replace => {
                string_remove_range(&mut self.replace_input, from, to);
                self.replace_cursor = from;
            },
        }
    }

    /// The active input and its cursor, to be edited in place.
    pub fn active_input_and_cursor_mut(&mut self) -> ((line, cursor): (&mut String, &mut usize))
        ensures
            line@ == active_text(old(self)@),
            *cursor == active_pos(old(self)@),
            final(self)@ == set_active(old(self)@, final(line)@, *final(cursor)),
    {
        match self.focused {
            FocusedField::Search | FocusedField::Results => (
                &mut self.search_input,
                &mut self.search_cursor,
            ),
            FocusedField::Replace => (&mut self.replace_input, &mut self.replace_cursor),
        }
    }

    /// Deletes the grapheme cluster before the cursor.
    pub fn delete_char_backwards(&mut self)
        requires
            panel_ok(old(self)@),
        ensures
            final(self)@ == delete_back_view(old(self)@),
            panel_ok(final(self)@),
    {
        let pos = self.eval_movement(Movement::BackwardChar(1));
        let cursor = self.active_cursor();
        self.cut_active(pos, cursor);
    }

    /// Deletes the grapheme cluster after the cursor.
    pub fn delete_char_forwards(&mut self)
        requires
            panel_ok(old(self)@),
        ensures
            final(self)@ == delete_forward_view(old(self)@),
            panel_ok(final(self)@),
    {
        let pos = self.eval_movement(Movement::ForwardChar(1));
        let cursor = self.active_cursor();
        self.cut_active(cursor, pos);
    }

    /// Deletes back to the start of the word before the cursor.
    pub fn delete_word_backwards(&mut self)
        requires
            panel_ok(old(self)@),
        ensures
            final(self)@ == delete_word_view(old(self)@),
            panel_ok(final(self)@),
    {
        let pos = self.eval_movement(Movement::BackwardWord(1));
        let cursor = self.active_cursor();
        self.cut_active(pos, cursor);
    }

    /// Deletes everything after the cursor.
    pub fn kill_to_end(&mut self)
        requires
            panel_ok(old(self)@),
        ensures
            final(self)@ == kill_to_end_view(old(self)@),
            panel_ok(final(self)@),
    {
        let ghost s = active_text(self@);
        let cursor = self.active_cursor();
        proof {
            lemma_char_index(s, cursor as int);
            let k = char_index(s, cursor as int);
            lemma_offset_concat(s.take(k), s.skip(k), k);
            assert(s =~= s.take(k) + s.skip(k));
            assert(s.take(k).take(k) =~= s.take(k));
            lemma_boundary_of_index(s.take(k), k);
            lemma_offset_bounded(s.take(k), k);
            crate::text::lemma_offset_full(s.take(k));
            lemma_utf8_len_concat(s.take(k), s.skip(k));
        }
        match self.focused {
            FocusedField::Search | FocusedField::Results => {
                string_truncate(&mut self.search_input, cursor);
            },
            FocusedField::Replace => {
                string_truncate(&mut self.replace_input, cursor);
            },
        }
    }

    /// Deletes everything before the cursor and moves it to the start.
    pub fn kill_to_start(&mut self)
        requires
            panel_ok(old(self)@),
        ensures
            final(self)@ == kill_to_start_view(old(self)@),
            panel_ok(final(self)@),
    {
        let ghost s = active_text(self@);
        let cursor = self.active_cursor();
        proof {
            lemma_char_index(s, cursor as int);
            let k = char_index(s, cursor as int);
            assert(s =~= s.take(k) + s.skip(k));
            lemma_utf8_len_concat(s.take(k), s.skip(k));
            lemma_boundary_of_index(s.skip(k), 0);
            assert(s.skip(k).take(0) =~= Seq::<char>::empty());
        }
        match self.focused {
            FocusedField::Search | FocusedField::Results => {
                let rest = str_tail(self.search_input.as_str(), cursor);
                self.search_input = rest;
                self.search_cursor = 0;
            },
            FocusedField::Replace => {
                let rest = str_tail(self.replace_input.as_str(), cursor);
                self.replace_input = rest;
                self.replace_cursor = 0;
            },
        }
    }

    /// Inserts `c` at the cursor and moves the cursor past the grapheme
    /// cluster that now follows it.
    pub fn insert_char_at_cursor(&mut self, c: char)
        requires
            panel_ok(old(self)@),
            utf8_len(active_text(old(self)@)) + utf8_width(c) <= isize::MAX,
        ensures
            final(self)@ == insert_char_view(old(self)@, c),
            panel_ok(final(self)@),
            active_pos(final(self)@) > active_pos(old(self)@),
    {
        let ghost s = active_text(self@);
        let cursor = self.active_cursor();
        proof {
            lemma_char_index(s, cursor as int);
            let k = char_index(s, cursor as int);
            let t = insert_at(s, cursor, c);
            let a = s.take(k).push(c);
            assert(t == a + s.skip(k));
            assert(s =~= s.take(k) + s.skip(k));
            lemma_utf8_len_concat(s.take(k), s.skip(k));
            assert(a =~= s.take(k) + seq![c]);
            lemma_utf8_len_concat(s.take(k), seq![c]);
            lemma_utf8_len_single(c);
            lemma_utf8_width_bounds(c);
            lemma_utf8_len_concat(a, s.skip(k));
            lemma_offset_concat(a, s.skip(k), k);
            assert(a.take(k) =~= s.take(k));
            lemma_boundary_of_index(t, k);
            assert(byte_offset(s, k) == utf8_len(s.take(k))) by {
                assert(s.take(k).take(k) =~= s.take(k));
            }
            crate::text::lemma_offset_full(s.take(k));
        }
        match self.focused {
            FocusedField::Search | FocusedField::Results => {
                string_insert(&mut self.search_input, cursor, c);
                if let Some(pos) = grapheme_next(self.search_input.as_str(), cursor) {
                    self.search_cursor = pos;
                }
            },
            FocusedField::Replace => {
                string_insert(&mut self.replace_input, cursor, c);
                if let Some(pos) = grapheme_next(self.replace_input.as_str(), cursor) {
                    self.replace_cursor = pos;
                }
            },
        }
    }

    /// Sets the status to the match count and pulls the result cursor back
    /// onto the list.
    pub fn update_status(&mut self)
        requires
            inputs_ok(old(self)@),
        ensures
            final(self)@ == status_updated(old(self)@),
            panel_ok(final(self)@),
    {
        let total = self.results.len();
        if total == 0 {
            if !self.search_input.as_str().is_empty() {
                self.status = Some(String::from_str("No matches found"));
            } else {
                self.status = None;
            }
        } else {
            let mut text = decimal_string(total);
            if total == 1 {
                text.append(" match");
            } else {
                text.append(" matches");
            }
            self.status = Some(text);
        }
        if self.result_cursor >= total && total > 0 {
            self.result_cursor = total - 1;
        }
    }

    /// Scrolls the result list of `list_height` rows so that the result
    /// cursor is visible.
    pub fn scroll_to_cursor(&mut self, list_height: usize)
        requires
            panel_ok(old(self)@),
        ensures
            final(self)@ == scrolled(old(self)@, list_height),
            panel_ok(final(self)@),
    {
        if list_height == 0 {
            return;
        }
        if self.result_cursor < self.scroll_offset {
            self.scroll_offset = self.result_cursor;
        } else if self.result_cursor - self.scroll_offset >= list_height {
            self.scroll_offset = self.result_cursor - (list_height - 1);
        }
    }

    /// Searches `text` (the document at `path`) for the search input and
    /// lists the matches.
    pub fn run_search_buffer(&mut self, text: &Rope, path: String)
        requires
            panel_ok(old(self)@),
        ensures
            final(self)@ == buffer_searched(old(self)@, path@, rope_chars(*text)),
            panel_ok(final(self)@),
            spans_in_text(final(self)@.results, rope_chars(*text)),
    {
        let ghost chars = rope_chars(*text);
        self.results.clear();
        if self.search_input.as_str().is_empty() {
            self.status = None;
            assert(results_view(self.results@) =~= Seq::<ResultView>::empty());
            return;
        }
        let pattern = build_pattern(self.search_input.as_str(), &self.options);
        let spans = match regex_find_in_rope(pattern.as_str(), !self.options.match_case, text) {
            Ok(spans) => spans,
            Err(e) => {
                let mut msg = String::from_str("Invalid pattern: ");
                msg.append(e.as_str());
                self.status = Some(msg);
                assert(results_view(self.results@) =~= Seq::<ResultView>::empty());
                return;
            },
        };
        let ghost p0 = self@;
        assert(spans@.take(0).map_values(|sp: (usize, usize)| buffer_result(path@, chars, sp))
            =~= Seq::<ResultView>::empty());
        assert(results_view(self.results@) =~= Seq::<ResultView>::empty());
        let mut i: usize = 0;
        while i < spans.len()
            invariant
                i <= spans@.len(),
                chars == rope_chars(*text),
                forall|j: int|
                    0 <= j < spans@.len() ==> #[trigger] spans@[j].0 <= spans@[j].1 <= utf8_len(
                        chars,
                    ),
                self@ == (PanelView {
                    results: spans@.take(i as int).map_values(
                        |sp: (usize, usize)| buffer_result(path@, chars, sp),
                    ),
                    ..p0
                }),
                panel_ok(p0),
                spans_in_text(self@.results, chars),
                lines_fit(self@.results),
            decreases spans@.len() - i,
        {
            let (ms, me) = spans[i];
            proof {
                lemma_char_at_byte_bounds(chars, ms as int);
                lemma_char_at_byte_bounds(chars, me as int);
            }
            let char_start = rope_byte_to_char(text, ms);
            let char_end = rope_byte_to_char(text, me);
            proof {
                crate::rope::lemma_char_at_byte_mono(chars, ms as int, me as int);
            }
            let line_num = rope_char_line(text, char_start);
            let line_char_start = rope_line_start(text, line_num);
            let line_content = rope_line_string(text, line_num);
            let _line_len = str_byte_len(line_content.as_str());
            let wl_char_start = if char_start >= line_char_start {
                char_start - line_char_start
            } else {
                0
            };
            let wl_char_end = if char_end >= line_char_start {
                char_end - line_char_start
            } else {
                0
            };
            let match_start_in_line = match nth_char_offset(line_content.as_str(), wl_char_start) {
                Some(b) => b,
                None => 0,
            };
            let match_end_in_line = match nth_char_offset(line_content.as_str(), wl_char_end) {
                Some(b) => b,
                None => str_byte_len(line_content.as_str()),
            };
            let result = SearchResult {
                path: path.clone(),
                line_num,
                line_content,
                match_start_in_line,
                match_end_in_line,
                location: MatchLocation::BufferChars { char_start, char_end },
                selected: true,
            };
            assert(result@ == buffer_result(path@, chars, spans@[i as int]));
            let ghost before = self.results@;
            self.results.push(result);
            proof {
                assert(self.results@ =~= before.push(result));
                assert(results_view(self.results@) =~= results_view(before).push(result@));
                assert(spans@.take(i + 1) =~= spans@.take(i as int).push(spans@[i as int]));
                assert(results_view(self.results@) =~= spans@.take(i + 1).map_values(
                    |sp: (usize, usize)| buffer_result(path@, chars, sp),
                ));
            }
            i = i + 1;
        }
        proof {
            assert(spans@.take(spans@.len() as int) =~= spans@);
        }
        self.update_status();
    }

    /// Starts the search the inputs now ask for: in buffer scope over `doc`
    /// right away; in workspace scope by handing out the query to run.
    pub fn on_search_input_changed(&mut self, doc: &BufferDoc) -> (q: Option<WorkspaceQuery>)
        requires
            panel_ok(old(self)@),
        ensures
            final(self)@ == input_changed(old(self)@, doc.path@, rope_chars(doc.text)),
            query_matches(old(self)@, q),
            panel_ok(final(self)@),
    {
        self.result_cursor = 0;
        self.scroll_offset = 0;
        match self.scope {
            SearchScope::Buffer => {
                self.run_search_buffer(&doc.text, doc.path.clone());
                None
            },
            SearchScope::Workspace => {
                let pattern = build_pattern(self.search_input.as_str(), &self.options);
                self.status = Some(String::from_str("Searching…"));
                Some(WorkspaceQuery { pattern, options: self.options })
            },
        }
    }

    /// Inserts pasted text at the cursor and moves the cursor past it.
    fn paste_at_cursor(&mut self, t: &str)
        requires
            panel_ok(old(self)@),
            utf8_len(active_text(old(self)@)) + utf8_len(t@) <= isize::MAX,
        ensures
            final(self)@ == pasted(old(self)@, t@),
            panel_ok(final(self)@),
    {
        proof {
            lemma_insert_str(active_text(self@), active_pos(self@), t@);
            lemma_char_index(active_text(self@), active_pos(self@) as int);
        }
        let n = str_byte_len(t);
        let (line, cursor) = self.active_input_and_cursor_mut();
        string_insert_str(line, *cursor, t);
        *cursor = *cursor + n;
    }

    /// Toggles whether the hovered result is selected.
    fn toggle_hovered(&mut self)
        requires
            panel_ok(old(self)@),
        ensures
            final(self)@ == key_step(old(self)@, KeyAction::ToggleResult, Seq::empty(), Seq::empty()),
            panel_ok(final(self)@),
    {
        if self.result_cursor < self.results.len() {
            let mut r = self.results[self.result_cursor].clone();
            r.selected = !r.selected;
            let ghost before = self.results@;
            self.results.set(self.result_cursor, r);
            proof {
                assert(results_view(self.results@) =~= results_view(before).update(
                    self.result_cursor as int,
                    r@,
                ));
            }
        }
    }

    /// Marks every result selected (`on`) or not, then updates the status.
    fn select_all(&mut self, on: bool)
        requires
            panel_ok(old(self)@),
        ensures
            final(self)@ == status_updated(
                PanelView { results: with_selection(old(self)@.results, on), ..old(self)@ },
            ),
            panel_ok(final(self)@),
    {
        let ghost p0 = self@;
        let mut i: usize = 0;
        while i < self.results.len()
            invariant
                i <= self.results@.len(),
                self.results@.len() == p0.results.len(),
                panel_ok(p0),
                forall|j: int|
                    0 <= j < i ==> #[trigger] results_view(self.results@)[j] == (ResultView {
                        selected: on,
                        ..p0.results[j]
                    }),
                forall|j: int|
                    i <= j < self.results@.len() ==> #[trigger] results_view(self.results@)[j]
                        == p0.results[j],
                self@ == (PanelView { results: results_view(self.results@), ..p0 }),
            decreases self.results@.len() - i,
        {
            let mut r = self.results[i].clone();
            let ghost before = self.results@;
            assert(results_view(before)[i as int] == before[i as int]@);
            r.selected = on;
            assert(r@ == (ResultView { selected: on, ..p0.results[i as int] }));
            self.results.set(i, r);
            proof {
                assert(results_view(self.results@) =~= results_view(before).update(i as int, r@));
            }
            i = i + 1;
        }
        proof {
            assert(results_view(self.results@) =~= with_selection(p0.results, on));
        }
        self.update_status();
    }

    /// Performs a key action that edits the inputs, options or scope and
    /// then restarts the search.
    fn apply_restarting_key(&mut self, a: KeyAction, doc: &BufferDoc) -> (r: Reaction)
        requires
            panel_ok(old(self)@),
            a matches KeyAction::Insert(c) ==> utf8_len(active_text(old(self)@)) + utf8_width(c)
                <= isize::MAX,
            search_restart_state(old(self)@, a) is Some,
        ensures
            final(self)@ == key_step(old(self)@, a, doc.path@, rope_chars(doc.text)),
            r.outcome == key_outcome(a),
            query_matches(search_restart_state(old(self)@, a)->0, r.query),
            panel_ok(final(self)@),
    {
        match a {
            KeyAction::ToggleMatchCase => {
                self.options.match_case = !self.options.match_case;
                let q = self.on_search_input_changed(doc);
                return Reaction { outcome: Outcome::Consumed, query: q };
            },
            KeyAction::ToggleRegex => {
                self.options.regex_mode = !self.options.regex_mode;
                let q = self.on_search_input_changed(doc);
                return Reaction { outcome: Outcome::Consumed, query: q };
            },
            KeyAction::ToggleWholeWord => {
                self.options.whole_word = !self.options.whole_word;
                let q = self.on_search_input_changed(doc);
                return Reaction { outcome: Outcome::Consumed, query: q };
            },
            KeyAction::SwitchScope => {
                self.scope = match self.scope {
                    SearchScope::Buffer => SearchScope::Workspace,
                    SearchScope::Workspace => SearchScope::Buffer,
                };
                self.results.clear();
                self.status = None;
                proof {
                    assert(results_view(self.results@) =~= Seq::<ResultView>::empty());
                }
                let q = self.on_search_input_changed(doc);
                return Reaction { outcome: Outcome::Consumed, query: q };
            },
            KeyAction::DeleteBack => {
                self.delete_char_backwards();
                let q = self.on_search_input_changed(doc);
                return Reaction { outcome: Outcome::Consumed, query: q };
            },
            KeyAction::DeleteForward => {
                self.delete_char_forwards();
                let q = self.on_search_input_changed(doc);
                return Reaction { outcome: Outcome::Consumed, query: q };
            },
            KeyAction::DeleteWord => {
                self.delete_word_backwards();
                let q = self.on_search_input_changed(doc);
                return Reaction { outcome: Outcome::Consumed, query: q };
            },
            KeyAction::KillToEnd => {
                self.kill_to_end();
                let q = self.on_search_input_changed(doc);
                return Reaction { outcome: Outcome::Consumed, query: q };
            },
            KeyAction::KillToStart => {
                self.kill_to_start();
                let q = self.on_search_input_changed(doc);
                return Reaction { outcome: Outcome::Consumed, query: q };
            },
            KeyAction::Insert(c) => {
                self.insert_char_at_cursor(c);
                let q = self.on_search_input_changed(doc);
                return Reaction { outcome: Outcome::Consumed, query: q };
            },
            _ => {
                proof {
                    assert(false);
                }
                return Reaction { outcome: Outcome::Consumed, query: None };
            },
        }
    }

    /// Performs a key action that does not restart the search.
    fn apply_plain_key(&mut self, a: KeyAction, doc: &BufferDoc) -> (r: Reaction)
        requires
            panel_ok(old(self)@),
            search_restart_state(old(self)@, a) is None,
        ensures
            final(self)@ == key_step(old(self)@, a, doc.path@, rope_chars(doc.text)),
            r.outcome == key_outcome(a),
            r.query is None,
            panel_ok(final(self)@),
    {
        let outcome = match a {
            KeyAction::Close => Outcome::Close,
            KeyAction::ReplaceHovered => Outcome::ReplaceHovered,
            KeyAction::ReplaceSelected => Outcome::ReplaceSelected,
            _ => Outcome::Consumed,
        };
        match a {
            KeyAction::FocusNext => {
                self.focused = match self.focused {
                    FocusedField::Search => FocusedField::Replace,
                    FocusedField::Replace => if self.results.len() > 0 {
                        FocusedField::Results
                    } else {
                        FocusedField::Search
                    },
                    FocusedField::Results => FocusedField::Search,
                };
            },
            KeyAction::FocusPrev => {
                self.focused = match self.focused {
                    FocusedField::Search => if self.results.len() > 0 {
                        FocusedField::Results
                    } else {
                        FocusedField::Replace
                    },
                    FocusedField::Replace => FocusedField::Search,
                    FocusedField::Results => FocusedField::Replace,
                };
            },
            KeyAction::Submit => {
                if self.scope == SearchScope::Buffer {
                    self.run_search_buffer(&doc.text, doc.path.clone());
                }
                if self.results.len() > 0 {
                    self.focused = FocusedField::Results;
                }
            },
            KeyAction::CharLeft => {
                let pos = self.eval_movement(Movement::BackwardChar(1));
                self.move_cursor_to(pos);
            },
            KeyAction::CharRight => {
                let pos = self.eval_movement(Movement::ForwardChar(1));
                self.move_cursor_to(pos);
            },
            KeyAction::WordLeft => {
                let pos = self.eval_movement(Movement::BackwardWord(1));
                self.move_cursor_to(pos);
            },
            KeyAction::WordRight => {
                let pos = self.eval_movement(Movement::ForwardWord(1));
                self.move_cursor_to(pos);
            },
            KeyAction::LineStart => {
                proof {
                    lemma_boundary_of_index(active_text(self@), 0);
                    assert(active_text(self@).take(0) =~= Seq::<char>::empty());
                }
                self.move_cursor_to(0);
            },
            KeyAction::LineEnd => {
                proof {
                    lemma_end_boundary(active_text(self@));
                }
                let end = str_byte_len(self.active_input());
                self.move_cursor_to(end);
            },
            KeyAction::ResultDown => {
                if self.results.len() > 0 && self.result_cursor < self.results.len() - 1 {
                    self.result_cursor = self.result_cursor + 1;
                }
            },
            KeyAction::ResultUp => {
                if self.result_cursor > 0 {
                    self.result_cursor = self.result_cursor - 1;
                }
            },
            KeyAction::ToggleResult => {
                self.toggle_hovered();
            },
            KeyAction::SelectAll => {
                self.select_all(true);
            },
            KeyAction::SelectNone => {
                self.select_all(false);
            },
            KeyAction::ResultsSwitchScope => {
                self.scope = match self.scope {
                    SearchScope::Buffer => SearchScope::Workspace,
                    SearchScope::Workspace => SearchScope::Buffer,
                };
                self.results.clear();
                self.status = None;
                self.focused = FocusedField::Search;
                proof {
                    assert(results_view(self.results@) =~= Seq::<ResultView>::empty());
                }
            },
            _ => {},
        }
        Reaction { outcome, query: None }
    }

    /// Handles one event.  `doc` is the document the editor shows, which a
    /// buffer-scope search runs over.  Replacing asks the editor through the
    /// outcome (see `apply_single_replacement` and `apply_replacements`);
    /// a workspace search is handed out in the reaction.
    pub fn handle_event(&mut self, event: &Event, doc: &BufferDoc) -> (r: Reaction)
        requires
            panel_ok(old(self)@),
            event_fits(old(self)@, *event),
        ensures
            final(self)@ == event_step(old(self)@, *event, doc.path@, rope_chars(doc.text)),
            r.outcome == event_outcome(old(self)@, *event),
            match event_restart_state(old(self)@, *event) {
                Some(q) => query_matches(q, r.query),
                None => r.query is None,
            },
            panel_ok(final(self)@),
    {
        match event {
            Event::Key(k) => {
                let a = classify_key(self.focused, k);
                match a {
                    KeyAction::ToggleMatchCase | KeyAction::ToggleRegex | KeyAction::ToggleWholeWord
                    | KeyAction::SwitchScope | KeyAction::DeleteBack | KeyAction::DeleteForward
                    | KeyAction::DeleteWord | KeyAction::KillToEnd | KeyAction::KillToStart
                    | KeyAction::Insert(_) => self.apply_restarting_key(a, doc),
                    _ => self.apply_plain_key(a, doc),
                }
            },
            Event::Paste(t) => {
                if self.focused != FocusedField::Results {
                    self.paste_at_cursor(t.as_str());
                    let q = self.on_search_input_changed(doc);
                    Reaction { outcome: Outcome::Consumed, query: q }
                } else {
                    Reaction { outcome: Outcome::Consumed, query: None }
                }
            },
            Event::Other => Reaction { outcome: Outcome::Ignored, query: None },
            _ => Reaction { outcome: Outcome::Consumed, query: None },
        }
    }
}


/// A change for the editor to make: replace the characters `start..end` of
/// a document with `text`.
pub struct Change {
    pub start: usize,
    pub end: usize,
    pub text: String,
}

pub struct ChangeView {
    pub start: usize,
    pub end: usize,
    pub text: Seq<char>,
}

impl View for Change {
    type V = ChangeView;

    open spec fn view(&self) -> ChangeView {
        ChangeView { start: self.start, end: self.end, text: self.text@ }
    }
}

pub open spec fn opt_change_view(c: Option<Change>) -> Option<ChangeView> {
    match c {
        Some(c) => Some(c@),
        None => None,
    }
}

pub open spec fn opt_rope_view(d: Option<&Rope>) -> Option<Seq<char>> {
    match d {
        Some(t) => Some(rope_chars(*t)),
        None => None,
    }
}

pub open spec fn docs_view(docs: Seq<Option<Rope>>) -> Seq<Option<Seq<char>>> {
    docs.map_values(
        |d: Option<Rope>|
            match d {
                Some(t) => Some(rope_chars(t)),
                None => None,
            },
    )
}

pub open spec fn changes_view(cs: Seq<Vec<Change>>) -> Seq<Seq<ChangeView>> {
    cs.map_values(|v: Vec<Change>| v@.map_values(|c: Change| c@))
}

/// The character span of `text` that a match location stands for: buffer
/// offsets as they are; a file line's byte offsets counted in characters
/// from the start of that line; nothing for a line past the last one.
pub open spec fn resolved_span(loc: MatchLocation, text: Seq<char>) -> Option<(int, int)> {
    match loc {
        MatchLocation::BufferChars { char_start, char_end } => Some(
            (char_start as int, char_end as int),
        ),
        MatchLocation::FileBytes { line_num, line_byte_start, line_byte_end } => {
            if line_num < rope_len_lines(text) {
                let line = rope_line(text, line_num);
                let lcs = rope_line_to_char(text, line_num);
                Some(
                    (
                        lcs + char_index(line, line_byte_start as int),
                        lcs + char_index(line, line_byte_end as int),
                    ),
                )
            } else {
                None
            }
        },
    }
}

/// Resolving the location against `text` does not panic: a line's byte
/// offsets are character boundaries of it, the character offsets fit in a
/// `usize`, and a span inside the text does not end before it starts.
pub open spec fn location_ok(loc: MatchLocation, text: Seq<char>) -> bool {
    &&& match loc {
        MatchLocation::FileBytes { line_num, line_byte_start, line_byte_end } => line_num
            < rope_len_lines(text) ==> {
            &&& is_boundary(rope_line(text, line_num), line_byte_start as int)
            &&& is_boundary(rope_line(text, line_num), line_byte_end as int)
        },
        _ => true,
    }
    &&& match resolved_span(loc, text) {
        Some((cs, ce)) => cs <= usize::MAX && ce <= usize::MAX && (ce <= text.len() ==> cs <= ce),
        None => true,
    }
}

/// The change replacing the characters `cs..ce` of `text`.
pub open spec fn change_of(p: PanelView, text: Seq<char>, cs: int, ce: int) -> ChangeView {
    ChangeView {
        start: cs as usize,
        end: ce as usize,
        text: replacement_text(p.search, p.replace, p.options, text.subrange(cs, ce)),
    }
}

/// The list without result `index`, the result cursor kept on the list, and
/// when a change was made the status saying how many results remain.
pub open spec fn removed_result(p: PanelView, index: usize, change: Option<ChangeView>) -> PanelView {
    let rs = p.results.remove(index as int);
    let rc = if p.result_cursor >= rs.len() && rs.len() > 0 {
        (rs.len() - 1) as usize
    } else {
        p.result_cursor
    };
    let status = match change {
        Some(_) => Some("Replaced 1 — "@ + decimal(rs.len()) + " remaining"@),
        None => p.status,
    };
    PanelView { results: rs, result_cursor: rc, status, ..p }
}

/// `apply_single_replacement`: the panel after it, the change to make, and
/// whether the panel should close (its list is empty).  `doc` is the text of
/// the result's file, when the editor could open it.  A missing result
/// changes nothing; otherwise the result leaves the list whether or not it
/// could be replaced: with a change when its span lies inside the text, with
/// an out-of-bounds status when its line is past the end of the file.
pub open spec fn single_replacement(p: PanelView, index: usize, doc: Option<Seq<char>>) -> (
    PanelView,
    Option<ChangeView>,
    bool,
) {
    if index >= p.results.len() {
        (p, None, p.results.len() == 0)
    } else {
        match doc {
            None => {
                let q = removed_result(p, index, None);
                (q, None, q.results.len() == 0)
            },
            Some(text) => match resolved_span(p.results[index as int].location, text) {
                None => {
                    let q = removed_result(
                        PanelView { status: Some("Match location out of bounds"@), ..p },
                        index,
                        None,
                    );
                    (q, None, q.results.len() == 0)
                },
                Some((cs, ce)) => {
                    let ch = if ce <= text.len() {
                        Some(change_of(p, text, cs, ce))
                    } else {
                        None
                    };
                    let q = removed_result(p, index, ch);
                    (q, ch, q.results.len() == 0)
                },
            },
        }
    }
}

pub open spec fn single_ok(p: PanelView, index: usize, doc: Option<Seq<char>>) -> bool {
    index < p.results.len() && doc is Some ==> location_ok(
        p.results[index as int].location,
        doc->0,
    )
}

/// The changes for one file, with the counts of results replaced and
/// skipped (a line past the end, or a span reaching past the text).
pub open spec fn file_changes(p: PanelView, g: Seq<ResultView>, text: Seq<char>) -> (
    Seq<ChangeView>,
    nat,
    nat,
)
    decreases g.len(),
{
    if g.len() == 0 {
        (Seq::<ChangeView>::empty(), 0, 0)
    } else {
        let (cs, a, e) = file_changes(p, g.drop_last(), text);
        match resolved_span(g.last().location, text) {
            None => (cs, a, e + 1),
            Some((s, t)) => if t > text.len() {
                (cs, a, e + 1)
            } else {
                (cs.push(change_of(p, text, s, t)), a + 1, e)
            },
        }
    }
}

/// The changes for every group, a file the editor could not open counting
/// as one skipped result and getting no changes.
pub open spec fn all_changes(p: PanelView, gs: Seq<GroupView>, docs: Seq<Option<Seq<char>>>) -> (
    Seq<Seq<ChangeView>>,
    nat,
    nat,
)
    decreases gs.len(),
{
    if gs.len() == 0 {
        (Seq::<Seq<ChangeView>>::empty(), 0, 0)
    } else {
        let (chs, a, e) = all_changes(p, gs.drop_last(), docs);
        match docs[gs.len() - 1] {
            None => (chs.push(Seq::<ChangeView>::empty()), a, e + 1),
            Some(text) => {
                let (c, a2, e2) = file_changes(p, gs.last().results, text);
                (chs.push(c), a + a2, e + e2)
            },
        }
    }
}

/// The status after replacing all selected results.
pub open spec fn replaced_text(applied: nat, errors: nat) -> Seq<char> {
    if errors == 0 {
        if applied == 1 {
            "Replaced "@ + decimal(applied) + " occurrence"@
        } else {
            "Replaced "@ + decimal(applied) + " occurrences"@
        }
    } else {
        "Replaced "@ + decimal(applied) + ", skipped "@ + decimal(errors)
    }
}

/// `apply_replacements`: with nothing selected, a status saying so;
/// otherwise the changes per file group (`groups_of`), the list cleared and
/// the counts in the status.  The flag says whether the panel should close
/// (its list is empty).
pub open spec fn replace_selected(p: PanelView, docs: Seq<Option<Seq<char>>>) -> (
    PanelView,
    Seq<Seq<ChangeView>>,
    bool,
) {
    let gs = groups_of(p.results);
    if gs.len() == 0 {
        (
            PanelView {
                status: Some("Nothing selected — use [space] to select or [a] to select all"@),
                ..p
            },
            Seq::<Seq<ChangeView>>::empty(),
            p.results.len() == 0,
        )
    } else {
        let (chs, a, e) = all_changes(p, gs, docs);
        (
            PanelView {
                results: Seq::<ResultView>::empty(),
                status: Some(replaced_text(a, e)),
                ..p
            },
            chs,
            true,
        )
    }
}

pub open spec fn group_ok(g: Seq<ResultView>, text: Seq<char>) -> bool {
    forall|j: int| 0 <= j < g.len() ==> location_ok(#[trigger] g[j].location, text)
}

pub open spec fn replace_ok(p: PanelView, docs: Seq<Option<Seq<char>>>) -> bool {
    &&& keys_fit(p.results)
    &&& docs.len() == groups_of(p.results).len()
    &&& forall|i: int|
        0 <= i < docs.len() && (#[trigger] docs[i]) is Some ==> group_ok(
            groups_of(p.results)[i].results,
            docs[i]->0,
        )
}

enum Resolution {
    Span(usize, usize),
    PastLastLine,
    Unresolvable,
}

fn resolve_location(loc: &MatchLocation, text: &Rope) -> (r: Resolution)
    ensures
        match r {
            Resolution::Span(cs, ce) => location_ok(*loc, rope_chars(*text)) && resolved_span(
                *loc,
                rope_chars(*text),
            ) == Some((cs as int, ce as int)),
            Resolution::PastLastLine => location_ok(*loc, rope_chars(*text)) && resolved_span(
                *loc,
                rope_chars(*text),
            ) is None,
            Resolution::Unresolvable => !location_ok(*loc, rope_chars(*text)),
        },
{
    let (cs, ce) = match loc {
        MatchLocation::BufferChars { char_start, char_end } => (*char_start, *char_end),
        MatchLocation::FileBytes { line_num, line_byte_start, line_byte_end } => {
            if *line_num >= rope_lines(text) {
                return Resolution::PastLastLine;
            }
            let lcs = rope_line_start(text, *line_num);
            let line = rope_line_string(text, *line_num);
            let ks = match boundary_index(line.as_str(), *line_byte_start) {
                Some(k) => k,
                None => {
                    return Resolution::Unresolvable;
                },
            };
            let ke = match boundary_index(line.as_str(), *line_byte_end) {
                Some(k) => k,
                None => {
                    return Resolution::Unresolvable;
                },
            };
            if ks > usize::MAX - lcs || ke > usize::MAX - lcs {
                return Resolution::Unresolvable;
            }
            (lcs + ks, lcs + ke)
        },
    };
    if ce <= rope_len_chars(text) && cs > ce {
        return Resolution::Unresolvable;
    }
    Resolution::Span(cs, ce)
}

impl SearchReplace {
    /// The text that replaces `matched`.
    pub fn compute_replacement_for(&self, matched: &str) -> (r: String)
        ensures
            r@ == replacement_text(self@.search, self@.replace, self@.options, matched@),
    {
        replacement_for(
            self.search_input.as_str(),
            self.replace_input.as_str(),
            &self.options,
            matched,
        )
    }

    /// The path of result `index`, for the editor to open its file.
    pub fn result_path(&self, index: usize) -> (r: Option<String>)
        ensures
            match r {
                Some(path) => index < self@.results.len() && path@ == self@.results[index as int].path,
                None => index >= self@.results.len(),
            },
    {
        if index < self.results.len() {
            assert(results_view(self.results@)[index as int] == self.results@[index as int]@);
            Some(self.results[index].path.clone())
        } else {
            None
        }
    }

    /// Replaces result `index` alone: `doc` is the text of its file (none when
    /// the editor could not open it).  Returns whether the panel should close
    /// and the change for the editor to make.
    pub fn apply_single_replacement(&mut self, index: usize, doc: Option<&Rope>) -> (r: (
        bool,
        Option<Change>,
    ))
        requires
            panel_ok(old(self)@),
            single_ok(old(self)@, index, opt_rope_view(doc)),
        ensures
            final(self)@ == single_replacement(old(self)@, index, opt_rope_view(doc)).0,
            opt_change_view(r.1) == single_replacement(old(self)@, index, opt_rope_view(doc)).1,
            r.0 == single_replacement(old(self)@, index, opt_rope_view(doc)).2,
            panel_ok(final(self)@),
    {
        if index >= self.results.len() {
            return (self.results.len() == 0, None);
        }
        assert(results_view(self.results@)[index as int] == self.results@[index as int]@);
        let mut change: Option<Change> = None;
        if let Some(text) = doc {
            let loc = self.results[index].location;
            match resolve_location(&loc, text) {
                Resolution::Unresolvable => {
                    proof {
                        assert(false);
                    }
                    return (false, None);
                },
                Resolution::PastLastLine => {
                    self.status = Some(String::from_str("Match location out of bounds"));
                },
                Resolution::Span(cs, ce) => {
                    if ce <= rope_len_chars(text) {
                        let matched = rope_slice_string(text, cs, ce);
                        let replacement = self.compute_replacement_for(matched.as_str());
                        change = Some(Change { start: cs, end: ce, text: replacement });
                    }
                },
            }
        }
        let ghost before = self.results@;
        let _removed = self.results.remove(index);
        proof {
            assert(results_view(self.results@) =~= results_view(before).remove(index as int));
        }
        if self.result_cursor >= self.results.len() && self.results.len() > 0 {
            self.result_cursor = self.results.len() - 1;
        }
        if change.is_some() {
            let mut msg = String::from_str("Replaced 1 — ");
            msg.append(decimal_string(self.results.len()).as_str());
            msg.append(" remaining");
            self.status = Some(msg);
        }
        (self.results.len() == 0, change)
    }

    /// `apply_single_replacement`, when resolving the result's location
    /// against `doc` does not panic; nothing (and no change to the panel)
    /// otherwise.
    pub fn try_apply_single_replacement(&mut self, index: usize, doc: Option<&Rope>) -> (r: Option<
        (bool, Option<Change>),
    >)
        requires
            panel_ok(old(self)@),
        ensures
            match r {
                Some(out) => {
                    &&& single_ok(old(self)@, index, opt_rope_view(doc))
                    &&& final(self)@ == single_replacement(old(self)@, index, opt_rope_view(doc)).0
                    &&& opt_change_view(out.1) == single_replacement(
                        old(self)@,
                        index,
                        opt_rope_view(doc),
                    ).1
                    &&& out.0 == single_replacement(old(self)@, index, opt_rope_view(doc)).2
                },
                None => !single_ok(old(self)@, index, opt_rope_view(doc)) && final(self)@ == old(
                    self,
                )@,
            },
            panel_ok(final(self)@),
    {
        if index < self.results.len() {
            if let Some(text) = doc {
                assert(results_view(self.results@)[index as int] == self.results@[index as int]@);
                let loc = self.results[index].location;
                if let Resolution::Unresolvable = resolve_location(&loc, text) {
                    return None;
                }
            }
        }
        Some(self.apply_single_replacement(index, doc))
    }

    /// The selected results grouped by file and ordered within each file,
    /// for the editor to open those files; nothing when, in a file with two
    /// or more selected matches, a file match's key
    /// (`line * 1_000_000 + start byte`) overflows.
    pub fn replacement_groups(&self) -> (r: Option<Vec<FileGroup>>)
        ensures
            match r {
                Some(gs) => keys_fit(self@.results) && gs@.map_values(|g: FileGroup| g@)
                    == groups_of(self@.results),
                None => !keys_fit(self@.results),
            },
    {
        if all_keys_fit(&self.results) {
            Some(group_selected(&self.results))
        } else {
            None
        }
    }

    fn group_changes(&self, members: &Vec<SearchResult>, text: &Rope) -> (r: (
        Vec<Change>,
        u128,
        u128,
    ))
        requires
            group_ok(results_view(members@), rope_chars(*text)),
        ensures
            r.0@.map_values(|c: Change| c@) == file_changes(
                self@,
                results_view(members@),
                rope_chars(*text),
            ).0,
            r.1 == file_changes(self@, results_view(members@), rope_chars(*text)).1,
            r.2 == file_changes(self@, results_view(members@), rope_chars(*text)).2,
            r.1 + r.2 == members@.len(),
    {
        let ghost g = results_view(members@);
        let ghost t = rope_chars(*text);
        let mut changes: Vec<Change> = Vec::new();
        let mut applied: u128 = 0;
        let mut errors: u128 = 0;
        let mut j: usize = 0;
        while j < members.len()
            invariant
                j <= members@.len(),
                g == results_view(members@),
                t == rope_chars(*text),
                group_ok(g, t),
                changes@.map_values(|c: Change| c@) == file_changes(self@, g.take(j as int), t).0,
                applied == file_changes(self@, g.take(j as int), t).1,
                errors == file_changes(self@, g.take(j as int), t).2,
                applied + errors == j,
            decreases members@.len() - j,
        {
            proof {
                assert(g.take(j + 1).drop_last() =~= g.take(j as int));
                assert(g.take(j + 1).last() == members@[j as int]@);
                assert(g[j as int] == members@[j as int]@);
            }
            let loc = members[j].location;
            match resolve_location(&loc, text) {
                Resolution::Unresolvable => {
                    proof {
                        assert(location_ok(g[j as int].location, t));
                        assert(false);
                    }
                },
                Resolution::PastLastLine => {
                    errors = errors + 1;
                },
                Resolution::Span(cs, ce) => {
                    if ce > rope_len_chars(text) {
                        errors = errors + 1;
                    } else {
                        let matched = rope_slice_string(text, cs, ce);
                        let replacement = self.compute_replacement_for(matched.as_str());
                        let ghost before = changes@;
                        let c = Change { start: cs, end: ce, text: replacement };
                        changes.push(c);
                        proof {
                            assert(changes@.map_values(|c: Change| c@) =~= before.map_values(
                                |c: Change| c@,
                            ).push(c@));
                        }
                        applied = applied + 1;
                    }
                },
            }
            j = j + 1;
        }
        proof {
            assert(g.take(members@.len() as int) =~= g);
        }
        (changes, applied, errors)
    }

    /// Replaces every selected result: `docs` holds, for each group of
    /// `replacement_groups`, the text of its file (none when the editor could
    /// not open it).  Returns whether the panel should close and, per group,
    /// the changes for the editor to make, in ascending order.
    pub fn apply_replacements(&mut self, docs: &Vec<Option<Rope>>) -> (r: (bool, Vec<Vec<Change>>))
        requires
            panel_ok(old(self)@),
            replace_ok(old(self)@, docs_view(docs@)),
        ensures
            final(self)@ == replace_selected(old(self)@, docs_view(docs@)).0,
            changes_view(r.1@) == replace_selected(old(self)@, docs_view(docs@)).1,
            r.0 == replace_selected(old(self)@, docs_view(docs@)).2,
            panel_ok(final(self)@),
    {
        let ghost p = self@;
        let ghost dv = docs_view(docs@);
        let groups = group_selected(&self.results);
        let ghost gs = groups_of(p.results);
        assert(groups@.len() == gs.len()) by {
            assert(groups@.map_values(|g: FileGroup| g@).len() == groups@.len());
        }
        if groups.len() == 0 {
            self.status = Some(
                String::from_str("Nothing selected — use [space] to select or [a] to select all"),
            );
            let all: Vec<Vec<Change>> = Vec::new();
            assert(changes_view(all@) =~= Seq::<Seq<ChangeView>>::empty());
            return (self.results.len() == 0, all);
        }
        let mut all: Vec<Vec<Change>> = Vec::new();
        let mut applied: u128 = 0;
        let mut errors: u128 = 0;
        let mut i: usize = 0;
        while i < groups.len()
            invariant
                i <= groups@.len(),
                p == self@,
                panel_ok(p),
                dv == docs_view(docs@),
                gs == groups_of(p.results),
                groups@.map_values(|g: FileGroup| g@) == gs,
                groups@.len() == gs.len(),
                replace_ok(p, dv),
                changes_view(all@) == all_changes(p, gs.take(i as int), dv).0,
                applied == all_changes(p, gs.take(i as int), dv).1,
                errors == all_changes(p, gs.take(i as int), dv).2,
                applied + errors <= i * (usize::MAX as int),
                all@.len() == i,
            decreases groups@.len() - i,
        {
            proof {
                assert(gs.take(i + 1).drop_last() =~= gs.take(i as int));
                assert(gs.take(i + 1).last() == groups@[i as int]@);
                assert(gs[i as int] == groups@[i as int]@);
                assert(dv[i as int] == match docs@[i as int] {
                    Some(t) => Some(rope_chars(t)),
                    None => None::<Seq<char>>,
                });
            }
            let ghost before = all@;
            proof {
                let m = usize::MAX as int;
                assert((i + 1) * m == i * m + m) by (nonlinear_arith);
                assert((i + 1) * m <= m * m) by (nonlinear_arith)
                    requires
                        i + 1 <= m,
                        0 <= m,
                ;
                assert(m * m <= 0xffff_ffff_ffff_ffff * 0xffff_ffff_ffff_ffffint)
                    by (nonlinear_arith)
                    requires
                        0 <= m <= 0xffff_ffff_ffff_ffffint,
                ;
            }
            match &docs[i] {
                None => {
                    let none: Vec<Change> = Vec::new();
                    assert(none@.map_values(|c: Change| c@) =~= Seq::<ChangeView>::empty());
                    all.push(none);
                    proof {
                        assert(changes_view(all@) =~= changes_view(before).push(
                            Seq::<ChangeView>::empty(),
                        ));
                    }
                    errors = errors + 1;
                },
                Some(text) => {
                    let n = groups[i].results.len();
                    let (chs, a, e) = self.group_changes(&groups[i].results, text);
                    assert(a + e == n);
                    let ghost added = chs@.map_values(|c: Change| c@);
                    all.push(chs);
                    proof {
                        assert(changes_view(all@) =~= changes_view(before).push(added));
                    }
                    applied = applied + a;
                    errors = errors + e;
                },
            }
            i = i + 1;
        }
        proof {
            assert(gs.take(groups@.len() as int) =~= gs);
        }
        self.results.clear();
        proof {
            assert(results_view(self.results@) =~= Seq::<ResultView>::empty());
        }
        let mut msg = String::from_str("Replaced ");
        msg.append(decimal_string_wide(applied).as_str());
        if errors == 0 {
            if applied == 1 {
                msg.append(" occurrence");
            } else {
                msg.append(" occurrences");
            }
        } else {
            msg.append(", skipped ");
            msg.append(decimal_string_wide(errors).as_str());
        }
        self.status = Some(msg);
        (true, all)
    }

    fn replacements_ok(&self, docs: &Vec<Option<Rope>>) -> (b: bool)
        ensures
            b == replace_ok(self@, docs_view(docs@)),
    {
        let ghost p = self@;
        let ghost dv = docs_view(docs@);
        if !all_keys_fit(&self.results) {
            return false;
        }
        let groups = group_selected(&self.results);
        let ghost gs = groups_of(p.results);
        assert(groups@.len() == gs.len()) by {
            assert(groups@.map_values(|g: FileGroup| g@).len() == groups@.len());
        }
        if groups.len() != docs.len() {
            return false;
        }
        let mut i: usize = 0;
        while i < groups.len()
            invariant
                i <= groups@.len(),
                groups@.len() == docs@.len(),
                p == self@,
                dv == docs_view(docs@),
                gs == groups_of(p.results),
                groups@.map_values(|g: FileGroup| g@) == gs,
                groups@.len() == gs.len(),
                forall|k: int|
                    0 <= k < i && (#[trigger] dv[k]) is Some ==> group_ok(gs[k].results, dv[k]->0),
            decreases groups@.len() - i,
        {
            proof {
                assert(gs[i as int] == groups@[i as int]@);
                assert(dv[i as int] == match docs@[i as int] {
                    Some(t) => Some(rope_chars(t)),
                    None => None::<Seq<char>>,
                });
            }
            if let Some(text) = &docs[i] {
                let members = &groups[i].results;
                assert(gs[i as int].results == results_view(members@));
                assert(dv[i as int] == Some(rope_chars(*text)));
                let mut j: usize = 0;
                while j < members.len()
                    invariant
                        i < gs.len(),
                        i < dv.len(),
                        gs == groups_of(p.results),
                        p == self@,
                        dv == docs_view(docs@),
                        gs[i as int].results == results_view(members@),
                        dv[i as int] == Some(rope_chars(*text)),
                        j <= members@.len(),
                        forall|k: int|
                            0 <= k < j ==> location_ok(
                                #[trigger] results_view(members@)[k].location,
                                rope_chars(*text),
                            ),
                    decreases members@.len() - j,
                {
                    assert(results_view(members@)[j as int] == members@[j as int]@);
                    if let Resolution::Unresolvable = resolve_location(&members[j].location, text) {
                        proof {
                            assert(!location_ok(
                                results_view(members@)[j as int].location,
                                rope_chars(*text),
                            ));
                            assert(!group_ok(gs[i as int].results, dv[i as int]->0));
                            assert(!replace_ok(p, dv));
                        }
                        return false;
                    }
                    j = j + 1;
                }
            }
            i = i + 1;
        }
        true
    }

    /// `apply_replacements`, when the keys that ordering each file computes
    /// fit, `docs` has one entry per group and resolving every location
    /// against its file does not panic; nothing (and no change to the panel)
    /// otherwise.
    pub fn try_apply_replacements(&mut self, docs: &Vec<Option<Rope>>) -> (r: Option<
        (bool, Vec<Vec<Change>>),
    >)
        requires
            panel_ok(old(self)@),
        ensures
            match r {
                Some(out) => {
                    &&& replace_ok(old(self)@, docs_view(docs@))
                    &&& final(self)@ == replace_selected(old(self)@, docs_view(docs@)).0
                    &&& changes_view(out.1@) == replace_selected(old(self)@, docs_view(docs@)).1
                    &&& out.0 == replace_selected(old(self)@, docs_view(docs@)).2
                },
                None => !replace_ok(old(self)@, docs_view(docs@)) && final(self)@ == old(self)@,
            },
            panel_ok(final(self)@),
    {
        if self.replacements_ok(docs) {
            Some(self.apply_replacements(docs))
        } else {
            None
        }
    }

    /// Takes the results a workspace search delivered: in workspace scope
    /// they replace the list and the status is updated; in buffer scope they
    /// are ignored.
    pub fn receive_workspace_results(&mut self, results: Vec<SearchResult>)
        requires
            panel_ok(old(self)@),
        ensures
            final(self)@ == if old(self)@.scope == SearchScope::Workspace {
                status_updated(PanelView { results: results_view(results@), ..old(self)@ })
            } else {
                old(self)@
            },
            panel_ok(final(self)@),
    {
        if self.scope == SearchScope::Workspace {
            self.results = results;
            self.update_status();
        }
    }

    pub fn scope(&self) -> (s: SearchScope)
        ensures
            s == self@.scope,
    {
        self.scope
    }

    pub fn options(&self) -> (o: SearchOptions)
        ensures
            o == self@.options,
    {
        self.options
    }

    pub fn focused(&self) -> (f: FocusedField)
        ensures
            f == self@.focused,
    {
        self.focused
    }

    pub fn search_input(&self) -> (s: &str)
        ensures
            s@ == self@.search,
    {
        self.search_input.as_str()
    }

    pub fn replace_input(&self) -> (s: &str)
        ensures
            s@ == self@.replace,
    {
        self.replace_input.as_str()
    }

    pub fn search_cursor(&self) -> (c: usize)
        ensures
            c == self@.search_cursor,
    {
        self.search_cursor
    }

    pub fn replace_cursor(&self) -> (c: usize)
        ensures
            c == self@.replace_cursor,
    {
        self.replace_cursor
    }

    pub fn results(&self) -> (rs: &Vec<SearchResult>)
        ensures
            results_view(rs@) == self@.results,
    {
        &self.results
    }

    pub fn result_cursor(&self) -> (c: usize)
        ensures
            c == self@.result_cursor,
    {
        self.result_cursor
    }

    pub fn scroll_offset(&self) -> (c: usize)
        ensures
            c == self@.scroll_offset,
    {
        self.scroll_offset
    }

    pub fn status(&self) -> (s: Option<&str>)
        ensures
            match s {
                Some(t) => self@.status == Some(t@),
                None => self@.status is None,
            },
    {
        match &self.status {
            Some(t) => Some(t.as_str()),
            None => None,
        }
    }
}

} // verus!

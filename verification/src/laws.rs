//! Properties of the panel that hold across its operations.

use vstd::prelude::*;

use ropey::Rope;

use crate::grouping::{GroupView, groups_of, key_sorted, members_of, selected_paths, sort_key};
use crate::keys::{Event, KeyAction, KeyEvent, key_action};
use crate::pattern::{pattern_for, replacement_text};
use crate::model::{FocusedField, MatchLocation, ResultView, SearchResult, SearchScope, results_view};
use crate::movement::{Movement, lemma_movement_target, movement_target};
use crate::panel::{
    BufferDoc, ChangeView, PanelView, WorkspaceQuery, active_pos, active_text, all_changes,
    buffer_result, buffer_searched, cut, docs_view, event_fits, event_restart_state, event_step,
    change_of, file_changes, focus_next, focus_prev, group_ok, initial_view, input_changed, inputs_ok,
    insert_at, insert_char_view, key_step, kill_to_end_view, kill_to_start_view, lemma_cut,
    lemma_end_boundary, lemma_insert_str, location_ok, panel_ok, resolved_span, query_matches, replace_ok,
    replace_selected, scrolled, search_restart_state, single_ok, single_replacement,
    status_updated,
};
use crate::rope::{char_at_byte, rope_chars, rope_line_to_char};
use crate::text::{
    byte_offset, char_index, is_boundary, lemma_boundary_of_index, lemma_char_index,
    lemma_offset_concat, lemma_offset_full, lemma_utf8_len_concat, lemma_utf8_len_single,
    lemma_utf8_width_bounds, utf8_len, utf8_width,
};

verus! {

/// The result cursor points at a result whenever the list has any.
pub open spec fn cursor_on_list(p: PanelView) -> bool {
    p.results.len() > 0 ==> p.result_cursor < p.results.len()
}

proof fn lemma_status_updated_on_list(p: PanelView)
    ensures
        cursor_on_list(status_updated(p)),
        status_updated(p).results == p.results,
{
}

proof fn lemma_input_changed_on_list(p: PanelView, path: Seq<char>, text: Seq<char>)
    ensures
        cursor_on_list(input_changed(p, path, text)),
{
    let q = PanelView { result_cursor: 0, scroll_offset: 0, ..p };
    if p.scope == SearchScope::Buffer {
        lemma_buffer_searched_on_list(q, path, text);
    }
}

proof fn lemma_buffer_searched_on_list(p: PanelView, path: Seq<char>, text: Seq<char>)
    ensures
        cursor_on_list(buffer_searched(p, path, text)),
{
}

/// Every event leaves the result cursor on a result whenever the list has
/// any.
pub proof fn law_cursor_stays_on_list(p: PanelView, ev: Event, path: Seq<char>, text: Seq<char>)
    requires
        cursor_on_list(p),
    ensures
        cursor_on_list(event_step(p, ev, path, text)),
{
    match ev {
        Event::Key(k) => {
            let a = key_action(p.focused, k);
            match search_restart_state(p, a) {
                Some(q) => lemma_input_changed_on_list(q, path, text),
                None => {
                    match a {
                        KeyAction::Submit => {
                            if p.scope == SearchScope::Buffer {
                                lemma_buffer_searched_on_list(p, path, text);
                            }
                        },
                        KeyAction::SelectAll => {
                            lemma_status_updated_on_list(
                                PanelView {
                                    results: crate::panel::with_selection(p.results, true),
                                    ..p
                                },
                            );
                        },
                        KeyAction::SelectNone => {
                            lemma_status_updated_on_list(
                                PanelView {
                                    results: crate::panel::with_selection(p.results, false),
                                    ..p
                                },
                            );
                        },
                        _ => {},
                    }
                },
            }
        },
        Event::Paste(t) => {
            if p.focused != FocusedField::Results {
                lemma_input_changed_on_list(crate::panel::pasted(p, t@), path, text);
            }
        },
        _ => {},
    }
}

/// Replacing the hovered result leaves the result cursor on a result
/// whenever the list has any.
pub proof fn law_single_replacement_keeps_cursor(p: PanelView, index: usize, doc: Option<Seq<char>>)
    requires
        cursor_on_list(p),
    ensures
        cursor_on_list(single_replacement(p, index, doc).0),
{
}

/// After a scroll to the cursor over a list of `height > 0` rows, the result
/// cursor is among the visible rows.
pub proof fn law_scroll_shows_cursor(p: PanelView, height: usize)
    requires
        height > 0,
    ensures
        scrolled(p, height).scroll_offset <= p.result_cursor < scrolled(p, height).scroll_offset
            + height,
{
}

/// Killing to the end keeps what is before the cursor, killing to the start
/// keeps what is after it: together they are the whole input.
pub proof fn law_kills_split_at_cursor(p: PanelView)
    requires
        panel_ok(p),
    ensures
        active_text(kill_to_end_view(p)) + active_text(kill_to_start_view(p)) == active_text(p),
        active_pos(kill_to_start_view(p)) == 0,
        active_pos(kill_to_end_view(p)) == active_pos(p),
{
    let s = active_text(p);
    let k = char_index(s, active_pos(p) as int);
    lemma_char_index(s, active_pos(p) as int);
    assert(s.take(k) + s.skip(k) =~= s);
}

/// Toggling the hovered result twice gives back the panel as it was.
pub proof fn law_toggle_result_twice(p: PanelView, path: Seq<char>, text: Seq<char>)
    ensures
        key_step(key_step(p, KeyAction::ToggleResult, path, text), KeyAction::ToggleResult, path, text)
            == p,
{
    let q = key_step(p, KeyAction::ToggleResult, path, text);
    let r = key_step(q, KeyAction::ToggleResult, path, text);
    if p.result_cursor < p.results.len() {
        let i = p.result_cursor as int;
        assert(q.results[i] == ResultView { selected: !p.results[i].selected, ..p.results[i] });
        assert(r.results =~= p.results);
    }
}

/// Toggling an option twice gives the options back.
pub proof fn law_option_toggle_twice(p: PanelView, a: KeyAction, path: Seq<char>, text: Seq<char>)
    requires
        a == KeyAction::ToggleMatchCase || a == KeyAction::ToggleRegex || a
            == KeyAction::ToggleWholeWord,
    ensures
        key_step(key_step(p, a, path, text), a, path, text).options == p.options,
{
}

/// Selecting all (or none) marks every result so, and changes no result
/// otherwise.
pub proof fn law_select_all_none(p: PanelView, on: bool, path: Seq<char>, text: Seq<char>)
    ensures
        ({
            let q = key_step(
                p,
                if on {
                    KeyAction::SelectAll
                } else {
                    KeyAction::SelectNone
                },
                path,
                text,
            );
            &&& q.results.len() == p.results.len()
            &&& forall|i: int|
                0 <= i < q.results.len() ==> #[trigger] q.results[i] == (ResultView {
                    selected: on,
                    ..p.results[i]
                })
        }),
{
}

/// Tab and Shift-Tab give the result list the focus only when it has
/// results.
pub proof fn law_focus_skips_empty_list(p: PanelView)
    requires
        p.results.len() == 0,
        p.focused != FocusedField::Results,
    ensures
        focus_next(p) != FocusedField::Results,
        focus_prev(p) != FocusedField::Results,
{
}

/// Replacing the hovered result takes exactly that result off the list and
/// keeps the others in order, whether or not the replacement succeeds.
pub proof fn law_single_replacement_removes_target(p: PanelView, index: usize, doc: Option<Seq<char>>)
    requires
        index < p.results.len(),
    ensures
        single_replacement(p, index, doc).0.results == p.results.remove(index as int),
        single_replacement(p, index, doc).2 == (single_replacement(p, index, doc).0.results.len()
            == 0),
{
}

/// Replacing all selected results, when any is selected, empties the list
/// and closes the panel.
pub proof fn law_replace_all_clears(p: PanelView, docs: Seq<Option<Seq<char>>>)
    requires
        exists|i: int| 0 <= i < p.results.len() && p.results[i].selected,
    ensures
        replace_selected(p, docs).0.results.len() == 0,
        replace_selected(p, docs).2,
{
    let i = choose|i: int| 0 <= i < p.results.len() && p.results[i].selected;
    law_selected_path_listed(p.results, i);
}

/// The file groups name each file once.
pub proof fn law_selected_paths_distinct(rs: Seq<ResultView>)
    ensures
        selected_paths(rs).no_duplicates(),
    decreases rs.len(),
{
    if rs.len() > 0 {
        law_selected_paths_distinct(rs.drop_last());
    }
}

/// Every selected result's file has a group.
pub proof fn law_selected_path_listed(rs: Seq<ResultView>, i: int)
    requires
        0 <= i < rs.len(),
        rs[i].selected,
    ensures
        selected_paths(rs).contains(rs[i].path),
    decreases rs.len(),
{
    let ps = selected_paths(rs.drop_last());
    if i < rs.len() - 1 {
        law_selected_path_listed(rs.drop_last(), i);
        assert(rs.drop_last()[i] == rs[i]);
        if !(rs.last().selected && !ps.contains(rs.last().path)) {
        } else {
            let j = choose|j: int| 0 <= j < ps.len() && ps[j] == rs[i].path;
            assert(ps.push(rs.last().path)[j] == rs[i].path);
        }
    } else {
        if ps.contains(rs.last().path) {
        } else {
            assert(ps.push(rs.last().path)[ps.len() as int] == rs.last().path);
        }
    }
}

/// A group holds only selected results on its file.
pub proof fn law_group_members(rs: Seq<ResultView>, path: Seq<char>, j: int)
    requires
        0 <= j < members_of(rs, path).len(),
    ensures
        members_of(rs, path)[j].selected,
        members_of(rs, path)[j].path == path,
{
    rs.lemma_filter_pred(|r: ResultView| r.selected && r.path == path, j);
}

/// Starting a search over fresh inputs leaves the result cursor on the list.
proof fn lemma_input_changed_ok(q: PanelView, path: Seq<char>, text: Seq<char>)
    requires
        inputs_ok(q),
    ensures
        panel_ok(input_changed(q, path, text)),
{
}

/// Inserting a character at a boundary keeps that boundary and adds the
/// character's width to the length.
proof fn lemma_insert_char(s: Seq<char>, at: usize, c: char)
    requires
        is_boundary(s, at as int),
    ensures
        is_boundary(insert_at(s, at, c), at as int),
        utf8_len(insert_at(s, at, c)) == utf8_len(s) + utf8_width(c),
{
    lemma_char_index(s, at as int);
    let k = char_index(s, at as int);
    let t = insert_at(s, at, c);
    let a = s.take(k).push(c);
    assert(t == a + s.skip(k));
    assert(s =~= s.take(k) + s.skip(k));
    lemma_utf8_len_concat(s.take(k), s.skip(k));
    assert(a =~= s.take(k) + seq![c]);
    lemma_utf8_len_concat(s.take(k), seq![c]);
    lemma_utf8_len_single(c);
    lemma_utf8_width_bounds(c);
    lemma_utf8_len_concat(a, s.skip(k));
    lemma_offset_concat(a, s.skip(k), k);
    assert(a.take(k) =~= s.take(k));
    lemma_boundary_of_index(t, k);
    assert(byte_offset(s, k) == utf8_len(s.take(k))) by {
        assert(s.take(k).take(k) =~= s.take(k));
    }
}

/// A boundary cut keeps the inputs well formed.
proof fn lemma_cut_ok(p: PanelView, from: usize, to: usize)
    requires
        panel_ok(p),
        is_boundary(active_text(p), from as int),
        is_boundary(active_text(p), to as int),
        from <= to,
    ensures
        inputs_ok(crate::panel::set_active(p, cut(active_text(p), from, to), from)),
{
    lemma_cut(active_text(p), from, to);
}

/// The edits that restart the search keep both inputs well formed, a typed
/// character being within the input's size limit.
proof fn lemma_restart_ok(p: PanelView, a: KeyAction)
    requires
        panel_ok(p),
        search_restart_state(p, a) is Some,
        a matches KeyAction::Insert(c) ==> utf8_len(active_text(p)) + utf8_width(c)
            <= isize::MAX,
    ensures
        inputs_ok(search_restart_state(p, a)->0),
{
    let s = active_text(p);
    let at = active_pos(p);
    match a {
        KeyAction::DeleteBack => {
            lemma_movement_target(s, at, Movement::BackwardChar(1));
            let pos = movement_target(s, at, Movement::BackwardChar(1)) as usize;
            lemma_cut_ok(p, pos, at);
        },
        KeyAction::DeleteForward => {
            lemma_movement_target(s, at, Movement::ForwardChar(1));
            let pos = movement_target(s, at, Movement::ForwardChar(1)) as usize;
            lemma_cut_ok(p, at, pos);
        },
        KeyAction::DeleteWord => {
            lemma_movement_target(s, at, Movement::BackwardWord(1));
            let pos = movement_target(s, at, Movement::BackwardWord(1)) as usize;
            lemma_cut_ok(p, pos, at);
        },
        KeyAction::KillToEnd => {
            lemma_end_boundary(s);
            lemma_char_index(s, at as int);
            lemma_char_index(s, utf8_len(s) as int);
            lemma_offset_full(s);
            lemma_cut_ok(p, at, utf8_len(s) as usize);
            assert(cut(s, at, utf8_len(s) as usize) =~= s.take(char_index(s, at as int)));
        },
        KeyAction::KillToStart => {
            lemma_boundary_of_index(s, 0);
            assert(s.take(0) =~= Seq::<char>::empty());
            lemma_char_index(s, 0);
            lemma_char_index(s, at as int);
            lemma_cut_ok(p, 0, at);
            assert(cut(s, 0, at) =~= s.skip(char_index(s, at as int)));
        },
        KeyAction::Insert(c) => {
            lemma_insert_char(s, at, c);
        },
        _ => {},
    }
}

/// Every key keeps the panel well formed, a typed character being within the
/// input's size limit.
proof fn lemma_key_step_ok(p: PanelView, a: KeyAction, path: Seq<char>, text: Seq<char>)
    requires
        panel_ok(p),
        a matches KeyAction::Insert(c) ==> utf8_len(active_text(p)) + utf8_width(c)
            <= isize::MAX,
    ensures
        panel_ok(key_step(p, a, path, text)),
{
    let s = active_text(p);
    let at = active_pos(p);
    match search_restart_state(p, a) {
        Some(q) => {
            lemma_restart_ok(p, a);
            lemma_input_changed_ok(q, path, text);
        },
        None => match a {
            KeyAction::CharLeft => lemma_movement_target(s, at, Movement::BackwardChar(1)),
            KeyAction::CharRight => lemma_movement_target(s, at, Movement::ForwardChar(1)),
            KeyAction::WordLeft => lemma_movement_target(s, at, Movement::BackwardWord(1)),
            KeyAction::WordRight => lemma_movement_target(s, at, Movement::ForwardWord(1)),
            KeyAction::LineStart => {
                lemma_boundary_of_index(s, 0);
                assert(s.take(0) =~= Seq::<char>::empty());
            },
            KeyAction::LineEnd => lemma_end_boundary(s),
            _ => {},
        },
    }
}

/// Every event the panel handles keeps it well formed: both cursors on
/// character boundaries of their inputs, the inputs within `isize::MAX`
/// bytes, and the result cursor on a result whenever the list has any.
pub proof fn law_event_keeps_panel_ok(p: PanelView, ev: Event, path: Seq<char>, text: Seq<char>)
    requires
        panel_ok(p),
        event_fits(p, ev),
    ensures
        panel_ok(event_step(p, ev, path, text)),
{
    match ev {
        Event::Key(k) => lemma_key_step_ok(p, key_action(p.focused, k), path, text),
        Event::Paste(t) => {
            if p.focused != FocusedField::Results {
                let s = active_text(p);
                let at = active_pos(p);
                lemma_char_index(s, at as int);
                lemma_insert_str(s, at, t@);
                let u = crate::panel::insert_str_at(s, at, t@);
                assert(at + utf8_len(t@) <= utf8_len(u));
                assert(((at + utf8_len(t@)) as usize) as int == at + utf8_len(t@));
                lemma_input_changed_ok(crate::panel::pasted(p, t@), path, text);
            }
        },
        _ => {},
    }
}

/// One call on the panel: an event over the document the editor shows, a
/// redraw with a list of `height` rows, a delivery of workspace results, the
/// replacement of one result with the text of its file, or of every selected
/// result with the texts of their files.
pub enum PanelStep {
    Handle(Event, BufferDoc),
    Render(usize),
    Deliver(Vec<SearchResult>),
    ReplaceOne(usize, Option<Rope>),
    ReplaceAll(Vec<Option<Rope>>),
}

/// The call's precondition beyond the panel's own invariant.
pub open spec fn step_fits(p: PanelView, st: PanelStep) -> bool {
    match st {
        PanelStep::Handle(ev, _) => event_fits(p, ev),
        PanelStep::ReplaceOne(i, doc) => single_ok(
            p,
            i,
            match doc {
                Some(t) => Some(rope_chars(t)),
                None => None,
            },
        ),
        PanelStep::ReplaceAll(docs) => replace_ok(p, docs_view(docs@)),
        _ => true,
    }
}

/// The panel after the call, as the call's contract states it.
pub open spec fn after_step(p: PanelView, st: PanelStep) -> PanelView {
    match st {
        PanelStep::Handle(ev, doc) => event_step(p, ev, doc.path@, rope_chars(doc.text)),
        PanelStep::Render(h) => scrolled(p, h),
        PanelStep::Deliver(rs) => if p.scope == SearchScope::Workspace {
            status_updated(PanelView { results: results_view(rs@), ..p })
        } else {
            p
        },
        PanelStep::ReplaceOne(i, doc) => single_replacement(
            p,
            i,
            match doc {
                Some(t) => Some(rope_chars(t)),
                None => None,
            },
        ).0,
        PanelStep::ReplaceAll(docs) => replace_selected(p, docs_view(docs@)).0,
    }
}

/// The panel after a run of calls.
pub open spec fn after_steps(p: PanelView, steps: Seq<PanelStep>) -> PanelView
    decreases steps.len(),
{
    if steps.len() == 0 {
        p
    } else {
        after_steps(after_step(p, steps[0]), steps.drop_first())
    }
}

/// Each call of the run meets its precondition in the state it meets.
pub open spec fn steps_fit(p: PanelView, steps: Seq<PanelStep>) -> bool
    decreases steps.len(),
{
    steps.len() == 0 || (step_fits(p, steps[0]) && steps_fit(
        after_step(p, steps[0]),
        steps.drop_first(),
    ))
}

proof fn lemma_step_ok(p: PanelView, st: PanelStep)
    requires
        panel_ok(p),
        step_fits(p, st),
    ensures
        panel_ok(after_step(p, st)),
{
    match st {
        PanelStep::Handle(ev, doc) => law_event_keeps_panel_ok(
            p,
            ev,
            doc.path@,
            rope_chars(doc.text),
        ),
        PanelStep::ReplaceOne(i, doc) => {
            let d = match doc {
                Some(t) => Some(rope_chars(t)),
                None => None,
            };
            law_single_replacement_keeps_cursor(p, i, d);
        },
        _ => {},
    }
}

/// From a well-formed panel, any run of calls whose preconditions hold
/// leaves it well formed.
pub proof fn law_steps_keep_panel_ok(p: PanelView, steps: Seq<PanelStep>)
    requires
        panel_ok(p),
        steps_fit(p, steps),
    ensures
        panel_ok(after_steps(p, steps)),
    decreases steps.len(),
{
    if steps.len() > 0 {
        lemma_step_ok(p, steps[0]);
        law_steps_keep_panel_ok(after_step(p, steps[0]), steps.drop_first());
    }
}

/// Every panel reached from a fresh one by events, redraws, deliveries and
/// replacements has both input cursors on character boundaries of their
/// inputs (so slicing and inserting at a cursor never panics), and its result
/// cursor on a result whenever the list has any.
pub proof fn law_reachable_panel_ok(scope: SearchScope, steps: Seq<PanelStep>)
    requires
        steps_fit(initial_view(scope), steps),
    ensures
        ({
            let p = after_steps(initial_view(scope), steps);
            &&& is_boundary(p.search, p.search_cursor as int)
            &&& is_boundary(p.replace, p.replace_cursor as int)
            &&& (p.results.len() > 0 ==> p.result_cursor < p.results.len())
        }),
{
    let p0 = initial_view(scope);
    lemma_boundary_of_index(Seq::<char>::empty(), 0);
    assert(Seq::<char>::empty().take(0) =~= Seq::<char>::empty());
    law_steps_keep_panel_ok(p0, steps);
}

/// Replacing the hovered result replaces exactly the characters its change
/// names, with the replacement computed from those very characters: the
/// change lies in the document and its text is the replacement for the
/// document's characters from its start to its end.
pub proof fn law_single_replacement_text(p: PanelView, index: usize, doc: Option<Seq<char>>)
    requires
        single_ok(p, index, doc),
    ensures
        match single_replacement(p, index, doc).1 {
            Some(c) => {
                &&& doc is Some
                &&& index < p.results.len()
                &&& c.start <= c.end <= doc->0.len()
                &&& c.text == replacement_text(
                    p.search,
                    p.replace,
                    p.options,
                    doc->0.subrange(c.start as int, c.end as int),
                )
            },
            None => true,
        },
{
    if index < p.results.len() {
        if let Some(text) = doc {
            let loc = p.results[index as int].location;
            if let MatchLocation::FileBytes { line_num, line_byte_start, line_byte_end } = loc {
                if line_num < crate::rope::rope_len_lines(text) {
                    let line = crate::rope::rope_line(text, line_num);
                    lemma_char_index(line, line_byte_start as int);
                    lemma_char_index(line, line_byte_end as int);
                }
            }
        }
    }
}

/// The search a workspace-scope edit hands out is the one the panel now
/// shows: the pattern built from its search input and its options, and
/// exactly its options (the same case sensitivity, regex mode and
/// whole-word flag).
pub proof fn law_workspace_query_follows_panel(
    p: PanelView,
    ev: Event,
    path: Seq<char>,
    text: Seq<char>,
    q: Option<WorkspaceQuery>,
)
    requires
        p.scope == SearchScope::Workspace,
        event_restart_state(p, ev) is Some,
        query_matches(event_restart_state(p, ev)->0, q),
        event_step(p, ev, path, text).scope == SearchScope::Workspace,
    ensures
        q is Some,
        q->0.options == event_step(p, ev, path, text).options,
        q->0.pattern@ == pattern_for(
            event_step(p, ev, path, text).search,
            event_step(p, ev, path, text).options,
        ),
{
}

/// Typing a character inserts it at the cursor: the input becomes the text
/// before the cursor, the character, and the text after the cursor, and the
/// cursor moves past the character.
pub proof fn law_typing_inserts_at_cursor(
    p: PanelView,
    k: KeyEvent,
    c: char,
    path: Seq<char>,
    text: Seq<char>,
)
    requires
        panel_ok(p),
        key_action(p.focused, k) == KeyAction::Insert(c),
    ensures
        ({
            let s = active_text(p);
            let i = char_index(s, active_pos(p) as int);
            let q = event_step(p, Event::Key(k), path, text);
            &&& q.focused == p.focused
            &&& active_text(q) == s.take(i) + seq![c] + s.skip(i)
        }),
{
    let s = active_text(p);
    let i = char_index(s, active_pos(p) as int);
    let a = KeyAction::Insert(c);
    let r = insert_char_view(p, c);
    assert(search_restart_state(p, a) == Some(r));
    assert(key_step(p, a, path, text) == input_changed(r, path, text));
    let r0 = PanelView { result_cursor: 0, scroll_offset: 0, ..r };
    if r.scope == SearchScope::Buffer {
        assert(buffer_searched(r0, path, text).search == r.search);
        assert(buffer_searched(r0, path, text).replace == r.replace);
        assert(buffer_searched(r0, path, text).focused == r.focused);
    }
    assert(active_text(r) == insert_at(s, active_pos(p), c));
    assert(s.take(i).push(c) =~= s.take(i) + seq![c]);
}

/// A byte offset counts at least as many bytes as characters before it.
proof fn lemma_char_at_byte_le(s: Seq<char>, b: int)
    requires
        0 <= b,
    ensures
        char_at_byte(s, b) <= b,
    decreases s.len(),
{
    if s.len() > 0 && b >= utf8_width(s[0]) {
        lemma_utf8_width_bounds(s[0]);
        lemma_char_at_byte_le(s.drop_first(), b - utf8_width(s[0]));
    }
}

/// One buffer match's highlight lies in its line, start before end; and when
/// the match starts inside the line and ends within it, the highlighted
/// characters of the line are the matched characters of the document.
proof fn lemma_buffer_result_highlight(path: Seq<char>, text: Seq<char>, sp: (usize, usize))
    requires
        sp.0 <= sp.1 <= utf8_len(text),
        utf8_len(buffer_result(path, text, sp).line_content) <= usize::MAX,
    ensures
        ({
            let r = buffer_result(path, text, sp);
            let line = r.line_content;
            &&& r.match_start_in_line <= r.match_end_in_line <= utf8_len(line)
            &&& match r.location {
                MatchLocation::BufferChars { char_start, char_end } => {
                    let lcs = rope_line_to_char(text, r.line_num) as int;
                    (lcs <= char_start < lcs + line.len() && char_end <= lcs + line.len()
                        && lcs + line.len() <= text.len() && line == text.subrange(
                        lcs,
                        lcs + line.len(),
                    )) ==> line.subrange(
                        char_index(line, r.match_start_in_line as int),
                        char_index(line, r.match_end_in_line as int),
                    ) == text.subrange(char_start as int, char_end as int)
                },
                _ => false,
            }
        }),
{
    let r = buffer_result(path, text, sp);
    let line = r.line_content;
    let cs = char_at_byte(text, sp.0 as int);
    let ce = char_at_byte(text, sp.1 as int);
    crate::rope::lemma_char_at_byte_mono(text, sp.0 as int, sp.1 as int);
    crate::rope::lemma_char_at_byte_bounds(text, sp.1 as int);
    crate::rope::lemma_char_at_byte_bounds(text, sp.0 as int);
    lemma_char_at_byte_le(text, sp.1 as int);
    assert(0 <= cs <= ce <= usize::MAX);
    let lcs = rope_line_to_char(text, r.line_num);
    let ws = crate::panel::sat_sub(cs as usize, lcs);
    let we = crate::panel::sat_sub(ce as usize, lcs);
    assert(ws <= we);
    lemma_offset_full(line);
    if ws < line.len() {
        crate::text::lemma_offset_bounded(line, ws as int);
        lemma_boundary_of_index(line, ws as int);
        if we < line.len() {
            crate::text::lemma_offset_mono(line, ws as int, we as int);
            crate::text::lemma_offset_bounded(line, we as int);
            lemma_boundary_of_index(line, we as int);
        } else {
            lemma_boundary_of_index(line, line.len() as int);
        }
    } else {
        lemma_boundary_of_index(line, 0);
        assert(line.take(0) =~= Seq::<char>::empty());
    }
    if lcs <= cs < lcs + line.len() && ce <= lcs + line.len() && lcs + line.len() <= text.len()
        && line == text.subrange(lcs as int, lcs + line.len()) {
        assert(ws == cs - lcs && we == ce - lcs);
        assert(ws < line.len());
        assert(char_index(line, r.match_start_in_line as int) == ws);
        if we == line.len() {
            lemma_boundary_of_index(line, line.len() as int);
            assert(r.match_end_in_line == utf8_len(line));
        }
        assert(char_index(line, r.match_end_in_line as int) == we);
        assert(line.subrange(ws as int, we as int) =~= text.subrange(cs, ce));
    }
}

/// A buffer search lists every match with a highlight that lies in its
/// line, its start at or before its end; when the match starts inside its
/// line and ends within it, the highlighted characters of the line are
/// exactly the matched characters of the document.
pub proof fn law_buffer_highlight_is_match(p: PanelView, path: Seq<char>, text: Seq<char>)
    ensures
        forall|i: int|
            0 <= i < buffer_searched(p, path, text).results.len() ==> {
                let r = #[trigger] buffer_searched(p, path, text).results[i];
                let line = r.line_content;
                &&& r.match_start_in_line <= r.match_end_in_line <= utf8_len(line)
                &&& match r.location {
                    MatchLocation::BufferChars { char_start, char_end } => {
                        let lcs = rope_line_to_char(text, r.line_num) as int;
                        (lcs <= char_start < lcs + line.len() && char_end <= lcs + line.len()
                            && lcs + line.len() <= text.len() && line == text.subrange(
                            lcs,
                            lcs + line.len(),
                        )) ==> line.subrange(
                            char_index(line, r.match_start_in_line as int),
                            char_index(line, r.match_end_in_line as int),
                        ) == text.subrange(char_start as int, char_end as int)
                    },
                    _ => false,
                }
            },
{
    let rs = buffer_searched(p, path, text).results;
    if p.search.len() > 0 {
        if let Ok(spans) = crate::rope::buffer_regex_search(
            pattern_for(p.search, p.options),
            !p.options.match_case,
            text,
        ) {
            let all = spans.map_values(|sp: (usize, usize)| buffer_result(path, text, sp));
            if crate::panel::spans_fit(spans, text) && crate::panel::lines_fit(all) {
                assert forall|i: int| 0 <= i < rs.len() implies rs[i] == buffer_result(
                    path,
                    text,
                    spans[i],
                ) && spans[i].0 <= spans[i].1 <= utf8_len(text) && utf8_len(
                    rs[i].line_content,
                ) <= usize::MAX by {
                    assert(crate::panel::spans_fit(spans, text));
                    assert(spans[i].0 <= spans[i].1 <= utf8_len(text));
                    assert(all[i] == rs[i]);
                }
                assert forall|i: int| 0 <= i < rs.len() implies {
                    let r = #[trigger] rs[i];
                    let line = r.line_content;
                    &&& r.match_start_in_line <= r.match_end_in_line <= utf8_len(line)
                    &&& match r.location {
                        MatchLocation::BufferChars { char_start, char_end } => {
                            let lcs = rope_line_to_char(text, r.line_num) as int;
                            (lcs <= char_start < lcs + line.len() && char_end <= lcs + line.len()
                                && lcs + line.len() <= text.len() && line == text.subrange(
                                lcs,
                                lcs + line.len(),
                            )) ==> line.subrange(
                                char_index(line, r.match_start_in_line as int),
                                char_index(line, r.match_end_in_line as int),
                            ) == text.subrange(char_start as int, char_end as int)
                        },
                        _ => false,
                    }
                } by {
                    lemma_buffer_result_highlight(path, text, spans[i]);
                }
            }
        }
    }
}

/// The changes for a file never start after a bound that every buffer match
/// of the file starts at or before.
proof fn lemma_file_changes_below(p: PanelView, g: Seq<ResultView>, text: Seq<char>, bound: int)
    requires
        forall|i: int| 0 <= i < g.len() ==> (#[trigger] g[i]).location is BufferChars,
        forall|i: int| 0 <= i < g.len() ==> sort_key((#[trigger] g[i]).location) <= bound,
    ensures
        forall|j: int|
            0 <= j < file_changes(p, g, text).0.len() ==> (#[trigger] file_changes(
                p,
                g,
                text,
            ).0[j]).start <= bound,
    decreases g.len(),
{
    if g.len() > 0 {
        let h = g.drop_last();
        assert forall|i: int| 0 <= i < h.len() implies (#[trigger] h[i]).location is BufferChars
            && sort_key(h[i].location) <= bound by {
            assert(h[i] == g[i]);
        }
        lemma_file_changes_below(p, h, text, bound);
        let last = g.last();
        assert(last == g[g.len() - 1]);
        let prev = file_changes(p, h, text).0;
        let cur = file_changes(p, g, text).0;
        match resolved_span(last.location, text) {
            None => {
                assert(cur == prev);
            },
            Some((a, b)) => {
                if b > text.len() {
                    assert(cur == prev);
                } else {
                    let c = change_of(p, text, a, b);
                    assert(cur == prev.push(c));
                    assert(c.start == sort_key(last.location));
                    assert forall|j: int| 0 <= j < cur.len() implies (#[trigger] cur[j]).start
                        <= bound by {
                        if j < prev.len() {
                            assert(cur[j] == prev[j]);
                        }
                    }
                }
            },
        }
    }
}

/// The changes for a file whose buffer matches are ordered by key start in
/// ascending order.
proof fn lemma_file_changes_ascending(p: PanelView, g: Seq<ResultView>, text: Seq<char>)
    requires
        forall|i: int| 0 <= i < g.len() ==> (#[trigger] g[i]).location is BufferChars,
        key_sorted(g),
    ensures
        forall|j: int, k: int|
            0 <= j < k < file_changes(p, g, text).0.len() ==> (#[trigger] file_changes(
                p,
                g,
                text,
            ).0[j]).start <= (#[trigger] file_changes(p, g, text).0[k]).start,
    decreases g.len(),
{
    if g.len() > 0 {
        let h = g.drop_last();
        let last = g.last();
        assert(last == g[g.len() - 1]);
        assert forall|i: int| 0 <= i < h.len() implies (#[trigger] h[i]).location is BufferChars
            && sort_key(h[i].location) <= sort_key(last.location) by {
            assert(h[i] == g[i]);
        }
        assert forall|i: int, j: int| 0 <= i <= j < h.len() implies sort_key(
            #[trigger] h[i].location,
        ) <= sort_key(#[trigger] h[j].location) by {
            assert(h[i] == g[i] && h[j] == g[j]);
        }
        lemma_file_changes_ascending(p, h, text);
        lemma_file_changes_below(p, h, text, sort_key(last.location));
        let prev = file_changes(p, h, text).0;
        let cur = file_changes(p, g, text).0;
        match resolved_span(last.location, text) {
            None => {
                assert(cur == prev);
            },
            Some((a, b)) => {
                if b > text.len() {
                    assert(cur == prev);
                } else {
                    let c = change_of(p, text, a, b);
                    assert(cur == prev.push(c));
                    assert(c.start == sort_key(last.location));
                    assert forall|j: int, k: int| 0 <= j < k < cur.len() implies (
                    #[trigger] cur[j]).start <= (#[trigger] cur[k]).start by {
                        if k < prev.len() {
                            assert(cur[j] == prev[j] && cur[k] == prev[k]);
                        } else {
                            assert(cur[j] == prev[j]);
                        }
                    }
                }
            },
        }
    }
}

/// Each change for a file replaces the characters it names with the
/// replacement for exactly those characters.
proof fn lemma_file_changes_text(p: PanelView, g: Seq<ResultView>, text: Seq<char>)
    requires
        group_ok(g, text),
    ensures
        forall|j: int|
            0 <= j < file_changes(p, g, text).0.len() ==> {
                let c = #[trigger] file_changes(p, g, text).0[j];
                &&& c.start <= c.end <= text.len()
                &&& c.text == replacement_text(
                    p.search,
                    p.replace,
                    p.options,
                    text.subrange(c.start as int, c.end as int),
                )
            },
    decreases g.len(),
{
    if g.len() > 0 {
        let h = g.drop_last();
        assert forall|i: int| 0 <= i < h.len() implies location_ok(
            #[trigger] h[i].location,
            text,
        ) by {
            assert(h[i] == g[i]);
        }
        lemma_file_changes_text(p, h, text);
        let last = g.last();
        assert(last == g[g.len() - 1]);
        assert(location_ok(last.location, text));
        if let MatchLocation::FileBytes { line_num, line_byte_start, line_byte_end } = last.location {
            if line_num < crate::rope::rope_len_lines(text) {
                let line = crate::rope::rope_line(text, line_num);
                lemma_char_index(line, line_byte_start as int);
                lemma_char_index(line, line_byte_end as int);
            }
        }
        let prev = file_changes(p, h, text).0;
        let cur = file_changes(p, g, text).0;
        match resolved_span(last.location, text) {
            None => {
                assert(cur == prev);
            },
            Some((a, b)) => {
                if b > text.len() {
                    assert(cur == prev);
                } else {
                    let c = change_of(p, text, a, b);
                    assert(cur == prev.push(c));
                    assert(0 <= a <= b);
                    assert(c.start as int == a && c.end as int == b);
                    assert forall|j: int| 0 <= j < cur.len() implies {
                        let d = #[trigger] cur[j];
                        &&& d.start <= d.end <= text.len()
                        &&& d.text == replacement_text(
                            p.search,
                            p.replace,
                            p.options,
                            text.subrange(d.start as int, d.end as int),
                        )
                    } by {
                        if j < prev.len() {
                            assert(cur[j] == prev[j]);
                        }
                    }
                }
            },
        }
    }
}

/// The changes `all_changes` gives each group: those of its file, or none
/// when the file could not be opened.
proof fn lemma_all_changes_at(p: PanelView, gs: Seq<GroupView>, docs: Seq<Option<Seq<char>>>)
    ensures
        all_changes(p, gs, docs).0.len() == gs.len(),
        forall|i: int|
            0 <= i < gs.len() ==> #[trigger] all_changes(p, gs, docs).0[i] == match docs[i] {
                Some(t) => file_changes(p, gs[i].results, t).0,
                None => Seq::<ChangeView>::empty(),
            },
    decreases gs.len(),
{
    if gs.len() > 0 {
        let h = gs.drop_last();
        lemma_all_changes_at(p, h, docs);
        assert forall|i: int| 0 <= i < gs.len() implies #[trigger] all_changes(p, gs, docs).0[i]
            == match docs[i] {
            Some(t) => file_changes(p, gs[i].results, t).0,
            None => Seq::<ChangeView>::empty(),
        } by {
            if i < h.len() {
                assert(h[i] == gs[i]);
            } else {
                assert(gs.last() == gs[i]);
            }
        }
    }
}

/// A group's results are selected results of the list, ordered by key.
proof fn lemma_group_members(rs: Seq<ResultView>, i: int)
    requires
        0 <= i < groups_of(rs).len(),
    ensures
        key_sorted(groups_of(rs)[i].results),
        forall|j: int|
            0 <= j < groups_of(rs)[i].results.len() ==> rs.contains(
                #[trigger] groups_of(rs)[i].results[j],
            ),
{
    broadcast use vstd::seq_lib::group_to_multiset_ensures;
    let path = selected_paths(rs)[i];
    let m = members_of(rs, path);
    let g = groups_of(rs)[i].results;
    assert(g == crate::grouping::sorted_by_key(m));
    crate::grouping::lemma_sorted_by_key_is_sorted(m);
    crate::grouping::lemma_sorted_by_key_permutes(m);
    assert forall|j: int| 0 <= j < g.len() implies rs.contains(#[trigger] g[j]) by {
        assert(g.contains(g[j]));
        assert(g.to_multiset().count(g[j]) > 0);
        assert(m.contains(g[j]));
        rs.lemma_filter_contains_rev(|r: ResultView| r.selected && r.path == path, g[j]);
    }
}

/// Replacing all selected buffer matches gives, for every file, changes in
/// ascending order of their start (as the editor needs to apply them in one
/// transaction).
pub proof fn law_replace_all_ascending(p: PanelView, docs: Seq<Option<Seq<char>>>)
    requires
        forall|i: int| 0 <= i < p.results.len() ==> (#[trigger] p.results[i]).location is BufferChars,
    ensures
        forall|i: int, j: int, k: int|
            0 <= i < replace_selected(p, docs).1.len() && 0 <= j < k
                < replace_selected(p, docs).1[i].len() ==> (#[trigger] replace_selected(
                p,
                docs,
            ).1[i][j]).start <= (#[trigger] replace_selected(p, docs).1[i][k]).start,
{
    let gs = groups_of(p.results);
    if gs.len() > 0 {
        lemma_all_changes_at(p, gs, docs);
        let chs = replace_selected(p, docs).1;
        assert forall|i: int, j: int, k: int|
            0 <= i < chs.len() && 0 <= j < k < chs[i].len() implies (#[trigger] chs[i][j]).start
            <= (#[trigger] chs[i][k]).start by {
            lemma_group_members(p.results, i);
            let g = gs[i].results;
            assert forall|n: int| 0 <= n < g.len() implies (#[trigger] g[n]).location is BufferChars by {
                let w = choose|w: int| 0 <= w < p.results.len() && p.results[w] == g[n];
                assert(p.results[w].location is BufferChars);
            }
            if let Some(t) = docs[i] {
                lemma_file_changes_ascending(p, g, t);
            }
        }
    }
}

/// Replacing all selected results, when every result's location resolves
/// in its file, gives changes that each lie in their file and carry the
/// replacement for exactly the characters they replace.
pub proof fn law_replace_all_text(p: PanelView, docs: Seq<Option<Seq<char>>>)
    requires
        replace_ok(p, docs),
    ensures
        forall|i: int, j: int|
            0 <= i < replace_selected(p, docs).1.len() && 0 <= j < replace_selected(
                p,
                docs,
            ).1[i].len() ==> {
                let c = #[trigger] replace_selected(p, docs).1[i][j];
                &&& docs[i] is Some
                &&& c.start <= c.end <= docs[i]->0.len()
                &&& c.text == replacement_text(
                    p.search,
                    p.replace,
                    p.options,
                    docs[i]->0.subrange(c.start as int, c.end as int),
                )
            },
{
    let gs = groups_of(p.results);
    if gs.len() > 0 {
        lemma_all_changes_at(p, gs, docs);
        let chs = replace_selected(p, docs).1;
        assert forall|i: int, j: int| 0 <= i < chs.len() && 0 <= j < chs[i].len() implies {
            let c = #[trigger] chs[i][j];
            &&& docs[i] is Some
            &&& c.start <= c.end <= docs[i]->0.len()
            &&& c.text == replacement_text(
                p.search,
                p.replace,
                p.options,
                docs[i]->0.subrange(c.start as int, c.end as int),
            )
        } by {
            if let Some(t) = docs[i] {
                assert(docs[i] is Some);
                lemma_file_changes_text(p, gs[i].results, t);
            }
        }
    }
}

} // verus!

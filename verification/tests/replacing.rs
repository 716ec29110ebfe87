use ropey::Rope;
use search_replace::format::decimal_string;
use search_replace::keys::{Event, KeyCode, KeyEvent, KeyModifiers};
use search_replace::model::{FocusedField, MatchLocation, SearchOptions, SearchResult, SearchScope};
use search_replace::panel::{BufferDoc, Outcome, SearchReplace};
use search_replace::pattern::{build_pattern, replacement_for};
use search_replace::queue::{queue_step, PendingQuery, QueueAction, QueueEvent, QueueState};
use search_replace::workspace::{trim_line, LineMatcher};

fn plain() -> KeyModifiers {
    KeyModifiers { shift: false, ctrl: false, alt: false, super_key: false }
}
fn press(p: &mut SearchReplace, d: &BufferDoc, code: KeyCode) -> Outcome {
    p.handle_event(&Event::Key(KeyEvent { code, modifiers: plain() }), d).outcome
}
fn type_str(p: &mut SearchReplace, d: &BufferDoc, s: &str) {
    for c in s.chars() {
        press(p, d, KeyCode::Char(c));
    }
}
fn doc(path: &str, text: &str) -> BufferDoc {
    BufferDoc { path: path.to_string(), text: Rope::from_str(text) }
}
fn file_result(path: &str, line_num: usize, start: usize, end: usize) -> SearchResult {
    SearchResult {
        path: path.to_string(),
        line_num,
        line_content: String::new(),
        match_start_in_line: start,
        match_end_in_line: end,
        location: MatchLocation::FileBytes { line_num, line_byte_start: start, line_byte_end: end },
        selected: true,
    }
}
fn opts(match_case: bool, regex_mode: bool, whole_word: bool) -> SearchOptions {
    SearchOptions { match_case, regex_mode, whole_word }
}

#[test]
fn decimal_rendering() {
    assert_eq!(decimal_string(0), "0");
    assert_eq!(decimal_string(7), "7");
    assert_eq!(decimal_string(10), "10");
    assert_eq!(decimal_string(1203), "1203");
    assert_eq!(decimal_string(usize::MAX), usize::MAX.to_string());
}

#[test]
fn patterns_for_each_option() {
    assert_eq!(build_pattern("a.b*", &opts(false, false, false)), "a\\.b\\*");
    assert_eq!(build_pattern("a.b*", &opts(false, true, false)), "a.b*");
    assert_eq!(build_pattern("x-y", &opts(false, false, true)), "\\b(?:x\\-y)\\b");
    assert_eq!(build_pattern("", &opts(false, false, true)), "\\b(?:)\\b");
    assert_eq!(build_pattern("foo|bar", &opts(false, true, true)), "\\b(?:foo|bar)\\b");
}

#[test]
fn replacement_expands_captures_only_in_regex_mode() {
    assert_eq!(replacement_for("(\\w+)@(\\w+)", "$2 at $1", &opts(false, true, false), "me@host"), "host at me");
    assert_eq!(replacement_for("(\\w+)@(\\w+)", "$2 at $1", &opts(false, false, false), "me@host"), "$2 at $1");
    assert_eq!(replacement_for("zzz", "$0!", &opts(false, true, false), "abc"), "$0!");
    assert_eq!(replacement_for("(", "$0!", &opts(false, true, false), "abc"), "$0!");
    assert_eq!(replacement_for("b", "plain", &opts(false, true, false), "b"), "plain");
    // The captures are taken with the search's case sensitivity.
    assert_eq!(replacement_for("(foo)", "[$1]", &opts(false, true, false), "FOO"), "[FOO]");
    assert_eq!(replacement_for("(foo)", "[$1]", &opts(true, true, false), "FOO"), "[$1]");
}

#[test]
fn result_navigation_and_selection() {
    let d = doc("a.rs", "x x x");
    let mut p = SearchReplace::new(SearchScope::Buffer);
    type_str(&mut p, &d, "x");
    press(&mut p, &d, KeyCode::Enter);
    assert_eq!(p.focused(), FocusedField::Results);
    assert_eq!(p.result_cursor(), 0);
    press(&mut p, &d, KeyCode::Char('k'));
    assert_eq!(p.result_cursor(), 0);
    press(&mut p, &d, KeyCode::Char('j'));
    press(&mut p, &d, KeyCode::Down);
    press(&mut p, &d, KeyCode::Down);
    assert_eq!(p.result_cursor(), 2);
    press(&mut p, &d, KeyCode::Up);
    assert_eq!(p.result_cursor(), 1);
    press(&mut p, &d, KeyCode::Char(' '));
    assert!(!p.results()[1].selected);
    assert_eq!(p.selected_count(), 2);
    press(&mut p, &d, KeyCode::Char(' '));
    assert!(p.results()[1].selected);
    press(&mut p, &d, KeyCode::Char('n'));
    assert_eq!(p.selected_count(), 0);
    assert_eq!(p.status(), Some("3 matches"));
    press(&mut p, &d, KeyCode::Char('a'));
    assert_eq!(p.selected_count(), 3);
    assert!(p.results().iter().all(|r| r.selected));
}

#[test]
fn results_ctrl_s_switches_scope_and_focus() {
    let d = doc("a.rs", "x");
    let mut p = SearchReplace::new(SearchScope::Buffer);
    type_str(&mut p, &d, "x");
    press(&mut p, &d, KeyCode::Enter);
    let r = p.handle_event(
        &Event::Key(KeyEvent {
            code: KeyCode::Char('s'),
            modifiers: KeyModifiers { shift: false, ctrl: true, alt: false, super_key: false },
        }),
        &d,
    );
    assert!(r.query.is_none());
    assert_eq!(p.scope(), SearchScope::Workspace);
    assert_eq!(p.focused(), FocusedField::Search);
    assert!(p.results().is_empty());
    assert_eq!(p.status(), None);
}

#[test]
fn replace_hovered_buffer_match() {
    let d = doc("a.rs", "one two one");
    let mut p = SearchReplace::new(SearchScope::Buffer);
    type_str(&mut p, &d, "one");
    press(&mut p, &d, KeyCode::Tab);
    type_str(&mut p, &d, "1");
    press(&mut p, &d, KeyCode::Tab);
    assert_eq!(p.focused(), FocusedField::Results);
    press(&mut p, &d, KeyCode::Char('j'));
    assert_eq!(press(&mut p, &d, KeyCode::Enter), Outcome::ReplaceHovered);
    let idx = p.result_cursor();
    assert_eq!(p.result_path(idx), Some("a.rs".to_string()));
    let (close, change) = p.apply_single_replacement(idx, Some(&d.text));
    assert!(!close);
    let c = change.unwrap();
    assert_eq!((c.start, c.end, c.text.as_str()), (8, 11, "1"));
    assert_eq!(p.results().len(), 1);
    assert_eq!(p.result_cursor(), 0);
    assert_eq!(p.status(), Some("Replaced 1 — 1 remaining"));
    let (close, change) = p.apply_single_replacement(0, None);
    assert!(close);
    assert!(change.is_none());
    assert_eq!(p.status(), Some("Replaced 1 — 1 remaining"));
    let (close, change) = p.apply_single_replacement(5, None);
    assert!(close);
    assert!(change.is_none());
}

#[test]
fn replace_hovered_file_match_past_end_drops_result() {
    let mut p = SearchReplace::new(SearchScope::Workspace);
    p.receive_workspace_results(vec![file_result("b.rs", 9, 0, 1), file_result("b.rs", 0, 0, 1)]);
    assert_eq!(p.status(), Some("2 matches"));
    let text = Rope::from_str("only line\n");
    let (close, change) = p.apply_single_replacement(0, Some(&text));
    assert!(!close);
    assert!(change.is_none());
    assert_eq!(p.status(), Some("Match location out of bounds"));
    assert_eq!(p.results().len(), 1);
    assert_eq!(p.results()[0].line_num, 0);
    let mut q = SearchReplace::new(SearchScope::Workspace);
    q.receive_workspace_results(vec![file_result("b.rs", 9, 0, 1)]);
    let (close, change) = q.apply_single_replacement(0, Some(&text));
    assert!(close);
    assert!(change.is_none());
    assert!(q.results().is_empty());
}

#[test]
fn replace_hovered_file_match_counts_chars() {
    let mut p = SearchReplace::new(SearchScope::Workspace);
    p.receive_workspace_results(vec![file_result("b.rs", 1, 3, 5)]);
    let text = Rope::from_str("first\nñañb\n");
    let (close, change) = p.apply_single_replacement(0, Some(&text));
    assert!(close);
    let c = change.unwrap();
    assert_eq!((c.start, c.end), (8, 9));
    assert_eq!(c.text, "");
}

#[test]
fn unresolvable_locations_are_refused() {
    let mut p = SearchReplace::new(SearchScope::Workspace);
    p.receive_workspace_results(vec![file_result("b.rs", 0, 1, 2)]);
    let text = Rope::from_str("ñx\n");
    assert!(p.try_apply_single_replacement(0, Some(&text)).is_none());
    assert_eq!(p.results().len(), 1);
    assert!(p.try_apply_replacements(&vec![Some(text.clone())]).is_none());
    let ok = Rope::from_str("xyz\n");
    assert!(p.try_apply_single_replacement(0, Some(&ok)).is_some());
}

#[test]
fn buffer_results_are_ignored_by_workspace_delivery() {
    let mut p = SearchReplace::new(SearchScope::Buffer);
    p.receive_workspace_results(vec![file_result("b.rs", 0, 0, 1)]);
    assert!(p.results().is_empty());
}

#[test]
fn replace_all_groups_by_file_and_sorts() {
    let mut p = SearchReplace::new(SearchScope::Workspace);
    let mut unselected = file_result("c.rs", 0, 0, 1);
    unselected.selected = false;
    p.receive_workspace_results(vec![
        file_result("b.rs", 1, 2, 3),
        file_result("a.rs", 0, 0, 1),
        unselected,
        file_result("b.rs", 0, 4, 5),
        file_result("b.rs", 1, 0, 1),
    ]);
    let groups = p.replacement_groups().unwrap();
    assert_eq!(groups.len(), 2);
    assert_eq!(groups[0].path, "b.rs");
    let keys: Vec<(usize, usize)> = groups[0].results.iter().map(|r| (r.line_num, r.match_start_in_line)).collect();
    assert_eq!(keys, vec![(0, 4), (1, 0), (1, 2)]);
    assert_eq!(groups[1].path, "a.rs");
    let b = Rope::from_str("0123456\nabcdef\n");
    let (close, changes) = p.apply_replacements(&vec![Some(b), None]);
    assert!(close);
    assert_eq!(changes.len(), 2);
    let spans: Vec<(usize, usize)> = changes[0].iter().map(|c| (c.start, c.end)).collect();
    assert_eq!(spans, vec![(4, 5), (8, 9), (10, 11)]);
    assert!(changes[1].is_empty());
    assert_eq!(p.status(), Some("Replaced 3, skipped 1"));
    assert!(p.results().is_empty());
}

#[test]
fn replace_all_counts_occurrences() {
    let d = doc("a.rs", "ab ab");
    let mut p = SearchReplace::new(SearchScope::Buffer);
    type_str(&mut p, &d, "ab");
    press(&mut p, &d, KeyCode::Enter);
    assert_eq!(press(&mut p, &d, KeyCode::Char('R')), Outcome::ReplaceSelected);
    let groups = p.replacement_groups().unwrap();
    assert_eq!(groups.len(), 1);
    let docs = vec![Some(d.text.clone())];
    let (close, changes) = p.try_apply_replacements(&docs).unwrap();
    assert!(close);
    assert_eq!(changes[0].len(), 2);
    assert_eq!(p.status(), Some("Replaced 2 occurrences"));
}

#[test]
fn replace_all_with_nothing_selected() {
    let d = doc("a.rs", "ab ab");
    let mut p = SearchReplace::new(SearchScope::Buffer);
    type_str(&mut p, &d, "ab");
    press(&mut p, &d, KeyCode::Enter);
    press(&mut p, &d, KeyCode::Char('n'));
    let (close, changes) = p.apply_replacements(&vec![]);
    assert!(!close);
    assert!(changes.is_empty());
    assert_eq!(p.status(), Some("Nothing selected — use [space] to select or [a] to select all"));
    assert_eq!(p.results().len(), 2);
}

#[test]
fn replace_all_single_occurrence_message() {
    let d = doc("a.rs", "ab");
    let mut p = SearchReplace::new(SearchScope::Buffer);
    type_str(&mut p, &d, "ab");
    let (_, _) = p.apply_replacements(&vec![Some(d.text.clone())]);
    assert_eq!(p.status(), Some("Replaced 1 occurrence"));
}

#[test]
fn oversized_file_keys_are_refused() {
    let big = usize::MAX / 10;
    // Two matches of one file are ordered by key, which overflows.
    let mut p = SearchReplace::new(SearchScope::Workspace);
    p.receive_workspace_results(vec![file_result("b.rs", big, 0, 1), file_result("b.rs", 1, 0, 1)]);
    assert!(p.replacement_groups().is_none());
    assert!(p.try_apply_replacements(&vec![None]).is_none());
    assert_eq!(p.results().len(), 2);
    // A file with a single match is never ordered, nor is an unselected match.
    let mut unsel = file_result("a.rs", big, 0, 1);
    unsel.selected = false;
    let mut q = SearchReplace::new(SearchScope::Workspace);
    q.receive_workspace_results(vec![
        file_result("b.rs", big, 0, 1),
        file_result("a.rs", 2, 0, 1),
        unsel,
    ]);
    let groups = q.replacement_groups().unwrap();
    assert_eq!(groups.len(), 2);
    assert_eq!(groups[0].path, "b.rs");
    assert_eq!(groups[1].path, "a.rs");
    assert_eq!(groups[1].results.len(), 1);
}

#[test]
fn trimming_line_terminators() {
    assert_eq!(trim_line("abc\r\n"), "abc");
    assert_eq!(trim_line("abc\n\n"), "abc");
    assert_eq!(trim_line("abc\r\r"), "abc");
    assert_eq!(trim_line("abc\n\r"), "abc\n");
    assert_eq!(trim_line(""), "");
}

#[test]
fn workspace_line_results() {
    let m = LineMatcher::new("o", false).unwrap();
    let rs = m.line_results("dir/f.txt", 3, "hello world\r\n");
    assert_eq!(rs.len(), 2);
    assert_eq!(rs[0].line_num, 2);
    assert_eq!(rs[0].line_content, "hello world");
    assert_eq!((rs[0].match_start_in_line, rs[0].match_end_in_line), (4, 5));
    assert_eq!(rs[1].location, MatchLocation::FileBytes { line_num: 2, line_byte_start: 7, line_byte_end: 8 });
    assert!(rs.iter().all(|r| r.selected && r.path == "dir/f.txt"));
    let upper = LineMatcher::new("O", true).unwrap();
    assert!(upper.line_results("f", 1, "hello").is_empty());
    let any = LineMatcher::new("O", false).unwrap();
    assert_eq!(any.line_results("f", 1, "hello").len(), 1);
    assert!(LineMatcher::new("(", false).is_none());
    let nl = LineMatcher::new("\\s", false).unwrap();
    let rs = nl.line_results("f", 1, "ab \n");
    assert_eq!((rs[0].match_start_in_line, rs[0].match_end_in_line), (2, 3));
}

#[test]
fn scroll_keeps_cursor_visible() {
    let d = doc("a.rs", "x x x x x x");
    let mut p = SearchReplace::new(SearchScope::Buffer);
    type_str(&mut p, &d, "x");
    press(&mut p, &d, KeyCode::Enter);
    for _ in 0..5 {
        press(&mut p, &d, KeyCode::Char('j'));
    }
    p.scroll_to_cursor(2);
    assert_eq!(p.scroll_offset(), 4);
    assert_eq!(p.visible_rows(2), (4, 6));
    p.scroll_to_cursor(0);
    assert_eq!(p.scroll_offset(), 4);
    for _ in 0..5 {
        press(&mut p, &d, KeyCode::Char('k'));
    }
    p.scroll_to_cursor(2);
    assert_eq!(p.scroll_offset(), 0);
    assert_eq!(p.visible_rows(10), (0, 6));
}

#[test]
fn search_queue_settles_on_newest_query() {
    let q = |p: &str| PendingQuery { pattern: p.to_string(), options: opts(false, false, false) };
    let (s, a) = queue_step(QueueState::Idle, QueueEvent::Received(q("fo")));
    assert!(matches!(a, QueueAction::StartDeadline));
    let (s, a) = queue_step(s, QueueEvent::Received(q("foo")));
    assert!(matches!(a, QueueAction::AwaitDeadline));
    let (s, a) = queue_step(s, QueueEvent::Settled);
    assert!(matches!(s, QueueState::Idle));
    match a {
        QueueAction::Search(p) => assert_eq!(p.pattern, "foo"),
        _ => panic!("expected a search"),
    }
    let (s, a) = queue_step(QueueState::Idle, QueueEvent::Received(q("")));
    let (_, a2) = queue_step(s, QueueEvent::Settled);
    assert!(matches!(a, QueueAction::StartDeadline));
    assert!(matches!(a2, QueueAction::ReplyEmpty));
    let (_, a) = queue_step(QueueState::Idle, QueueEvent::Settled);
    assert!(matches!(a, QueueAction::AwaitQuery));
    let (s, a) = queue_step(QueueState::Settling(q("x")), QueueEvent::Shutdown);
    assert!(matches!(s, QueueState::Idle));
    assert!(matches!(a, QueueAction::Stop));
}

use ropey::Rope;
use search_replace::keys::{Event, KeyCode, KeyEvent, KeyModifiers};
use search_replace::model::{FocusedField, SearchScope};
use search_replace::movement::{eval_movement_in, Movement};
use search_replace::panel::{BufferDoc, Outcome, SearchReplace};

fn none() -> KeyModifiers {
    KeyModifiers { shift: false, ctrl: false, alt: false, super_key: false }
}
fn ctrl() -> KeyModifiers {
    KeyModifiers { shift: false, ctrl: true, alt: false, super_key: false }
}
fn alt() -> KeyModifiers {
    KeyModifiers { shift: false, ctrl: false, alt: true, super_key: false }
}
fn key(code: KeyCode, modifiers: KeyModifiers) -> Event {
    Event::Key(KeyEvent { code, modifiers })
}
fn doc(text: &str) -> BufferDoc {
    BufferDoc { path: "src/main.rs".to_string(), text: Rope::from_str(text) }
}
fn type_str(p: &mut SearchReplace, d: &BufferDoc, s: &str) {
    for c in s.chars() {
        p.handle_event(&key(KeyCode::Char(c), none()), d);
    }
}

#[test]
fn new_panel_is_empty() {
    let p = SearchReplace::new(SearchScope::Buffer);
    assert_eq!(p.search_input(), "");
    assert_eq!(p.replace_input(), "");
    assert_eq!(p.search_cursor(), 0);
    assert_eq!(p.focused(), FocusedField::Search);
    assert!(p.results().is_empty());
    assert_eq!(p.status(), None);
    let o = p.options();
    assert!(!o.match_case && !o.regex_mode && !o.whole_word);
}

#[test]
fn typing_inserts_at_cursor_and_searches_buffer() {
    let d = doc("foo bar foo\nbaz foo\n");
    let mut p = SearchReplace::new(SearchScope::Buffer);
    type_str(&mut p, &d, "foo");
    assert_eq!(p.search_input(), "foo");
    assert_eq!(p.search_cursor(), 3);
    assert_eq!(p.results().len(), 3);
    assert_eq!(p.status(), Some("3 matches"));
    let r = &p.results()[2];
    assert_eq!(r.line_num, 1);
    assert_eq!(r.line_content, "baz foo\n");
    assert_eq!((r.match_start_in_line, r.match_end_in_line), (4, 7));
    assert_eq!(r.path, "src/main.rs");
    assert!(r.selected);
}

#[test]
fn single_match_status_is_singular() {
    let d = doc("one two");
    let mut p = SearchReplace::new(SearchScope::Buffer);
    type_str(&mut p, &d, "two");
    assert_eq!(p.status(), Some("1 match"));
}

#[test]
fn no_match_status_and_empty_search_clears_status() {
    let d = doc("abc");
    let mut p = SearchReplace::new(SearchScope::Buffer);
    type_str(&mut p, &d, "x");
    assert_eq!(p.status(), Some("No matches found"));
    p.handle_event(&key(KeyCode::Backspace, none()), &d);
    assert_eq!(p.search_input(), "");
    assert_eq!(p.status(), None);
}

#[test]
fn search_is_case_insensitive_until_match_case() {
    let d = doc("Foo foo FOO");
    let mut p = SearchReplace::new(SearchScope::Buffer);
    type_str(&mut p, &d, "foo");
    assert_eq!(p.results().len(), 3);
    p.handle_event(&key(KeyCode::Char('c'), alt()), &d);
    assert!(p.options().match_case);
    assert_eq!(p.results().len(), 1);
    p.handle_event(&key(KeyCode::Char('c'), alt()), &d);
    assert!(!p.options().match_case);
    assert_eq!(p.results().len(), 3);
}

#[test]
fn literal_search_escapes_meta_characters() {
    let d = doc("a.b axb");
    let mut p = SearchReplace::new(SearchScope::Buffer);
    type_str(&mut p, &d, "a.b");
    assert_eq!(p.results().len(), 1);
    p.handle_event(&key(KeyCode::Char('r'), alt()), &d);
    assert!(p.options().regex_mode);
    assert_eq!(p.results().len(), 2);
}

#[test]
fn whole_word_skips_partial_words() {
    let d = doc("foo foobar");
    let mut p = SearchReplace::new(SearchScope::Buffer);
    type_str(&mut p, &d, "foo");
    assert_eq!(p.results().len(), 2);
    p.handle_event(&key(KeyCode::Char('w'), alt()), &d);
    assert_eq!(p.results().len(), 1);
}

#[test]
fn whole_word_keeps_alternation_inside_boundaries() {
    let d = doc("food bar");
    let mut p = SearchReplace::new(SearchScope::Buffer);
    p.handle_event(&key(KeyCode::Char('r'), alt()), &d);
    type_str(&mut p, &d, "foo|bar");
    assert_eq!(p.results().len(), 2);
    p.handle_event(&key(KeyCode::Char('w'), alt()), &d);
    assert_eq!(p.results().len(), 1);
    assert_eq!(p.results()[0].match_start_in_line, 5);
}

#[test]
fn invalid_regex_reports_error() {
    let d = doc("abc");
    let mut p = SearchReplace::new(SearchScope::Buffer);
    p.handle_event(&key(KeyCode::Char('r'), alt()), &d);
    type_str(&mut p, &d, "(");
    assert!(p.results().is_empty());
    assert!(p.status().unwrap().starts_with("Invalid pattern: "));
}

#[test]
fn backspace_removes_whole_grapheme_cluster() {
    let d = doc("");
    let mut p = SearchReplace::new(SearchScope::Buffer);
    type_str(&mut p, &d, "xe\u{301}");
    assert_eq!(p.search_input(), "xe\u{301}");
    assert_eq!(p.search_cursor(), 4);
    p.handle_event(&key(KeyCode::Backspace, none()), &d);
    assert_eq!(p.search_input(), "x");
    assert_eq!(p.search_cursor(), 1);
}

#[test]
fn left_right_home_end_move_by_clusters() {
    let d = doc("");
    let mut p = SearchReplace::new(SearchScope::Buffer);
    type_str(&mut p, &d, "aé€");
    assert_eq!(p.search_cursor(), 6);
    p.handle_event(&key(KeyCode::Left, none()), &d);
    assert_eq!(p.search_cursor(), 3);
    p.handle_event(&key(KeyCode::Char('b'), ctrl()), &d);
    assert_eq!(p.search_cursor(), 1);
    p.handle_event(&key(KeyCode::Right, none()), &d);
    assert_eq!(p.search_cursor(), 3);
    p.handle_event(&key(KeyCode::Home, none()), &d);
    assert_eq!(p.search_cursor(), 0);
    p.handle_event(&key(KeyCode::Left, none()), &d);
    assert_eq!(p.search_cursor(), 0);
    p.handle_event(&key(KeyCode::End, none()), &d);
    assert_eq!(p.search_cursor(), 6);
    p.handle_event(&key(KeyCode::Right, none()), &d);
    assert_eq!(p.search_cursor(), 6);
}

#[test]
fn word_movements() {
    assert_eq!(eval_movement_in("foo bar baz", 11, Movement::BackwardWord(1)), 8);
    assert_eq!(eval_movement_in("foo bar baz", 8, Movement::BackwardWord(1)), 4);
    assert_eq!(eval_movement_in("foo bar baz", 4, Movement::BackwardWord(1)), 0);
    assert_eq!(eval_movement_in("foo bar baz", 0, Movement::BackwardWord(1)), 0);
    assert_eq!(eval_movement_in("foo bar baz", 11, Movement::BackwardWord(2)), 4);
    assert_eq!(eval_movement_in("foo bar baz", 0, Movement::ForwardWord(1)), 4);
    assert_eq!(eval_movement_in("foo bar baz", 4, Movement::ForwardWord(2)), 11);
    assert_eq!(eval_movement_in("foo  bar", 1, Movement::ForwardWord(1)), 5);
    assert_eq!(eval_movement_in("", 0, Movement::ForwardWord(3)), 0);
    assert_eq!(eval_movement_in("", 0, Movement::BackwardWord(3)), 0);
}

#[test]
fn char_movements_count_repetitions() {
    assert_eq!(eval_movement_in("héllo", 0, Movement::ForwardChar(2)), 3);
    assert_eq!(eval_movement_in("héllo", 6, Movement::BackwardChar(3)), 3);
    assert_eq!(eval_movement_in("héllo", 6, Movement::BackwardChar(4)), 1);
    assert_eq!(eval_movement_in("ab", 0, Movement::ForwardChar(10)), 2);
    assert_eq!(eval_movement_in("ab", 2, Movement::BackwardChar(10)), 0);
}

#[test]
fn kill_and_word_delete_keys() {
    let d = doc("");
    let mut p = SearchReplace::new(SearchScope::Buffer);
    type_str(&mut p, &d, "foo bar baz");
    p.handle_event(&key(KeyCode::Char('w'), ctrl()), &d);
    assert_eq!(p.search_input(), "foo bar ");
    p.handle_event(&key(KeyCode::Left, ctrl()), &d);
    assert_eq!(p.search_cursor(), 4);
    p.handle_event(&key(KeyCode::Char('k'), ctrl()), &d);
    assert_eq!(p.search_input(), "foo ");
    assert_eq!(p.search_cursor(), 4);
    p.handle_event(&key(KeyCode::Left, none()), &d);
    p.handle_event(&key(KeyCode::Char('u'), ctrl()), &d);
    assert_eq!(p.search_input(), " ");
    assert_eq!(p.search_cursor(), 0);
    p.handle_event(&key(KeyCode::Delete, none()), &d);
    assert_eq!(p.search_input(), "");
}

#[test]
fn kills_split_input_at_cursor() {
    let d = doc("");
    let mut a = SearchReplace::new(SearchScope::Buffer);
    type_str(&mut a, &d, "hello");
    a.handle_event(&key(KeyCode::Left, none()), &d);
    a.handle_event(&key(KeyCode::Left, none()), &d);
    let mut b = SearchReplace::new(SearchScope::Buffer);
    type_str(&mut b, &d, "hello");
    b.handle_event(&key(KeyCode::Left, none()), &d);
    b.handle_event(&key(KeyCode::Left, none()), &d);
    a.kill_to_end();
    b.kill_to_start();
    assert_eq!(format!("{}{}", a.search_input(), b.search_input()), "hello");
    assert_eq!(a.search_cursor(), 3);
    assert_eq!(b.search_cursor(), 0);
}

#[test]
fn ctrl_chord_without_binding_inserts_its_char() {
    let d = doc("");
    let mut p = SearchReplace::new(SearchScope::Buffer);
    p.handle_event(&key(KeyCode::Char('x'), ctrl()), &d);
    assert_eq!(p.search_input(), "x");
}

#[test]
fn paste_inserts_at_cursor() {
    let d = doc("naïve text");
    let mut p = SearchReplace::new(SearchScope::Buffer);
    type_str(&mut p, &d, "nte");
    p.handle_event(&key(KeyCode::Left, none()), &d);
    p.handle_event(&key(KeyCode::Left, none()), &d);
    let r = p.handle_event(&Event::Paste("aïve ".to_string()), &d);
    assert_eq!(r.outcome, Outcome::Consumed);
    assert_eq!(p.search_input(), "naïve te");
    assert_eq!(p.search_cursor(), 7);
    assert_eq!(p.results().len(), 1);
}

#[test]
fn tab_cycles_focus() {
    let d = doc("x");
    let mut p = SearchReplace::new(SearchScope::Buffer);
    let shift_tab = key(KeyCode::Tab, KeyModifiers { shift: true, ctrl: false, alt: false, super_key: false });
    p.handle_event(&key(KeyCode::Tab, none()), &d);
    assert_eq!(p.focused(), FocusedField::Replace);
    p.handle_event(&key(KeyCode::Tab, none()), &d);
    assert_eq!(p.focused(), FocusedField::Search);
    p.handle_event(&shift_tab, &d);
    assert_eq!(p.focused(), FocusedField::Replace);
    type_str(&mut p, &d, "y");
    assert_eq!(p.replace_input(), "y");
    assert_eq!(p.search_input(), "");
    p.handle_event(&shift_tab, &d);
    type_str(&mut p, &d, "x");
    assert_eq!(p.results().len(), 1);
    p.handle_event(&key(KeyCode::Tab, none()), &d);
    p.handle_event(&key(KeyCode::Tab, none()), &d);
    assert_eq!(p.focused(), FocusedField::Results);
    p.handle_event(&key(KeyCode::Tab, none()), &d);
    assert_eq!(p.focused(), FocusedField::Search);
    p.handle_event(&shift_tab, &d);
    assert_eq!(p.focused(), FocusedField::Results);
}

#[test]
fn events_outcomes() {
    let d = doc("");
    let mut p = SearchReplace::new(SearchScope::Buffer);
    assert_eq!(p.handle_event(&key(KeyCode::Esc, none()), &d).outcome, Outcome::Close);
    assert_eq!(p.handle_event(&key(KeyCode::Char('c'), ctrl()), &d).outcome, Outcome::Close);
    assert_eq!(p.handle_event(&Event::IdleTimeout, &d).outcome, Outcome::Consumed);
    assert_eq!(p.handle_event(&Event::Resize(10, 10), &d).outcome, Outcome::Consumed);
    assert_eq!(p.handle_event(&Event::Other, &d).outcome, Outcome::Ignored);
    assert_eq!(p.handle_event(&key(KeyCode::Other, none()), &d).outcome, Outcome::Consumed);
}

#[test]
fn workspace_scope_hands_out_query() {
    let d = doc("foo");
    let mut p = SearchReplace::new(SearchScope::Buffer);
    type_str(&mut p, &d, "a.b");
    let r = p.handle_event(&key(KeyCode::Char('s'), ctrl()), &d);
    assert_eq!(p.scope(), SearchScope::Workspace);
    let q = r.query.expect("workspace query");
    assert_eq!(q.pattern, "a\\.b");
    assert_eq!(p.status(), Some("Searching…"));
    assert!(p.results().is_empty());
    let r = p.handle_event(&key(KeyCode::Char('w'), alt()), &d);
    assert_eq!(r.query.unwrap().pattern, "\\b(?:a\\.b)\\b");
    let r = p.handle_event(&key(KeyCode::Char('s'), ctrl()), &d);
    assert!(r.query.is_none());
    assert_eq!(p.scope(), SearchScope::Buffer);
}

#[test]
fn enter_in_input_focuses_results_when_any() {
    let d = doc("abc abc");
    let mut p = SearchReplace::new(SearchScope::Buffer);
    type_str(&mut p, &d, "abc");
    p.handle_event(&key(KeyCode::Enter, none()), &d);
    assert_eq!(p.focused(), FocusedField::Results);
    let mut q = SearchReplace::new(SearchScope::Buffer);
    type_str(&mut q, &d, "zzz");
    q.handle_event(&key(KeyCode::Enter, none()), &d);
    assert_eq!(q.focused(), FocusedField::Search);
}

#[test]
fn buffer_lines_follow_line_breaks() {
    let d = doc("a\r\nb\u{2028}c\rd");
    let mut p = SearchReplace::new(SearchScope::Buffer);
    type_str(&mut p, &d, "b");
    assert_eq!(p.results()[0].line_num, 1);
    assert_eq!(p.results()[0].line_content, "b\u{2028}");
    let mut p = SearchReplace::new(SearchScope::Buffer);
    type_str(&mut p, &d, "d");
    assert_eq!(p.results()[0].line_num, 3);
    assert_eq!(p.results()[0].line_content, "d");
}

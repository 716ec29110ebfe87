use ropey::Rope;
use search_replace::keys::{Event, KeyCode, KeyEvent, KeyModifiers};
use search_replace::layout::{
    cells_between, centered, diff_parts, frame_layout, input_anchor, path_room, line_number_label, list_width, option_button,
    preview_header, required_size, scope_hint, scrollbar, substring, title, truncate_path,
};
use search_replace::model::SearchScope;
use search_replace::panel::{BufferDoc, SearchReplace};
use search_replace::text::{boundary_index, char_offsets, nth_char_offset, str_byte_len};

fn type_key(p: &mut SearchReplace, d: &BufferDoc, code: KeyCode) {
    let modifiers = KeyModifiers { shift: false, ctrl: false, alt: false, super_key: false };
    p.handle_event(&Event::Key(KeyEvent { code, modifiers }), d);
}

#[test]
fn option_buttons_and_titles() {
    assert_eq!(option_button("regex", "alt-r", true), "[regex](alt-r) ");
    assert_eq!(option_button("regex", "alt-r", false), " regex (alt-r) ");
    assert_eq!(title(SearchScope::Buffer), " Search & Replace — buffer ");
    assert_eq!(title(SearchScope::Workspace), " Search & Replace — workspace ");
    assert_eq!(scope_hint(SearchScope::Workspace), "scope: workspace (ctrl-s)");
    assert_eq!(line_number_label(41), ":42");
}

#[test]
fn centering_status_text() {
    assert_eq!(centered("abc", 9), "   abc");
    assert_eq!(centered("abc", 3), "abc");
    assert_eq!(centered("abcdef", 4), "abcd");
    assert_eq!(centered("é", 5), "  é");
    assert_eq!(centered("", 4), "  ");
}

#[test]
fn list_geometry() {
    assert_eq!(list_width(100), 38);
    assert_eq!(list_width(40), 20);
    assert_eq!(list_width(10), 7);
    assert_eq!(scrollbar(10, 4, 0), Some((0, 1)));
    assert_eq!(scrollbar(10, 4, 6), Some((2, 1)));
    assert_eq!(scrollbar(5, 4, 1), Some((0, 3)));
    assert_eq!(scrollbar(4, 4, 0), None);
    assert_eq!(scrollbar(10, 0, 0), None);
}

#[test]
fn panel_size_in_viewport() {
    assert_eq!(required_size(200, 40), (120, 30));
    assert_eq!(required_size(80, 10), (80, 15));
    assert_eq!(required_size(120, 20), (120, 15));
    assert_eq!(required_size(119, 21), (119, 15));
    assert_eq!(required_size(121, 24), (120, 18));
}

#[test]
fn frame_geometry() {
    let f = frame_layout(0, 0, 100, 20);
    assert_eq!((f.x, f.y, f.width, f.height), (1, 1, 98, 18));
    assert!(f.inputs);
    assert_eq!((f.input_x, f.input_width), (11, 88));
    let b = f.body.unwrap();
    assert_eq!((b.sep_row, b.status_row, b.list_y, b.list_height), (17, 18, 5, 12));
    assert_eq!((b.list_width, b.divider_x, b.preview_x, b.right), (37, 38, 39, 99));
    assert_eq!(b.preview_width, 60);
    assert!(b.preview);
    let f = frame_layout(0, 0, 30, 7);
    assert!(f.inputs);
    assert_eq!(f.input_width, 18);
    assert!(f.body.is_none());
    let f = frame_layout(0, 0, 1, 10);
    assert_eq!((f.x, f.y, f.width, f.height), (0, 0, 0, 0));
    assert!(!f.inputs);
    let b = frame_layout(0, 0, 24, 10).body.unwrap();
    assert_eq!((b.list_width, b.preview_width), (19, 2));
    assert!(!b.preview);
    assert_eq!(path_room(20, 3), 14);
    assert_eq!(path_room(4, 3), 0);
    assert_eq!(cells_between(5, 9), 4);
    assert_eq!(cells_between(9, 5), 0);
}

#[test]
fn path_truncation() {
    assert_eq!(truncate_path("src/main.rs", 20), "src/main.rs");
    assert_eq!(truncate_path("src/main.rs", 8), "…main.rs");
    assert_eq!(truncate_path("abc", 0), "…");
}

#[test]
fn preview_header_centers_label() {
    assert_eq!(preview_header(13), "── Preview ──");
    assert_eq!(preview_header(12), "─ Preview ──");
    assert_eq!(preview_header(4), " Preview ");
}

#[test]
fn diff_rows_split_line() {
    let (a, b, c) = diff_parts("let foo = 1;\n", 4, 7);
    assert_eq!((a.as_str(), b.as_str(), c.as_str()), ("let ", "foo", " = 1;"));
    let (a, b, c) = diff_parts("ab\r\n", 1, 99);
    assert_eq!((a.as_str(), b.as_str(), c.as_str()), ("a", "b", ""));
}

#[test]
fn input_scrolls_to_show_cursor() {
    assert_eq!(input_anchor("hello", 5, 10), 0);
    assert_eq!(input_anchor("hello", 5, 3), 3);
    assert_eq!(input_anchor("日本語", 9, 3), 6);
    assert_eq!(input_anchor("hello", 2, 0), 0);
    assert_eq!(input_anchor("abc", 99, 2), 2);
}

#[test]
fn text_helpers() {
    assert_eq!(substring("añb", 1, 3), "ñ");
    assert_eq!(boundary_index("añb", 2), None);
    assert_eq!(boundary_index("añb", 3), Some(2));
    assert_eq!(boundary_index("añb", 4), Some(3));
    assert_eq!(char_offsets("añb"), vec![(0, 'a'), (1, 'ñ'), (3, 'b')]);
    assert_eq!(nth_char_offset("añb", 0), Some(0));
    assert_eq!(nth_char_offset("añb", 2), Some(3));
    assert_eq!(nth_char_offset("añb", 3), None);
    assert_eq!(str_byte_len("añb"), 4);
}

#[test]
fn status_and_preview_of_panel() {
    let d = BufferDoc { path: "a.rs".to_string(), text: Rope::from_str("let foo = foo;\n") };
    let mut p = SearchReplace::new(SearchScope::Buffer);
    assert_eq!(
        p.status_text(),
        "Tab:move focus  <enter>:replace hovered  R:replace selected  [a]/[n]:select all/none"
    );
    for c in "foo".chars() {
        type_key(&mut p, &d, KeyCode::Char(c));
    }
    assert_eq!(
        p.status_text(),
        "2 matches  (2/2 sel)  <enter>:replace this  R:replace all selected  [space]:toggle  [a]ll  [n]one"
    );
    assert_eq!(p.cursor_column(20), Some((1, 3)));
    type_key(&mut p, &d, KeyCode::Tab);
    for c in "bar".chars() {
        type_key(&mut p, &d, KeyCode::Char(c));
    }
    assert_eq!(p.cursor_column(20), Some((2, 3)));
    assert_eq!(p.cursor_column(0), Some((2, 3)));
    // A field two columns wide shows "r" from the anchor, and the cursor after it.
    assert_eq!(input_anchor("bar", 3, 2), 2);
    assert_eq!(p.cursor_column(2), Some((2, 1)));
    let pv = p.preview().unwrap();
    assert_eq!(pv.line, "let foo = foo;\n");
    assert_eq!((pv.match_start, pv.match_end), (4, 7));
    assert_eq!(pv.after, "let bar = foo;\n");
    assert_eq!(pv.after_end, 7);
    assert_eq!(p.empty_preview_message(), None);
    type_key(&mut p, &d, KeyCode::Tab);
    assert_eq!(p.cursor_column(20), None);
    let mut q = SearchReplace::new(SearchScope::Buffer);
    type_key(&mut q, &d, KeyCode::Char('z'));
    assert!(q.preview().is_none());
    assert_eq!(q.empty_preview_message(), Some("No matches".to_string()));
    assert_eq!(q.status_text(), "No matches found");
}

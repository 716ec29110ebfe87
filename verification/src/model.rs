//! The panel's plain data: scope, options, match locations and results, and
//! their mathematical views.

use vstd::prelude::*;

verus! {

/// Where a search looks: the current buffer or every file of the workspace.
#[derive(Clone, Copy, PartialEq, Eq, Debug, Structural)]
pub enum SearchScope {
    Buffer,
    Workspace,
}

/// The three search toggles.
#[derive(Clone, Copy, PartialEq, Eq, Debug, Structural)]
pub struct SearchOptions {
    pub match_case: bool,
    pub regex_mode: bool,
    pub whole_word: bool,
}

impl Default for SearchOptions {
    fn default() -> (o: Self)
        ensures
            !o.match_case && !o.regex_mode && !o.whole_word,
    {
        SearchOptions { match_case: false, regex_mode: false, whole_word: false }
    }
}

/// Where the offsets of a match come from.
#[derive(Clone, Copy, PartialEq, Eq, Debug, Structural)]
pub enum MatchLocation {
    /// Buffer scope: character offsets within the whole document.
    BufferChars { char_start: usize, char_end: usize },
    /// Workspace scope: byte offsets within one line of a file.
    FileBytes { line_num: usize, line_byte_start: usize, line_byte_end: usize },
}

/// One match, as listed in the panel.
#[derive(Debug)]
pub struct SearchResult {
    pub path: String,
    /// 0-indexed line number.
    pub line_num: usize,
    /// The line's text, for display.
    pub line_content: String,
    /// Byte offsets within `line_content` of the part to highlight.
    pub match_start_in_line: usize,
    pub match_end_in_line: usize,
    pub location: MatchLocation,
    pub selected: bool,
}

/// A search result with its strings taken as character sequences.
pub struct ResultView {
    pub path: Seq<char>,
    pub line_num: usize,
    pub line_content: Seq<char>,
    pub match_start_in_line: usize,
    pub match_end_in_line: usize,
    pub location: MatchLocation,
    pub selected: bool,
}

impl View for SearchResult {
    type V = ResultView;

    open spec fn view(&self) -> ResultView {
        ResultView {
            path: self.path@,
            line_num: self.line_num,
            line_content: self.line_content@,
            match_start_in_line: self.match_start_in_line,
            match_end_in_line: self.match_end_in_line,
            location: self.location,
            selected: self.selected,
        }
    }
}

impl Clone for SearchResult {
    fn clone(&self) -> (r: Self)
        ensures
            r@ == self@,
    {
        SearchResult {
            path: self.path.clone(),
            line_num: self.line_num,
            line_content: self.line_content.clone(),
            match_start_in_line: self.match_start_in_line,
            match_end_in_line: self.match_end_in_line,
            location: self.location,
            selected: self.selected,
        }
    }
}

/// The views of a list of results.
pub open spec fn results_view(rs: Seq<SearchResult>) -> Seq<ResultView> {
    rs.map_values(|r: SearchResult| r@)
}

/// Which part of the panel has the keyboard.
#[derive(Clone, Copy, PartialEq, Eq, Debug, Structural)]
pub enum FocusedField {
    Search,
    Replace,
    Results,
}

} // verus!

//! The part of a workspace search that looks at one line of one file: which
//! matches it has, and how each is listed.  Walking the files and reading
//! them is the caller's.

use grep_matcher::Matcher;
use grep_regex::{RegexMatcher, RegexMatcherBuilder};
use vstd::prelude::*;

use crate::model::{MatchLocation, ResultView, SearchResult, results_view};
use crate::text::{str_byte_len, str_chars, string_push, utf8_len};

verus! {

#[verifier::external_type_specification]
#[verifier::external_body]
pub struct ExRegexMatcher(RegexMatcher);

/// Whether `grep_regex::RegexMatcherBuilder` accepts `query` with the given
/// case-insensitivity.
pub uninterp spec fn workspace_pattern_compiles(query: Seq<char>, case_insensitive: bool) -> bool;

/// The byte spans of the successive non-overlapping matches `grep_matcher`'s
/// `find_iter` reports in `line` for the matcher built from `query`.
pub uninterp spec fn workspace_line_spans(
    query: Seq<char>,
    case_insensitive: bool,
    line: Seq<char>,
) -> Seq<(usize, usize)>;

/// A compiled workspace pattern, with the query and flag it was built from.
/// Only `build_matcher` puts one together, so the matcher it holds is always
/// the one compiled from its query and flag.
pub struct LineMatcher {
    matcher: RegexMatcher,
    query: String,
    case_insensitive: bool,
}

/// Trusted: `RegexMatcherBuilder::new().case_insensitive(..).build(query)`,
/// an error counting as no matcher; the matcher is kept together with the
/// query and flag it was built from.  Claimed: whether it builds is the named
/// function of the query and the flag, and the `LineMatcher` holds that query
/// and flag.
#[verifier::external_body]
fn build_matcher(query: &str, case_insensitive: bool) -> (r: Option<LineMatcher>)
    ensures
        r is Some == workspace_pattern_compiles(query@, case_insensitive),
        match r {
            Some(m) => m.query() == query@ && m.case_insensitive() == case_insensitive,
            None => true,
        },
{
    match RegexMatcherBuilder::new().case_insensitive(case_insensitive).build(query) {
        Ok(matcher) => Some(LineMatcher { matcher, query: query.to_string(), case_insensitive }),
        Err(_) => None,
    }
}

impl LineMatcher {
    pub closed spec fn query(&self) -> Seq<char> {
        self.query@
    }

    pub closed spec fn case_insensitive(&self) -> bool {
        self.case_insensitive
    }

    /// The matcher compiled from `query()` with `case_insensitive()`, which
    /// `line_results` searches each line with.
    pub closed spec fn compiled(&self) -> RegexMatcher {
        self.matcher
    }

    /// The matcher for `query`, case-insensitive unless `match_case`; none
    /// when the pattern does not compile.
    pub fn new(query: &str, match_case: bool) -> (r: Option<LineMatcher>)
        ensures
            match r {
                Some(m) => workspace_pattern_compiles(query@, !match_case) && m.query() == query@
                    && m.case_insensitive() == !match_case,
                None => !workspace_pattern_compiles(query@, !match_case),
            },
    {
        build_matcher(query, !match_case)
    }

    /// The compiled matcher, for a searcher that reads files line by line.
    pub fn matcher(&self) -> (m: &RegexMatcher)
        ensures
            *m == self.compiled(),
    {
        &self.matcher
    }
}

/// Trusted: `Matcher::find_iter` over the bytes of `line`, collecting every
/// match.  The matcher is the one `build_matcher` compiled from the query and
/// flag it holds.  Claimed: the spans are the named function of those and the
/// line, each inside the line with its start at or before its end.
#[verifier::external_body]
fn find_spans(m: &LineMatcher, line: &str) -> (r: Vec<(usize, usize)>)
    ensures
        r@ == workspace_line_spans(m.query(), m.case_insensitive(), line@),
        forall|i: int| 0 <= i < r@.len() ==> #[trigger] r@[i].0 <= r@[i].1 <= utf8_len(line@),
{
    let mut spans = Vec::new();
    let _ = m.matcher.find_iter(
        line.as_bytes(),
        |found| {
            spans.push((found.start(), found.end()));
            true
        },
    );
    spans
}

/// `s` without the copies of `c` it ends with.
pub open spec fn trim_end(s: Seq<char>, c: char) -> Seq<char>
    decreases s.len(),
{
    if s.len() > 0 && s.last() == c {
        trim_end(s.drop_last(), c)
    } else {
        s
    }
}

/// A line without its line terminators: trailing `\n`s, then trailing `\r`s.
pub open spec fn trimmed_line(s: Seq<char>) -> Seq<char> {
    trim_end(trim_end(s, '\n'), '\r')
}

proof fn lemma_trim_end_prefix(s: Seq<char>, c: char)
    ensures
        trim_end(s, c) == s.take(trim_end(s, c).len() as int),
        trim_end(s, c).len() <= s.len(),
    decreases s.len(),
{
    if s.len() > 0 && s.last() == c {
        lemma_trim_end_prefix(s.drop_last(), c);
        assert(s.drop_last().take(trim_end(s, c).len() as int) =~= s.take(
            trim_end(s, c).len() as int,
        ));
    } else {
        assert(s.take(s.len() as int) =~= s);
    }
}

fn trim_end_chars(chars: &Vec<char>, end: usize, c: char) -> (n: usize)
    requires
        end <= chars@.len(),
    ensures
        n <= end,
        trim_end(chars@.take(end as int), c) == chars@.take(n as int),
{
    let mut n = end;
    while n > 0 && chars[n - 1] == c
        invariant
            n <= end <= chars@.len(),
            trim_end(chars@.take(end as int), c) == trim_end(chars@.take(n as int), c),
        decreases n,
    {
        assert(chars@.take(n as int).drop_last() =~= chars@.take(n - 1));
        n = n - 1;
    }
    proof {
        if n > 0 {
            assert(chars@.take(n as int).last() == chars@[n - 1]);
        }
    }
    n
}

/// The line with its terminators removed.
pub fn trim_line(line: &str) -> (t: String)
    ensures
        t@ == trimmed_line(line@),
{
    let chars = str_chars(line);
    let n1 = trim_end_chars(&chars, chars.len(), '\n');
    proof {
        assert(chars@.take(chars@.len() as int) =~= chars@);
    }
    let n2 = trim_end_chars(&chars, n1, '\r');
    let mut t = String::new();
    let mut i: usize = 0;
    while i < n2
        invariant
            i <= n2 <= chars@.len(),
            t@ == chars@.take(i as int),
        decreases n2 - i,
    {
        string_push(&mut t, chars[i]);
        assert(chars@.take(i + 1) =~= chars@.take(i as int).push(chars@[i as int]));
        i = i + 1;
    }
    t
}

/// The result a workspace match with byte span `span` in line `line_num`
/// (0-indexed) of the file at `path` is listed as.
pub open spec fn workspace_result(
    path: Seq<char>,
    line_num: usize,
    trimmed: Seq<char>,
    span: (usize, usize),
) -> ResultView {
    let display_end = utf8_len(trimmed) as usize;
    ResultView {
        path,
        line_num,
        line_content: trimmed,
        match_start_in_line: if span.0 <= display_end {
            span.0
        } else {
            display_end
        },
        match_end_in_line: if span.1 <= display_end {
            span.1
        } else {
            display_end
        },
        location: MatchLocation::FileBytes {
            line_num,
            line_byte_start: span.0,
            line_byte_end: span.1,
        },
        selected: true,
    }
}

impl LineMatcher {
    /// The results for line `line_number` (1-indexed, as a searcher counts)
    /// of the file at `path`, whose text with its terminator is `line`: one
    /// selected result per match, in order, listing the line without its
    /// terminator and the match's bytes clamped to it.
    pub fn line_results(&self, path: &str, line_number: u64, line: &str) -> (rs: Vec<SearchResult>)
        requires
            1 <= line_number <= usize::MAX,
        ensures
            results_view(rs@) == workspace_line_spans(
                self.query(),
                self.case_insensitive(),
                line@,
            ).map_values(
                |sp: (usize, usize)|
                    workspace_result(
                        path@,
                        (line_number - 1) as usize,
                        trimmed_line(line@),
                        sp,
                    ),
            ),
    {
        let line_num = (line_number as usize) - 1;
        let spans = find_spans(self, line);
        let mut rs: Vec<SearchResult> = Vec::new();
        let mut i: usize = 0;
        while i < spans.len()
            invariant
                i <= spans@.len(),
                line_num == (line_number - 1) as usize,
                spans@ == workspace_line_spans(self.query(), self.case_insensitive(), line@),
                results_view(rs@) == spans@.take(i as int).map_values(
                    |sp: (usize, usize)| workspace_result(path@, line_num, trimmed_line(line@), sp),
                ),
            decreases spans@.len() - i,
        {
            let (start, end) = spans[i];
            let trimmed = trim_line(line);
            let display_end = str_byte_len(trimmed.as_str());
            let ms = if start <= display_end {
                start
            } else {
                display_end
            };
            let me = if end <= display_end {
                end
            } else {
                display_end
            };
            let r = SearchResult {
                path: String::from_str(path),
                line_num,
                line_content: trimmed,
                match_start_in_line: ms,
                match_end_in_line: me,
                location: MatchLocation::FileBytes {
                    line_num,
                    line_byte_start: start,
                    line_byte_end: end,
                },
                selected: true,
            };
            let ghost before = rs@;
            rs.push(r);
            proof {
                assert(spans@.take(i + 1) =~= spans@.take(i as int).push(spans@[i as int]));
                assert(results_view(rs@) =~= results_view(before).push(r@));
            }
            i = i + 1;
        }
        proof {
            assert(spans@.take(spans@.len() as int) =~= spans@);
        }
        rs
    }
}

} // verus!

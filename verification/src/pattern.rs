//! Building the regular expression a search runs, and the text that replaces
//! a match.

use vstd::prelude::*;

use crate::model::SearchOptions;
use crate::text::str_chars;

verus! {

/// The characters `regex::escape` puts a backslash in front of.
pub open spec fn is_meta_char(c: char) -> bool {
    c == '\\' || c == '.' || c == '+' || c == '*' || c == '?' || c == '(' || c == ')' || c == '|'
        || c == '[' || c == ']' || c == '{' || c == '}' || c == '^' || c == '$' || c == '#'
        || c == '&' || c == '-' || c == '~'
}

/// `s` with a backslash in front of every meta character.
pub open spec fn escaped(s: Seq<char>) -> Seq<char>
    decreases s.len(),
{
    if s.len() == 0 {
        Seq::<char>::empty()
    } else {
        (if is_meta_char(s[0]) {
            seq!['\\', s[0]]
        } else {
            seq![s[0]]
        }) + escaped(s.drop_first())
    }
}

/// Trusted: `regex::escape`, which (through `regex_syntax::escape_into`)
/// pushes a backslash before each character that `is_meta_character` names
/// and copies every character.  Claimed: exactly that.
#[verifier::external_body]
fn regex_escape(s: &str) -> (r: String)
    ensures
        r@ == escaped(s@),
{
    regex::escape(s)
}

/// The pattern a search uses: the input itself in regex mode, the input with
/// its meta characters escaped otherwise; when only whole words match, that
/// pattern as a non-capturing group between two `\b` word boundaries (the
/// group keeps an alternation such as `foo|bar` inside both boundaries).
pub open spec fn pattern_for(input: Seq<char>, opts: SearchOptions) -> Seq<char> {
    let pat = if opts.regex_mode {
        input
    } else {
        escaped(input)
    };
    if opts.whole_word {
        seq!['\\', 'b', '(', '?', ':'] + pat + seq![')', '\\', 'b']
    } else {
        pat
    }
}

/// The regular expression that searches for `input` under `opts`.
pub fn build_pattern(input: &str, opts: &SearchOptions) -> (p: String)
    ensures
        p@ == pattern_for(input@, *opts),
{
    let pat = if opts.regex_mode {
        String::from_str(input)
    } else {
        regex_escape(input)
    };
    if opts.whole_word {
        proof {
            reveal_strlit("\\b(?:");
            reveal_strlit(")\\b");
        }
        let mut wrapped = String::from_str("\\b(?:");
        wrapped.append(pat.as_str());
        wrapped.append(")\\b");
        assert(wrapped@ =~= seq!['\\', 'b', '(', '?', ':'] + pat@ + seq![')', '\\', 'b']);
        wrapped
    } else {
        pat
    }
}

/// What `regex::RegexBuilder::new(pattern).case_insensitive(..).build()`,
/// `captures(haystack)` and `Captures::expand(template, ..)` produce together:
/// the template with its `$name` / `${name}` references replaced by the
/// groups of the first match, or nothing when the pattern does not compile or
/// does not match.
pub uninterp spec fn capture_expansion(
    pattern: Seq<char>,
    case_insensitive: bool,
    haystack: Seq<char>,
    template: Seq<char>,
) -> Option<Seq<char>>;

/// Trusted: compiles `pattern` with `regex::RegexBuilder` (case-insensitive
/// as asked), takes the captures of its first match in `haystack` and expands
/// `template` with them into a new string.  The calls are one computation
/// here because only together is the result a function of plain values.
/// Claimed: the result is the named function of the strings and the flag.
#[verifier::external_body]
fn regex_expand(pattern: &str, case_insensitive: bool, haystack: &str, template: &str) -> (r:
    Option<String>)
    ensures
        match r {
            Some(e) => capture_expansion(pattern@, case_insensitive, haystack@, template@) == Some(
                e@,
            ),
            None => capture_expansion(pattern@, case_insensitive, haystack@, template@) is None,
        },
{
    let re = regex::RegexBuilder::new(pattern).case_insensitive(case_insensitive).build().ok()?;
    let caps = re.captures(haystack)?;
    let mut dest = String::new();
    caps.expand(template, &mut dest);
    Some(dest)
}

/// Whether `c` occurs in `s`.
pub fn str_contains_char(s: &str, c: char) -> (b: bool)
    ensures
        b == s@.contains(c),
{
    let chars = str_chars(s);
    let mut i: usize = 0;
    while i < chars.len()
        invariant
            chars@ == s@,
            i <= chars@.len(),
            forall|k: int| 0 <= k < i ==> chars@[k] != c,
        decreases chars@.len() - i,
    {
        if chars[i] == c {
            assert(s@[i as int] == c);
            return true;
        }
        i = i + 1;
    }
    false
}

/// The text that replaces `matched`: in regex mode, when the template holds a
/// `$`, the template expanded with the capture groups of the search input,
/// compiled with the search's case sensitivity, matched against `matched`, if
/// that compiles and matches; the template as it stands otherwise.
pub open spec fn replacement_text(
    search: Seq<char>,
    template: Seq<char>,
    opts: SearchOptions,
    matched: Seq<char>,
) -> Seq<char> {
    if opts.regex_mode && template.contains('$') {
        match capture_expansion(search, !opts.match_case, matched, template) {
            Some(e) => e,
            None => template,
        }
    } else {
        template
    }
}

/// The replacement for `matched` given the panel's inputs and options.
pub fn replacement_for(search: &str, template: &str, opts: &SearchOptions, matched: &str) -> (r:
    String)
    ensures
        r@ == replacement_text(search@, template@, *opts, matched@),
{
    if opts.regex_mode && str_contains_char(template, '$') {
        if let Some(e) = regex_expand(search, !opts.match_case, matched, template) {
            return e;
        }
    }
    String::from_str(template)
}

} // verus!

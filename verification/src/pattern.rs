//! Regular-expression patterns, compiled by the `regex` crate, that select
//! object paths and parts by their text.
use vstd::prelude::*;

verus! {

/// The compiled regular expression of the `regex` crate.
#[verifier::external_type_specification]
#[verifier::external_body]
pub struct ExRegex(regex::Regex);

/// Whether `regex::Regex::new` compiles the pattern (it refuses invalid syntax
/// and patterns over its size limit).
pub uninterp spec fn regex_compiles(pattern: Seq<char>) -> bool;

/// Whether `regex::Regex::is_match` of the regex compiled from `pattern` finds a
/// match anywhere in `text`.
pub uninterp spec fn regex_finds(pattern: Seq<char>, text: Seq<char>) -> bool;

/// A regular expression together with the pattern text it was compiled from.
#[derive(Debug)]
pub struct Pattern {
    source: String,
    regex: regex::Regex,
}

/// A pattern that does not compile; holds the compiler's message.
#[derive(Debug, Clone, PartialEq, Eq)]
pub struct PatternError {
    pub message: String,
}

impl View for Pattern {
    type V = Seq<char>;

    closed spec fn view(&self) -> Seq<char> {
        self.source@
    }
}

/// Compiles a pattern with `regex::Regex::new`. Trusted: it succeeds exactly
/// when `regex_compiles` holds of the text, and the pattern's view is the text;
/// the error message is left unsaid.
#[verifier::external_body]
fn compile(source: &str) -> (r: Result<Pattern, PatternError>)
    ensures
        r is Ok == regex_compiles(source@),
        r matches Ok(p) ==> p@ == source@,
{
    match regex::Regex::new(source) {
        Ok(regex) => Ok(Pattern { source: source.to_string(), regex }),
        Err(e) => Err(PatternError { message: e.to_string() }),
    }
}

/// Tests the text with `regex::Regex::is_match` of the pattern's regex. Trusted:
/// the result is `regex_finds` of the pattern's text and the tested text.
#[verifier::external_body]
fn finds(pattern: &Pattern, text: &str) -> (r: bool)
    ensures
        r == regex_finds(pattern@, text@),
{
    pattern.regex.is_match(text)
}

impl Pattern {
    /// Compiles a pattern: it succeeds exactly when the regular expression
    /// compiles, and the pattern then holds the text.
    pub fn new(source: &str) -> (r: Result<Pattern, PatternError>)
        ensures
            r is Ok == regex_compiles(source@),
            r matches Ok(p) ==> p@ == source@,
    {
        compile(source)
    }

    /// Whether the pattern finds a match anywhere in the text.
    pub fn is_match(&self, text: &str) -> (r: bool)
        ensures
            r == regex_finds(self@, text@),
    {
        finds(self, text)
    }

    /// The pattern's text.
    pub fn as_str(&self) -> (r: &str)
        ensures
            r@ == self@,
    {
        self.source.as_str()
    }

    /// The capture groups of the pattern's first match in the text (see
    /// `regex_captures`).
    pub fn captures(&self, text: &str) -> (r: Option<Vec<Option<String>>>)
        ensures
            captures_view(r) == regex_captures(self@, text@),
    {
        captures_in(self, text)
    }
}

/// What `regex::Regex::captures` of the regex compiled from `pattern` gives for
/// `text`: `None` where it finds no match, else the text of each capture group
/// of the leftmost-first match, in the order of the groups (group 0 being the
/// whole match), `None` for a group that took no part in it.
pub uninterp spec fn regex_captures(pattern: Seq<char>, text: Seq<char>) -> Option<Seq<Option<Seq<char>>>>;

/// The texts of the groups of a match.
pub open spec fn group_views(groups: Seq<Option<String>>) -> Seq<Option<Seq<char>>> {
    groups.map_values(|g: Option<String>| match g {
        Some(t) => Some(t@),
        None => None,
    })
}

/// The texts of the groups of a match, if there is one.
pub open spec fn captures_view(c: Option<Vec<Option<String>>>) -> Option<Seq<Option<Seq<char>>>> {
    match c {
        Some(groups) => Some(group_views(groups@)),
        None => None,
    }
}

/// The groups of the first match of the pattern's regex in the text, with
/// `regex::Regex::captures`. Trusted: the result is `regex_captures` of the
/// pattern's text and the text.
#[verifier::external_body]
fn captures_in(pattern: &Pattern, text: &str) -> (r: Option<Vec<Option<String>>>)
    ensures
        captures_view(r) == regex_captures(pattern@, text@),
{
    pattern.regex.captures(text).map(|c| c.iter().map(|g| g.map(|m| m.as_str().to_string())).collect())
}

/// The characters that have a meaning in a regular expression.
pub open spec fn is_regex_meta(c: char) -> bool {
    c == '\\' || c == '.' || c == '+' || c == '*' || c == '?' || c == '(' || c == ')' || c == '|'
        || c == '[' || c == ']' || c == '{' || c == '}' || c == '^' || c == '$' || c == '#'
        || c == '&' || c == '-' || c == '~'
}

/// The text with a backslash before each character that has a meaning in a
/// regular expression, so that it matches itself literally.
pub open spec fn escaped_text(s: Seq<char>) -> Seq<char>
    decreases s.len(),
{
    if s.len() == 0 {
        s
    } else if is_regex_meta(s.last()) {
        escaped_text(s.drop_last()) + seq!['\\', s.last()]
    } else {
        escaped_text(s.drop_last()).push(s.last())
    }
}

/// Escapes the text with `regex::escape`. Trusted: as its source shows, it puts
/// a backslash before each meta character (`is_regex_meta`) and keeps every
/// other character.
#[verifier::external_body]
fn escape_text(text: &str) -> (r: String)
    ensures
        r@ == escaped_text(text@),
{
    regex::escape(text)
}

/// The pattern text that matches exactly the given text and nothing else.
pub fn exact_match_text(text: &str) -> (r: String)
    ensures
        r@ == "^"@ + escaped_text(text@) + "$"@,
{
    proof {
        reveal_strlit("^");
        reveal_strlit("$");
    }
    let escaped = escape_text(text);
    let mut out: Vec<char> = Vec::new();
    crate::text::push_str(&mut out, "^");
    crate::text::push_str(&mut out, escaped.as_str());
    crate::text::push_str(&mut out, "$");
    let r = crate::text::string_from_chars(out);
    assert(r@ =~= "^"@ + escaped_text(text@) + "$"@);
    r
}

} // verus!

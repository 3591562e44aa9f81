use vstd::prelude::*;

verus! {

#[verifier::external_type_specification]
#[verifier::external_body]
pub struct ExRegex(regex::Regex);

#[verifier::external_type_specification]
#[verifier::external_body]
pub struct ExRegexError(regex::Error);

/// The Unicode `White_Space` property, which both `char::is_whitespace` and
/// the regex class `\s` implement.
pub open spec fn is_white_space(c: char) -> bool {
    ('\t' <= c && c <= '\r') || c == ' ' || c == '\u{85}' || c == '\u{a0}' || c == '\u{1680}'
        || ('\u{2000}' <= c && c <= '\u{200a}') || c == '\u{2028}' || c == '\u{2029}'
        || c == '\u{202f}' || c == '\u{205f}' || c == '\u{3000}'
}

/// The characters reserved for type indicators.
pub open spec fn is_indicator(c: char) -> bool {
    c == '/' || c == '*' || c == '@' || c == '=' || c == '|'
}

pub open spec fn is_single_quote(c: char) -> bool {
    c == '\''
}

pub open spec fn is_double_quote(c: char) -> bool {
    c == '"'
}

/// `s` with a backslash put before every character that satisfies `hit`.
pub open spec fn escaped(s: Seq<char>, hit: spec_fn(char) -> bool) -> Seq<char>
    decreases s.len(),
{
    if s.len() == 0 {
        Seq::empty()
    } else {
        let head = if hit(s[0]) {
            seq!['\\', s[0]]
        } else {
            seq![s[0]]
        };
        head + escaped(s.drop_first(), hit)
    }
}

/// Whether some character of `s` satisfies `hit`.
pub open spec fn contains_any(s: Seq<char>, hit: spec_fn(char) -> bool) -> bool {
    exists|i: int| 0 <= i < s.len() && hit(#[trigger] s[i])
}

/// The regex that a pattern compiles to.
pub uninterp spec fn compiled(pattern: Seq<char>) -> regex::Regex;

pub open spec fn white_space_pattern() -> Seq<char> {
    "(\\s)"@
}

pub open spec fn indicator_pattern() -> Seq<char> {
    "[/*@=|]"@
}

pub open spec fn single_quote_pattern() -> Seq<char> {
    "(')"@
}

pub open spec fn double_quote_pattern() -> Seq<char> {
    "(\")"@
}

/// The replacement that puts a backslash before the first capture group.
pub open spec fn escape_replacement() -> Seq<char> {
    "\\$1"@
}

/// Relies on regex::Regex::new: on success the result is the regex of
/// `pattern`; it fails only on an invalid pattern or one over the size limit,
/// which none of the four patterns here is.
#[verifier::external_body]
fn regex_new(pattern: &str) -> (r: Result<regex::Regex, regex::Error>)
    ensures
        r matches Ok(re) ==> re == compiled(pattern@),
        pattern@ == white_space_pattern() || pattern@ == indicator_pattern() || pattern@
            == single_quote_pattern() || pattern@ == double_quote_pattern() ==> r is Ok,
{
    regex::Regex::new(pattern)
}

/// Relies on regex::Regex::is_match: the class `[/*@=|]` matches a haystack
/// exactly when one of its characters is in the class.
#[verifier::external_body]
fn regex_is_match(re: &regex::Regex, haystack: &str) -> (r: bool)
    ensures
        *re == compiled(indicator_pattern()) ==> (r == contains_any(haystack@, |c| is_indicator(c))),
{
    re.is_match(haystack)
}

/// Relies on regex::Regex::replace_all: with the replacement `\$1`, each match
/// of a one-character group is replaced by a backslash and the character.
#[verifier::external_body]
fn regex_replace_all(re: &regex::Regex, haystack: &str, rep: &str) -> (r: String)
    ensures
        rep@ == escape_replacement() && *re == compiled(white_space_pattern()) ==> r@ == escaped(
            haystack@,
            |c| is_white_space(c),
        ),
        rep@ == escape_replacement() && *re == compiled(single_quote_pattern()) ==> r@ == escaped(
            haystack@,
            |c| is_single_quote(c),
        ),
        rep@ == escape_replacement() && *re == compiled(double_quote_pattern()) ==> r@ == escaped(
            haystack@,
            |c| is_double_quote(c),
        ),
{
    re.replace_all(haystack, rep).into_owned()
}

/// The four regexes the name formatter uses, compiled once.
pub struct Matchers {
    white_space: regex::Regex,
    indicator: regex::Regex,
    single_quote: regex::Regex,
    double_quote: regex::Regex,
}

impl Matchers {
    pub closed spec fn wf(&self) -> bool {
        &&& self.white_space == compiled(white_space_pattern())
        &&& self.indicator == compiled(indicator_pattern())
        &&& self.single_quote == compiled(single_quote_pattern())
        &&& self.double_quote == compiled(double_quote_pattern())
    }

    /// Compiles the four patterns.
    pub fn new() -> (r: Matchers)
        ensures
            r.wf(),
    {
        let white_space = regex_new("(\\s)").unwrap();
        let indicator = regex_new("[/*@=|]").unwrap();
        let single_quote = regex_new("(')").unwrap();
        let double_quote = regex_new("(\")").unwrap();
        Matchers { white_space, indicator, single_quote, double_quote }
    }

    /// Whether `s` holds a type-indicator character.
    pub fn has_indicator(&self, s: &str) -> (r: bool)
        requires
            self.wf(),
        ensures
            r == contains_any(s@, |c| is_indicator(c)),
    {
        regex_is_match(&self.indicator, s)
    }

    /// `s` with each white-space character backslash-escaped.
    pub fn escape_white_space(&self, s: &str) -> (r: String)
        requires
            self.wf(),
        ensures
            r@ == escaped(s@, |c| is_white_space(c)),
    {
        regex_replace_all(&self.white_space, s, "\\$1")
    }

    /// `s` with each single quote backslash-escaped.
    pub fn escape_single_quotes(&self, s: &str) -> (r: String)
        requires
            self.wf(),
        ensures
            r@ == escaped(s@, |c| is_single_quote(c)),
    {
        regex_replace_all(&self.single_quote, s, "\\$1")
    }

    /// `s` with each double quote backslash-escaped.
    pub fn escape_double_quotes(&self, s: &str) -> (r: String)
        requires
            self.wf(),
        ensures
            r@ == escaped(s@, |c| is_double_quote(c)),
    {
        regex_replace_all(&self.double_quote, s, "\\$1")
    }
}

} // verus!

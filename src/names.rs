use vstd::prelude::*;
use crate::config::Cli;
use crate::entry::Entry;
use crate::matchers::{
    contains_any, escaped, is_double_quote, is_indicator, is_single_quote, is_white_space, Matchers,
};

verus! {

/// A name ready for layout.
pub struct OutputName {
    /// The possibly quoted and escaped text.
    pub name: String,
    /// Its width in characters.
    pub size: usize,
    /// Whether quoting was applied: forced, or asked for by its content.
    pub quoted: bool,
}

/// A name asks for quoting when it holds white space or an indicator character.
pub open spec fn needs_quote(s: Seq<char>) -> bool {
    contains_any(s, |c| is_white_space(c)) || contains_any(s, |c| is_indicator(c))
}

/// `s` between two double quotes.
pub open spec fn in_quotes(s: Seq<char>) -> Seq<char> {
    seq!['"'] + s + seq!['"']
}

/// The text a name is shown as.
pub open spec fn display_of(s: Seq<char>, force_quote: bool) -> Seq<char> {
    if force_quote {
        in_quotes(escaped(s, |c| is_double_quote(c)))
    } else if needs_quote(s) {
        in_quotes(escaped(escaped(s, |c| is_white_space(c)), |c| is_single_quote(c)))
    } else {
        s
    }
}

/// Whether `c` has the Unicode `White_Space` property.
pub fn is_white_space_char(c: char) -> (r: bool)
    ensures
        r == is_white_space(c),
{
    ('\t' <= c && c <= '\r') || c == ' ' || c == '\u{85}' || c == '\u{a0}' || c == '\u{1680}'
        || ('\u{2000}' <= c && c <= '\u{200a}') || c == '\u{2028}' || c == '\u{2029}'
        || c == '\u{202f}' || c == '\u{205f}' || c == '\u{3000}'
}

/// Whether `s` holds a white-space character.
pub fn has_white_space(s: &str) -> (r: bool)
    ensures
        r == contains_any(s@, |c| is_white_space(c)),
{
    let n = s.unicode_len();
    let mut i: usize = 0;
    while i < n
        invariant
            n == s@.len(),
            i <= n,
            forall|k: int| 0 <= k < i ==> !is_white_space(#[trigger] s@[k]),
        decreases n - i,
    {
        if is_white_space_char(s.get_char(i)) {
            return true;
        }
        i = i + 1;
    }
    false
}

/// `s` between two double quotes.
fn quote(s: &str) -> (r: String)
    ensures
        r@ == in_quotes(s@),
{
    let mut r = String::from_str("\"");
    r.append(s);
    r.append("\"");
    proof {
        reveal_strlit("\"");
    }
    r
}

/// Formats one entry's name: quoted and escaped where the options or its
/// content ask for it.
pub fn entry_to_output_with_frills(entry: &Entry, config: &Cli, m: &Matchers) -> (r: OutputName)
    requires
        m.wf(),
    ensures
        r.name@ == display_of(entry.name@, config.quote_name),
        r.size == r.name@.len(),
        r.quoted == (config.quote_name || needs_quote(entry.name@)),
{
    let base_name = entry.name.as_str();
    let has_ws = has_white_space(base_name);
    let has_special = m.has_indicator(base_name);
    let needs = has_ws || has_special;
    let quoted_name = if config.quote_name {
        let e = m.escape_double_quotes(base_name);
        quote(e.as_str())
    } else if needs {
        let e = m.escape_white_space(base_name);
        let e2 = m.escape_single_quotes(e.as_str());
        quote(e2.as_str())
    } else {
        entry.name.clone()
    };
    let size = quoted_name.as_str().unicode_len();
    OutputName { name: quoted_name, size, quoted: config.quote_name || needs }
}

/// Escaping distributes over concatenation.
proof fn lemma_escaped_concat(a: Seq<char>, b: Seq<char>, hit: spec_fn(char) -> bool)
    ensures
        escaped(a + b, hit) == escaped(a, hit) + escaped(b, hit),
    decreases a.len(),
{
    if a.len() == 0 {
        assert(a + b =~= b);
        assert(escaped(a, hit) =~= Seq::<char>::empty());
        assert(escaped(a, hit) + escaped(b, hit) =~= escaped(b, hit));
    } else {
        assert((a + b).drop_first() =~= a.drop_first() + b);
        assert((a + b)[0] == a[0]);
        lemma_escaped_concat(a.drop_first(), b, hit);
        let head = if hit(a[0]) { seq!['\\', a[0]] } else { seq![a[0]] };
        assert(escaped(a + b, hit) == head + escaped(a.drop_first() + b, hit));
        assert(escaped(a, hit) == head + escaped(a.drop_first(), hit));
        assert(head + (escaped(a.drop_first(), hit) + escaped(b, hit)) =~= (head + escaped(
            a.drop_first(),
            hit,
        )) + escaped(b, hit));
    }
}

/// Escaping one character.
proof fn lemma_escaped_one(c: char, hit: spec_fn(char) -> bool)
    ensures
        escaped(seq![c], hit) == (if hit(c) { seq!['\\', c] } else { seq![c] }),
{
    let s = seq![c];
    assert(s.drop_first() =~= Seq::<char>::empty());
    assert(escaped(s.drop_first(), hit) =~= Seq::<char>::empty());
    let head = if hit(c) { seq!['\\', c] } else { seq![c] };
    assert(head + Seq::<char>::empty() =~= head);
}

/// Escaping white space and then single quotes escapes each such character
/// exactly once: the same as one pass over both kinds.
pub proof fn lemma_escape_once(s: Seq<char>)
    ensures
        escaped(escaped(s, |c| is_white_space(c)), |c| is_single_quote(c)) == escaped(
            s,
            |c| is_white_space(c) || is_single_quote(c),
        ),
    decreases s.len(),
{
    let ws = |c| is_white_space(c);
    let sq = |c| is_single_quote(c);
    let both = |c| is_white_space(c) || is_single_quote(c);
    if s.len() == 0 {
        assert(escaped(s, ws) =~= Seq::<char>::empty());
    } else {
        let c0 = s[0];
        let rest = s.drop_first();
        lemma_escape_once(rest);
        let h1 = if ws(c0) { seq!['\\', c0] } else { seq![c0] };
        assert(escaped(s, ws) == h1 + escaped(rest, ws));
        lemma_escaped_concat(h1, escaped(rest, ws), sq);
        let h2 = if both(c0) { seq!['\\', c0] } else { seq![c0] };
        assert(escaped(s, both) == h2 + escaped(rest, both));
        if ws(c0) {
            assert(!sq(c0));
            assert(!sq('\\'));
            assert(h1 =~= seq!['\\'] + seq![c0]);
            lemma_escaped_concat(seq!['\\'], seq![c0], sq);
            lemma_escaped_one('\\', sq);
            lemma_escaped_one(c0, sq);
            assert(escaped(h1, sq) =~= h2);
        } else {
            lemma_escaped_one(c0, sq);
            assert(escaped(h1, sq) =~= h2);
        }
    }
}

/// A name with neither white space nor an indicator character is shown as it
/// is, unless quoting is forced.
pub proof fn lemma_plain_name_unchanged(s: Seq<char>)
    requires
        !contains_any(s, |c| is_white_space(c)),
        !contains_any(s, |c| is_indicator(c)),
    ensures
        display_of(s, false) == s,
{
}

/// A name holding a space is shown in quotes, with each white-space character
/// and each single quote escaped by exactly one backslash.
pub proof fn lemma_spaced_name_quoted(s: Seq<char>)
    requires
        s.contains(' '),
    ensures
        display_of(s, false) == in_quotes(escaped(s, |c| is_white_space(c) || is_single_quote(c))),
{
    let i = choose|i: int| 0 <= i < s.len() && s[i] == ' ';
    assert(is_white_space(s[i]));
    lemma_escape_once(s);
}

} // verus!

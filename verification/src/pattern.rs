use vstd::prelude::*;
use vstd::string::*;
use vstd::utf8::*;

verus! {

#[verifier::external_type_specification]
#[verifier::external_body]
pub struct ExRegex(regex::Regex);

/// What `regex::Regex::new` gives for a pattern: `Ok` when it compiles, else
/// the text of its error.
pub uninterp spec fn regex_compile_outcome(pattern: Seq<char>) -> Result<(), Seq<char>>;

/// The byte spans that `Regex::find_iter` yields for a pattern on a haystack.
pub uninterp spec fn regex_find_spans(pattern: Seq<char>, haystack: Seq<char>) -> Seq<(usize, usize)>;

/// The byte span that `Regex::find` gives for a pattern on a haystack.
pub uninterp spec fn regex_first_span(pattern: Seq<char>, haystack: Seq<char>) -> Option<(usize, usize)>;

/// The capture groups (group 0 first) of the match that `Regex::captures`
/// gives for a pattern on a haystack, as byte spans.
pub uninterp spec fn regex_captures(pattern: Seq<char>, haystack: Seq<char>) -> Option<Seq<Option<(usize, usize)>>>;

/// The capture groups of each match that `Regex::captures_iter` yields for a
/// pattern on a haystack, as byte spans.
pub uninterp spec fn regex_captures_all(pattern: Seq<char>, haystack: Seq<char>) -> Seq<Seq<Option<(usize, usize)>>>;

/// A byte span of a match in `bytes`: ordered, in bounds, on character
/// boundaries.
pub open spec fn span_in(bytes: Seq<u8>, sp: (usize, usize)) -> bool {
    &&& sp.0 <= sp.1 <= bytes.len()
    &&& is_char_boundary(bytes, sp.0 as int)
    &&& is_char_boundary(bytes, sp.1 as int)
}

/// Every span of `spans` lies in `bytes`, and each ends before the next starts.
pub open spec fn spans_in(bytes: Seq<u8>, spans: Seq<(usize, usize)>) -> bool {
    &&& forall|k: int| 0 <= k < spans.len() ==> #[trigger] span_in(bytes, spans[k])
    &&& forall|k: int| 0 <= k < spans.len() - 1 ==> #[trigger] spans[k].1 <= spans[k + 1].0
}

/// Every present group of `groups` lies in `bytes`.
pub open spec fn groups_in(bytes: Seq<u8>, groups: Seq<Option<(usize, usize)>>) -> bool {
    forall|k: int| 0 <= k < groups.len() && (#[trigger] groups[k]) is Some ==> span_in(bytes, groups[k]->0)
}

/// `c` has a meaning of its own in a regular expression.
pub open spec fn is_regex_meta(c: char) -> bool {
    c == '\\' || c == '.' || c == '+' || c == '*' || c == '?' || c == '(' || c == ')' || c == '|'
        || c == '[' || c == ']' || c == '{' || c == '}' || c == '^' || c == '$' || c == '#'
        || c == '&' || c == '-' || c == '~'
}

/// `s` with a backslash before each meta character.
pub open spec fn regex_escape_spec(s: Seq<char>) -> Seq<char>
    decreases s.len(),
{
    if s.len() == 0 {
        Seq::empty()
    } else {
        let head = if is_regex_meta(s[0]) { seq!['\\', s[0]] } else { seq![s[0]] };
        head + regex_escape_spec(s.drop_first())
    }
}

/// The bytes of `bytes` with each span of `spans` replaced by `rep`, read from
/// the offset `from` on.
pub open spec fn splice_spans(bytes: Seq<u8>, spans: Seq<(usize, usize)>, rep: Seq<u8>, from: int) -> Seq<u8>
    decreases spans.len(),
{
    if spans.len() == 0 {
        bytes.subrange(from, bytes.len() as int)
    } else {
        bytes.subrange(from, spans[0].0 as int) + rep + splice_spans(bytes, spans.drop_first(), rep, spans[0].1 as int)
    }
}

/// A compiled regular expression, with the pattern it was compiled from.
pub struct Pattern {
    source: String,
    re: regex::Regex,
}

impl Pattern {
    /// The pattern this expression was compiled from.
    pub closed spec fn source(&self) -> Seq<char> {
        self.source@
    }
}

/// Compiles `pattern` (`regex::Regex::new`); the error is the text of the
/// crate's error.
#[verifier::external_body]
pub(crate) fn compile_pattern(pattern: &str) -> (r: Result<Pattern, String>)
    ensures
        match regex_compile_outcome(pattern@) {
            Ok(_) => r is Ok && r->Ok_0.source() == pattern@,
            Err(m) => r is Err && r->Err_0@ == m,
        },
{
    match regex::Regex::new(pattern) {
        Ok(re) => Ok(Pattern { source: pattern.to_string(), re }),
        Err(e) => Err(e.to_string()),
    }
}

/// The spans of the successive non-overlapping matches (`Regex::find_iter`).
#[verifier::external_body]
pub(crate) fn find_spans(p: &Pattern, haystack: &str) -> (r: Vec<(usize, usize)>)
    ensures
        r@ == regex_find_spans(p.source(), haystack@),
        spans_in(haystack.spec_bytes(), r@),
{
    p.re.find_iter(haystack).map(|m| (m.start(), m.end())).collect()
}

/// The span of the first match (`Regex::find`).
#[verifier::external_body]
pub(crate) fn first_span(p: &Pattern, haystack: &str) -> (r: Option<(usize, usize)>)
    ensures
        r == regex_first_span(p.source(), haystack@),
        r matches Some(sp) ==> span_in(haystack.spec_bytes(), sp),
{
    p.re.find(haystack).map(|m| (m.start(), m.end()))
}

/// The group spans of the first match (`Regex::captures`).
#[verifier::external_body]
pub(crate) fn captures(p: &Pattern, haystack: &str) -> (r: Option<Vec<Option<(usize, usize)>>>)
    ensures
        match regex_captures(p.source(), haystack@) {
            None => r is None,
            Some(g) => r is Some && r->Some_0@ == g && groups_in(haystack.spec_bytes(), g),
        },
{
    p.re.captures(haystack).map(|c| c.iter().map(|g| g.map(|m| (m.start(), m.end()))).collect())
}

/// The group spans of every match (`Regex::captures_iter`).
#[verifier::external_body]
pub(crate) fn captures_all(p: &Pattern, haystack: &str) -> (r: Vec<Vec<Option<(usize, usize)>>>)
    ensures
        r@.len() == regex_captures_all(p.source(), haystack@).len(),
        forall|k: int| 0 <= k < r@.len() ==> #[trigger] r@[k]@ == regex_captures_all(p.source(), haystack@)[k],
        forall|k: int| 0 <= k < r@.len() ==> groups_in(haystack.spec_bytes(), #[trigger] r@[k]@),
{
    p.re.captures_iter(haystack).map(|c| c.iter().map(|g| g.map(|m| (m.start(), m.end()))).collect()).collect()
}

/// `text` with every regex meta character escaped (`regex::escape`).
#[verifier::external_body]
pub(crate) fn escape(text: &str) -> (r: String)
    ensures
        r@ == regex_escape_spec(text@),
{
    regex::escape(text)
}

/// `haystack` with every match replaced by the literal `rep`
/// (`Regex::replace_all` with `regex::NoExpand`): the matches are those of
/// `find_iter`, and the text between them is kept.
#[verifier::external_body]
pub(crate) fn replace_all_literal(p: &Pattern, haystack: &str, rep: &str) -> (r: String)
    ensures
        encode_utf8(r@) == splice_spans(haystack.spec_bytes(), regex_find_spans(p.source(), haystack@), rep.spec_bytes(), 0),
{
    p.re.replace_all(haystack, regex::NoExpand(rep)).into_owned()
}

} // verus!

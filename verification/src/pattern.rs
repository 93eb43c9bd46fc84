use vstd::prelude::*;

verus! {

#[verifier::external_type_specification]
#[verifier::external_body]
pub struct ExRegex(regex::Regex);

/// A compiled regular expression together with the text it was compiled
/// from; its view is that text.
pub struct Pattern {
    source: String,
    compiled: regex::Regex,
}

impl View for Pattern {
    type V = Seq<char>;

    closed spec fn view(&self) -> Seq<char> {
        self.source@
    }
}

/// Whether `regex::Regex::new` accepts `pattern`.
pub uninterp spec fn regex_is_valid(pattern: Seq<char>) -> bool;

/// What `regex::Regex::captures` finds in `haystack` for the compiled
/// `pattern`: `None` where nothing matches, else the text of each capture
/// group of the leftmost match, in group order (group 0 is the whole match),
/// `None` for a group that took no part in it.
pub uninterp spec fn regex_captures(pattern: Seq<char>, haystack: Seq<char>) -> Option<
    Seq<Option<Seq<char>>>,
>;

/// Compiles `source` with `regex::Regex::new`. Trusted: the result is present
/// exactly where the crate accepts `source` (a name for that judgement,
/// which depends on `source` alone), and it keeps `source` as its text.
#[verifier::external_body]
pub(crate) fn compile_pattern(source: &str) -> (p: Option<Pattern>)
    ensures
        p is Some <==> regex_is_valid(source@),
        p matches Some(p) ==> p@ == source@,
{
    match regex::Regex::new(source) {
        Ok(compiled) => Some(Pattern { source: source.to_string(), compiled }),
        Err(_) => None,
    }
}

/// Runs `regex::Regex::captures` on `haystack` and converts each group's
/// match to its text. Trusted: the result is the name `regex_captures` of
/// the pattern's text and the haystack; nothing more is claimed of it.
#[verifier::external_body]
pub(crate) fn pattern_captures(pattern: &Pattern, haystack: &str) -> (r: Option<Vec<Option<String>>>)
    ensures
        r.deep_view() == regex_captures(pattern@, haystack@),
{
    pattern.compiled.captures(haystack).map(
        |caps| caps.iter().map(|m| m.map(|m| m.as_str().to_string())).collect(),
    )
}

} // verus!

//! Compiled regular expressions, as the matcher sees them: a pattern's source
//! text and, for a line, the texts of its capture groups.

use vstd::prelude::*;

verus! {

#[verifier::external_type_specification]
#[verifier::external_body]
pub struct ExRegex(regex::Regex);

/// The capture groups of the leftmost-first match of `pattern` in `line`, group
/// zero (the whole match) first; `None` where the pattern does not match. A
/// group that took no part in the match is `None`.
pub uninterp spec fn regex_captures(pattern: Seq<char>, line: Seq<char>) -> Option<Seq<Option<Seq<char>>>>;

/// The capture groups of each successive non-overlapping match of `pattern` in
/// `line`, from left to right, laid out as in `regex_captures`.
pub uninterp spec fn regex_captures_all(pattern: Seq<char>, line: Seq<char>) -> Seq<Seq<Option<Seq<char>>>>;

/// Whether `pattern` compiles: it is a valid pattern and its compiled form
/// stays within the default size limit.
pub uninterp spec fn regex_compiles(pattern: Seq<char>) -> bool;

/// A regular expression together with the source text it was compiled from.
pub struct Pattern {
    source: String,
    regex: regex::Regex,
}

impl Pattern {
    pub closed spec fn source(&self) -> Seq<char> {
        self.source@
    }
}

/// Relies on regex::Regex::new: it compiles `source`, or fails on an invalid
/// pattern or one over the size limit.
#[verifier::external_body]
pub(crate) fn compile(source: &str) -> (r: Option<Pattern>)
    ensures
        r is Some <==> regex_compiles(source@),
        r matches Some(p) ==> p.source() == source@,
{
    match regex::Regex::new(source) {
        Ok(regex) => Some(Pattern { source: source.to_string(), regex }),
        Err(_) => None,
    }
}

/// Relies on regex::Regex::captures and Captures::iter: the groups of the
/// leftmost-first match, each as the text it matched.
#[verifier::external_body]
pub(crate) fn captures(p: &Pattern, line: &str) -> (r: Option<Vec<Option<String>>>)
    ensures
        r.deep_view() == regex_captures(p.source(), line@),
{
    p.regex.captures(line).map(|c| c.iter().map(|m| m.map(|m| m.as_str().to_string())).collect())
}

/// Relies on regex::Regex::captures_iter: the groups of every successive
/// non-overlapping match, each as the text it matched.
#[verifier::external_body]
pub(crate) fn captures_all(p: &Pattern, line: &str) -> (r: Vec<Vec<Option<String>>>)
    ensures
        r.deep_view() == regex_captures_all(p.source(), line@),
{
    p.regex
        .captures_iter(line)
        .map(|c| c.iter().map(|m| m.map(|m| m.as_str().to_string())).collect())
        .collect()
}

} // verus!

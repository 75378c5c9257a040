//! Cluster selection by regular expression, through the `regex` crate.

use vstd::prelude::*;

verus! {

/// `regex::Regex`, declared so that a compiled pattern can be held; nothing
/// inside it is visible to proofs.
#[verifier::external_type_specification]
#[verifier::external_body]
pub struct ExRegex(regex::Regex);

/// What `regex::Regex::new` reports for a pattern: `None` when the pattern
/// compiles, else the text of its error.
pub uninterp spec fn regex_new_error(pattern: Seq<char>) -> Option<Seq<char>>;

/// What `regex::Regex::is_match` answers for the regex compiled from
/// `pattern` and the haystack `text`: whether the regex matches anywhere in it.
pub uninterp spec fn regex_is_match(pattern: Seq<char>, text: Seq<char>) -> bool;

/// A compiled regular expression together with the pattern it was compiled from.
pub struct ClusterPattern {
    pattern: String,
    re: regex::Regex,
}

impl ClusterPattern {
    /// The pattern this regular expression was compiled from.
    pub closed spec fn source(&self) -> Seq<char> {
        self.pattern@
    }
}

/// Compiles `pattern` with `regex::Regex::new`. The contract claims that the
/// call succeeds exactly when `regex_new_error` says so, that a failure's
/// text is the `Display` of the crate's error, and that the empty pattern
/// compiles (it is a valid regex that matches the empty string).
#[verifier::external_body]
pub(crate) fn compile_pattern(pattern: &str) -> (r: Result<ClusterPattern, String>)
    ensures
        r is Ok <==> regex_new_error(pattern@) is None,
        r matches Ok(p) ==> p.source() == pattern@,
        r matches Err(m) ==> regex_new_error(pattern@) == Some(m@),
        pattern@.len() == 0 ==> r is Ok,
{
    match regex::Regex::new(pattern) {
        Ok(re) => Ok(ClusterPattern { pattern: pattern.to_string(), re }),
        Err(e) => Err(e.to_string()),
    }
}

/// Asks `regex::Regex::is_match` whether the compiled pattern matches
/// anywhere in `text`. The contract claims the answer is `regex_is_match` of
/// the source pattern and the text, and that the empty pattern matches every
/// text (it matches the empty string at its start).
#[verifier::external_body]
pub(crate) fn pattern_is_match(p: &ClusterPattern, text: &str) -> (b: bool)
    ensures
        b == regex_is_match(p.source(), text@),
        p.source().len() == 0 ==> b,
{
    p.re.is_match(text)
}

} // verus!

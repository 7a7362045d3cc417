//! Regular-expression matching through the `regex` crate.
//!
//! The library builds regular expressions from its own wildcard patterns
//! (verified in `special_cases`); compiling and running them is the `regex`
//! crate's work. Its results are named by the spec functions below.

use vstd::prelude::*;

verus! {

#[verifier::external_type_specification]
#[verifier::external_body]
pub struct ExRegex(regex::Regex);

/// Whether `regex::Regex::new` accepts `pattern`.
pub uninterp spec fn regex_compiles(pattern: Seq<char>) -> bool;

/// What `regex::Regex::is_match` answers for the regex built from `pattern`
/// on `haystack`.
pub uninterp spec fn regex_is_match(pattern: Seq<char>, haystack: Seq<char>) -> bool;

/// The capture groups (group `0` first; `None` for a group that did not
/// participate) that `regex::Regex::captures` finds for the regex built from
/// `pattern` on `haystack`, or `None` when there is no match.
pub uninterp spec fn regex_captures(pattern: Seq<char>, haystack: Seq<char>) -> Option<
    Seq<Option<Seq<char>>>,
>;

/// A compiled regular expression together with its source.
pub struct CompiledRegex {
    re: regex::Regex,
    source: String,
}

impl CompiledRegex {
    /// The source the expression was compiled from.
    pub closed spec fn source_view(&self) -> Seq<char> {
        self.source@
    }
}

/// The views of optional capture groups.
pub open spec fn groups_view(v: Seq<Option<String>>) -> Seq<Option<Seq<char>>> {
    v.map_values(
        |g: Option<String>|
            match g {
                Some(s) => Some(s@),
                None => None,
            },
    )
}

/// Compile a regular expression.
/// Calls `regex::Regex::new`; claims it succeeds exactly when the named
/// predicate holds of the pattern, and keeps the source beside the compiled
/// value (this is the only place a `CompiledRegex` is made).
#[verifier::external_body]
pub(crate) fn compile_regex(pattern: &str) -> (r: Option<CompiledRegex>)
    ensures
        r is Some <==> regex_compiles(pattern@),
        r matches Some(c) ==> c.source_view() == pattern@,
{
    match regex::Regex::new(pattern) {
        Ok(re) => Some(CompiledRegex { re, source: pattern.to_string() }),
        Err(_) => None,
    }
}

/// Whether the expression matches somewhere in `haystack`.
/// Calls `regex::Regex::is_match`; the answer is the named result for the
/// expression's source and the haystack.
#[verifier::external_body]
pub(crate) fn regex_find(c: &CompiledRegex, haystack: &str) -> (r: bool)
    ensures
        r == regex_is_match(c.source_view(), haystack@),
{
    c.re.is_match(haystack)
}

/// The capture groups of the first match in `haystack`.
/// Calls `regex::Regex::captures` and copies each group's text; the answer is
/// the named result for the expression's source and the haystack.
#[verifier::external_body]
pub(crate) fn regex_capture_groups(c: &CompiledRegex, haystack: &str) -> (r: Option<Vec<Option<String>>>)
    ensures
        match r {
            Some(v) => regex_captures(c.source_view(), haystack@) == Some(groups_view(v@)),
            None => regex_captures(c.source_view(), haystack@) is None,
        },
{
    match c.re.captures(haystack) {
        Some(caps) => {
            let mut v = Vec::new();
            for i in 0..caps.len() {
                v.push(match caps.get(i) {
                    Some(m) => Some(m.as_str().to_string()),
                    None => None,
                });
            }
            Some(v)
        },
        None => None,
    }
}

} // verus!

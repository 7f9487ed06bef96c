//! Regular-expression matching, done by the `regex` crate.

use vstd::prelude::*;
use crate::text::contains_seq;

verus! {

/// The `regex` crate's compiled regular expression, carried through as it is.
#[verifier::external_type_specification]
#[verifier::external_body]
pub struct ExRegex(regex::Regex);

/// A regular expression compiled from its source text. Only [`compile`]
/// builds one, so `regex` is always the compilation of `source`.
pub(crate) struct CompiledPattern {
    source: String,
    regex: regex::Regex,
}

impl CompiledPattern {
    /// The text the pattern was compiled from.
    pub closed spec fn source(self) -> Seq<char> {
        self.source@
    }
}

/// Whether the `regex` crate accepts `pattern` (`regex::Regex::new` gives `Ok`).
pub uninterp spec fn spec_compiles(pattern: Seq<char>) -> bool;

/// Compiles `pattern` with `regex::Regex::new`; `None` when the crate refuses
/// it. Claims that it succeeds exactly when [`spec_compiles`] says so, and
/// that a compiled pattern remembers its source text.
#[verifier::external_body]
pub(crate) fn compile(pattern: &str) -> (res: Option<CompiledPattern>)
    ensures
        res is Some <==> spec_compiles(pattern@),
        res matches Some(p) ==> p.source() == pattern@,
{
    let regex = regex::Regex::new(pattern).ok()?;
    Some(CompiledPattern { source: pattern.to_string(), regex })
}

/// What the leftmost-first match of `pattern` in `haystack` captures: `None`
/// when nothing matches; otherwise one entry per capture group, group 0 being
/// the whole match, `None` for a group that took no part in the match.
pub uninterp spec fn spec_captures(pattern: Seq<char>, haystack: Seq<char>) -> Option<
    Seq<Option<Seq<char>>>,
>;

/// Runs `regex::Regex::captures` of the compiled pattern on `haystack` and
/// copies out every group (`Captures::iter`, `Match::as_str`). The result is
/// named [`spec_captures`]. As the crate documents, a match always has group
/// 0, and every group that took part is a piece of the haystack.
#[verifier::external_body]
pub(crate) fn captures(pattern: &CompiledPattern, haystack: &str) -> (res: Option<Vec<Option<String>>>)
    ensures
        res.deep_view() == spec_captures(pattern.source(), haystack@),
        res matches Some(groups) ==> groups@.len() >= 1 && groups@[0] is Some,
        res matches Some(groups) ==> forall|i: int|
            0 <= i < groups@.len() && (#[trigger] groups@[i]) is Some ==> contains_seq(
                haystack@,
                groups@[i]->0@,
            ),
{
    pattern.regex.captures(haystack).map(|c| c.iter().map(|m| m.map(|m| m.as_str().to_string())).collect())
}

} // verus!

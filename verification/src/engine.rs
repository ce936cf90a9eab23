//! The regular-expression engine, as this library sees it.
//!
//! Nothing in this file is proved: each item states what the engine's own
//! documentation and source give, and the rest of the library is verified
//! against these statements.

use vstd::prelude::*;
use vstd::utf8::{decode_utf8, valid_utf8};

verus! {

/// The engine's compiled matcher, `regex_automata::meta::Regex`. Opaque here.
#[verifier::external_type_specification]
#[verifier::external_body]
pub struct ExRegex(regex_automata::meta::Regex);

/// The engine's parsed pattern, `regex_syntax::hir::Hir`. Opaque here.
#[verifier::external_type_specification]
#[verifier::external_body]
pub struct ExHir(regex_syntax::hir::Hir);

/// The engine's syntax error, `regex_syntax::Error`. Opaque here.
#[verifier::external_type_specification]
#[verifier::external_body]
pub struct ExSyntaxError(regex_syntax::Error);

/// The engine's build error, `regex_automata::meta::BuildError`. Opaque here.
#[verifier::external_type_specification]
#[verifier::external_body]
pub struct ExBuildError(regex_automata::meta::BuildError);

/// What `regex_automata::util::syntax::parse` makes of a pattern: the parsed
/// structure, or `None` where the pattern is rejected.
pub uninterp spec fn parsed(pattern: Seq<char>) -> Option<regex_syntax::hir::Hir>;

/// What `regex_automata::meta::Builder::build_from_hir`, on a builder with
/// the default configuration, makes of a parsed pattern: the matcher, or
/// `None` where the build is refused.
pub uninterp spec fn built(hir: regex_syntax::hir::Hir) -> Option<regex_automata::meta::Regex>;

/// What `regex_automata::meta::Regex::find` reports on a haystack: the
/// leftmost-first match as a pair of byte offsets, start then end, or `None`.
pub uninterp spec fn leftmost_match(matcher: regex_automata::meta::Regex, haystack: Seq<u8>)
    -> Option<(usize, usize)>;

/// Calls `core::str::from_utf8`. Claims what its documentation says: the
/// bytes are accepted exactly when they are well-formed UTF-8, and the text
/// handed back is those same bytes, read as characters.
#[verifier::external_body]
pub(crate) fn text_of(bytes: &[u8]) -> (r: Option<&str>)
    ensures
        r is Some <==> valid_utf8(bytes@),
        r matches Some(text) ==> text@ == decode_utf8(bytes@),
{
    std::str::from_utf8(bytes).ok()
}

/// Calls `regex_automata::util::syntax::parse`. Claims only that the outcome
/// is the one named `parsed` for this pattern: the parser reads nothing but
/// its argument.
#[verifier::external_body]
pub(crate) fn parse(pattern: &str) -> (r: Result<regex_syntax::hir::Hir, regex_syntax::Error>)
    ensures
        match r {
            Ok(hir) => parsed(pattern@) == Some(hir),
            Err(_) => parsed(pattern@) is None,
        },
{
    regex_automata::util::syntax::parse(pattern)
}

/// Calls `regex_automata::meta::Builder::build_from_hir` on a fresh builder
/// (`Builder::new`). Claims only that the outcome is the one named `built`
/// for this parsed pattern.
#[verifier::external_body]
pub(crate) fn build(hir: &regex_syntax::hir::Hir) -> (r: Result<
    regex_automata::meta::Regex,
    regex_automata::meta::BuildError,
>)
    ensures
        match r {
            Ok(matcher) => built(*hir) == Some(matcher),
            Err(_) => built(*hir) is None,
        },
{
    regex_automata::meta::Builder::new().build_from_hir(hir)
}

/// Calls `regex_automata::meta::Regex::find` on a byte slice. Claims that
/// the outcome is the one named `leftmost_match`, and, as the engine
/// documents of every match it reports, that the span starts no later than it
/// ends and lies inside the haystack searched.
#[verifier::external_body]
pub(crate) fn find(matcher: &regex_automata::meta::Regex, haystack: &[u8]) -> (r: Option<
    (usize, usize),
>)
    ensures
        r == leftmost_match(*matcher, haystack@),
        r matches Some(span) ==> span.0 <= span.1 <= haystack@.len(),
{
    match matcher.find(haystack) {
        Some(m) => Some((m.start(), m.end())),
        None => None,
    }
}

} // verus!

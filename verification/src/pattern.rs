//! The boundary to the `glob` crate: compiled patterns are opaque values,
//! and what the crate computes is known here only by name.
//!
//! Nothing in this file is proved. The names stand for what the `glob` crate
//! computes on the platform the library is built for: the crate treats the
//! platform's path separators specially in `**` patterns.

use vstd::prelude::*;

verus! {

/// A compiled shell-style pattern of the `glob` crate. Nothing inside it is
/// visible to the proofs.
#[verifier::external_type_specification]
#[verifier::external_body]
pub struct ExPattern(glob::Pattern);

/// The error with which the `glob` crate rejects a pattern.
#[verifier::external_type_specification]
#[verifier::external_body]
pub struct ExPatternError(glob::PatternError);

/// Whether `glob::Pattern::new` accepts `pattern`. The syntax is the `glob`
/// crate's own (`?`, `*`, `**`, `[...]`, `[!...]`) and is not restated here.
pub uninterp spec fn glob_well_formed(pattern: Seq<char>) -> bool;

/// The text that a compiled pattern was made from, as `glob::Pattern::as_str`
/// returns it.
pub uninterp spec fn pattern_source(pattern: glob::Pattern) -> Seq<char>;

/// Whether the pattern compiled from `pattern` matches the whole of `text`
/// under `glob::Pattern::matches`, that is, with the default match options:
/// case-sensitive, and no special treatment of separators or leading dots.
pub uninterp spec fn glob_accepts(pattern: Seq<char>, text: Seq<char>) -> bool;

/// The pattern that is a single `*`.
pub open spec fn wildcard() -> Seq<char> {
    seq!['*']
}

/// `glob::Pattern::new` compiles `pattern`. It is taken on trust that it
/// succeeds exactly on the well-formed patterns, that it does not panic,
/// that the compiled pattern remembers the text it was made from, and that
/// a single `*` is well formed.
pub assume_specification[ glob::Pattern::new ](pattern: &str) -> (res: Result<
    glob::Pattern,
    glob::PatternError,
>)
    ensures
        res is Ok <==> glob_well_formed(pattern@),
        res matches Ok(p) ==> pattern_source(p) == pattern@,
        pattern@ == wildcard() ==> res is Ok,
;

/// `glob::Pattern::as_str` hands back the text the pattern was compiled from.
pub assume_specification<'a>[ glob::Pattern::as_str ](pattern: &'a glob::Pattern) -> (res: &'a str)
    ensures
        res@ == pattern_source(*pattern),
;

/// `glob::Pattern::matches` decides whether the pattern matches the whole of
/// `str`. It is taken on trust that the answer depends on the pattern's
/// source text and on `str` alone, that the call does not panic, and that a
/// single `*` matches every text, the empty one too.
pub assume_specification[ glob::Pattern::matches ](pattern: &glob::Pattern, str: &str) -> (res:
    bool)
    ensures
        res == glob_accepts(pattern_source(*pattern), str@),
        pattern_source(*pattern) == wildcard() ==> res,
;

} // verus!

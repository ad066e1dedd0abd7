//! Timestamps: which strings are RFC 3339 date-times.

use vstd::prelude::*;

verus! {

/// Whether `chrono` reads a string as an RFC 3339 date-time.
pub uninterp spec fn is_rfc3339(s: Seq<char>) -> bool;

/// Calls `chrono::DateTime::parse_from_rfc3339` and says whether it gave a
/// date-time. The parser reads nothing but its argument, so the answer is a
/// function of the string alone; which strings it takes is not stated here
/// but named [`is_rfc3339`].
#[verifier::external_body]
pub(crate) fn parses_as_rfc3339(s: &str) -> (ok: bool)
    ensures
        ok == is_rfc3339(s@),
{
    chrono::DateTime::parse_from_rfc3339(s).is_ok()
}

} // verus!

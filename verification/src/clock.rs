//! The clock, an outside capability: record timestamps come from it.

use vstd::prelude::*;

verus! {

/// Relies on chrono's `Utc::now` and `DateTime::to_rfc3339`: the current
/// instant, rendered as an RFC 3339 string. The result depends on the
/// machine's clock, so nothing is promised of it; callers that pin their
/// outcome down take the timestamp as an argument instead.
#[verifier::external_body]
pub(crate) fn now_rfc3339() -> String {
    chrono::Utc::now().to_rfc3339()
}

} // verus!

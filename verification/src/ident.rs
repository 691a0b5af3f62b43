//! Fresh identifiers for collection rounds.

use vstd::prelude::*;

verus! {

/// A fresh identifier: `uuid::Uuid::new_v4`, written as text.
///
/// Nothing is claimed of the result, which is random. `uuid` stops the
/// program if the system has no random bytes to give.
#[verifier::external_body]
pub(crate) fn new_round_id() -> (id: String) {
    uuid::Uuid::new_v4().to_string()
}

} // verus!

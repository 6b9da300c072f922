//! Shared notions for contracts that describe the calls a service makes to
//! the traits its deployment implements.

use vstd::prelude::*;

verus! {

/// Whether `k` is the index of a call (or of a step made of calls) in a
/// run: any index from zero. Contracts quantify over the calls of a run
/// through this predicate.
pub open spec fn call_index(k: int) -> bool {
    0 <= k
}

} // verus!

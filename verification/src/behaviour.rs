//! Words for what an operation does to the cancellation tokens.

use vstd::prelude::*;

use crate::token::TokenRecord;

verus! {

/// From `before` to `after` a fresh token for task `id` came in, and nothing else
/// changed.
pub open spec fn only_added(
    before: Map<u64, TokenRecord>,
    after: Map<u64, TokenRecord>,
    id: u64,
) -> bool {
    &&& after.contains_key(id)
    &&& !after[id].state.cancelled
    &&& !after[id].state.finished
    &&& !after[id].handle_dropped
    &&& forall|k: u64| #[trigger]
        after.contains_key(k) <==> (before.contains_key(k) || k == id)
    &&& forall|k: u64|
        #![trigger after[k]]
        #![trigger before[k]]
        k != id && before.contains_key(k) ==> after[k] == before[k]
}

/// From `before` to `after` the cancellation of the tasks in `ids` was requested,
/// and nothing else changed.
pub open spec fn only_cancelled(
    before: Map<u64, TokenRecord>,
    after: Map<u64, TokenRecord>,
    ids: Set<u64>,
) -> bool {
    &&& forall|k: u64| #[trigger] after.contains_key(k) <==> before.contains_key(k)
    &&& forall|k: u64| #[trigger]
        after.contains_key(k) ==> {
            &&& after[k].state.cancelled == (before[k].state.cancelled || ids.contains(k))
            &&& after[k].state.finished == before[k].state.finished
            &&& after[k].handle_dropped == before[k].handle_dropped
        }
}

/// From `before` to `after` the tasks in `ids` ended, and nothing else changed. A
/// token stays for as long as a handle can ask for it.
pub open spec fn only_finished(
    before: Map<u64, TokenRecord>,
    after: Map<u64, TokenRecord>,
    ids: Set<u64>,
) -> bool {
    &&& forall|k: u64| #[trigger]
        after.contains_key(k) <==> (before.contains_key(k) && !(ids.contains(k)
            && before[k].handle_dropped))
    &&& forall|k: u64| #[trigger]
        after.contains_key(k) ==> {
            &&& after[k].state.cancelled == before[k].state.cancelled
            &&& after[k].state.finished == (before[k].state.finished || ids.contains(k))
            &&& after[k].handle_dropped == before[k].handle_dropped
        }
}

/// From `before` to `after` the handle of task `id` went, and nothing else
/// changed. A token stays for as long as its task is not over.
pub open spec fn only_detached(
    before: Map<u64, TokenRecord>,
    after: Map<u64, TokenRecord>,
    id: u64,
) -> bool {
    &&& forall|k: u64| #[trigger]
        after.contains_key(k) <==> (before.contains_key(k) && !(k == id
            && before[k].state.finished))
    &&& forall|k: u64| #[trigger]
        after.contains_key(k) ==> {
            &&& after[k].state.cancelled == before[k].state.cancelled
            &&& after[k].state.finished == before[k].state.finished
            &&& after[k].handle_dropped == (before[k].handle_dropped || k == id)
        }
}

} // verus!

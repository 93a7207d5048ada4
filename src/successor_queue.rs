//! The priority queue of the `priority-queue` crate, as the solver uses it: move indices
//! ordered by their estimated total cost.
use priority_queue::PriorityQueue;
use vstd::prelude::*;

verus! {

/// The queue type of the `priority-queue` crate.
#[verifier::external_type_specification]
#[verifier::external_body]
#[verifier::reject_recursive_types(I)]
#[verifier::reject_recursive_types(P)]
#[verifier::reject_recursive_types(H)]
pub struct ExPriorityQueue<I, P, H>(PriorityQueue<I, P, H>);

/// Move indices, each with its estimated total cost.
pub type SuccessorQueue = PriorityQueue<usize, u64>;

/// The items of a queue, each with its priority.
pub uninterp spec fn queue_entries(q: SuccessorQueue) -> Map<usize, u64>;

/// Relies on `PriorityQueue::new`: a queue with no items.
#[verifier::external_body]
pub(crate) fn new_queue() -> (r: SuccessorQueue)
    ensures
        queue_entries(r).dom() == Set::<usize>::empty(),
{
    PriorityQueue::new()
}

/// Relies on `PriorityQueue::push`: the item enters with the priority, replacing the
/// priority it had if it was there, whose old priority is returned.
#[verifier::external_body]
pub(crate) fn queue_push(q: &mut SuccessorQueue, item: usize, priority: u64) -> (r: Option<u64>)
    ensures
        queue_entries(*final(q)) == queue_entries(*old(q)).insert(item, priority),
        queue_entries(*old(q)).dom().finite() ==> queue_entries(*final(q)).dom().finite(),
        r == if queue_entries(*old(q)).contains_key(item) {
            Some(queue_entries(*old(q))[item])
        } else {
            None::<u64>
        },
{
    q.push(item, priority)
}

/// Relies on `PriorityQueue::pop`: an item of greatest priority leaves, with its priority;
/// an empty queue gives nothing.
#[verifier::external_body]
pub(crate) fn queue_pop(q: &mut SuccessorQueue) -> (r: Option<(usize, u64)>)
    ensures
        queue_entries(*old(q)).dom().finite() ==> queue_entries(*final(q)).dom().finite(),
        match r {
            None => queue_entries(*old(q)).dom() == Set::<usize>::empty() && queue_entries(*final(q))
                == queue_entries(*old(q)),
            Some((item, priority)) => {
                &&& queue_entries(*old(q)).contains_key(item)
                &&& queue_entries(*old(q))[item] == priority
                &&& forall|k: usize| #[trigger] queue_entries(*old(q)).contains_key(k) ==> queue_entries(
                    *old(q),
                )[k] <= priority
                &&& queue_entries(*final(q)) == queue_entries(*old(q)).remove(item)
            },
        },
{
    q.pop()
}

} // verus!

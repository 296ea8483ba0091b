//! The priority queues of the crate `priority_queue`: pending preheat tasks
//! and publications waiting for their delayed removal.
use vstd::prelude::*;
use priority_queue::PriorityQueue;
use std::cmp::Reverse;
use std::collections::hash_map::RandomState;

verus! {

#[verifier::external_type_specification]
#[verifier::external_body]
#[verifier::reject_recursive_types(I)]
#[verifier::reject_recursive_types(P)]
#[verifier::reject_recursive_types(H)]
pub struct ExPriorityQueue<I, P, H>(PriorityQueue<I, P, H>);

#[verifier::external_type_specification]
#[verifier::external_body]
#[verifier::reject_recursive_types(T)]
pub struct ExReverse<T>(Reverse<T>);

/// The queue of pending preheat tasks: task id, with the reversed rank of its priority.
pub type PreheatQueue = PriorityQueue<u128, Reverse<u8>, RandomState>;

/// The queue of delayed removals: (resource, node, instant), with the reversed instant.
pub type DelayQueue = PriorityQueue<(u128, u128, i128), Reverse<i128>, RandomState>;

/// What a preheat queue holds: each task id with its rank (the value inside `Reverse`).
pub uninterp spec fn preheat_entries(q: PreheatQueue) -> Map<u128, u8>;

/// What a delay queue holds: each item with its instant (the value inside `Reverse`).
pub uninterp spec fn delay_entries(q: DelayQueue) -> Map<(u128, u128, i128), i128>;

/// `PriorityQueue::new()`: an empty queue.
#[verifier::external_body]
pub(crate) fn preheat_queue_new() -> (fresh: PreheatQueue)
    ensures
        preheat_entries(fresh).dom().is_empty(),
{
    PriorityQueue::new()
}

/// `PriorityQueue::push(id, Reverse(rank))`: inserts `id`, or changes the
/// priority of the equal item already there; returns the old rank in that case.
#[verifier::external_body]
pub(crate) fn preheat_queue_push(q: &mut PreheatQueue, id: u128, rank: u8) -> (old_rank: Option<u8>)
    ensures
        preheat_entries(*final(q)) == preheat_entries(*old(q)).insert(id, rank),
        old_rank == (if preheat_entries(*old(q)).contains_key(id) {
            Some(preheat_entries(*old(q))[id])
        } else {
            None
        }),
{
    match q.push(id, Reverse(rank)) {
        Some(Reverse(p)) => Some(p),
        None => None,
    }
}

/// `PriorityQueue::pop()`: removes and returns an item of greatest priority,
/// that is of least rank; which of several such items leaves is not said.
#[verifier::external_body]
pub(crate) fn preheat_queue_pop(q: &mut PreheatQueue) -> (r: Option<(u128, u8)>)
    ensures
        match r {
            None => preheat_entries(*old(q)).dom().is_empty()
                && preheat_entries(*final(q)) == preheat_entries(*old(q)),
            Some((id, rank)) => {
                &&& preheat_entries(*old(q)).contains_key(id)
                &&& preheat_entries(*old(q))[id] == rank
                &&& forall|k: u128| #[trigger] preheat_entries(*old(q)).contains_key(k)
                    ==> rank <= preheat_entries(*old(q))[k]
                &&& preheat_entries(*final(q)) == preheat_entries(*old(q)).remove(id)
            },
        },
{
    match q.pop() {
        Some((id, Reverse(p))) => Some((id, p)),
        None => None,
    }
}

/// `PriorityQueue::new()`: an empty queue.
#[verifier::external_body]
pub(crate) fn delay_queue_new() -> (fresh: DelayQueue)
    ensures
        delay_entries(fresh).dom().is_empty(),
{
    PriorityQueue::new()
}

/// `PriorityQueue::push(item, Reverse(at))`: inserts `item`, or changes the
/// priority of the equal item already there.
#[verifier::external_body]
pub(crate) fn delay_queue_push(q: &mut DelayQueue, item: (u128, u128, i128), at: i128) -> (old_at: Option<i128>)
    ensures
        delay_entries(*final(q)) == delay_entries(*old(q)).insert(item, at),
        old_at == (if delay_entries(*old(q)).contains_key(item) {
            Some(delay_entries(*old(q))[item])
        } else {
            None
        }),
{
    match q.push(item, Reverse(at)) {
        Some(Reverse(p)) => Some(p),
        None => None,
    }
}

/// `PriorityQueue::peek()`: an item of greatest priority, that is of least
/// instant, with its instant; `None` when the queue is empty.
#[verifier::external_body]
pub(crate) fn delay_queue_peek(q: &DelayQueue) -> (r: Option<((u128, u128, i128), i128)>)
    ensures
        match r {
            None => delay_entries(*q).dom().is_empty(),
            Some((item, at)) => {
                &&& delay_entries(*q).contains_key(item)
                &&& delay_entries(*q)[item] == at
                &&& forall|k: (u128, u128, i128)| #[trigger] delay_entries(*q).contains_key(k)
                    ==> at <= delay_entries(*q)[k]
            },
        },
{
    match q.peek() {
        Some((item, Reverse(p))) => Some((*item, *p)),
        None => None,
    }
}

/// `PriorityQueue::pop()`: removes and returns an item of least instant.
#[verifier::external_body]
pub(crate) fn delay_queue_pop(q: &mut DelayQueue) -> (r: Option<((u128, u128, i128), i128)>)
    ensures
        match r {
            None => delay_entries(*old(q)).dom().is_empty()
                && delay_entries(*final(q)) == delay_entries(*old(q)),
            Some((item, at)) => {
                &&& delay_entries(*old(q)).contains_key(item)
                &&& delay_entries(*old(q))[item] == at
                &&& forall|k: (u128, u128, i128)| #[trigger] delay_entries(*old(q)).contains_key(k)
                    ==> at <= delay_entries(*old(q))[k]
                &&& delay_entries(*final(q)) == delay_entries(*old(q)).remove(item)
            },
        },
{
    match q.pop() {
        Some((item, Reverse(p))) => Some((item, p)),
        None => None,
    }
}

} // verus!

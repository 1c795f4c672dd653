use vstd::prelude::*;
use crossbeam_queue::ArrayQueue;

verus! {

#[verifier::external_type_specification]
#[verifier::external_body]
#[verifier::reject_recursive_types(T)]
pub struct ExArrayQueue<T>(ArrayQueue<T>);

/// Offers `value` to a bounded queue shared with other threads
/// (`crossbeam_queue::ArrayQueue::push`). The queue is filled and drained through
/// shared references, so what it holds is not modelled; the contract only claims
/// what the crate's source shows of every outcome: a full queue hands the very same
/// value back as the error.
#[verifier::external_body]
pub(crate) fn queue_push<T>(queue: &ArrayQueue<T>, value: T) -> (r: Result<(), T>)
    ensures
        r matches Err(v) ==> v == value,
{
    queue.push(value)
}

} // verus!

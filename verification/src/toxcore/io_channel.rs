//! The queues that the relay puts its packets into.

use vstd::prelude::*;
use futures::sync::mpsc::UnboundedSender;

verus! {

/// The sending end of an unbounded queue of `futures`. What is inside is
/// nothing that the library reads.
#[verifier::external_type_specification]
#[verifier::external_body]
#[verifier::reject_recursive_types(T)]
pub struct ExUnboundedSender<T>(UnboundedSender<T>);

/// Hands `item` to `UnboundedSender::unbounded_send` and tells whether the
/// queue took it: the call does not block, and refuses the item once the
/// receiving end is closed or gone. Whether it is depends on the receiver, so
/// nothing is claimed of the answer. The call panics only where the queue
/// holds more items than half of `usize::MAX`, which no memory holds.
#[verifier::external_body]
pub(crate) fn send_to<T>(tx: &UnboundedSender<T>, item: T) -> (taken: bool) {
    tx.unbounded_send(item).is_ok()
}

} // verus!

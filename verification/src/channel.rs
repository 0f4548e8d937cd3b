//! The bounded mailboxes that connect the runtime to the network tasks.

use vstd::prelude::*;
use kanal::{Receiver, Sender};

verus! {

/// `kanal::Sender`, the sending end of a mailbox. Nothing is known of what
/// is inside.
#[verifier::external_type_specification]
#[verifier::external_body]
#[verifier::reject_recursive_types(T)]
pub struct ExSender<T>(Sender<T>);

/// `kanal::Receiver`, the receiving end of a mailbox. Nothing is known of
/// what is inside.
#[verifier::external_type_specification]
#[verifier::external_body]
#[verifier::reject_recursive_types(T)]
pub struct ExReceiver<T>(Receiver<T>);

/// `Sender::try_send`, which never waits. Reports whether the value was
/// handed over: it is not when the mailbox is full or the receiving side is
/// gone. Both depend on the receiving side, so nothing is claimed of the
/// answer.
#[verifier::external_body]
pub(crate) fn deliver<T>(to: &Sender<T>, value: T) -> (sent: bool)
{
    to.try_send(value).unwrap_or(false)
}

/// `Receiver::drain_into`: everything queued right now, oldest first, without
/// waiting; nothing if the mailbox is closed. What is queued depends on the
/// sending side, so nothing is claimed of the batch.
#[verifier::external_body]
pub(crate) fn drain<T>(from: &Receiver<T>) -> (batch: Vec<T>)
{
    let mut batch = Vec::new();
    let _ = from.drain_into(&mut batch);
    batch
}

/// `kanal::bounded`: the two ends of a fresh mailbox that holds up to `size`
/// values. Nothing is claimed of them.
#[verifier::external_body]
pub(crate) fn mailbox<T>(size: usize) -> (ends: (Sender<T>, Receiver<T>))
{
    kanal::bounded(size)
}

/// `Sender::clone`: another handle to the same mailbox. The claim is that the
/// handle cannot be told from the one it was made of.
#[verifier::external_body]
pub(crate) fn share<T>(sender: &Sender<T>) -> (handle: Sender<T>)
    ensures
        handle == *sender,
{
    sender.clone()
}

} // verus!

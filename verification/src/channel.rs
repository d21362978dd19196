//! The delivery path of a connected player: a bounded channel whose sending
//! end stays with the room and whose receiving end goes to the connection.

use crate::message::ServerMessage;
use std::sync::Arc;
use tokio::sync::mpsc::{Receiver, Sender};
use vstd::prelude::*;

verus! {

/// `tokio::sync::mpsc::Sender`, the sending end of a bounded channel. It is
/// carried through and handed out; nothing is known of what is inside.
#[verifier::external_type_specification]
#[verifier::external_body]
#[verifier::reject_recursive_types(T)]
pub struct ExSender<T>(Sender<T>);

/// `tokio::sync::mpsc::Receiver`, the receiving end of a bounded channel. It
/// is handed out as it was made; nothing is known of what is inside.
#[verifier::external_type_specification]
#[verifier::external_body]
#[verifier::reject_recursive_types(T)]
pub struct ExReceiver<T>(Receiver<T>);

/// Number of events that the delivery path of one player holds before the
/// sender has to wait.
pub const CHANNEL_CAPACITY: usize = 10;

/// The largest capacity that a channel can be opened with on every machine.
pub const MAX_CAPACITY: usize = 0x1fff_ffff;

/// The end of a delivery path into which the events for one player are put.
pub type Outbox = Sender<Arc<ServerMessage>>;

/// The end of a delivery path from which a connection takes its events, in
/// the order in which they were put.
pub type Inbox = Receiver<Arc<ServerMessage>>;

/// The sending end of the channel that `inbox` is the receiving end of: what
/// is put into it, and nothing else, is taken from `inbox`, in the order in
/// which it was put.
pub uninterp spec fn sending_end(inbox: Inbox) -> Outbox;

/// The number of events that the channel of `outbox` was opened for: so many
/// it holds before a sender has to wait.
pub uninterp spec fn capacity_of(outbox: Outbox) -> nat;

/// Opens a channel with `tokio::sync::mpsc::channel`, which refuses a capacity
/// of zero and one beyond an eighth of the address space. The two ends that
/// are returned are the ends of one channel, and the channel holds as many
/// events as were asked for.
#[verifier::external_body]
pub(crate) fn open_channel(capacity: usize) -> (ends: (Outbox, Inbox))
    requires
        0 < capacity <= MAX_CAPACITY,
    ensures
        sending_end(ends.1) == ends.0,
        capacity_of(ends.0) == capacity,
{
    tokio::sync::mpsc::channel(capacity)
}

/// `Sender::clone` makes another handle to the same sending end. Handles to
/// one sending end are not told apart: what is put into one is put into the
/// channel that all of them share.
pub assume_specification<T>[ <Sender<T> as Clone>::clone ](sender: &Sender<T>) -> (shared: Sender<
    T,
>)
    ensures
        shared == *sender,
;

} // verus!

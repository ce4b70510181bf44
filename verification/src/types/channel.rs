//! The channel on which the session hands updates to an entity's task.
use bytes::Bytes;
use futures::sync::mpsc::UnboundedSender;
use vstd::prelude::*;

verus! {

#[verifier::external_type_specification]
#[verifier::external_body]
pub struct ExBytes(Bytes);

#[verifier::external_type_specification]
#[verifier::external_body]
#[verifier::reject_recursive_types(T)]
pub struct ExUnboundedSender<T>(UnboundedSender<T>);

/// Packet transmitter.
pub type Tx = UnboundedSender<Bytes>;

/// What became of an update meant for the master entity: no channel was
/// handed anything (`Unsent`), or the master's channel was handed it and
/// took it (`Accepted`) or refused it because its receiver is gone
/// (`Refused`).
#[derive(Clone, Copy, Debug, PartialEq, Eq, Structural)]
pub enum Delivery {
    Unsent,
    Accepted,
    Refused,
}

/// An entity's channel together with the record of every packet handed to
/// it, oldest first, each with whether the channel took it.
pub struct Outbox {
    tx: Tx,
    sent: Ghost<Seq<(Seq<char>, bool)>>,
}

impl Outbox {
    /// The sender of the channel.
    pub closed spec fn sender(self) -> Tx {
        self.tx
    }

    /// The text of every packet handed to the channel, oldest first, each
    /// with whether the channel took it.
    pub closed spec fn sent(self) -> Seq<(Seq<char>, bool)> {
        self.sent@
    }

    /// An outbox for `tx` that has been handed nothing yet.
    pub fn new(tx: Tx) -> (outbox: Self)
        ensures
            outbox.sender() == tx,
            outbox.sent() == Seq::<(Seq<char>, bool)>::empty(),
    {
        Outbox { tx, sent: Ghost(Seq::empty()) }
    }
}

/// `UnboundedSender::unbounded_send` of the bytes of `payload` (made with
/// `Bytes::from`) on the outbox's channel. The result is whether the channel
/// took it (`unbounded_send` returned `Ok`); it refuses only when its
/// receiver is gone, which nothing here can see, so which of the two comes
/// back is not stated. The contract records the payload and that result in
/// the outbox's log.
#[verifier::external_body]
pub(crate) fn send_packet(outbox: &mut Outbox, payload: &String) -> (accepted: bool)
    ensures
        final(outbox).sender() == old(outbox).sender(),
        final(outbox).sent() == old(outbox).sent().push((payload@, accepted)),
{
    outbox.tx.unbounded_send(Bytes::from(payload.clone())).is_ok()
}

} // verus!

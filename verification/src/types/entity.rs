//! The decisions an entity's task makes on each poll.
use crate::constants::MESSAGE_BATCH_SIZE;
use crate::json::json_object;
use crate::text::utf8_to_string;
use crate::types::channel::Delivery;
use crate::types::session::announced;
use crate::types::session::update_avatar_json;
use crate::types::session::Session;
use vstd::prelude::*;
use vstd::utf8::decode_utf8;
use vstd::utf8::valid_utf8;

verus! {

/// How many queued packets an entity has moved into its client's write
/// buffer during the current poll; never more than `MESSAGE_BATCH_SIZE`.
pub struct Batch {
    received: usize,
}

impl Batch {
    #[verifier::type_invariant]
    spec fn within_limit(self) -> bool {
        self.received <= MESSAGE_BATCH_SIZE
    }

    /// The number of packets moved so far.
    pub closed spec fn count(self) -> nat {
        self.received as nat
    }

    /// A batch in which nothing has been moved yet.
    pub fn new() -> (batch: Self)
        ensures
            batch.count() == 0,
    {
        Batch { received: 0 }
    }

    /// The number of packets moved so far.
    pub fn received(&self) -> (n: usize)
        ensures
            n == self.count(),
            n <= MESSAGE_BATCH_SIZE,
    {
        proof {
            use_type_invariant(self);
        }
        self.received
    }

    /// Whether another packet may be taken from the channel in this poll.
    pub fn has_room(&self) -> (room: bool)
        ensures
            room == (self.count() < MESSAGE_BATCH_SIZE),
    {
        self.received < MESSAGE_BATCH_SIZE
    }

    /// The decision for one poll of the channel, given whether it yielded a
    /// packet: take it while the batch has room, asking to be polled again
    /// when it is the one that fills the batch; otherwise stop.
    pub fn step(&mut self, arrived: bool) -> (step: BatchStep)
        ensures
            batch_step(old(self).count(), arrived, final(self).count(), step),
    {
        proof {
            use_type_invariant(&*self);
        }
        if arrived && self.received < MESSAGE_BATCH_SIZE {
            self.received = self.received + 1;
            BatchStep::Take { repoll: self.received == MESSAGE_BATCH_SIZE }
        } else {
            BatchStep::Stop
        }
    }
}

/// What an entity does after one poll of its channel: move the packet into
/// the write buffer (and ask to be polled again, if `repoll`), or stop.
#[derive(PartialEq, Eq, Structural, Debug, Clone, Copy)]
pub enum BatchStep {
    Take { repoll: bool },
    Stop,
}

/// One step of a batch: from `before` packets moved, a poll that found a
/// packet (`arrived`) while the batch had room moves it, and asks to be
/// polled again exactly when that fills the batch; otherwise the batch
/// stops where it is.
pub open spec fn batch_step(before: nat, arrived: bool, after: nat, step: BatchStep) -> bool {
    if arrived && before < MESSAGE_BATCH_SIZE {
        &&& after == before + 1
        &&& step == (BatchStep::Take { repoll: after == MESSAGE_BATCH_SIZE })
    } else {
        &&& after == before
        &&& step == BatchStep::Stop
    }
}

/// A poll of an entity's channel as a trace of batch steps: starting from
/// an empty batch, `steps[i]` is the step taken after the `i`-th poll of the
/// channel, which found a packet exactly when `arrived[i]`, and moved the
/// count from `counts[i]` to `counts[i + 1]`; the channel was polled only
/// while the batch had room, and polling went on only after a take.
pub open spec fn batch_trace(arrived: Seq<bool>, counts: Seq<nat>, steps: Seq<BatchStep>) -> bool {
    &&& steps.len() == arrived.len()
    &&& counts.len() == steps.len() + 1
    &&& counts[0] == 0
    &&& forall|i: int|
        #![trigger steps[i]]
        0 <= i < steps.len() ==> counts[i] < MESSAGE_BATCH_SIZE && batch_step(
            counts[i],
            arrived[i],
            counts[i + 1],
            steps[i],
        )
    &&& forall|i: int| #![trigger steps[i]] 0 <= i < steps.len() - 1 ==> !(steps[i] is Stop)
}

/// One poll of an entity moves `min(n, MESSAGE_BATCH_SIZE)` packets, where
/// `n` is how many the channel yields in a row: polling while the batch has
/// room, and moving on only after a take, the batch takes a packet from
/// each of the first polls, stops early only at a poll that found none, and
/// asks to be polled again exactly once, when the packet that fills the
/// batch is taken.
pub proof fn law_batch_drain(arrived: Seq<bool>, counts: Seq<nat>, steps: Seq<BatchStep>)
    requires
        batch_trace(arrived, counts, steps),
        counts.last() == MESSAGE_BATCH_SIZE || (steps.len() > 0 && (steps.last() is Stop)),
    ensures
        counts.last() <= MESSAGE_BATCH_SIZE,
        forall|i: int| 0 <= i < counts.last() ==> #[trigger] arrived[i],
        counts.last() < MESSAGE_BATCH_SIZE ==> steps.len() == counts.last() + 1
            && !arrived[counts.last() as int],
        counts.last() == MESSAGE_BATCH_SIZE ==> steps.len() == MESSAGE_BATCH_SIZE,
        forall|i: int|
            #![trigger steps[i]]
            0 <= i < counts.last() ==> steps[i] == (BatchStep::Take {
                repoll: i + 1 == MESSAGE_BATCH_SIZE,
            }),
{
    let n = steps.len() as int;
    assert forall|i: int| 0 <= i <= n - 1 implies #[trigger] counts[i] == i by {
        lemma_batch_counts(arrived, counts, steps, i);
    }
    if n > 0 {
        assert(steps[n - 1] == steps.last());
        assert(counts[n - 1] == n - 1);
        if steps[n - 1] == BatchStep::Stop {
            assert(counts[n] == counts[n - 1]);
        } else {
            assert(counts[n] == n);
        }
    }
    assert forall|i: int| 0 <= i < counts.last() implies #[trigger] arrived[i] by {
        assert(steps[i] != BatchStep::Stop);
    }
    assert forall|i: int| 0 <= i < counts.last() implies steps[i] == (BatchStep::Take {
        repoll: i + 1 == MESSAGE_BATCH_SIZE,
    }) by {
        assert(steps[i] != BatchStep::Stop);
        assert(counts[i] == i);
    }
}

proof fn lemma_batch_counts(arrived: Seq<bool>, counts: Seq<nat>, steps: Seq<BatchStep>, k: int)
    requires
        batch_trace(arrived, counts, steps),
        0 <= k < counts.len(),
        k <= steps.len() - 1 || k == 0,
    ensures
        counts[k] == k,
    decreases k,
{
    if k > 0 {
        lemma_batch_counts(arrived, counts, steps, k - 1);
        assert(steps[k - 1] != BatchStep::Stop);
    }
}

/// Hands a message that the entity `entity_key` sent to the session: a
/// message that is valid UTF-8 is forwarded to the master as an
/// `update_avatar` operation, with the outcome of its delivery; any other is
/// dropped (`None`) and nothing changes.
pub fn forward_message(session: &mut Session, entity_key: &[u8], raw: &[u8]) -> (forwarded: Option<Delivery>)
    requires
        old(session).wf(),
        valid_utf8(entity_key@),
    ensures
        final(session).wf(),
        forwarded.is_some() == valid_utf8(raw@),
        forwarded.is_some() && old(session).master_connected() ==> ({
            let m = old(session).master_key@;
            final(session).entities@[m].sent() == old(session).entities@[m].sent().push(
                (
                    json_object(
                        seq![
                            ("_op"@, "update_avatar"@),
                            ("key"@, decode_utf8(entity_key@)),
                            ("value"@, decode_utf8(raw@)),
                        ],
                        seq![],
                    ),
                    forwarded == Some(Delivery::Accepted),
                ),
            )
        }),
        match forwarded {
            Some(delivery) => announced(
                old(session).entities@,
                final(session).entities@,
                old(session).master_key@,
                update_avatar_json(decode_utf8(entity_key@), decode_utf8(raw@)),
                delivery,
            ),
            None => final(session).entities == old(session).entities,
        },
        final(session).avatars == old(session).avatars,
        final(session).master_key == old(session).master_key,
        final(session).config == old(session).config,
{
    match utf8_to_string(raw) {
        Some(text) => Some(session.handle_message(entity_key, text)),
        None => None,
    }
}

} // verus!

use vstd::prelude::*;
use vstd::string::*;

verus! {

/// Where batches of events are posted.
pub const POLYCORDER_PUBLISH_ENDPOINT: &'static str = "https://polycorder.polyverse.com/v1/events";

/// How the emitter reaches the service and when it flushes.
pub struct PolycorderConfig {
    pub auth_key: String,
    pub node_id: String,
    /// How long, in milliseconds, the emitter waits idle before it flushes.
    pub flush_timeout_millis: u64,
    pub flush_event_count: usize,
}

impl Clone for PolycorderConfig {
    fn clone(&self) -> (r: PolycorderConfig)
        ensures
            r.auth_key@ == self.auth_key@,
            r.node_id@ == self.node_id@,
            r.flush_timeout_millis == self.flush_timeout_millis,
            r.flush_event_count == self.flush_event_count,
    {
        PolycorderConfig {
            auth_key: self.auth_key.clone(),
            node_id: self.node_id.clone(),
            flush_timeout_millis: self.flush_timeout_millis,
            flush_event_count: self.flush_event_count,
        }
    }
}

/// An error in setting up the emitter.
#[derive(Clone, Debug)]
pub struct PolycorderError(pub String);

impl PolycorderError {
    /// The error as text.
    pub fn describe(&self) -> (r: String)
        ensures
            r@ == "PolycorderError:: "@ + self.0@,
    {
        let mut r = String::from_str("PolycorderError:: ");
        r.append(self.0.as_str());
        r
    }
}

/// What one wait on the emitter's inbound queue gave.
pub enum Received<E> {
    Event(E),
    TimedOut,
    Closed,
}

/// One decision of the emitter: the batch to post, if any, and the events
/// that stay pending.
pub open spec fn batch_step<E>(pending: Seq<E>, count: nat, input: Received<E>) -> (
    Option<Seq<E>>,
    Seq<E>,
) {
    match input {
        Received::Event(e) => {
            let b = pending.push(e);
            if b.len() >= count {
                (Some(b), Seq::empty())
            } else {
                (None, b)
            }
        },
        Received::TimedOut => {
            if pending.len() > 0 {
                (Some(pending), Seq::empty())
            } else {
                (None, pending)
            }
        },
        Received::Closed => (None, pending),
    }
}

/// The batches posted over a run of inputs, and what is pending at its end.
pub open spec fn batch_run<E>(pending: Seq<E>, count: nat, inputs: Seq<Received<E>>) -> (
    Seq<Seq<E>>,
    Seq<E>,
)
    decreases inputs.len(),
{
    if inputs.len() == 0 {
        (Seq::empty(), pending)
    } else {
        let (out, next) = batch_step(pending, count, inputs[0]);
        let (rest, last) = batch_run(next, count, inputs.drop_first());
        match out {
            Some(b) => (seq![b] + rest, last),
            None => (rest, last),
        }
    }
}

/// The events among `inputs`, in order.
pub open spec fn submitted<E>(inputs: Seq<Received<E>>) -> Seq<E>
    decreases inputs.len(),
{
    if inputs.len() == 0 {
        Seq::empty()
    } else {
        let rest = submitted(inputs.drop_first());
        match inputs[0] {
            Received::Event(e) => seq![e] + rest,
            _ => rest,
        }
    }
}

/// The batches one after the other.
pub open spec fn concat_batches<E>(batches: Seq<Seq<E>>) -> Seq<E>
    decreases batches.len(),
{
    if batches.len() == 0 {
        Seq::empty()
    } else {
        batches[0] + concat_batches(batches.drop_first())
    }
}

pub open spec fn batch_view<E>(r: Option<Vec<E>>) -> Option<Seq<E>> {
    match r {
        Some(v) => Some(v@),
        None => None,
    }
}

/// The emitter's pending events and the count that forces a flush.
pub struct EventBatcher<E> {
    events: Vec<E>,
    flush_event_count: usize,
}

impl<E> EventBatcher<E> {
    pub closed spec fn pending(&self) -> Seq<E> {
        self.events@
    }

    pub closed spec fn count(&self) -> nat {
        self.flush_event_count as nat
    }

    /// A batcher with nothing pending.
    pub fn new(flush_event_count: usize) -> (r: EventBatcher<E>)
        ensures
            r.pending() == Seq::<E>::empty(),
            r.count() == flush_event_count,
    {
        EventBatcher { events: Vec::new(), flush_event_count }
    }

    pub fn pending_len(&self) -> (r: usize)
        ensures
            r == self.pending().len(),
    {
        self.events.len()
    }

    /// Takes what a wait on the inbound queue gave, and returns the batch to
    /// post now, if any. An event is appended, and the whole buffer is
    /// flushed once it holds the flush count; a timeout flushes a non-empty
    /// buffer; a closed queue changes nothing.
    pub fn on_receive(&mut self, input: Received<E>) -> (r: Option<Vec<E>>)
        ensures
            final(self).count() == old(self).count(),
            (batch_view(r), final(self).pending()) == batch_step(
                old(self).pending(),
                old(self).count(),
                input,
            ),
    {
        let flush = match input {
            Received::Event(e) => {
                self.events.push(e);
                self.events.len() >= self.flush_event_count
            },
            Received::TimedOut => true,
            Received::Closed => false,
        };
        if flush && self.events.len() > 0 {
            let mut batch = Vec::new();
            std::mem::swap(&mut batch, &mut self.events);
            Some(batch)
        } else {
            None
        }
    }
}

/// Whatever a run of inputs was, the posted batches, one after the other,
/// followed by what is still pending, are the events that were pending at
/// the start followed by those submitted, in submission order: no event is
/// posted twice, none that was not submitted, and each batch keeps the
/// order of submission.
pub proof fn lemma_batches_keep_order<E>(pending: Seq<E>, count: nat, inputs: Seq<Received<E>>)
    ensures
        concat_batches(batch_run(pending, count, inputs).0) + batch_run(pending, count, inputs).1
            == pending + submitted(inputs),
    decreases inputs.len(),
{
    if inputs.len() == 0 {
        assert(pending + Seq::<E>::empty() =~= pending);
        assert(concat_batches(Seq::<Seq<E>>::empty()) + pending =~= pending);
    } else {
        let (out, next) = batch_step(pending, count, inputs[0]);
        let tail = inputs.drop_first();
        lemma_batches_keep_order(next, count, tail);
        let (rest, last) = batch_run(next, count, tail);
        match out {
            Some(b) => {
                assert((seq![b] + rest).drop_first() =~= rest);
                assert(concat_batches(seq![b] + rest) == b + concat_batches(rest));
            },
            None => {},
        }
        match inputs[0] {
            Received::Event(e) => {
                assert(pending + submitted(inputs) =~= pending.push(e) + submitted(tail));
            },
            _ => {},
        }
        match out {
            Some(b) => {
                assert(b + concat_batches(rest) + last =~= b + (concat_batches(rest) + last));
                assert(next =~= Seq::<E>::empty());
                assert(next + submitted(tail) =~= submitted(tail));
            },
            None => {},
        }
    }
}

/// Every batch that is posted is non-empty.
pub proof fn lemma_batches_non_empty<E>(pending: Seq<E>, count: nat, inputs: Seq<Received<E>>)
    ensures
        forall|i: int|
            0 <= i < batch_run(pending, count, inputs).0.len() ==> #[trigger] batch_run(
                pending,
                count,
                inputs,
            ).0[i].len() > 0,
    decreases inputs.len(),
{
    if inputs.len() > 0 {
        let (out, next) = batch_step(pending, count, inputs[0]);
        lemma_batches_non_empty(next, count, inputs.drop_first());
        let (rest, last) = batch_run(next, count, inputs.drop_first());
        match out {
            Some(b) => {
                assert forall|i: int| 0 <= i < (seq![b] + rest).len() implies #[trigger] (seq![b]
                    + rest)[i].len() > 0 by {
                    if i > 0 {
                        assert((seq![b] + rest)[i] == rest[i - 1]);
                    }
                }
            },
            None => {},
        }
    }
}

/// An emitter flushes as soon as its pending events reach the flush count:
/// the event that brings them there is posted together with all those
/// before it, and nothing stays pending.
pub proof fn lemma_count_forces_flush<E>(pending: Seq<E>, count: nat, e: E)
    requires
        pending.len() + 1 >= count,
    ensures
        batch_step(pending, count, Received::Event(e)) == (
            Some(pending.push(e)),
            Seq::<E>::empty(),
        ),
{
}

/// An idle emitter with events pending posts all of them when its wait on
/// the inbound queue times out.
pub proof fn lemma_timeout_forces_flush<E>(pending: Seq<E>, count: nat)
    requires
        pending.len() > 0,
    ensures
        batch_step(pending, count, Received::<E>::TimedOut) == (Some(pending), Seq::<E>::empty()),
{
}

} // verus!

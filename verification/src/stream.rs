//! The typed stream front end: one subscription's receiver, bound to
//! exactly one concrete event type by its runtime type tag.
//!
//! Of what arrives on the channel, the stream yields exactly the events
//! carrying its tag, in arrival order. An event of another type is
//! discarded and pulling continues at once — a mismatch is never
//! reported as the stream being idle, so it cannot stall the sequence.
//! The sequence ends only when the producer side is gone, and is not
//! restartable once ended.

use vstd::prelude::*;
use futures::channel::mpsc::UnboundedReceiver;
use crate::channel::{channel_next, ChannelNext};
use crate::events::EventHandle;

verus! {

/// One pull on a typed event stream.
pub enum StreamStep {
    /// The next event of the bound type, still shared with every other
    /// queue it was delivered to.
    Item(EventHandle),
    /// The producer side is gone and nothing is left: the sequence has
    /// ended.
    Ended,
    /// Nothing is available right now; pull again once the producer has
    /// dispatched and drained.
    Pending,
    /// An event of another type was consumed and dropped; pull again at
    /// once, the stream is not idle.
    Discarded,
}

/// What one channel answer means to a stream bound to `bound`: a
/// fetched event yields itself when it carries the bound tag and is
/// discarded otherwise; the end of the channel ends the stream; an
/// empty channel leaves it pending.
pub open spec fn classify_spec(step: ChannelNext, bound: u64) -> StreamStep {
    match step {
        ChannelNext::Item(h) => if h.type_tag == bound {
            StreamStep::Item(h)
        } else {
            StreamStep::Discarded
        },
        ChannelNext::Ended => StreamStep::Ended,
        ChannelNext::Empty => StreamStep::Pending,
    }
}

/// Turn one channel answer into the stream step it means for a stream
/// bound to `bound`.
pub fn classify(step: ChannelNext, bound: u64) -> (r: StreamStep)
    ensures
        r == classify_spec(step, bound),
{
    match step {
        ChannelNext::Item(h) => {
            if h.type_tag == bound {
                StreamStep::Item(h)
            } else {
                StreamStep::Discarded
            }
        },
        ChannelNext::Ended => StreamStep::Ended,
        ChannelNext::Empty => StreamStep::Pending,
    }
}

/// One bounded pulling pass, described by the channel answers it
/// consumed: every answer before the last was a discarded mismatch; a
/// result other than `Discarded` is the meaning of the last answer;
/// `Discarded` itself comes back only once all `attempts` pulls were
/// consumed by mismatches.
pub open spec fn bounded_pull(
    steps: Seq<ChannelNext>,
    bound: u64,
    attempts: int,
    r: StreamStep,
) -> bool {
    &&& steps.len() <= attempts
    &&& forall|t: int|
        0 <= t < steps.len() - 1 ==> classify_spec(#[trigger] steps[t], bound) is Discarded
    &&& if r is Discarded {
        &&& steps.len() == attempts
        &&& forall|t: int|
            0 <= t < steps.len() ==> classify_spec(#[trigger] steps[t], bound) is Discarded
    } else {
        &&& steps.len() >= 1
        &&& r == classify_spec(steps.last(), bound)
    }
}

/// The receiver part of an event subscription, yielding only events of
/// one concrete type.
pub struct EventStream {
    events: UnboundedReceiver<EventHandle>,
    type_tag: u64,
}

impl EventStream {
    /// The runtime type tag this stream is bound to.
    pub closed spec fn bound_tag(&self) -> u64 {
        self.type_tag
    }

    /// The receiver this stream draws from.
    pub closed spec fn receiver(&self) -> UnboundedReceiver<EventHandle> {
        self.events
    }

    /// Wrap a receiver; construction stores it as it was handed in and
    /// consumes nothing from it.
    pub fn new(events: UnboundedReceiver<EventHandle>, type_tag: u64) -> (r: EventStream)
        ensures
            r.bound_tag() == type_tag,
            r.receiver() == events,
    {
        EventStream { events, type_tag }
    }

    /// One pull: the result is what the channel's answer means to this
    /// stream — an event carrying the bound tag is yielded; one
    /// carrying another tag is discarded and reported as such, never as
    /// the stream being idle.
    pub fn poll_next(&mut self) -> (r: StreamStep)
        ensures
            final(self).bound_tag() == old(self).bound_tag(),
            exists|step: ChannelNext| r == classify_spec(step, old(self).bound_tag()),
            forall|h: EventHandle|
                r == StreamStep::Item(h) ==> h.type_tag == old(self).bound_tag(),
    {
        let step = channel_next(&mut self.events);
        let ghost step_g = step;
        let r = classify(step, self.type_tag);
        proof {
            assert(r == classify_spec(step_g, old(self).bound_tag()));
        }
        r
    }

    /// Pull until an event of the bound type, the end of the sequence,
    /// or an idle channel, discarding mismatched events and continuing
    /// at once; `attempts` bounds the pulls of one call, and only when
    /// every one of them was consumed by a mismatch does the result say
    /// `Discarded`: another call must follow immediately, the stream is
    /// not idle.
    pub fn next_event(&mut self, attempts: usize) -> (r: StreamStep)
        ensures
            final(self).bound_tag() == old(self).bound_tag(),
            exists|steps: Seq<ChannelNext>|
                bounded_pull(steps, old(self).bound_tag(), attempts as int, r),
            forall|h: EventHandle|
                r == StreamStep::Item(h) ==> h.type_tag == old(self).bound_tag(),
    {
        let mut left: usize = attempts;
        let ghost mut steps: Seq<ChannelNext> = Seq::empty();
        while left > 0
            invariant
                self.bound_tag() == old(self).bound_tag(),
                left <= attempts,
                steps.len() == attempts - left,
                forall|t: int|
                    0 <= t < steps.len() ==> classify_spec(
                        #[trigger] steps[t],
                        old(self).bound_tag(),
                    ) is Discarded,
            decreases left,
        {
            let step = channel_next(&mut self.events);
            let ghost step_g = step;
            let r = classify(step, self.type_tag);
            proof {
                steps = steps.push(step_g);
            }
            match r {
                StreamStep::Discarded => {
                    left = left - 1;
                },
                StreamStep::Item(h) => {
                    proof {
                        assert(bounded_pull(
                            steps,
                            old(self).bound_tag(),
                            attempts as int,
                            StreamStep::Item(h),
                        ));
                    }
                    return StreamStep::Item(h);
                },
                StreamStep::Ended => {
                    proof {
                        assert(bounded_pull(
                            steps,
                            old(self).bound_tag(),
                            attempts as int,
                            StreamStep::Ended,
                        ));
                    }
                    return StreamStep::Ended;
                },
                StreamStep::Pending => {
                    proof {
                        assert(bounded_pull(
                            steps,
                            old(self).bound_tag(),
                            attempts as int,
                            StreamStep::Pending,
                        ));
                    }
                    return StreamStep::Pending;
                },
            }
        }
        proof {
            assert(bounded_pull(steps, old(self).bound_tag(), attempts as int,
                StreamStep::Discarded));
        }
        StreamStep::Discarded
    }
}

} // verus!

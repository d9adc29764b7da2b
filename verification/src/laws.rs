//! Delivery laws: what holds of every dispatch and drain sequence,
//! proved over the relations the registry's contracts are stated in.

use vstd::prelude::*;
use crate::events::EventRecord;
use crate::subscribe::{
    row_custom_enqueued, row_drained, row_enqueued, sub_enqueued, sub_flushed, EventSubscription,
};

verus! {

/// The dispatch history of a subscription: everything handed to its
/// channel, followed by everything still pending, in dispatch order.
pub open spec fn history(s: EventSubscription) -> Seq<EventRecord> {
    s.delivered_log() + s.queued()
}

/// Queueing an event appends it to the dispatch history; nothing else
/// moves.
pub proof fn lemma_enqueue_appends_history(
    pre: EventSubscription,
    post: EventSubscription,
    r: EventRecord,
)
    requires
        sub_enqueued(pre, post, r),
    ensures
        history(post) == history(pre).push(r),
{
    assert(history(post) =~= history(pre).push(r));
}

/// A complete flush moves the history into the delivery log unchanged:
/// no event is lost and none is reordered, however many dispatch and
/// drain cycles came before.
pub proof fn lemma_flush_keeps_history(pre: EventSubscription, post: EventSubscription)
    requires
        sub_flushed(pre, post),
    ensures
        history(post) == history(pre),
        post.delivered_log() == history(pre),
{
    assert(history(post) =~= history(pre));
}

/// A subscription after a sequence of dispatches: each event of `es`
/// was appended to its pending queue in turn, nothing else changed.
pub open spec fn sub_enqueued_all(
    pre: EventSubscription,
    post: EventSubscription,
    es: Seq<EventRecord>,
) -> bool
    decreases es.len(),
{
    if es.len() == 0 {
        &&& post.sub_kind() == pre.sub_kind()
        &&& post.channel() == pre.channel()
        &&& post.queued() == pre.queued()
        &&& post.delivered_log() == pre.delivered_log()
    } else {
        exists|mid: EventSubscription|
            sub_enqueued_all(pre, mid, es.drop_last()) && sub_enqueued(mid, post, es.last())
    }
}

/// Dispatching leaves the delivery log alone and appends to the queue
/// in dispatch order.
pub proof fn lemma_enqueued_all_queue(
    pre: EventSubscription,
    post: EventSubscription,
    es: Seq<EventRecord>,
)
    requires
        sub_enqueued_all(pre, post, es),
    ensures
        post.sub_kind() == pre.sub_kind(),
        post.channel() == pre.channel(),
        post.queued() == pre.queued() + es,
        post.delivered_log() == pre.delivered_log(),
    decreases es.len(),
{
    if es.len() == 0 {
        assert(post.queued() =~= pre.queued() + es);
    } else {
        let mid = choose|mid: EventSubscription|
            sub_enqueued_all(pre, mid, es.drop_last()) && sub_enqueued(mid, post, es.last());
        lemma_enqueued_all_queue(pre, mid, es.drop_last());
        assert(post.queued() =~= pre.queued() + es);
    }
}

/// Every still-connected subscription yields every dispatched event in
/// dispatch order: after any sequence of dispatches on its key and a
/// drain pass that flushes it, a subscription has handed its channel
/// first the old backlog and then the new events, exactly in dispatch
/// order, and nothing is left queued.
pub proof fn lemma_fifo_delivery(
    s0: EventSubscription,
    s1: EventSubscription,
    s2: EventSubscription,
    es: Seq<EventRecord>,
)
    requires
        sub_enqueued_all(s0, s1, es),
        sub_flushed(s1, s2),
    ensures
        s2.delivered_log() == s0.delivered_log() + s0.queued() + es,
        s2.queued().len() == 0,
        s2.sub_kind() == s0.sub_kind(),
        s2.channel() == s0.channel(),
{
    lemma_enqueued_all_queue(s0, s1, es);
    assert(s2.delivered_log() =~= s0.delivered_log() + s0.queued() + es);
}

/// One custom dispatch hands every custom subscription under the key
/// one and the same decoded instance: the records at the tails of
/// their queues are equal, identity included.
pub proof fn lemma_shared_instance(
    pre: Seq<EventSubscription>,
    post: Seq<EventSubscription>,
    r: EventRecord,
    a: int,
    b: int,
)
    requires
        row_custom_enqueued(pre, post, r),
        0 <= a < pre.len(),
        0 <= b < pre.len(),
        pre[a].sub_kind() is Custom,
        pre[b].sub_kind() is Custom,
    ensures
        post[a].queued().last() == post[b].queued().last(),
        post[a].queued().last().id == r.id,
{
}

/// One dispatch followed by one drain pass: every subscription the
/// drain retained is one of the key's subscriptions from before the
/// dispatch, now with an empty queue, having handed its channel its
/// old backlog and then the dispatched event, in that order; one whose
/// consumer was seen gone is no longer there to be touched.
pub proof fn lemma_dispatch_then_drain(
    r0: Seq<EventSubscription>,
    r1: Seq<EventSubscription>,
    r2: Seq<EventSubscription>,
    e: EventRecord,
    a: int,
)
    requires
        row_enqueued(r0, r1, e),
        row_drained(r1, r2),
        0 <= a < r2.len(),
    ensures
        exists|b: int|
            0 <= b < r0.len() && r2[a].queued().len() == 0 && r2[a].delivered_log()
                == r0[b].delivered_log() + r0[b].queued() + seq![e],
{
    let f = choose|f: Seq<int>|
        {
            &&& f.len() == r2.len()
            &&& forall|x: int, y: int| 0 <= x < y < f.len() ==> #[trigger] f[x] < #[trigger] f[y]
            &&& forall|x: int|
                0 <= x < f.len() ==> 0 <= #[trigger] f[x] < r1.len() && sub_flushed(
                    r1[f[x]],
                    r2[x],
                )
        };
    let b = f[a];
    assert(sub_enqueued(r0[b], r1[b], e));
    assert(r2[a].delivered_log() =~= r0[b].delivered_log() + r0[b].queued() + seq![e]);
}

/// In a strictly increasing index sequence, each entry is at least its
/// position.
proof fn lemma_increasing_lower_bound(f: Seq<int>, a: int)
    requires
        forall|x: int, y: int| 0 <= x < y < f.len() ==> #[trigger] f[x] < #[trigger] f[y],
        forall|x: int| 0 <= x < f.len() ==> #[trigger] f[x] >= 0,
        0 <= a < f.len(),
    ensures
        f[a] >= a,
    decreases a,
{
    if a > 0 {
        lemma_increasing_lower_bound(f, a - 1);
        assert(f[a - 1] < f[a]);
    }
}

/// A drain pass never adds a subscription: whatever the channels
/// reported, afterwards a key has at most as many subscribers as
/// before, so removal is observable as a smaller count.
pub proof fn lemma_drain_never_adds(pre: Seq<EventSubscription>, post: Seq<EventSubscription>)
    requires
        row_drained(pre, post),
    ensures
        post.len() <= pre.len(),
{
    let f = choose|f: Seq<int>|
        {
            &&& f.len() == post.len()
            &&& forall|x: int, y: int| 0 <= x < y < f.len() ==> #[trigger] f[x] < #[trigger] f[y]
            &&& forall|x: int|
                0 <= x < f.len() ==> 0 <= #[trigger] f[x] < pre.len() && sub_flushed(
                    pre[f[x]],
                    post[x],
                )
        };
    if post.len() > 0 {
        lemma_increasing_lower_bound(f, post.len() - 1);
    }
}

/// A native subscription receives nothing from a custom dispatch on
/// its key: it comes out of the dispatch exactly as it went in.
pub proof fn lemma_native_untouched(
    pre: Seq<EventSubscription>,
    post: Seq<EventSubscription>,
    r: EventRecord,
    a: int,
)
    requires
        row_custom_enqueued(pre, post, r),
        0 <= a < pre.len(),
        pre[a].sub_kind() is Native,
    ensures
        post[a] == pre[a],
        post[a].queued() == pre[a].queued(),
{
}

} // verus!

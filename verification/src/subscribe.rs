//! The subscription registry: per-consumer delivery records, dispatch of
//! native and custom events, and the garbage-collecting drain pass.

use vstd::prelude::*;
use futures::channel::mpsc::UnboundedSender;
use crate::channel::{send_event, sender_is_closed};
use crate::decode::{check_spec, CustomDecoder, DecodeError};
use crate::events::{arc_clone, make_handle, rec_of, EventData, EventHandle, EventRecord, RawValue};

verus! {

/// What kind of events a subscription receives: a schema-known native
/// type, or an application-defined custom type with its decoder.
pub enum EventKind {
    Native,
    Custom(CustomDecoder),
}

impl EventKind {
    pub open spec fn spec_is_custom(&self) -> bool {
        self is Custom
    }

    #[verifier::when_used_as_spec(spec_is_custom)]
    pub fn is_custom(&self) -> (r: bool)
        ensures
            r == self.spec_is_custom(),
    {
        match self {
            EventKind::Custom(_) => true,
            EventKind::Native => false,
        }
    }
}

/// The outcome of one drain pass over a single subscription.
pub enum PollStatus {
    /// Every queued event was handed to the channel; the subscription
    /// stays registered.
    Flushed,
    /// The channel reported its consumer side gone; the registry removes
    /// the subscription.
    Disconnected,
}

/// One consumer's registration: the sender half of its delivery channel,
/// the FIFO queue of events dispatched but not yet handed to the
/// channel, and the kind of events it receives.
pub struct EventSubscription {
    listener: UnboundedSender<EventHandle>,
    queued_events: Vec<EventHandle>,
    kind: EventKind,
    delivered: Ghost<Seq<EventRecord>>,
}

impl EventSubscription {
    /// The events waiting in the pending queue, oldest first.
    pub closed spec fn queued(&self) -> Seq<EventRecord> {
        self.queued_events@.map_values(|h: EventHandle| rec_of(h))
    }

    /// Every event this subscription has handed to its channel, in
    /// delivery order.
    pub closed spec fn delivered_log(&self) -> Seq<EventRecord> {
        self.delivered@
    }

    pub closed spec fn sub_kind(&self) -> EventKind {
        self.kind
    }

    pub closed spec fn channel(&self) -> UnboundedSender<EventHandle> {
        self.listener
    }

    pub fn new(listener: UnboundedSender<EventHandle>, kind: EventKind) -> (r: EventSubscription)
        ensures
            fresh_sub(r, kind, listener),
    {
        let s = EventSubscription {
            listener,
            queued_events: Vec::new(),
            kind,
            delivered: Ghost(Seq::empty()),
        };
        proof {
            assert(s.queued() =~= Seq::<EventRecord>::empty());
        }
        s
    }

    /// Queue in a new event; it is delivered, in arrival order, by a
    /// later drain pass.
    pub fn start_send(&mut self, event: EventHandle)
        ensures
            sub_enqueued(*old(self), *final(self), rec_of(event)),
    {
        let ghost pre = *self;
        self.queued_events.push(event);
        proof {
            assert(self.queued() =~= pre.queued().push(rec_of(event)));
        }
    }

    /// The delivery state machine of one drain pass: while the channel
    /// accepts items, hand over queued events oldest first; report
    /// `Disconnected` as soon as the channel shows its consumer gone,
    /// `Flushed` once the queue is empty.
    pub fn poll(&mut self) -> (r: PollStatus)
        ensures
            r is Flushed ==> sub_flushed(*old(self), *final(self)),
            final(self).sub_kind() == old(self).sub_kind(),
            final(self).channel() == old(self).channel(),
            exists|k: int|
                0 <= k <= old(self).queued().len() && final(self).delivered_log() == old(
                    self,
                ).delivered_log() + old(self).queued().take(k),
    {
        let ghost pre = *self;
        let ghost mut sent: int = 0;
        loop
            invariant
                pre == *old(self),
                self.kind == pre.kind,
                self.listener == pre.listener,
                0 <= sent <= pre.queued().len(),
                self.delivered_log() == pre.delivered_log() + pre.queued().take(sent),
                self.queued() == pre.queued().skip(sent),
            decreases pre.queued().len() - sent,
        {
            if sender_is_closed(&self.listener) {
                return PollStatus::Disconnected;
            }
            if self.queued_events.len() == 0 {
                proof {
                    assert(pre.queued().skip(sent).len() == 0);
                    assert(sent == pre.queued().len());
                    assert(pre.queued().take(sent) =~= pre.queued());
                    assert(self.queued() =~= Seq::<EventRecord>::empty());
                }
                return PollStatus::Flushed;
            }
            let ghost ev_rec: EventRecord = rec_of(self.queued_events@[0]);
            let ev = self.queued_events.remove(0);
            let accepted = send_event(&self.listener, ev);
            if !accepted {
                return PollStatus::Disconnected;
            }
            proof {
                self.delivered@ = self.delivered@.push(ev_rec);
                assert(pre.queued().skip(sent)[0] == ev_rec);
                assert(pre.queued().take(sent + 1) =~= pre.queued().take(sent).push(ev_rec));
                assert(pre.queued().skip(sent + 1) =~= pre.queued().skip(sent).skip(1));
                assert(self.queued() =~= pre.queued().skip(sent + 1));
                assert(self.delivered_log() =~= pre.delivered_log() + pre.queued().take(sent + 1));
                sent = sent + 1;
            }
        }
    }
}

/// A subscription as registration creates it: the given kind and
/// channel, nothing queued, nothing delivered.
pub open spec fn fresh_sub(
    s: EventSubscription,
    kind: EventKind,
    listener: UnboundedSender<EventHandle>,
) -> bool {
    &&& s.sub_kind() == kind
    &&& s.channel() == listener
    &&& s.queued() == Seq::<EventRecord>::empty()
    &&& s.delivered_log() == Seq::<EventRecord>::empty()
}

/// `post` is `pre` with the event `r` appended to its pending queue and
/// nothing else changed.
pub open spec fn sub_enqueued(
    pre: EventSubscription,
    post: EventSubscription,
    r: EventRecord,
) -> bool {
    &&& post.sub_kind() == pre.sub_kind()
    &&& post.channel() == pre.channel()
    &&& post.queued() == pre.queued().push(r)
    &&& post.delivered_log() == pre.delivered_log()
}

/// `post` is `pre` after a complete flush: the whole pending queue was
/// handed to the channel, in arrival order.
pub open spec fn sub_flushed(pre: EventSubscription, post: EventSubscription) -> bool {
    &&& post.sub_kind() == pre.sub_kind()
    &&& post.channel() == pre.channel()
    &&& post.queued() == Seq::<EventRecord>::empty()
    &&& post.delivered_log() == pre.delivered_log() + pre.queued()
}

/// Every subscription of `post` is the corresponding one of `pre` with
/// the event `r` appended to its queue.
pub open spec fn row_enqueued(
    pre: Seq<EventSubscription>,
    post: Seq<EventSubscription>,
    r: EventRecord,
) -> bool {
    &&& post.len() == pre.len()
    &&& forall|j: int| 0 <= j < pre.len() ==> sub_enqueued(pre[j], #[trigger] post[j], r)
}

/// The custom subscriptions of `post` got the event `r` appended; the
/// native ones are exactly as they were in `pre`.
pub open spec fn row_custom_enqueued(
    pre: Seq<EventSubscription>,
    post: Seq<EventSubscription>,
    r: EventRecord,
) -> bool {
    &&& post.len() == pre.len()
    &&& forall|j: int|
        0 <= j < pre.len() ==> if pre[j].sub_kind() is Custom {
            sub_enqueued(pre[j], #[trigger] post[j], r)
        } else {
            post[j] == pre[j]
        }
}

/// Whether the row holds at least one custom subscription.
pub open spec fn has_custom(row: Seq<EventSubscription>) -> bool {
    exists|j: int| 0 <= j < row.len() && (#[trigger] row[j].sub_kind()) is Custom
}

/// `j` is the position of the first custom subscription in the row.
pub open spec fn is_first_custom(row: Seq<EventSubscription>, j: int) -> bool {
    &&& 0 <= j < row.len()
    &&& row[j].sub_kind() is Custom
    &&& forall|t: int| 0 <= t < j ==> !((#[trigger] row[t].sub_kind()) is Custom)
}

/// The decoder a custom kind carries.
pub open spec fn kind_decoder(k: EventKind) -> CustomDecoder
    recommends
        k is Custom,
{
    match k {
        EventKind::Custom(d) => d,
        EventKind::Native => arbitrary(),
    }
}

/// The record dispatch wraps: the instance identity it assigns, the
/// runtime type tag, and the payload.
pub open spec fn wrapped(id: u64, type_tag: u64, payload: RawValue) -> EventRecord {
    EventRecord { id, type_tag, payload }
}

/// The instance identity the next dispatch assigns, after `id` was
/// used.
pub open spec fn next_of(id: u64) -> u64 {
    if id == u64::MAX {
        0
    } else {
        (id + 1) as u64
    }
}

/// `post` is `pre` with some subscriptions removed and every retained
/// one completely flushed, their order kept.
pub open spec fn row_drained(pre: Seq<EventSubscription>, post: Seq<EventSubscription>) -> bool {
    exists|f: Seq<int>|
        {
            &&& f.len() == post.len()
            &&& forall|a: int, b: int| 0 <= a < b < f.len() ==> #[trigger] f[a] < #[trigger] f[b]
            &&& forall|a: int|
                0 <= a < f.len() ==> 0 <= #[trigger] f[a] < pre.len() && sub_flushed(
                    pre[f[a]],
                    post[a],
                )
        }
}

/// A registration request: the sender half of a freshly made delivery
/// channel, the method key to listen on, and the kind of events wanted.
pub struct SubscriptionRequest {
    listener: UnboundedSender<EventHandle>,
    method: String,
    kind: EventKind,
}

impl SubscriptionRequest {
    pub closed spec fn method_key(&self) -> Seq<char> {
        self.method@
    }

    pub closed spec fn req_kind(&self) -> EventKind {
        self.kind
    }

    pub closed spec fn req_listener(&self) -> UnboundedSender<EventHandle> {
        self.listener
    }

    pub fn new(listener: UnboundedSender<EventHandle>, method: String, kind: EventKind) -> (r:
        SubscriptionRequest)
        ensures
            r.method_key() == method@,
            r.req_kind() == kind,
            r.req_listener() == listener,
    {
        SubscriptionRequest { listener, method, kind }
    }
}

/// All currently active subscriptions: for each method key, the list of
/// subscribers registered under it. A key whose subscribers have all
/// been removed keeps its empty list as harmless garbage.
pub struct Subscriptions {
    subs: Vec<(String, Vec<EventSubscription>)>,
    next_id: u64,
}

impl Subscriptions {
    pub closed spec fn rows(&self) -> Seq<(String, Vec<EventSubscription>)> {
        self.subs@
    }

    pub closed spec fn next_id(&self) -> u64 {
        self.next_id
    }

    pub open spec fn n_keys(&self) -> int {
        self.rows().len() as int
    }

    pub open spec fn key_at(&self, i: int) -> Seq<char> {
        self.rows()[i].0@
    }

    pub open spec fn row_at(&self, i: int) -> Seq<EventSubscription> {
        self.rows()[i].1@
    }

    /// Each method key appears at most once.
    pub open spec fn wf(&self) -> bool {
        forall|i: int, j: int|
            0 <= i < j < self.n_keys() ==> #[trigger] self.key_at(i) != #[trigger] self.key_at(j)
    }

    pub open spec fn has_key(&self, k: Seq<char>) -> bool {
        exists|i: int| 0 <= i < self.n_keys() && #[trigger] self.key_at(i) == k
    }

    pub fn new() -> (r: Subscriptions)
        ensures
            r.wf(),
            r.n_keys() == 0,
            r.next_id() == 0,
    {
        Subscriptions { subs: Vec::new(), next_id: 0 }
    }

    /// The number of subscriptions currently registered under a key.
    pub fn subscriber_count(&self, method: &String) -> (r: usize)
        requires
            self.wf(),
        ensures
            forall|i: int|
                0 <= i < self.n_keys() && #[trigger] self.key_at(i) == method@ ==> r
                    == self.row_at(i).len(),
            !self.has_key(method@) ==> r == 0,
    {
        match find_key(&self.subs, method) {
            Some(i) => {
                proof {
                    assert(self.rows() == self.subs@);
                    assert(self.key_at(i as int) == method@);
                    assert(self.has_key(method@));
                    assert(forall|t: int|
                        0 <= t < self.n_keys() && t != i ==> #[trigger] self.key_at(t)
                            != method@);
                }
                let c: usize = self.subs[i].1.len();
                proof {
                    assert(c == self.row_at(i as int).len());
                }
                c
            },
            None => {
                proof {
                    assert(forall|t: int|
                        0 <= t < self.n_keys() ==> #[trigger] self.key_at(t) != method@);
                    assert(!self.has_key(method@));
                }
                0
            },
        }
    }

    /// Register a subscription for a method: append a fresh record to
    /// the key's list, creating the list if the key is new. No cap and
    /// no deduplication.
    pub fn add_listener(&mut self, req: SubscriptionRequest)
        requires
            old(self).wf(),
        ensures
            final(self).wf(),
            final(self).next_id() == old(self).next_id(),
            forall|i: int|
                0 <= i < old(self).n_keys() ==> final(self).key_at(i) == old(self).key_at(i),
            forall|i: int|
                0 <= i < old(self).n_keys() && old(self).key_at(i) != req.method_key()
                    ==> final(self).row_at(i) == old(self).row_at(i),
            forall|i: int|
                0 <= i < old(self).n_keys() && old(self).key_at(i) == req.method_key() ==> {
                    &&& final(self).row_at(i).len() == old(self).row_at(i).len() + 1
                    &&& final(self).row_at(i).take(old(self).row_at(i).len() as int) == old(self).row_at(i)
                    &&& fresh_sub(
                        final(self).row_at(i).last(),
                        req.req_kind(),
                        req.req_listener(),
                    )
                },
            old(self).has_key(req.method_key()) ==> final(self).n_keys() == old(self).n_keys(),
            !old(self).has_key(req.method_key()) ==> {
                &&& final(self).n_keys() == old(self).n_keys() + 1
                &&& final(self).key_at(old(self).n_keys()) == req.method_key()
                &&& final(self).row_at(old(self).n_keys()).len() == 1
                &&& fresh_sub(
                    final(self).row_at(old(self).n_keys())[0],
                    req.req_kind(),
                    req.req_listener(),
                )
            },
    {
        let SubscriptionRequest { listener, method, kind } = req;
        let sub = EventSubscription::new(listener, kind);
        match find_key(&self.subs, &method) {
            Some(i) => {
                let ghost pre = self.subs@;
                let (key, mut row) = self.subs.remove(i);
                let ghost r0 = row@;
                row.push(sub);
                proof {
                    assert(row@.take(r0.len() as int) =~= r0);
                }
                let elt = (key, row);
                let ghost elt_g = elt;
                self.subs.insert(i, elt);
                proof {
                    lemma_remove_insert_pointwise(pre, self.subs@, i as int, elt_g);
                    assert forall|t: int|
                        0 <= t < pre.len() implies self.key_at(t) == old(self).key_at(t) by {}
                    assert(self.wf());
                    assert(old(self).key_at(i as int) == pre[i as int].0@);
                    assert(old(self).has_key(pre[i as int].0@));
                    assert forall|t: int|
                        0 <= t < pre.len() && old(self).key_at(t) == pre[i as int].0@
                            implies t == i as int by {
                        if t < i as int {
                            assert(old(self).key_at(t) != old(self).key_at(i as int));
                        } else if t > i as int {
                            assert(old(self).key_at(i as int) != old(self).key_at(t));
                        }
                    }
                }
            },
            None => {
                let ghost pre = self.subs@;
                self.subs.push((method, vec![sub]));
                proof {
                    assert(self.subs@[pre.len() as int].1@ =~= seq![sub]);
                    assert forall|t: int|
                        0 <= t < pre.len() implies self.subs@[t] == pre[t] by {}
                    assert forall|t: int|
                        0 <= t < pre.len() implies self.key_at(t) == old(self).key_at(t) by {}
                    assert(!old(self).has_key(self.subs@[pre.len() as int].0@));
                    assert(self.wf());
                }
            },
        }
    }

    /// Dispatch a native event: if the key has subscriptions, wrap the
    /// event once into a shared handle and enqueue it onto every
    /// subscription under the key, regardless of kind. Never blocks,
    /// never fails; with no subscriber under the key, nothing changes.
    pub fn start_send(&mut self, method: &String, event: EventData)
        requires
            old(self).wf(),
        ensures
            final(self).wf(),
            final(self).n_keys() == old(self).n_keys(),
            forall|i: int|
                0 <= i < old(self).n_keys() ==> final(self).key_at(i) == old(self).key_at(i),
            forall|i: int|
                0 <= i < old(self).n_keys() && old(self).key_at(i) != method@ ==> final(self).row_at(i) == old(self).row_at(i),
            forall|i: int|
                0 <= i < old(self).n_keys() && old(self).key_at(i) == method@ ==> row_enqueued(
                    old(self).row_at(i),
                    final(self).row_at(i),
                    wrapped(old(self).next_id(), event.type_tag, event.payload),
                ),
            old(self).has_key(method@) ==> final(self).next_id() == next_of(old(self).next_id()),
            !old(self).has_key(method@) ==> final(self).rows() == old(self).rows() && final(self).next_id() == old(self).next_id(),
    {
        match find_key(&self.subs, method) {
            Some(i) => {
                let id: u64 = self.next_id;
                self.next_id = if id == u64::MAX {
                    0
                } else {
                    id + 1
                };
                let h = make_handle(id, event);
                let ghost pre = self.subs@;
                let (key, mut row) = self.subs.remove(i);
                let ghost r0 = row@;
                enqueue_row(&mut row, &h, false);
                let elt = (key, row);
                let ghost elt_g = elt;
                self.subs.insert(i, elt);
                proof {
                    lemma_remove_insert_pointwise(pre, self.subs@, i as int, elt_g);
                    assert forall|t: int|
                        0 <= t < pre.len() implies self.key_at(t) == old(self).key_at(t) by {}
                    assert(self.wf());
                    assert(rec_of(h) == wrapped(id, event.type_tag, event.payload));
                    assert(row_enqueued(r0, elt_g.1@, rec_of(h)));
                    assert(old(self).key_at(i as int) == pre[i as int].0@);
                    assert(old(self).has_key(pre[i as int].0@));
                    assert forall|t: int|
                        0 <= t < pre.len() && old(self).key_at(t) == pre[i as int].0@
                            implies t == i as int by {
                        if t < i as int {
                            assert(old(self).key_at(t) != old(self).key_at(i as int));
                        } else if t > i as int {
                            assert(old(self).key_at(i as int) != old(self).key_at(t));
                        }
                    }
                }
            },
            None => {},
        }
    }

    /// Dispatch a custom event: if the key holds at least one custom
    /// subscription, run its decoder once; on success enqueue the one
    /// shared decoded instance onto every custom subscription under the
    /// key (never onto native ones); on failure enqueue nothing and
    /// return the decode error. With no custom subscriber under the
    /// key, the payload is dropped and nothing changes.
    pub fn try_send_custom(&mut self, method: &String, val: RawValue) -> (r: Result<
        (),
        DecodeError,
    >)
        requires
            old(self).wf(),
        ensures
            final(self).wf(),
            final(self).n_keys() == old(self).n_keys(),
            forall|i: int|
                0 <= i < old(self).n_keys() ==> final(self).key_at(i) == old(self).key_at(i),
            forall|i: int|
                0 <= i < old(self).n_keys() && old(self).key_at(i) != method@ ==> final(self).row_at(i) == old(self).row_at(i),
            !old(self).has_key(method@) ==> r is Ok && final(self).rows() == old(self).rows()
                && final(self).next_id() == old(self).next_id(),
            forall|i: int|
                0 <= i < old(self).n_keys() && old(self).key_at(i) == method@ && !has_custom(
                    old(self).row_at(i),
                ) ==> r is Ok && final(self).row_at(i) == old(self).row_at(i) && final(self).next_id() == old(self).next_id(),
            forall|i: int, j: int|
                0 <= i < old(self).n_keys() && old(self).key_at(i) == method@ && is_first_custom(
                    old(self).row_at(i),
                    j,
                ) ==> {
                    let d = kind_decoder(old(self).row_at(i)[j].sub_kind());
                    &&& check_spec(d, val, r)
                    &&& (d.accepts(val) ==> row_custom_enqueued(
                        old(self).row_at(i),
                        final(self).row_at(i),
                        wrapped(old(self).next_id(), d.type_tag, val),
                    ) && final(self).next_id() == next_of(old(self).next_id()))
                    &&& (!d.accepts(val) ==> final(self).row_at(i) == old(self).row_at(i)
                        && final(self).next_id() == old(self).next_id())
                },
    {
        match find_key(&self.subs, method) {
            Some(i) => {
                let row_ref = &self.subs[i].1;
                let n: usize = row_ref.len();
                let mut j: usize = 0;
                let mut tag: u64 = 0;
                let mut found = false;
                while j < n && !found
                    invariant
                        *self == *old(self),
                        old(self).wf(),
                        i < self.subs@.len(),
                        self.subs@[i as int].0@ == method@,
                        row_ref@ == old(self).row_at(i as int),
                        n == row_ref@.len(),
                        0 <= j <= n,
                        !found ==> forall|t: int|
                            0 <= t < j ==> !((#[trigger] row_ref@[t].sub_kind()) is Custom),
                        found ==> is_first_custom(row_ref@, j as int) && tag == kind_decoder(
                            row_ref@[j as int].sub_kind(),
                        ).type_tag && kind_decoder(row_ref@[j as int].sub_kind()).accepts(val),
                    decreases n - j + (if found { 0int } else { 1int }),
                {
                    match &row_ref[j].kind {
                        EventKind::Custom(d) => {
                            proof {
                                assert(is_first_custom(row_ref@, j as int));
                                assert(has_custom(row_ref@));
                                assert(old(self).has_key(old(self).key_at(i as int)));
                                assert forall|t: int, u: int|
                                    0 <= t < old(self).n_keys() && old(self).key_at(t)
                                        == old(self).key_at(i as int) && is_first_custom(
                                        old(self).row_at(t),
                                        u,
                                    ) implies t == i as int && u == j as int by {
                                    if t < i as int {
                                        assert(old(self).key_at(t) != old(self).key_at(i as int));
                                    } else if t > i as int {
                                        assert(old(self).key_at(i as int) != old(self).key_at(t));
                                    }
                                }
                            }
                            let c = d.check(&val);
                            if let Err(e) = c {
                                return Err(e);
                            }
                            tag = d.type_tag;
                            found = true;
                        },
                        EventKind::Native => {
                            j = j + 1;
                        },
                    }
                }
                if !found {
                    proof {
                        assert(!has_custom(self.subs@[i as int].1@));
                        assert(old(self).has_key(old(self).key_at(i as int)));
                    }
                    return Ok(());
                }
                let id: u64 = self.next_id;
                self.next_id = if id == u64::MAX {
                    0
                } else {
                    id + 1
                };
                let h = make_handle(id, EventData { type_tag: tag, payload: val });
                let ghost pre = self.subs@;
                let ghost jj = j as int;
                let (key, mut row) = self.subs.remove(i);
                let ghost r0 = row@;
                enqueue_row(&mut row, &h, true);
                let elt = (key, row);
                let ghost elt_g = elt;
                self.subs.insert(i, elt);
                proof {
                    lemma_remove_insert_pointwise(pre, self.subs@, i as int, elt_g);
                    assert forall|t: int|
                        0 <= t < pre.len() implies self.key_at(t) == old(self).key_at(t) by {}
                    assert(self.wf());
                    let d = kind_decoder(old(self).row_at(i as int)[jj].sub_kind());
                    assert(d.accepts(val));
                    assert(check_spec(d, val, Ok::<(), DecodeError>(())));
                    assert(rec_of(h) == wrapped(id, d.type_tag, val));
                    assert(row_custom_enqueued(r0, elt_g.1@, rec_of(h)));
                    assert(row_custom_enqueued(
                        old(self).row_at(i as int),
                        self.row_at(i as int),
                        wrapped(old(self).next_id(), d.type_tag, val),
                    ));
                    assert(old(self).key_at(i as int) == pre[i as int].0@);
                    assert(old(self).has_key(pre[i as int].0@));
                    assert forall|t: int, u: int|
                        0 <= t < pre.len() && old(self).key_at(t) == pre[i as int].0@
                            && is_first_custom(old(self).row_at(t), u) implies t == i as int && u
                        == jj by {
                        if t < i as int {
                            assert(old(self).key_at(t) != old(self).key_at(i as int));
                        } else if t > i as int {
                            assert(old(self).key_at(i as int) != old(self).key_at(t));
                        }
                    }
                }
                Ok(())
            },
            None => Ok(()),
        }
    }

    /// The drain pass: for every key, run every subscription's delivery
    /// state machine; remove exactly those that report their consumer
    /// side gone, keep all others, order kept.
    pub fn poll(&mut self)
        requires
            old(self).wf(),
        ensures
            final(self).wf(),
            final(self).n_keys() == old(self).n_keys(),
            final(self).next_id() == old(self).next_id(),
            forall|i: int|
                0 <= i < old(self).n_keys() ==> final(self).key_at(i) == old(self).key_at(i),
            forall|i: int|
                0 <= i < old(self).n_keys() ==> row_drained(
                    old(self).row_at(i),
                    final(self).row_at(i),
                ),
    {
        let n: usize = self.subs.len();
        let mut i: usize = 0;
        while i < n
            invariant
                old(self).wf(),
                n == old(self).subs@.len(),
                self.subs@.len() == n,
                self.next_id == old(self).next_id,
                0 <= i <= n,
                forall|t: int|
                    0 <= t < n ==> #[trigger] self.subs@[t].0@ == old(self).subs@[t].0@,
                forall|t: int|
                    i <= t < n ==> #[trigger] self.subs@[t].1 == old(self).subs@[t].1,
                forall|t: int|
                    0 <= t < i ==> row_drained(old(self).subs@[t].1@, #[trigger] self.subs@[t].1@),
            decreases n - i,
        {
            let ghost pre_iter = self.subs@;
            let (key, mut row) = self.subs.remove(i);
            drain_row(&mut row);
            let elt = (key, row);
            let ghost elt_g = elt;
            self.subs.insert(i, elt);
            proof {
                lemma_remove_insert_pointwise(pre_iter, self.subs@, i as int, elt_g);
            }
            i = i + 1;
        }
        proof {
            assert forall|a: int, b: int|
                0 <= a < b < self.n_keys() implies self.key_at(a) != self.key_at(b) by {
                assert(old(self).key_at(a) != old(self).key_at(b));
            }
        }
    }
}

/// After removing the element at `i` and inserting `x` back at `i`,
/// the sequence is the old one with position `i` replaced by `x`.
proof fn lemma_remove_insert_pointwise<A>(pre: Seq<A>, post: Seq<A>, i: int, x: A)
    requires
        0 <= i < pre.len(),
        post == pre.remove(i).insert(i, x),
    ensures
        post.len() == pre.len(),
        post[i] == x,
        forall|t: int| 0 <= t < pre.len() && t != i ==> post[t] == pre[t],
{
    pre.remove_ensures(i);
    pre.remove(i).insert_ensures(i, x);
    assert forall|t: int| 0 <= t < pre.len() && t != i implies post[t] == pre[t] by {
        if t < i {
            assert(pre.remove(i)[t] == pre[t]);
        } else {
            assert(pre.remove(i)[t - 1] == pre[t]);
        }
    }
}

/// Find the position of a method key in the registry's list.
fn find_key(subs: &Vec<(String, Vec<EventSubscription>)>, method: &String) -> (r: Option<usize>)
    ensures
        match r {
            Some(i) => i < subs@.len() && subs@[i as int].0@ == method@,
            None => forall|t: int| 0 <= t < subs@.len() ==> #[trigger] subs@[t].0@ != method@,
        },
{
    let n: usize = subs.len();
    let mut i: usize = 0;
    while i < n
        invariant
            n == subs@.len(),
            0 <= i <= n,
            forall|t: int| 0 <= t < i ==> #[trigger] subs@[t].0@ != method@,
        decreases n - i,
    {
        if subs[i].0 == *method {
            return Some(i);
        }
        i = i + 1;
    }
    None
}

/// Enqueue one shared handle onto the subscriptions of a row: onto all
/// of them for a native dispatch, onto the custom ones only for a
/// custom dispatch.
fn enqueue_row(row: &mut Vec<EventSubscription>, h: &EventHandle, only_custom: bool)
    ensures
        !only_custom ==> row_enqueued(old(row)@, final(row)@, rec_of(*h)),
        only_custom ==> row_custom_enqueued(old(row)@, final(row)@, rec_of(*h)),
{
    let n: usize = row.len();
    let mut j: usize = 0;
    while j < n
        invariant
            n == row@.len(),
            0 <= j <= n,
            forall|t: int| j <= t < n ==> #[trigger] row@[t] == old(row)@[t],
            forall|t: int|
                0 <= t < j && (!only_custom || old(row)@[t].sub_kind() is Custom) ==> sub_enqueued(
                    old(row)@[t],
                    #[trigger] row@[t],
                    rec_of(*h),
                ),
            forall|t: int|
                0 <= t < j && (only_custom && !(old(row)@[t].sub_kind() is Custom))
                    ==> #[trigger] row@[t] == old(row)@[t],
        decreases n - j,
    {
        let send_it = if only_custom {
            row[j].kind.is_custom()
        } else {
            true
        };
        if send_it {
            let ghost r1 = row@;
            let mut sub = row.remove(j);
            sub.start_send(arc_clone(h));
            let ghost sub_g = sub;
            row.insert(j, sub);
            proof {
                lemma_remove_insert_pointwise(r1, row@, j as int, sub_g);
            }
        }
        j = j + 1;
    }
}

/// Run the delivery state machine of every subscription in a row and
/// remove exactly those reporting disconnection, order kept.
fn drain_row(row: &mut Vec<EventSubscription>)
    ensures
        row_drained(old(row)@, final(row)@),
{
    let ghost pre = old(row)@;
    let ghost mut f: Seq<int> = Seq::empty();
    let ghost mut p: int = 0;
    let mut j: usize = 0;
    while j < row.len()
        invariant
            0 <= j <= row@.len(),
            j <= p <= pre.len(),
            row@.len() == j + pre.len() - p,
            f.len() == j as int,
            forall|a: int, b: int| 0 <= a < b < f.len() ==> #[trigger] f[a] < #[trigger] f[b],
            forall|a: int| 0 <= a < f.len() ==> 0 <= #[trigger] f[a] < p,
            forall|a: int|
                0 <= a < f.len() ==> sub_flushed(pre[f[a]], #[trigger] row@[a]),
            forall|t: int| j <= t < row@.len() ==> #[trigger] row@[t] == pre[t - j + p],
        decreases pre.len() - p,
    {
        let mut sub = row.remove(j);
        match sub.poll() {
            PollStatus::Disconnected => {
                proof {
                    p = p + 1;
                }
            },
            PollStatus::Flushed => {
                row.insert(j, sub);
                proof {
                    f = f.push(p);
                    p = p + 1;
                }
                j = j + 1;
            },
        }
    }
}

} // verus!

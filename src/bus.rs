//! Change notifications: a bounded queue per subscriber, filled without ever
//! blocking the publisher; a full queue drops its oldest unread event.
use vstd::prelude::*;

verus! {

/// What happened to one document.
#[derive(Debug, Clone, PartialEq, Eq)]
pub enum SseEvent {
    FileChanged(String),
    FileAdded(String),
    FileRemoved(String),
}

impl SseEvent {
    /// The relative path the event is about.
    pub open spec fn spec_path(&self) -> Seq<char> {
        match self {
            SseEvent::FileChanged(p) => p@,
            SseEvent::FileAdded(p) => p@,
            SseEvent::FileRemoved(p) => p@,
        }
    }

    /// The relative path the event is about.
    pub fn path(&self) -> (r: &String)
        ensures
            r@ == self.spec_path(),
    {
        match self {
            SseEvent::FileChanged(p) => p,
            SseEvent::FileAdded(p) => p,
            SseEvent::FileRemoved(p) => p,
        }
    }

    /// The event's tag as it appears on the wire.
    pub fn kind_name(&self) -> (r: &'static str)
        ensures
            self is FileChanged ==> r@ == "FileChanged"@,
            self is FileAdded ==> r@ == "FileAdded"@,
            self is FileRemoved ==> r@ == "FileRemoved"@,
    {
        proof {
            reveal_strlit("FileChanged");
            reveal_strlit("FileAdded");
            reveal_strlit("FileRemoved");
        }
        match self {
            SseEvent::FileChanged(_) => "FileChanged",
            SseEvent::FileAdded(_) => "FileAdded",
            SseEvent::FileRemoved(_) => "FileRemoved",
        }
    }

    /// An equal copy of the event.
    pub fn duplicate(&self) -> (r: SseEvent)
        ensures
            r == *self,
    {
        match self {
            SseEvent::FileChanged(p) => SseEvent::FileChanged(p.clone()),
            SseEvent::FileAdded(p) => SseEvent::FileAdded(p.clone()),
            SseEvent::FileRemoved(p) => SseEvent::FileRemoved(p.clone()),
        }
    }
}

/// A queue of at most `cap` events after `e` is published to it: the oldest
/// event leaves when the queue is full.
pub open spec fn bounded_push(q: Seq<SseEvent>, e: SseEvent, cap: nat) -> Seq<SseEvent> {
    if q.len() >= cap {
        q.drop_first().push(e)
    } else {
        q.push(e)
    }
}

/// A subscriber slot after `e` is published: a closed slot stays closed.
pub open spec fn deliver(slot: Option<Seq<SseEvent>>, e: SseEvent, cap: nat) -> Option<
    Seq<SseEvent>,
> {
    match slot {
        Some(q) => Some(bounded_push(q, e, cap)),
        None => None,
    }
}

/// A queue after each event of `es` is published to it, in order.
pub open spec fn publish_all(q: Seq<SseEvent>, es: Seq<SseEvent>, cap: nat) -> Seq<SseEvent>
    decreases es.len(),
{
    if es.len() == 0 {
        q
    } else {
        publish_all(bounded_push(q, es[0], cap), es.drop_first(), cap)
    }
}

/// Subscriber `id` is open and has an unread event.
pub open spec fn has_unread(qs: Seq<Option<Seq<SseEvent>>>, id: int) -> bool {
    0 <= id < qs.len() && qs[id] is Some && qs[id]->Some_0.len() > 0
}

pub open spec fn slot_view(o: Option<Vec<SseEvent>>) -> Option<Seq<SseEvent>> {
    match o {
        Some(v) => Some(v@),
        None => None,
    }
}

/// The notification channel. Subscribers are numbered by slot; each holds
/// at most `capacity` unread events, and a closed slot is reused by the next
/// subscriber. This takes the place of an async broadcast channel: the
/// drop-oldest policy, the absence of history for late subscribers and the
/// independence of subscribers are stated and proved here, and the server
/// only wakes its event streams after each change.
pub struct ChangeBus {
    capacity: usize,
    queues: Vec<Option<Vec<SseEvent>>>,
}

impl View for ChangeBus {
    type V = Seq<Option<Seq<SseEvent>>>;

    closed spec fn view(&self) -> Seq<Option<Seq<SseEvent>>> {
        self.queues@.map_values(|o: Option<Vec<SseEvent>>| slot_view(o))
    }
}

impl ChangeBus {
    /// The unread events of open subscriber `id`.
    pub open spec fn unread(&self, id: int) -> Seq<SseEvent> {
        self@[id]->Some_0
    }

    /// Subscriber `id` is open and has an unread event.
    pub open spec fn has_unread(&self, id: int) -> bool {
        has_unread(self@, id)
    }

    /// How many unread events each subscriber may hold.
    pub closed spec fn cap(&self) -> nat {
        self.capacity as nat
    }

    /// The capacity is positive and no queue holds more than it.
    pub open spec fn wf(&self) -> bool {
        self.cap() > 0 && forall|i: int|
            0 <= i < self@.len() ==> (#[trigger] self@[i] matches Some(q) ==> q.len()
                <= self.cap())
    }

    /// A bus with no subscribers whose queues hold up to `capacity` events.
    pub fn new(capacity: usize) -> (r: ChangeBus)
        requires
            capacity > 0,
        ensures
            r.wf(),
            r.cap() == capacity,
            r@ == Seq::<Option<Seq<SseEvent>>>::empty(),
    {
        let r = ChangeBus { capacity, queues: Vec::new() };
        assert(r@ =~= Seq::<Option<Seq<SseEvent>>>::empty());
        r
    }

    /// The capacity of each subscriber's queue.
    pub fn capacity(&self) -> (r: usize)
        ensures
            r == self.cap(),
    {
        self.capacity
    }

    /// How many subscriber slots there are, open or closed.
    pub fn subscriber_count(&self) -> (r: usize)
        ensures
            r == self@.len(),
    {
        self.queues.len()
    }

    /// Adds a subscriber with an empty queue; it receives only events
    /// published from now on. It takes the first closed slot, or a new one
    /// when every slot is open. Returns its number.
    pub fn subscribe(&mut self) -> (id: usize)
        requires
            old(self).wf(),
            old(self)@.len() < usize::MAX,
        ensures
            final(self).wf(),
            final(self).cap() == old(self).cap(),
            id <= old(self)@.len(),
            forall|j: int| 0 <= j < id ==> #[trigger] old(self)@[j] is Some,
            id < old(self)@.len() ==> old(self)@[id as int] is None && final(self)@ == old(
                self,
            )@.update(id as int, Some(Seq::<SseEvent>::empty())),
            id == old(self)@.len() ==> final(self)@ == old(self)@.push(
                Some(Seq::<SseEvent>::empty()),
            ),
    {
        let mut i: usize = 0;
        while i < self.queues.len() && self.queues[i].is_some()
            invariant
                self == old(self),
                i <= self.queues.len(),
                forall|j: int| 0 <= j < i ==> #[trigger] old(self)@[j] is Some,
            decreases self.queues.len() - i,
        {
            assert(self@[i as int] == slot_view(self.queues@[i as int]));
            i += 1;
        }
        let fresh: Vec<SseEvent> = Vec::new();
        let ghost prev = self.queues@;
        if i < self.queues.len() {
            assert(self@[i as int] == slot_view(self.queues@[i as int]));
            self.queues.set(i, Some(fresh));
            assert(self.queues@ == prev.update(i as int, Some(fresh)));
            assert(self@ =~= old(self)@.update(i as int, Some(Seq::<SseEvent>::empty())));
        } else {
            self.queues.push(Some(fresh));
            assert(self.queues@ == prev.push(Some(fresh)));
            assert(self@ =~= old(self)@.push(Some(Seq::<SseEvent>::empty())));
        }
        i
    }

    /// Closes subscriber `id`: its unread events are dropped and it receives
    /// nothing more.
    pub fn unsubscribe(&mut self, id: usize)
        requires
            old(self).wf(),
        ensures
            final(self).wf(),
            final(self).cap() == old(self).cap(),
            id < old(self)@.len() ==> final(self)@ == old(self)@.update(id as int, None),
            id >= old(self)@.len() ==> final(self)@ == old(self)@,
    {
        if id < self.queues.len() {
            self.queues.set(id, None);
            assert(self@ =~= old(self)@.update(id as int, None));
        }
    }

    /// Hands `e` to every open subscriber without blocking: a full queue
    /// first drops its oldest event.
    pub fn publish(&mut self, e: SseEvent)
        requires
            old(self).wf(),
        ensures
            final(self).wf(),
            final(self).cap() == old(self).cap(),
            final(self)@.len() == old(self)@.len(),
            forall|i: int|
                0 <= i < old(self)@.len() ==> #[trigger] final(self)@[i] == deliver(
                    old(self)@[i],
                    e,
                    old(self).cap(),
                ),
    {
        let ghost prev = self@;
        let n = self.queues.len();
        let mut i: usize = 0;
        while i < n
            invariant
                self.wf(),
                self.cap() == old(self).cap(),
                n == self@.len(),
                prev.len() == n,
                prev == old(self)@,
                i <= n,
                forall|j: int| 0 <= j < i ==> #[trigger] self@[j] == deliver(prev[j], e, self.cap()),
                forall|j: int|
                    0 <= j < n ==> (#[trigger] prev[j] matches Some(q) ==> q.len() <= self.cap()),
                forall|j: int| i <= j < n ==> #[trigger] self@[j] == prev[j],
            decreases n - i,
        {
            let ghost before = self.queues@;
            let ghost before_view = self@;
            assert(self@[i as int] == slot_view(before[i as int]));
            let slot = self.queues.remove(i);
            let ghost mid = self.queues@;
            let next = match slot {
                Some(mut q) => {
                    let ghost q0 = q@;
                    assert(q0 == prev[i as int]->Some_0);
                    if q.len() >= self.capacity {
                        q.remove(0);
                    }
                    q.push(e.duplicate());
                    proof {
                        assert(q@ =~= bounded_push(prev[i as int]->Some_0, e, self.cap()));
                    }
                    Some(q)
                },
                None => None,
            };
            self.queues.insert(i, next);
            proof {
                assert(self.queues@ == mid.insert(i as int, next));
                assert(slot_view(next) == deliver(prev[i as int], e, self.cap()));
                assert forall|j: int| 0 <= j < n implies #[trigger] self@[j] == (if j <= i {
                    deliver(prev[j], e, self.cap())
                } else {
                    prev[j]
                }) by {
                    if j < i {
                        assert(self.queues@[j] == before[j]);
                        assert(before_view[j] == slot_view(before[j]));
                    } else if j > i {
                        assert(self.queues@[j] == before[j]);
                        assert(before_view[j] == slot_view(before[j]));
                    } else {
                        assert(self.queues@[j] == next);
                    }
                }
            }
            i += 1;
        }
    }

    /// Takes the oldest unread event of subscriber `id`, if any.
    pub fn recv(&mut self, id: usize) -> (r: Option<SseEvent>)
        requires
            old(self).wf(),
        ensures
            final(self).wf(),
            final(self).cap() == old(self).cap(),
            old(self).has_unread(id as int) ==> r == Some(old(self).unread(id as int)[0])
                && final(self)@ == old(self)@.update(
                id as int,
                Some(old(self).unread(id as int).drop_first()),
            ),
            !old(self).has_unread(id as int) ==> r is None && final(self)@ == old(self)@,
    {
        if id >= self.queues.len() {
            return None;
        }
        let slot = self.queues.remove(id);
        let ghost mid = self.queues@;
        match slot {
            Some(mut q) => {
                if q.len() == 0 {
                    self.queues.insert(id, Some(q));
                    assert(self.queues@ =~= old(self).queues@);
                    return None;
                }
                let first = q.remove(0);
                self.queues.insert(id, Some(q));
                proof {
                    assert(self.queues@ == mid.insert(id as int, Some(q)));
                    assert(q@ =~= old(self)@[id as int]->Some_0.drop_first());
                    assert(self@ =~= old(self)@.update(id as int, Some(q@)));
                }
                Some(first)
            },
            None => {
                self.queues.insert(id, None);
                assert(self.queues@ =~= old(self).queues@);
                None
            },
        }
    }
}

/// However many events are published to a queue, it ends up holding the
/// latest `cap` events of what it held followed by what was published, in
/// order: older events are dropped first and nothing is reordered.
pub proof fn lemma_keeps_latest(q: Seq<SseEvent>, es: Seq<SseEvent>, cap: nat)
    requires
        cap > 0,
        q.len() <= cap,
    ensures
        publish_all(q, es, cap) == (q + es).skip(
            if q.len() + es.len() > cap {
                q.len() + es.len() - cap
            } else {
                0
            },
        ),
    decreases es.len(),
{
    let total = q.len() + es.len();
    let drop = if total > cap {
        total - cap
    } else {
        0
    };
    if es.len() == 0 {
        assert(q + es =~= q);
        assert(q.skip(0) =~= q);
    } else {
        let e = es[0];
        let rest = es.drop_first();
        let q1 = bounded_push(q, e, cap);
        let d1: int = if q.len() >= cap {
            1
        } else {
            0
        };
        assert(q1 =~= q.push(e).skip(d1));
        lemma_keeps_latest(q1, rest, cap);
        let d2: int = if q1.len() + rest.len() > cap {
            q1.len() + rest.len() - cap
        } else {
            0
        };
        assert(d1 + d2 == drop);
        assert(q.push(e) + rest =~= q + es);
        assert((q.push(e).skip(d1) + rest).skip(d2) =~= (q.push(e) + rest).skip(d1 + d2));
    }
}

} // verus!

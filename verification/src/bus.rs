//! The per-session broadcast bus.
//!
//! One bus per session fans every published event out to all current
//! subscribers. Each subscriber owns a small bounded queue that absorbs
//! bursts; when a subscriber's queue is full, delivery to that subscriber is
//! dropped — a deliberate lag-tolerant design, since the connection handler
//! treats a stalled subscriber like a closed connection. Publishing to a bus
//! with no subscribers simply discards the event. Messages are not retained
//! for late subscribers.

use vstd::prelude::*;

use crate::events::{clone_event, Event, EventView};

verus! {

/// A subscriber's queue after one event is published to it: the event is
/// appended if the queue has room, and dropped otherwise (drop-new policy).
pub open spec fn queue_after_publish(q: Seq<EventView>, e: EventView, cap: nat) -> Seq<EventView> {
    if q.len() < cap {
        q.push(e)
    } else {
        q
    }
}

/// All subscriber slots after one event is published: every live queue takes
/// the event (subject to its bound), cancelled slots stay cancelled.
pub open spec fn subs_after_publish(
    subs: Seq<Option<Seq<EventView>>>,
    e: EventView,
    cap: nat,
) -> Seq<Option<Seq<EventView>>> {
    Seq::new(
        subs.len(),
        |i: int|
            match subs[i] {
                Some(q) => Some(queue_after_publish(q, e, cap)),
                None => None,
            },
    )
}

/// The broadcast bus of one session. A slot holds the queue of one live
/// subscriber, or nothing once that subscriber is gone; slot indices stay
/// stable for the life of the bus.
pub struct Bus {
    subs: Vec<Option<Vec<Event>>>,
    cap: usize,
}

impl View for Bus {
    type V = Seq<Option<Seq<EventView>>>;

    /// The queues of all subscriber slots, live or cancelled.
    closed spec fn view(&self) -> Seq<Option<Seq<EventView>>> {
        self.subs.deep_view()
    }
}

impl Bus {
    /// The bound on each subscriber's queue.
    pub closed spec fn capacity(&self) -> nat {
        self.cap as nat
    }

    /// A bus always has room for at least one queued event per subscriber.
    pub open spec fn wf(&self) -> bool {
        self.capacity() >= 1
    }

    /// Creates a bus with no subscribers, bounding each subscriber's queue
    /// by `cap`.
    pub fn new(cap: usize) -> (b: Bus)
        requires
            cap >= 1,
        ensures
            b.wf(),
            b.capacity() == cap,
            b@ == Seq::<Option<Seq<EventView>>>::empty(),
    {
        let b = Bus { subs: Vec::new(), cap };
        proof {
            assert(b@ =~~= Seq::<Option<Seq<EventView>>>::empty());
        }
        b
    }

    /// Adds a subscriber with an empty queue and hands back its slot index.
    /// A connection subscribes before its `joined` event is published, so it
    /// sees its own join.
    pub fn subscribe(&mut self) -> (idx: usize)
        requires
            old(self).wf(),
        ensures
            final(self).wf(),
            final(self).capacity() == old(self).capacity(),
            idx == old(self)@.len(),
            final(self)@ == old(self)@.push(Some(Seq::<EventView>::empty())),
    {
        let idx = self.subs.len();
        self.subs.push(Some(Vec::new()));
        proof {
            assert(self@ =~~= old(self)@.push(Some(Seq::<EventView>::empty())));
        }
        idx
    }

    /// Cancels the subscriber in slot `idx`; its queue is discarded.
    pub fn unsubscribe(&mut self, idx: usize)
        requires
            old(self).wf(),
            idx < old(self)@.len(),
        ensures
            final(self).wf(),
            final(self).capacity() == old(self).capacity(),
            final(self)@ == old(self)@.update(idx as int, None),
    {
        let ghost prev = self.subs@;
        self.subs.remove(idx);
        self.subs.insert(idx, None);
        proof {
            assert(self.subs@ =~= prev.remove(idx as int).insert(idx as int, None));
            assert(self.subs@ =~= prev.update(idx as int, None));
            assert(self@ =~~= old(self)@.update(idx as int, None));
        }
    }

    /// Publishes `e`: every live subscriber's queue takes a copy of the
    /// event, except queues already at the bound, which drop it. With no
    /// subscribers the event is discarded.
    pub fn publish(&mut self, e: &Event)
        requires
            old(self).wf(),
        ensures
            final(self).wf(),
            final(self).capacity() == old(self).capacity(),
            final(self)@ == subs_after_publish(old(self)@, e@, old(self).capacity()),
    {
        let ghost orig = self@;
        let ghost cap = old(self).capacity();
        let mut i: usize = 0;
        while i < self.subs.len()
            invariant
                i <= self.subs.len(),
                self.subs@.len() == orig.len(),
                self.cap == old(self).cap,
                orig == old(self)@,
                self@.len() == orig.len(),
                cap == old(self).capacity(),
                forall|j: int| 0 <= j < i ==> self@[j] == subs_after_publish(orig, e@, cap)[j],
                forall|j: int| i <= j < orig.len() ==> self@[j] == orig[j],
            decreases self.subs.len() - i,
        {
            let ghost dv_prev = self@;
            let ghost prev = self.subs@;
            let slot = self.subs.remove(i);
            proof {
                assert(dv_prev[i as int] == prev[i as int].deep_view());
            }
            match slot {
                Some(mut q) => {
                    let ghost q0 = q.deep_view();
                    proof {
                        assert(dv_prev[i as int] == Some(q0));
                        assert(q@.len() == q0.len());
                    }
                    if q.len() < self.cap {
                        q.push(clone_event(e));
                        proof {
                            assert(q.deep_view() =~= q0.push(e@));
                        }
                    }
                    proof {
                        assert(q.deep_view() == queue_after_publish(q0, e@, cap));
                    }
                    self.subs.insert(i, Some(q));
                    proof {
                        assert(self.subs@ =~= prev.update(i as int, Some(q)));
                        assert(self@ =~~= dv_prev.update(
                            i as int,
                            Some(queue_after_publish(q0, e@, cap)),
                        ));
                    }
                },
                None => {
                    self.subs.insert(i, None);
                    proof {
                        assert(self.subs@ =~= prev.update(i as int, None));
                        assert(self@ =~~= dv_prev.update(i as int, None));
                    }
                },
            }
            proof {
                assert(self@[i as int] == subs_after_publish(orig, e@, cap)[i as int]);
            }
            i += 1;
        }
        proof {
            assert(self@ =~= subs_after_publish(orig, e@, cap));
        }
    }

    /// Takes the next queued event for the subscriber in slot `idx`, if any.
    pub fn recv(&mut self, idx: usize) -> (r: Option<Event>)
        requires
            old(self).wf(),
            idx < old(self)@.len(),
            old(self)@[idx as int] is Some,
        ensures
            final(self).wf(),
            final(self).capacity() == old(self).capacity(),
            match r {
                None => final(self)@ == old(self)@ && old(self)@[idx as int]->Some_0.len() == 0,
                Some(ev) => ev@ == old(self)@[idx as int]->Some_0[0] && final(self)@ == old(
                    self,
                )@.update(idx as int, Some(old(self)@[idx as int]->Some_0.drop_first())),
            },
    {
        let ghost prev = self.subs@;
        let slot = self.subs.remove(idx);
        proof {
            assert(old(self)@[idx as int] == prev[idx as int].deep_view());
        }
        match slot {
            Some(mut q) => {
                let ghost q0 = q.deep_view();
                proof {
                    assert(old(self)@[idx as int] == Some(q0));
                }
                if q.len() == 0 {
                    self.subs.insert(idx, Some(q));
                    proof {
                        assert(q0 =~= Seq::<EventView>::empty());
                        assert(self.subs@ =~= prev.update(idx as int, Some(q)));
                        assert(self@ =~~= old(self)@);
                    }
                    None
                } else {
                    let ev = q.remove(0);
                    self.subs.insert(idx, Some(q));
                    proof {
                        assert(ev@ == q0[0]);
                        assert(q.deep_view() =~= q0.drop_first());
                        assert(self.subs@ =~= prev.update(idx as int, Some(q)));
                        assert(self@ =~~= old(self)@.update(idx as int, Some(q0.drop_first())));
                    }
                    Some(ev)
                }
            },
            None => {
                // Unreachable: the precondition says slot `idx` is live.
                proof {
                    assert(prev[idx as int].deep_view() is Some);
                    assert(false);
                }
                self.subs.insert(idx, None);
                None
            },
        }
    }

    /// How many subscriber slots the bus has handed out.
    pub fn slot_count(&self) -> (n: usize)
        ensures
            n == self@.len(),
    {
        self.subs.len()
    }

    /// Whether slot `idx` still belongs to a live subscriber.
    pub fn slot_is_live(&self, idx: usize) -> (r: bool)
        requires
            idx < self@.len(),
        ensures
            r == (self@[idx as int] is Some),
    {
        self.subs[idx].is_some()
    }
}

} // verus!

//! The session registry.
//!
//! The registry is the single source of truth for which sessions exist. A
//! session owns its presence set and its broadcast bus; the registry owns all
//! sessions, keyed by an opaque 128-bit identifier generated at creation.
//! Every operation that touches a session goes through the registry, so that
//! an operation on one session can be seen to leave every other session
//! untouched.

use vstd::prelude::*;

use crate::bus::{subs_after_publish, Bus};
use crate::events::{Event, EventView};
use crate::presence::{claim_granted, presence_step, PresenceOp, UserSet};

verus! {

/// The bound on each bus subscriber's queue.
pub const BUS_CAPACITY: usize = 100;

/// Mathematical model of one session: its presence set, the queues of its
/// bus's subscriber slots, and the bound on those queues.
#[verifier::ext_equal]
pub struct SessionView {
    /// The names currently held by a connection of this session.
    pub users: Set<Seq<char>>,
    /// The subscriber slots of this session's bus.
    pub subs: Seq<Option<Seq<EventView>>>,
    /// The bound on each subscriber's queue.
    pub cap: nat,
}

/// The model of a session that was just created: nobody present, no
/// subscribers.
pub open spec fn empty_session_view() -> SessionView {
    SessionView {
        users: Set::empty(),
        subs: Seq::empty(),
        cap: BUS_CAPACITY as nat,
    }
}

/// One session: a presence set and a broadcast bus, created together and
/// never replaced.
pub struct Session {
    /// The display names of the participants present in this session.
    pub user_set: UserSet,
    /// The channel used to fan events out to this session's connections.
    pub bus: Bus,
}

impl View for Session {
    type V = SessionView;

    open spec fn view(&self) -> SessionView {
        SessionView { users: self.user_set@, subs: self.bus@, cap: self.bus.capacity() }
    }
}

impl Session {
    /// Both components are internally consistent.
    pub open spec fn wf(&self) -> bool {
        self.user_set.wf() && self.bus.wf()
    }

    /// Creates an empty session.
    pub fn new() -> (s: Session)
        ensures
            s.wf(),
            s@ == empty_session_view(),
    {
        let s = Session { user_set: UserSet::new(), bus: Bus::new(BUS_CAPACITY) };
        proof {
            assert(s@ =~~= empty_session_view());
        }
        s
    }
}

/// No session identifier occurs twice.
pub open spec fn keys_distinct(s: Seq<(u128, Session)>) -> bool {
    forall|i: int, j: int| 0 <= i < j < s.len() ==> s[i].0 != s[j].0
}

/// The map held by a sequence of identifier/session entries; a later entry
/// for an identifier shadows an earlier one.
pub open spec fn map_of(s: Seq<(u128, Session)>) -> Map<u128, SessionView>
    decreases s.len(),
{
    if s.len() == 0 {
        Map::empty()
    } else {
        map_of(s.drop_last()).insert(s.last().0, s.last().1@)
    }
}

/// An identifier is a key of the map exactly when some entry carries it.
proof fn lemma_map_of_contains(s: Seq<(u128, Session)>, k: u128)
    ensures
        map_of(s).contains_key(k) <==> exists|i: int| 0 <= i < s.len() && (#[trigger] s[i]).0 == k,
    decreases s.len(),
{
    if s.len() > 0 {
        lemma_map_of_contains(s.drop_last(), k);
        if s.last().0 == k {
            assert(s[s.len() - 1].0 == k);
        } else {
            if map_of(s).contains_key(k) {
                let i = choose|i: int|
                    0 <= i < s.drop_last().len() && (#[trigger] s.drop_last()[i]).0 == k;
                assert(s[i].0 == k);
            }
            if exists|i: int| 0 <= i < s.len() && (#[trigger] s[i]).0 == k {
                let i = choose|i: int| 0 <= i < s.len() && (#[trigger] s[i]).0 == k;
                assert(i < s.len() - 1);
                assert(s.drop_last()[i].0 == k);
            }
        }
    }
}

/// Distinct keys survive dropping the last entry.
proof fn lemma_distinct_drop_last(s: Seq<(u128, Session)>)
    requires
        s.len() > 0,
        keys_distinct(s),
    ensures
        keys_distinct(s.drop_last()),
{
    assert forall|i: int, j: int| 0 <= i < j < s.drop_last().len() implies s.drop_last()[i].0
        != s.drop_last()[j].0 by {
        assert(s.drop_last()[i] == s[i]);
        assert(s.drop_last()[j] == s[j]);
    }
}

/// With distinct keys, the map sends each entry's identifier to that entry's
/// session.
proof fn lemma_map_of_index(s: Seq<(u128, Session)>, i: int)
    requires
        keys_distinct(s),
        0 <= i < s.len(),
    ensures
        map_of(s).contains_key(s[i].0),
        map_of(s)[s[i].0] == s[i].1@,
    decreases s.len(),
{
    lemma_map_of_contains(s, s[i].0);
    if i < s.len() - 1 {
        assert(s.last().0 != s[i].0);
        lemma_distinct_drop_last(s);
        assert(s.drop_last()[i] == s[i]);
        lemma_map_of_index(s.drop_last(), i);
    }
}

/// Replacing the session of entry `i`, keeping its identifier, updates
/// exactly that identifier's image in the map.
proof fn lemma_map_of_update(s: Seq<(u128, Session)>, i: int, sess: Session)
    requires
        keys_distinct(s),
        0 <= i < s.len(),
    ensures
        map_of(s.update(i, (s[i].0, sess))) == map_of(s).insert(s[i].0, sess@),
        keys_distinct(s.update(i, (s[i].0, sess))),
    decreases s.len(),
{
    let k = s[i].0;
    let t = s.update(i, (k, sess));
    assert forall|a: int, b: int| 0 <= a < b < t.len() implies t[a].0 != t[b].0 by {
        assert(t[a].0 == s[a].0);
        assert(t[b].0 == s[b].0);
    }
    if i == s.len() - 1 {
        assert(t.drop_last() =~= s.drop_last());
        assert(t.last() == (k, sess));
        assert(map_of(s).insert(k, sess@) =~= map_of(s.drop_last()).insert(k, sess@));
    } else {
        assert(t.last() == s.last());
        assert(t.drop_last() =~= s.drop_last().update(i, (k, sess)));
        lemma_distinct_drop_last(s);
        assert(s.drop_last()[i] == s[i]);
        lemma_map_of_update(s.drop_last(), i, sess);
        assert(k != s.last().0);
        assert(map_of(t) =~= map_of(s).insert(k, sess@));
    }
}

/// Appending an entry with a fresh identifier inserts it into the map.
proof fn lemma_map_of_push(s: Seq<(u128, Session)>, k: u128, sess: Session)
    requires
        keys_distinct(s),
        forall|i: int| 0 <= i < s.len() ==> (#[trigger] s[i]).0 != k,
    ensures
        map_of(s.push((k, sess))) == map_of(s).insert(k, sess@),
        keys_distinct(s.push((k, sess))),
{
    let t = s.push((k, sess));
    assert(t.drop_last() =~= s);
    assert(t.last() == (k, sess));
    assert forall|a: int, b: int| 0 <= a < b < t.len() implies t[a].0 != t[b].0 by {
        assert(t[a] == if a < s.len() { s[a] } else { (k, sess) });
        assert(t[b] == if b < s.len() { s[b] } else { (k, sess) });
    }
}

/// Removing entry `i` removes exactly its identifier from the map.
proof fn lemma_map_of_remove(s: Seq<(u128, Session)>, i: int)
    requires
        keys_distinct(s),
        0 <= i < s.len(),
    ensures
        map_of(s.remove(i)) == map_of(s).remove(s[i].0),
        keys_distinct(s.remove(i)),
    decreases s.len(),
{
    let k = s[i].0;
    let t = s.remove(i);
    assert forall|a: int, b: int| 0 <= a < b < t.len() implies t[a].0 != t[b].0 by {
        assert(t[a] == if a < i { s[a] } else { s[a + 1] });
        assert(t[b] == if b < i { s[b] } else { s[b + 1] });
    }
    if i == s.len() - 1 {
        assert(t =~= s.drop_last());
        lemma_map_of_contains(s.drop_last(), k);
        if map_of(s.drop_last()).contains_key(k) {
            let j = choose|j: int|
                0 <= j < s.drop_last().len() && (#[trigger] s.drop_last()[j]).0 == k;
            assert(s[j].0 == k);
            assert(false);
        }
        assert(map_of(s).remove(k) =~= map_of(s.drop_last()));
    } else {
        assert(t.last() == s.last());
        assert(t.drop_last() =~= s.drop_last().remove(i));
        lemma_distinct_drop_last(s);
        assert(s.drop_last()[i] == s[i]);
        lemma_map_of_remove(s.drop_last(), i);
        assert(k != s.last().0);
        assert(map_of(t) =~= map_of(s).remove(k));
    }
}

/// Two connections joined to different sessions never observe each other's
/// activity: an update confined to session `id` leaves every other session's
/// state exactly as it was.
pub proof fn lemma_session_isolation(
    m: Map<u128, SessionView>,
    id: u128,
    sv: SessionView,
    other: u128,
)
    requires
        other != id,
    ensures
        m.insert(id, sv).contains_key(other) == m.contains_key(other),
        m.contains_key(other) ==> m.insert(id, sv)[other] == m[other],
{
}

/// Relies on `uuid::Uuid::new_v4` to generate a session identifier, carried
/// as the identifier's 128-bit value. The result is random, so nothing is
/// promised of it; the registry's contracts hold whatever comes back.
#[verifier::external_body]
fn fresh_session_id() -> u128 {
    uuid::Uuid::new_v4().as_u128()
}

/// The concurrent store of all sessions, keyed by session identifier.
pub struct Registry {
    sessions: Vec<(u128, Session)>,
}

impl View for Registry {
    type V = Map<u128, SessionView>;

    /// The mathematical map from session identifier to session state.
    closed spec fn view(&self) -> Map<u128, SessionView> {
        map_of(self.sessions@)
    }
}

impl Registry {
    /// Identifiers are unique and every stored session is internally
    /// consistent.
    pub closed spec fn wf(&self) -> bool {
        keys_distinct(self.sessions@) && forall|i: int|
            0 <= i < self.sessions@.len() ==> (#[trigger] self.sessions@[i]).1.wf()
    }

    /// Creates a registry with no sessions.
    pub fn new() -> (r: Registry)
        ensures
            r.wf(),
            r@ == Map::<u128, SessionView>::empty(),
    {
        Registry { sessions: Vec::new() }
    }

    /// The position of the entry carrying `id`, if any.
    fn find_index(&self, id: u128) -> (r: Option<usize>)
        ensures
            match r {
                Some(i) => i < self.sessions@.len() && self.sessions@[i as int].0 == id,
                None => forall|i: int|
                    0 <= i < self.sessions@.len() ==> (#[trigger] self.sessions@[i]).0 != id,
            },
    {
        let mut i: usize = 0;
        while i < self.sessions.len()
            invariant
                i <= self.sessions@.len(),
                forall|j: int| 0 <= j < i ==> (#[trigger] self.sessions@[j]).0 != id,
            decreases self.sessions@.len() - i,
        {
            if self.sessions[i].0 == id {
                return Some(i);
            }
            i += 1;
        }
        None
    }

    /// Whether a session with identifier `id` exists.
    pub fn has_session(&self, id: u128) -> (r: bool)
        ensures
            r == self@.contains_key(id),
    {
        let found = self.find_index(id);
        proof {
            lemma_map_of_contains(self.sessions@, id);
        }
        found.is_some()
    }

    /// Allocates and inserts a new empty session and returns its freshly
    /// generated identifier.
    pub fn create(&mut self) -> (id: u128)
        requires
            old(self).wf(),
        ensures
            final(self).wf(),
            final(self)@ == old(self)@.insert(id, empty_session_view()),
    {
        let id = fresh_session_id();
        let sess = Session::new();
        match self.find_index(id) {
            Some(i) => {
                // The freshly drawn identifier collides with an existing
                // session; the new empty session replaces it.
                let ghost s0 = self.sessions@;
                self.sessions.remove(i);
                self.sessions.insert(i, (id, sess));
                proof {
                    assert(self.sessions@ =~= s0.update(i as int, (id, sess)));
                    lemma_map_of_update(s0, i as int, sess);
                    assert forall|j: int| 0 <= j < self.sessions@.len() implies (#[trigger] self
                        .sessions@[j]).1.wf() by {
                        if j != i {
                            assert(self.sessions@[j] == s0[j]);
                        }
                    }
                }
            },
            None => {
                let ghost s0 = self.sessions@;
                self.sessions.push((id, sess));
                proof {
                    lemma_map_of_push(s0, id, sess);
                    assert forall|j: int| 0 <= j < self.sessions@.len() implies (#[trigger] self
                        .sessions@[j]).1.wf() by {
                        if j < s0.len() {
                            assert(self.sessions@[j] == s0[j]);
                        }
                    }
                }
            },
        }
        id
    }

    /// Deletes the session with identifier `id` unconditionally; deleting an
    /// unknown identifier changes nothing. Used by the reaper.
    pub fn remove(&mut self, id: u128)
        requires
            old(self).wf(),
        ensures
            final(self).wf(),
            final(self)@ == old(self)@.remove(id),
    {
        match self.find_index(id) {
            Some(i) => {
                let ghost s0 = self.sessions@;
                self.sessions.remove(i);
                proof {
                    lemma_map_of_remove(s0, i as int);
                    assert forall|j: int| 0 <= j < self.sessions@.len() implies (#[trigger] self
                        .sessions@[j]).1.wf() by {
                        if j < i {
                            assert(self.sessions@[j] == s0[j]);
                        } else {
                            assert(self.sessions@[j] == s0[j + 1]);
                        }
                    }
                }
            },
            None => {
                proof {
                    lemma_map_of_contains(self.sessions@, id);
                    assert(old(self)@.remove(id) =~= old(self)@);
                }
            },
        }
    }

    /// Tries to claim `name` in session `id`; hands back nothing when the
    /// session does not exist, and otherwise whether the claim was granted.
    /// A refused claim leaves everything unchanged.
    pub fn claim_name(&mut self, id: u128, name: &String) -> (r: Option<bool>)
        requires
            old(self).wf(),
        ensures
            final(self).wf(),
            r is Some <==> old(self)@.contains_key(id),
            r is None ==> final(self)@ == old(self)@,
            r is Some ==> {
                let sv = old(self)@[id];
                r->Some_0 == claim_granted(sv.users, name@) && final(self)@ == old(self)@.insert(
                    id,
                    SessionView {
                        users: presence_step(sv.users, PresenceOp::Claim(name@)),
                        subs: sv.subs,
                        cap: sv.cap,
                    },
                )
            },
            r == Some(false) ==> final(self)@ == old(self)@,
    {
        match self.find_index(id) {
            Some(i) => {
                let ghost s0 = self.sessions@;
                let (sid, mut sess) = self.sessions.remove(i);
                let granted = sess.user_set.try_claim(name);
                self.sessions.insert(i, (sid, sess));
                proof {
                    assert(self.sessions@ =~= s0.update(i as int, (sid, sess)));
                    lemma_map_of_index(s0, i as int);
                    lemma_map_of_update(s0, i as int, sess);
                    assert forall|j: int| 0 <= j < self.sessions@.len() implies (#[trigger] self
                        .sessions@[j]).1.wf() by {
                        if j != i {
                            assert(self.sessions@[j] == s0[j]);
                        }
                    }
                    let sv = old(self)@[id];
                    assert(sess@ =~~= SessionView {
                        users: presence_step(sv.users, PresenceOp::Claim(name@)),
                        subs: sv.subs,
                        cap: sv.cap,
                    });
                    if !granted {
                        assert(sess@ =~~= sv);
                        assert(final(self)@ =~~= old(self)@);
                    }
                }
                Some(granted)
            },
            None => {
                proof {
                    lemma_map_of_contains(self.sessions@, id);
                }
                None
            },
        }
    }

    /// Releases `name` in session `id`; hands back whether the session
    /// exists. Releasing a name nobody holds changes nothing.
    pub fn release_name(&mut self, id: u128, name: &String) -> (r: bool)
        requires
            old(self).wf(),
        ensures
            final(self).wf(),
            r == old(self)@.contains_key(id),
            !r ==> final(self)@ == old(self)@,
            r ==> {
                let sv = old(self)@[id];
                final(self)@ == old(self)@.insert(
                    id,
                    SessionView {
                        users: presence_step(sv.users, PresenceOp::Release(name@)),
                        subs: sv.subs,
                        cap: sv.cap,
                    },
                )
            },
    {
        match self.find_index(id) {
            Some(i) => {
                let ghost s0 = self.sessions@;
                let (sid, mut sess) = self.sessions.remove(i);
                sess.user_set.release(name);
                self.sessions.insert(i, (sid, sess));
                proof {
                    assert(self.sessions@ =~= s0.update(i as int, (sid, sess)));
                    lemma_map_of_index(s0, i as int);
                    lemma_map_of_update(s0, i as int, sess);
                    assert forall|j: int| 0 <= j < self.sessions@.len() implies (#[trigger] self
                        .sessions@[j]).1.wf() by {
                        if j != i {
                            assert(self.sessions@[j] == s0[j]);
                        }
                    }
                    let sv = old(self)@[id];
                    assert(sess@ =~~= SessionView {
                        users: presence_step(sv.users, PresenceOp::Release(name@)),
                        subs: sv.subs,
                        cap: sv.cap,
                    });
                }
                true
            },
            None => {
                proof {
                    lemma_map_of_contains(self.sessions@, id);
                }
                false
            },
        }
    }

    /// Adds a bus subscriber to session `id` and hands back its slot index,
    /// or nothing when the session does not exist.
    pub fn subscribe(&mut self, id: u128) -> (r: Option<usize>)
        requires
            old(self).wf(),
        ensures
            final(self).wf(),
            r is Some <==> old(self)@.contains_key(id),
            r is None ==> final(self)@ == old(self)@,
            r is Some ==> {
                let sv = old(self)@[id];
                r->Some_0 == sv.subs.len() && final(self)@ == old(self)@.insert(
                    id,
                    SessionView {
                        users: sv.users,
                        subs: sv.subs.push(Some(Seq::<EventView>::empty())),
                        cap: sv.cap,
                    },
                )
            },
    {
        match self.find_index(id) {
            Some(i) => {
                let ghost s0 = self.sessions@;
                let (sid, mut sess) = self.sessions.remove(i);
                let idx = sess.bus.subscribe();
                self.sessions.insert(i, (sid, sess));
                proof {
                    assert(self.sessions@ =~= s0.update(i as int, (sid, sess)));
                    lemma_map_of_index(s0, i as int);
                    lemma_map_of_update(s0, i as int, sess);
                    assert forall|j: int| 0 <= j < self.sessions@.len() implies (#[trigger] self
                        .sessions@[j]).1.wf() by {
                        if j != i {
                            assert(self.sessions@[j] == s0[j]);
                        }
                    }
                    let sv = old(self)@[id];
                    assert(sess@ =~~= SessionView {
                        users: sv.users,
                        subs: sv.subs.push(Some(Seq::<EventView>::empty())),
                        cap: sv.cap,
                    });
                }
                Some(idx)
            },
            None => {
                proof {
                    lemma_map_of_contains(self.sessions@, id);
                }
                None
            },
        }
    }

    /// Cancels bus subscriber `idx` of session `id`; hands back whether the
    /// session exists and has such a slot.
    pub fn unsubscribe(&mut self, id: u128, idx: usize) -> (r: bool)
        requires
            old(self).wf(),
        ensures
            final(self).wf(),
            r == (old(self)@.contains_key(id) && idx < old(self)@[id].subs.len()),
            !r ==> final(self)@ == old(self)@,
            r ==> {
                let sv = old(self)@[id];
                final(self)@ == old(self)@.insert(
                    id,
                    SessionView {
                        users: sv.users,
                        subs: sv.subs.update(idx as int, None),
                        cap: sv.cap,
                    },
                )
            },
    {
        match self.find_index(id) {
            Some(i) => {
                let ghost s0 = self.sessions@;
                let (sid, mut sess) = self.sessions.remove(i);
                proof {
                    lemma_map_of_index(s0, i as int);
                }
                if idx < sess.bus.slot_count() {
                    sess.bus.unsubscribe(idx);
                    self.sessions.insert(i, (sid, sess));
                    proof {
                        assert(self.sessions@ =~= s0.update(i as int, (sid, sess)));
                        lemma_map_of_update(s0, i as int, sess);
                        assert forall|j: int| 0 <= j < self.sessions@.len() implies (
                        #[trigger] self.sessions@[j]).1.wf() by {
                            if j != i {
                                assert(self.sessions@[j] == s0[j]);
                            }
                        }
                        let sv = old(self)@[id];
                        assert(sess@ =~~= SessionView {
                            users: sv.users,
                            subs: sv.subs.update(idx as int, None),
                            cap: sv.cap,
                        });
                    }
                    true
                } else {
                    self.sessions.insert(i, (sid, sess));
                    proof {
                        assert(self.sessions@ =~= s0.update(i as int, (sid, sess)));
                        lemma_map_of_update(s0, i as int, sess);
                        assert(sess@ =~~= old(self)@[id]);
                        assert(final(self)@ =~~= old(self)@);
                        assert forall|j: int| 0 <= j < self.sessions@.len() implies (
                        #[trigger] self.sessions@[j]).1.wf() by {
                            if j != i {
                                assert(self.sessions@[j] == s0[j]);
                            }
                        }
                    }
                    false
                }
            },
            None => {
                proof {
                    lemma_map_of_contains(self.sessions@, id);
                }
                false
            },
        }
    }

    /// Publishes `e` on session `id`'s bus; hands back whether the session
    /// exists. Every live subscriber's queue takes the event, except queues
    /// already at the bound.
    pub fn publish(&mut self, id: u128, e: &Event) -> (r: bool)
        requires
            old(self).wf(),
        ensures
            final(self).wf(),
            r == old(self)@.contains_key(id),
            !r ==> final(self)@ == old(self)@,
            r ==> {
                let sv = old(self)@[id];
                final(self)@ == old(self)@.insert(
                    id,
                    SessionView {
                        users: sv.users,
                        subs: subs_after_publish(sv.subs, e@, sv.cap),
                        cap: sv.cap,
                    },
                )
            },
    {
        match self.find_index(id) {
            Some(i) => {
                let ghost s0 = self.sessions@;
                let (sid, mut sess) = self.sessions.remove(i);
                sess.bus.publish(e);
                self.sessions.insert(i, (sid, sess));
                proof {
                    assert(self.sessions@ =~= s0.update(i as int, (sid, sess)));
                    lemma_map_of_index(s0, i as int);
                    lemma_map_of_update(s0, i as int, sess);
                    assert forall|j: int| 0 <= j < self.sessions@.len() implies (#[trigger] self
                        .sessions@[j]).1.wf() by {
                        if j != i {
                            assert(self.sessions@[j] == s0[j]);
                        }
                    }
                    let sv = old(self)@[id];
                    assert(sess@ =~~= SessionView {
                        users: sv.users,
                        subs: subs_after_publish(sv.subs, e@, sv.cap),
                        cap: sv.cap,
                    });
                }
                true
            },
            None => {
                proof {
                    lemma_map_of_contains(self.sessions@, id);
                }
                false
            },
        }
    }

    /// Takes the next queued event for subscriber `idx` of session `id`.
    /// Hands back nothing when the session or the slot is gone; otherwise
    /// the slot's next event, if one is queued.
    pub fn recv(&mut self, id: u128, idx: usize) -> (r: Option<Option<Event>>)
        requires
            old(self).wf(),
        ensures
            final(self).wf(),
            r is Some <==> (old(self)@.contains_key(id) && idx < old(self)@[id].subs.len() && old(
                self,
            )@[id].subs[idx as int] is Some),
            r is None ==> final(self)@ == old(self)@,
            r is Some ==> {
                let sv = old(self)@[id];
                let q = sv.subs[idx as int]->Some_0;
                match r->Some_0 {
                    None => final(self)@ == old(self)@ && q.len() == 0,
                    Some(ev) => ev@ == q[0] && final(self)@ == old(self)@.insert(
                        id,
                        SessionView {
                            users: sv.users,
                            subs: sv.subs.update(idx as int, Some(q.drop_first())),
                            cap: sv.cap,
                        },
                    ),
                }
            },
    {
        match self.find_index(id) {
            Some(i) => {
                let ghost s0 = self.sessions@;
                let (sid, mut sess) = self.sessions.remove(i);
                proof {
                    lemma_map_of_index(s0, i as int);
                }
                let in_range = idx < sess.bus.slot_count();
                let live = if in_range {
                    sess.bus.slot_is_live(idx)
                } else {
                    false
                };
                if live {
                    let got = sess.bus.recv(idx);
                    self.sessions.insert(i, (sid, sess));
                    proof {
                        assert(self.sessions@ =~= s0.update(i as int, (sid, sess)));
                        lemma_map_of_update(s0, i as int, sess);
                        assert forall|j: int| 0 <= j < self.sessions@.len() implies (
                        #[trigger] self.sessions@[j]).1.wf() by {
                            if j != i {
                                assert(self.sessions@[j] == s0[j]);
                            }
                        }
                        let sv = old(self)@[id];
                        let q = sv.subs[idx as int]->Some_0;
                        if got is Some {
                            assert(sess@ =~~= SessionView {
                                users: sv.users,
                                subs: sv.subs.update(idx as int, Some(q.drop_first())),
                                cap: sv.cap,
                            });
                        } else {
                            assert(sess@ =~~= sv);
                            assert(final(self)@ =~~= old(self)@);
                        }
                    }
                    Some(got)
                } else {
                    self.sessions.insert(i, (sid, sess));
                    proof {
                        assert(self.sessions@ =~= s0.update(i as int, (sid, sess)));
                        lemma_map_of_update(s0, i as int, sess);
                        assert(sess@ =~~= old(self)@[id]);
                        assert(final(self)@ =~~= old(self)@);
                        assert forall|j: int| 0 <= j < self.sessions@.len() implies (
                        #[trigger] self.sessions@[j]).1.wf() by {
                            if j != i {
                                assert(self.sessions@[j] == s0[j]);
                            }
                        }
                    }
                    None
                }
            },
            None => {
                proof {
                    lemma_map_of_contains(self.sessions@, id);
                }
                None
            },
        }
    }

    /// Every existing session's bus keeps room for at least one queued
    /// event per subscriber.
    pub proof fn lemma_session_caps(&self)
        requires
            self.wf(),
        ensures
            forall|id: u128| #[trigger] self@.contains_key(id) ==> self@[id].cap >= 1,
    {
        assert forall|id: u128| #[trigger] self@.contains_key(id) implies self@[id].cap >= 1 by {
            lemma_map_of_contains(self.sessions@, id);
            let i = choose|i: int|
                0 <= i < self.sessions@.len() && (#[trigger] self.sessions@[i]).0 == id;
            lemma_map_of_index(self.sessions@, i);
        }
    }

    /// The current names of session `id`, each exactly once, in some order;
    /// nothing when the session does not exist.
    pub fn snapshot_users(&self, id: u128) -> (r: Option<Vec<String>>)
        requires
            self.wf(),
        ensures
            r is Some <==> self@.contains_key(id),
            r is Some ==> r->Some_0.deep_view().to_set() == self@[id].users
                && r->Some_0.deep_view().no_duplicates(),
    {
        match self.find_index(id) {
            Some(i) => {
                proof {
                    lemma_map_of_index(self.sessions@, i as int);
                }
                let names = self.sessions[i].1.user_set.snapshot();
                Some(names)
            },
            None => {
                proof {
                    lemma_map_of_contains(self.sessions@, id);
                }
                None
            },
        }
    }

    /// Whether session `id` has no participants; nothing when the session
    /// does not exist.
    pub fn presence_is_empty(&self, id: u128) -> (r: Option<bool>)
        requires
            self.wf(),
        ensures
            r is Some <==> self@.contains_key(id),
            r is Some ==> r->Some_0 == (self@[id].users == Set::<Seq<char>>::empty()),
    {
        match self.find_index(id) {
            Some(i) => {
                proof {
                    lemma_map_of_index(self.sessions@, i as int);
                }
                Some(self.sessions[i].1.user_set.is_empty())
            },
            None => {
                proof {
                    lemma_map_of_contains(self.sessions@, id);
                }
                None
            },
        }
    }
}

} // verus!

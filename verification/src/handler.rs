//! The per-connection protocol state machine.
//!
//! A connection attaches to an existing session, claims a display name while
//! joining, then relays events in both directions until it ends, at which
//! point it leaves: a `left` event is published, the name is released, and
//! an empty session is queued for deletion. The handler decides; the
//! transport around it performs the I/O and feeds the next inbound event
//! back in.

use vstd::prelude::*;

use crate::bus::subs_after_publish;
use crate::events::{
    joined_event, joined_event_view, left_event, left_event_view, voted_event, voted_event_view,
    Event,
};
use crate::lifecycle::Job;
use crate::registry::{Registry, SessionView};

verus! {

/// The states a connection moves through: `Joining` until a name claim is
/// granted, `Active` while relaying, `Leaving` once its departure has been
/// announced, `Closed` when all its resources are released.
#[derive(Clone, Copy, Debug, PartialEq, Eq, Structural)]
pub enum ConnState {
    /// Waiting for a granted name claim.
    Joining,
    /// Joined and relaying events.
    Active,
    /// Departure announced and name released; the bus slot is still to be
    /// torn down.
    Leaving,
    /// Terminal: every resource released.
    Closed,
}

/// The errors a connection can run into.
#[derive(Clone, Copy, Debug, PartialEq, Eq, Structural)]
pub enum SessionError {
    /// The session identifier is absent from the registry; the connection
    /// attempt is rejected.
    NotFound,
    /// The claimed name is already active in the target session; the claim
    /// is rejected and the client may retry.
    NameConflict,
    /// The underlying connection failed; treated as an implicit leave.
    TransportFailure,
    /// An inbound payload did not parse as a known message shape; the
    /// offending message is ignored.
    MalformedMessage,
}

/// The state machine of one connection.
pub struct ConnectionHandler {
    /// The session this connection is attached to.
    pub session_id: u128,
    /// The claimed display name; empty until a claim is granted.
    pub username: String,
    /// The connection's bus slot, once subscribed.
    pub sub: Option<usize>,
    /// Where in the join/relay/leave protocol the connection stands.
    pub state: ConnState,
}

impl ConnectionHandler {
    /// Attaches a new connection to session `session_id`: rejected when the
    /// session does not exist, otherwise the connection starts joining with
    /// no name and no subscription.
    pub fn attach(reg: &Registry, session_id: u128) -> (r: Result<ConnectionHandler, SessionError>)
        ensures
            r is Ok <==> reg@.contains_key(session_id),
            r is Err ==> r->Err_0 == SessionError::NotFound,
            r is Ok ==> ({
                let c = r->Ok_0;
                &&& c.state == ConnState::Joining
                &&& c.session_id == session_id
                &&& c.username@ == Seq::<char>::empty()
                &&& c.sub is None
            }),
    {
        if reg.has_session(session_id) {
            Ok(
                ConnectionHandler {
                    session_id,
                    username: String::new(),
                    sub: None,
                    state: ConnState::Joining,
                },
            )
        } else {
            Err(SessionError::NotFound)
        }
    }

    /// Handles the name claim that ends the join handshake. On a conflict
    /// the claim is refused, nothing changes, and the connection stays
    /// joining so the client can retry. On success the connection
    /// subscribes to the session's bus *before* the `joined` event is
    /// published, so its own queue starts with exactly that event; the
    /// handed-back keep-alive job rescues a session that was queued for
    /// deletion.
    pub fn handle_claim(&mut self, reg: &mut Registry, name: &String) -> (r: Result<
        (Job, Event),
        SessionError,
    >)
        requires
            old(self).state == ConnState::Joining,
            old(reg).wf(),
        ensures
            final(reg).wf(),
            r == Err::<(Job, Event), SessionError>(SessionError::NotFound) <==> !old(
                reg,
            )@.contains_key(old(self).session_id),
            r == Err::<(Job, Event), SessionError>(SessionError::NameConflict) <==> (old(
                reg,
            )@.contains_key(old(self).session_id) && old(reg)@[old(self).session_id].users.contains(
                name@,
            )),
            r is Err ==> final(reg)@ == old(reg)@ && *final(self) == *old(self),
            r is Ok <==> (old(reg)@.contains_key(old(self).session_id) && !old(reg)@[old(
                self,
            ).session_id].users.contains(name@)),
            r is Ok ==> ({
                let id = old(self).session_id;
                let sv = old(reg)@[id];
                let job = (r->Ok_0).0;
                let ev = (r->Ok_0).1;
                let us = ev@.users->Some_0;
                &&& job == Job::KeepAlive(id)
                &&& ev@ == joined_event_view(name@, us)
                &&& us.to_set() == sv.users.insert(name@)
                &&& us.no_duplicates()
                &&& final(self).state == ConnState::Active
                &&& final(self).session_id == id
                &&& final(self).username@ == name@
                &&& final(self).sub == Some(sv.subs.len() as usize)
                &&& final(reg)@ == old(reg)@.insert(
                    id,
                    SessionView {
                        users: sv.users.insert(name@),
                        subs: subs_after_publish(
                            sv.subs.push(Some(Seq::empty())),
                            ev@,
                            sv.cap,
                        ),
                        cap: sv.cap,
                    },
                )
                &&& final(reg)@[id].subs[sv.subs.len() as int] == Some(seq![ev@])
            }),
    {
        proof {
            reg.lemma_session_caps();
        }
        let id = self.session_id;
        match reg.claim_name(id, name) {
            None => Err(SessionError::NotFound),
            Some(false) => Err(SessionError::NameConflict),
            Some(true) => {
                let idx = match reg.subscribe(id) {
                    Some(idx) => idx,
                    None => {
                        proof {
                            assert(false);
                        }
                        return Err(SessionError::NotFound);
                    },
                };
                let users = match reg.snapshot_users(id) {
                    Some(u) => u,
                    None => {
                        proof {
                            assert(false);
                        }
                        return Err(SessionError::NotFound);
                    },
                };
                let ev = joined_event(name, users);
                let published = reg.publish(id, &ev);
                proof {
                    assert(published);
                }
                self.username = name.clone();
                self.sub = Some(idx);
                self.state = ConnState::Active;
                proof {
                    let sv = old(reg)@[id];
                    let target = SessionView {
                        users: sv.users.insert(name@),
                        subs: subs_after_publish(
                            sv.subs.push(Some(Seq::empty())),
                            ev@,
                            sv.cap,
                        ),
                        cap: sv.cap,
                    };
                    assert(reg@ =~= old(reg)@.insert(id, target));
                    assert(sv.cap >= 1);
                    assert(target.subs[sv.subs.len() as int] == Some(
                        Seq::<crate::events::EventView>::empty().push(ev@),
                    ));
                    assert(Seq::<crate::events::EventView>::empty().push(ev@) =~= seq![ev@]);
                }
                Ok((Job::KeepAlive(id), ev))
            },
        }
    }

    /// Fans a vote out to the session: the vote is wrapped with the claimed
    /// name and the current presence snapshot and published on the bus.
    pub fn handle_vote(&mut self, reg: &mut Registry, vote: i32) -> (r: Result<Event, SessionError>)
        requires
            old(self).state == ConnState::Active,
            old(reg).wf(),
        ensures
            final(reg).wf(),
            *final(self) == *old(self),
            r is Err <==> !old(reg)@.contains_key(old(self).session_id),
            r is Err ==> r->Err_0 == SessionError::NotFound && final(reg)@ == old(reg)@,
            r is Ok ==> ({
                let id = old(self).session_id;
                let sv = old(reg)@[id];
                let ev = r->Ok_0;
                let us = ev@.users->Some_0;
                &&& ev@ == voted_event_view(old(self).username@, vote as int, us)
                &&& us.to_set() == sv.users
                &&& us.no_duplicates()
                &&& final(reg)@ == old(reg)@.insert(
                    id,
                    SessionView {
                        users: sv.users,
                        subs: subs_after_publish(sv.subs, ev@, sv.cap),
                        cap: sv.cap,
                    },
                )
            }),
    {
        let id = self.session_id;
        let users = match reg.snapshot_users(id) {
            Some(u) => u,
            None => {
                return Err(SessionError::NotFound);
            },
        };
        let ev = voted_event(&self.username, vote, users);
        let published = reg.publish(id, &ev);
        proof {
            assert(published);
            let sv = old(reg)@[id];
            assert(reg@ =~= old(reg)@.insert(
                id,
                SessionView {
                    users: sv.users,
                    subs: subs_after_publish(sv.subs, ev@, sv.cap),
                    cap: sv.cap,
                },
            ));
        }
        Ok(ev)
    }

    /// Takes the next event queued for this connection's bus slot, if any:
    /// what the outbound relay forwards to the remote peer.
    pub fn next_outbound(&mut self, reg: &mut Registry) -> (r: Result<Option<Event>, SessionError>)
        requires
            old(self).state == ConnState::Active,
            old(self).sub is Some,
            old(reg).wf(),
        ensures
            final(reg).wf(),
            *final(self) == *old(self),
            ({
                let id = old(self).session_id;
                let idx = old(self).sub->Some_0;
                let live = old(reg)@.contains_key(id) && idx < old(reg)@[id].subs.len() && old(
                    reg,
                )@[id].subs[idx as int] is Some;
                &&& (r is Err <==> !live)
                &&& (r is Err ==> r->Err_0 == SessionError::NotFound && final(reg)@ == old(reg)@)
                &&& (r is Ok ==> ({
                    let sv = old(reg)@[id];
                    let q = sv.subs[idx as int]->Some_0;
                    match r->Ok_0 {
                        None => final(reg)@ == old(reg)@ && q.len() == 0,
                        Some(ev) => ev@ == q[0] && final(reg)@ == old(reg)@.insert(
                            id,
                            SessionView {
                                users: sv.users,
                                subs: sv.subs.update(idx as int, Some(q.drop_first())),
                                cap: sv.cap,
                            },
                        ),
                    }
                }))
            }),
    {
        let idx = match self.sub {
            Some(i) => i,
            None => {
                proof {
                    assert(false);
                }
                return Err(SessionError::NotFound);
            },
        };
        match reg.recv(self.session_id, idx) {
            Some(got) => Ok(got),
            None => Err(SessionError::NotFound),
        }
    }

    /// Ends the connection's participation. A connection that never
    /// completed its join publishes nothing and releases no name — it
    /// simply closes. A joined connection announces its departure with a
    /// `left` event carrying the snapshot without it, releases its name,
    /// and, when the session is now empty, hands back a queue-for-deletion
    /// job; it then stands in `Leaving` until [`Self::close`] tears the bus
    /// slot down.
    pub fn handle_disconnect(&mut self, reg: &mut Registry) -> (r: Result<
        (Option<Event>, Option<Job>),
        SessionError,
    >)
        requires
            old(self).state == ConnState::Joining || old(self).state == ConnState::Active,
            old(reg).wf(),
        ensures
            final(reg).wf(),
            final(self).session_id == old(self).session_id,
            final(self).username == old(self).username,
            final(self).sub == old(self).sub,
            old(self).state == ConnState::Joining ==> r == Ok::<
                (Option<Event>, Option<Job>),
                SessionError,
            >((None, None)) && final(reg)@ == old(reg)@ && final(self).state == ConnState::Closed,
            old(self).state == ConnState::Active && !old(reg)@.contains_key(old(self).session_id)
                ==> r == Err::<(Option<Event>, Option<Job>), SessionError>(SessionError::NotFound)
                && final(reg)@ == old(reg)@ && final(self).state == ConnState::Closed,
            old(self).state == ConnState::Active && old(reg)@.contains_key(old(self).session_id)
                ==> ({
                let id = old(self).session_id;
                let sv = old(reg)@[id];
                let nm = old(self).username@;
                let remaining = sv.users.remove(nm);
                &&& r is Ok
                &&& (r->Ok_0).0 is Some
                &&& ({
                    let ev = (r->Ok_0).0->Some_0;
                    let us = ev@.users->Some_0;
                    &&& ev@ == left_event_view(nm, us)
                    &&& us.to_set() == remaining
                    &&& us.no_duplicates()
                    &&& final(reg)@ == old(reg)@.insert(
                        id,
                        SessionView {
                            users: remaining,
                            subs: subs_after_publish(sv.subs, ev@, sv.cap),
                            cap: sv.cap,
                        },
                    )
                })
                &&& (r->Ok_0).1 == if remaining == Set::<Seq<char>>::empty() {
                    Some(Job::QueueDelete(id))
                } else {
                    Option::<Job>::None
                }
                &&& final(self).state == ConnState::Leaving
            }),
    {
        if matches!(self.state, ConnState::Joining) {
            self.state = ConnState::Closed;
            return Ok((None, None));
        }
        let id = self.session_id;
        let found = reg.release_name(id, &self.username);
        if !found {
            self.state = ConnState::Closed;
            return Err(SessionError::NotFound);
        }
        let users = match reg.snapshot_users(id) {
            Some(u) => u,
            None => {
                proof {
                    assert(false);
                }
                return Err(SessionError::NotFound);
            },
        };
        let ev = left_event(&self.username, users);
        let published = reg.publish(id, &ev);
        proof {
            assert(published);
        }
        let empty_now = match reg.presence_is_empty(id) {
            Some(b) => b,
            None => {
                proof {
                    assert(false);
                }
                return Err(SessionError::NotFound);
            },
        };
        let job = if empty_now {
            Some(Job::QueueDelete(id))
        } else {
            None
        };
        self.state = ConnState::Leaving;
        proof {
            let sv = old(reg)@[id];
            let nm = old(self).username@;
            assert(reg@ =~= old(reg)@.insert(
                id,
                SessionView {
                    users: sv.users.remove(nm),
                    subs: subs_after_publish(sv.subs, ev@, sv.cap),
                    cap: sv.cap,
                },
            ));
        }
        Ok((Some(ev), job))
    }

    /// Tears down the connection's bus slot after its departure was
    /// announced; the connection is then closed for good.
    pub fn close(&mut self, reg: &mut Registry)
        requires
            old(self).state == ConnState::Leaving,
            old(reg).wf(),
        ensures
            final(reg).wf(),
            final(self).state == ConnState::Closed,
            final(self).session_id == old(self).session_id,
            final(self).username == old(self).username,
            final(self).sub is None,
            match old(self).sub {
                None => final(reg)@ == old(reg)@,
                Some(idx) => {
                    let id = old(self).session_id;
                    if old(reg)@.contains_key(id) && idx < old(reg)@[id].subs.len() {
                        final(reg)@ == old(reg)@.insert(
                            id,
                            SessionView {
                                users: old(reg)@[id].users,
                                subs: old(reg)@[id].subs.update(idx as int, None),
                                cap: old(reg)@[id].cap,
                            },
                        )
                    } else {
                        final(reg)@ == old(reg)@
                    }
                },
            },
    {
        match self.sub {
            Some(idx) => {
                let _found = reg.unsubscribe(self.session_id, idx);
            },
            None => {},
        }
        self.sub = None;
        self.state = ConnState::Closed;
    }
}

} // verus!

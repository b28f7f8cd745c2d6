//! Server-to-client event envelopes.
//!
//! Every message fanned out over a session's bus is an [`Event`]: a tagged
//! envelope with a variant-specific payload and, for presence-changing
//! events, the current presence snapshot.

use vstd::prelude::*;

verus! {

/// Error codes surfaced to a single connection over its own socket.
#[derive(Clone, Copy, Debug, PartialEq, Eq, Structural)]
pub enum WsError {
    /// The display name claimed during the join handshake is already held by
    /// another connection of the same session.
    UsernameTaken,
}

/// The tag of a server-to-client event envelope.
#[derive(Clone, Copy, Debug, PartialEq, Eq, Structural)]
pub enum EventKind {
    /// An error delivered to one connection only.
    Error,
    /// A participant completed its join.
    Joined,
    /// A participant left the session.
    Left,
    /// A participant cast a vote.
    Voted,
}

/// A vote cast by a participant, tagged with the caster's display name.
#[derive(Debug)]
pub struct Vote {
    /// Display name of the participant that cast the vote.
    pub user: String,
    /// The value voted for.
    pub vote: i32,
}

/// Mathematical model of a [`Vote`].
#[verifier::ext_equal]
pub struct VoteView {
    /// Model of [`Vote::user`].
    pub user: Seq<char>,
    /// Model of [`Vote::vote`].
    pub vote: int,
}

impl View for Vote {
    type V = VoteView;

    open spec fn view(&self) -> VoteView {
        VoteView { user: self.user@, vote: self.vote as int }
    }
}

/// The variant-specific payload of an [`Event`].
#[derive(Debug)]
pub enum Payload {
    /// An error code, sent to one connection only.
    Error(WsError),
    /// A participant with the given display name joined.
    Connect {
        /// Display name of the participant that joined.
        user: String,
    },
    /// A participant with the given display name left.
    Leave {
        /// Display name of the participant that left.
        user: String,
    },
    /// A participant cast a vote.
    Vote(Vote),
}

/// Mathematical model of a [`Payload`].
#[verifier::ext_equal]
pub enum PayloadView {
    /// Model of [`Payload::Error`].
    Error(WsError),
    /// Model of [`Payload::Connect`].
    Connect { user: Seq<char> },
    /// Model of [`Payload::Leave`].
    Leave { user: Seq<char> },
    /// Model of [`Payload::Vote`].
    Vote(VoteView),
}

impl View for Payload {
    type V = PayloadView;

    open spec fn view(&self) -> PayloadView {
        match self {
            Payload::Error(e) => PayloadView::Error(*e),
            Payload::Connect { user } => PayloadView::Connect { user: user@ },
            Payload::Leave { user } => PayloadView::Leave { user: user@ },
            Payload::Vote(v) => PayloadView::Vote(v@),
        }
    }
}

/// A server-to-client event envelope.
#[derive(Debug)]
pub struct Event {
    /// The envelope tag.
    pub kind: EventKind,
    /// The variant-specific payload.
    pub payload: Payload,
    /// The presence snapshot attached to presence-changing events, absent on
    /// error events.
    pub users: Option<Vec<String>>,
}

/// Mathematical model of an [`Event`].
#[verifier::ext_equal]
pub struct EventView {
    /// Model of [`Event::kind`].
    pub kind: EventKind,
    /// Model of [`Event::payload`].
    pub payload: PayloadView,
    /// Model of [`Event::users`].
    pub users: Option<Seq<Seq<char>>>,
}

impl View for Event {
    type V = EventView;

    open spec fn view(&self) -> EventView {
        EventView {
            kind: self.kind,
            payload: self.payload@,
            users: match &self.users {
                Some(u) => Some(u.deep_view()),
                None => None,
            },
        }
    }
}

impl DeepView for Event {
    type V = EventView;

    open spec fn deep_view(&self) -> EventView {
        self@
    }
}

/// Model of the event announcing a completed join.
pub open spec fn joined_event_view(name: Seq<char>, users: Seq<Seq<char>>) -> EventView {
    EventView {
        kind: EventKind::Joined,
        payload: PayloadView::Connect { user: name },
        users: Some(users),
    }
}

/// Model of the event announcing that a participant left.
pub open spec fn left_event_view(name: Seq<char>, users: Seq<Seq<char>>) -> EventView {
    EventView {
        kind: EventKind::Left,
        payload: PayloadView::Leave { user: name },
        users: Some(users),
    }
}

/// Model of the event fanning out a vote, wrapped with the caster's name.
pub open spec fn voted_event_view(name: Seq<char>, vote: int, users: Seq<Seq<char>>) -> EventView {
    EventView {
        kind: EventKind::Voted,
        payload: PayloadView::Vote(VoteView { user: name, vote: vote }),
        users: Some(users),
    }
}

/// Model of the error event sent to one connection only.
pub open spec fn error_event_view(code: WsError) -> EventView {
    EventView { kind: EventKind::Error, payload: PayloadView::Error(code), users: None }
}

/// Builds the event announcing that `name` completed its join, carrying the
/// presence snapshot `users`.
pub fn joined_event(name: &String, users: Vec<String>) -> (e: Event)
    ensures
        e@ == joined_event_view(name@, users.deep_view()),
{
    Event {
        kind: EventKind::Joined,
        payload: Payload::Connect { user: name.clone() },
        users: Some(users),
    }
}

/// Builds the event announcing that `name` left, carrying the presence
/// snapshot `users` (the leaver excluded).
pub fn left_event(name: &String, users: Vec<String>) -> (e: Event)
    ensures
        e@ == left_event_view(name@, users.deep_view()),
{
    Event {
        kind: EventKind::Left,
        payload: Payload::Leave { user: name.clone() },
        users: Some(users),
    }
}

/// Builds the event fanning out a vote by `name`, carrying the presence
/// snapshot `users`.
pub fn voted_event(name: &String, vote: i32, users: Vec<String>) -> (e: Event)
    ensures
        e@ == voted_event_view(name@, vote as int, users.deep_view()),
{
    Event {
        kind: EventKind::Voted,
        payload: Payload::Vote(Vote { user: name.clone(), vote }),
        users: Some(users),
    }
}

/// Builds the error event carrying `code`, addressed to one connection only.
pub fn error_event(code: WsError) -> (e: Event)
    ensures
        e@ == error_event_view(code),
{
    Event { kind: EventKind::Error, payload: Payload::Error(code), users: None }
}

/// Clones a vector of display names, element by element.
pub fn clone_string_vec(v: &Vec<String>) -> (r: Vec<String>)
    ensures
        r@ == v@,
        r.deep_view() == v.deep_view(),
{
    let mut r: Vec<String> = Vec::new();
    let mut i: usize = 0;
    while i < v.len()
        invariant
            i <= v.len(),
            r@ == v@.subrange(0, i as int),
        decreases v.len() - i,
    {
        r.push(v[i].clone());
        i += 1;
    }
    proof {
        assert(r@ =~= v@);
        assert(r.deep_view() =~= v.deep_view());
    }
    r
}

/// Clones an event envelope; the copy has the same model as the original.
pub fn clone_event(e: &Event) -> (r: Event)
    ensures
        r@ == e@,
{
    let payload = match &e.payload {
        Payload::Error(code) => Payload::Error(*code),
        Payload::Connect { user } => Payload::Connect { user: user.clone() },
        Payload::Leave { user } => Payload::Leave { user: user.clone() },
        Payload::Vote(v) => Payload::Vote(Vote { user: v.user.clone(), vote: v.vote }),
    };
    let users = match &e.users {
        Some(u) => Some(clone_string_vec(u)),
        None => None,
    };
    let r = Event { kind: e.kind, payload, users };
    proof {
        assert(r@ =~= e@);
    }
    r
}

} // verus!

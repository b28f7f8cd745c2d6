use sprint_poker::events::{EventKind, Payload};
use sprint_poker::handler::{ConnState, ConnectionHandler, SessionError};
use sprint_poker::lifecycle::{Job, JobRunner};
use sprint_poker::registry::Registry;

fn names_of(users: &Option<Vec<String>>) -> Vec<String> {
    users.clone().expect("event should carry a presence snapshot")
}

#[test]
fn join_sees_own_joined_event() {
    // A connection that completes its join receives its own `joined` event,
    // because it subscribes before the announcement is published.
    let mut reg = Registry::new();
    let sid = reg.create();
    let mut conn = ConnectionHandler::attach(&reg, sid).expect("session exists");
    let name = String::from("alice");
    let (job, ev) = conn.handle_claim(&mut reg, &name).expect("claim granted");
    assert!(matches!(job, Job::KeepAlive(id) if id == sid));
    assert!(matches!(ev.kind, EventKind::Joined));
    let first = conn
        .next_outbound(&mut reg)
        .expect("slot is live")
        .expect("own joined event is queued");
    assert!(matches!(first.kind, EventKind::Joined));
    match first.payload {
        Payload::Connect { user } => assert_eq!(user, "alice"),
        _ => panic!("joined event should carry a connect payload"),
    }
    assert_eq!(names_of(&first.users), vec![String::from("alice")]);
    // Nothing else was published.
    let rest = conn.next_outbound(&mut reg).expect("slot is live");
    assert!(rest.is_none());
}

#[test]
fn full_session_scenario() {
    // Create a session; alice joins; a second alice is refused; bob joins;
    // alice leaves, leaving bob alone; bob leaves, emptying the session and
    // queueing it for deletion; an undisturbed sweep removes it.
    let mut reg = Registry::new();
    let mut runner = JobRunner::new();
    let sid = reg.create();

    let alice = String::from("alice");
    let bob = String::from("bob");

    let mut conn_a = ConnectionHandler::attach(&reg, sid).expect("session exists");
    let (job, _ev) = conn_a.handle_claim(&mut reg, &alice).expect("alice joins");
    runner.run(&mut reg, job);

    let mut conn_dup = ConnectionHandler::attach(&reg, sid).expect("session exists");
    let dup = conn_dup.handle_claim(&mut reg, &alice);
    assert!(matches!(dup, Err(SessionError::NameConflict)));
    assert!(matches!(conn_dup.state, ConnState::Joining));

    let mut conn_b = ConnectionHandler::attach(&reg, sid).expect("session exists");
    let (job, _ev) = conn_b.handle_claim(&mut reg, &bob).expect("bob joins");
    runner.run(&mut reg, job);

    // Alice leaves: the left event's snapshot excludes her, and the session
    // is not empty, so no deletion is queued.
    let (ev, job) = conn_a.handle_disconnect(&mut reg).expect("alice leaves");
    conn_a.close(&mut reg);
    let ev = ev.expect("a joined connection announces its departure");
    assert!(matches!(ev.kind, EventKind::Left));
    assert_eq!(names_of(&ev.users), vec![String::from("bob")]);
    assert!(job.is_none());

    // Bob leaves: the session empties and a deletion is queued.
    let (ev, job) = conn_b.handle_disconnect(&mut reg).expect("bob leaves");
    conn_b.close(&mut reg);
    let ev = ev.expect("a joined connection announces its departure");
    assert_eq!(names_of(&ev.users), Vec::<String>::new());
    let job = job.expect("the last leaver queues the session for deletion");
    assert!(matches!(job, Job::QueueDelete(id) if id == sid));
    runner.run(&mut reg, job);

    // A sweep with no intervening join removes the session for good.
    runner.run(&mut reg, Job::Drain);
    assert!(!reg.has_session(sid));
    assert!(matches!(
        ConnectionHandler::attach(&reg, sid),
        Err(SessionError::NotFound)
    ));
}

#[test]
fn sessions_are_isolated() {
    // Two connections joined to different sessions never observe each
    // other's publishes.
    let mut reg = Registry::new();
    let s1 = reg.create();
    let s2 = reg.create();
    assert_ne!(s1, s2);

    let alice = String::from("alice");
    let bob = String::from("bob");

    let mut conn1 = ConnectionHandler::attach(&reg, s1).expect("session exists");
    conn1.handle_claim(&mut reg, &alice).expect("alice joins");
    let mut conn2 = ConnectionHandler::attach(&reg, s2).expect("session exists");
    conn2.handle_claim(&mut reg, &bob).expect("bob joins");

    // Drain both join announcements.
    conn1.next_outbound(&mut reg).unwrap().unwrap();
    conn2.next_outbound(&mut reg).unwrap().unwrap();

    // A vote in session 1 reaches conn1 and never conn2.
    conn1.handle_vote(&mut reg, 8).expect("vote fans out");
    let got1 = conn1.next_outbound(&mut reg).unwrap();
    let got2 = conn2.next_outbound(&mut reg).unwrap();
    let voted = got1.expect("the voter's own subscription sees the vote");
    assert!(matches!(voted.kind, EventKind::Voted));
    match voted.payload {
        Payload::Vote(v) => {
            assert_eq!(v.user, "alice");
            assert_eq!(v.vote, 8);
        }
        _ => panic!("voted event should carry a vote payload"),
    }
    assert!(got2.is_none());
}

#[test]
fn disconnect_while_joining_is_silent() {
    // A connection that disconnects before any name claim publishes no
    // `left` event and releases no name.
    let mut reg = Registry::new();
    let sid = reg.create();

    let alice = String::from("alice");
    let mut watcher = ConnectionHandler::attach(&reg, sid).expect("session exists");
    watcher.handle_claim(&mut reg, &alice).expect("alice joins");
    watcher.next_outbound(&mut reg).unwrap().unwrap();

    let mut ghost_conn = ConnectionHandler::attach(&reg, sid).expect("session exists");
    let (ev, job) = ghost_conn
        .handle_disconnect(&mut reg)
        .expect("a joining connection just closes");
    assert!(ev.is_none());
    assert!(job.is_none());
    assert!(matches!(ghost_conn.state, ConnState::Closed));

    // Nothing was published and nobody's name was released: the watcher
    // sees no event and alice is still present.
    assert!(watcher.next_outbound(&mut reg).unwrap().is_none());
    let users = reg.snapshot_users(sid).expect("session exists");
    assert_eq!(users, vec![String::from("alice")]);
}

#[test]
fn attach_to_unknown_session_is_rejected() {
    let reg = Registry::new();
    assert!(matches!(
        ConnectionHandler::attach(&reg, 7),
        Err(SessionError::NotFound)
    ));
}

#[test]
fn retry_after_conflict_succeeds() {
    // A refused claim leaves the connection joining; a fresh name works.
    let mut reg = Registry::new();
    let sid = reg.create();
    let alice = String::from("alice");

    let mut first = ConnectionHandler::attach(&reg, sid).expect("session exists");
    first.handle_claim(&mut reg, &alice).expect("alice joins");

    let mut second = ConnectionHandler::attach(&reg, sid).expect("session exists");
    assert!(matches!(
        second.handle_claim(&mut reg, &alice),
        Err(SessionError::NameConflict)
    ));
    let carol = String::from("carol");
    second.handle_claim(&mut reg, &carol).expect("a fresh name is granted");
    assert!(matches!(second.state, ConnState::Active));

    let mut users = reg.snapshot_users(sid).expect("session exists");
    users.sort();
    assert_eq!(users, vec![String::from("alice"), String::from("carol")]);
}

#[test]
fn slow_subscriber_drops_overflow() {
    // A subscriber's queue is bounded; once it is full, further deliveries
    // to that subscriber are dropped (lag-tolerant broadcast).
    let mut reg = Registry::new();
    let sid = reg.create();

    let mut conn_a = ConnectionHandler::attach(&reg, sid).expect("session exists");
    conn_a.handle_claim(&mut reg, &String::from("alice")).expect("alice joins");
    let mut conn_b = ConnectionHandler::attach(&reg, sid).expect("session exists");
    conn_b.handle_claim(&mut reg, &String::from("bob")).expect("bob joins");

    // Bob never drains his queue while alice votes far past its bound.
    for i in 0..120 {
        conn_a.handle_vote(&mut reg, i).expect("vote fans out");
    }

    // Bob's queue held his own joined event plus the first 99 votes; the
    // rest were dropped at the bound of 100.
    let mut received = Vec::new();
    while let Some(ev) = conn_b.next_outbound(&mut reg).expect("slot is live") {
        received.push(ev);
    }
    assert_eq!(received.len(), 100);
    assert!(matches!(received[0].kind, EventKind::Joined));
    match &received[99].payload {
        Payload::Vote(v) => assert_eq!(v.vote, 98),
        _ => panic!("the last queued event should be a vote"),
    }
}

#[test]
fn presence_after_joins_and_leaves() {
    // After three joins and one leave the snapshot holds exactly the two
    // names that stayed, order-irrelevant.
    let mut reg = Registry::new();
    let sid = reg.create();

    let names = ["alice", "bob", "carol"];
    let mut conns = Vec::new();
    for name in names {
        let mut conn = ConnectionHandler::attach(&reg, sid).expect("session exists");
        conn.handle_claim(&mut reg, &String::from(name)).expect("claim granted");
        conns.push(conn);
    }
    let mut bob_conn = conns.remove(1);
    bob_conn.handle_disconnect(&mut reg).expect("bob leaves");
    bob_conn.close(&mut reg);

    let mut users = reg.snapshot_users(sid).expect("session exists");
    users.sort();
    assert_eq!(users, vec![String::from("alice"), String::from("carol")]);
}

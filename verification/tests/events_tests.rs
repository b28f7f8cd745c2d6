use sprint_poker::events::{
    clone_event, clone_string_vec, error_event, joined_event, left_event, voted_event, EventKind,
    Payload, WsError,
};

#[test]
fn joined_event_carries_name_and_snapshot() {
    let name = String::from("alice");
    let users = vec![String::from("alice"), String::from("bob")];
    let ev = joined_event(&name, users.clone());
    assert!(matches!(ev.kind, EventKind::Joined));
    match ev.payload {
        Payload::Connect { user } => assert_eq!(user, "alice"),
        _ => panic!("joined event should carry a connect payload"),
    }
    assert_eq!(ev.users, Some(users));
}

#[test]
fn left_event_carries_name_and_snapshot() {
    let name = String::from("bob");
    let users = vec![String::from("alice")];
    let ev = left_event(&name, users.clone());
    assert!(matches!(ev.kind, EventKind::Left));
    match ev.payload {
        Payload::Leave { user } => assert_eq!(user, "bob"),
        _ => panic!("left event should carry a leave payload"),
    }
    assert_eq!(ev.users, Some(users));
}

#[test]
fn voted_event_wraps_vote_with_name() {
    let name = String::from("carol");
    let users = vec![String::from("carol")];
    let ev = voted_event(&name, 13, users.clone());
    assert!(matches!(ev.kind, EventKind::Voted));
    match ev.payload {
        Payload::Vote(v) => {
            assert_eq!(v.user, "carol");
            assert_eq!(v.vote, 13);
        }
        _ => panic!("voted event should carry a vote payload"),
    }
    assert_eq!(ev.users, Some(users));
}

#[test]
fn error_event_has_no_snapshot() {
    let ev = error_event(WsError::UsernameTaken);
    assert!(matches!(ev.kind, EventKind::Error));
    assert!(matches!(ev.payload, Payload::Error(WsError::UsernameTaken)));
    assert!(ev.users.is_none());
}

#[test]
fn cloned_event_matches_original() {
    let ev = voted_event(
        &String::from("alice"),
        5,
        vec![String::from("alice"), String::from("bob")],
    );
    let copy = clone_event(&ev);
    assert!(matches!(copy.kind, EventKind::Voted));
    match copy.payload {
        Payload::Vote(v) => {
            assert_eq!(v.user, "alice");
            assert_eq!(v.vote, 5);
        }
        _ => panic!("the copy should keep the vote payload"),
    }
    assert_eq!(
        copy.users,
        Some(vec![String::from("alice"), String::from("bob")])
    );
}

#[test]
fn cloned_string_vec_matches_original() {
    let v = vec![String::from("a"), String::from("b")];
    let copy = clone_string_vec(&v);
    assert_eq!(copy, v);
}

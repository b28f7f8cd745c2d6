use sprint_poker::presence::UserSet;

#[test]
fn claim_is_exclusive() {
    // Once a claim of a name is granted, every further claim of the same
    // name is refused until the name is released.
    let mut set = UserSet::new();
    let alice = String::from("alice");
    assert!(set.try_claim(&alice));
    assert!(!set.try_claim(&alice));
    assert!(!set.try_claim(&alice));
    set.release(&alice);
    assert!(set.try_claim(&alice));
}

#[test]
fn names_are_case_sensitive() {
    // Comparison is exact-string: differently cased names are distinct.
    let mut set = UserSet::new();
    assert!(set.try_claim(&String::from("Alice")));
    assert!(set.try_claim(&String::from("alice")));
    assert_eq!(set.len(), 2);
}

#[test]
fn release_of_absent_name_is_noop() {
    let mut set = UserSet::new();
    assert!(set.try_claim(&String::from("alice")));
    set.release(&String::from("bob"));
    assert_eq!(set.len(), 1);
    assert!(set.contains(&String::from("alice")));
}

#[test]
fn snapshot_is_joins_minus_leaves() {
    // After three granted claims and one release the snapshot holds the
    // claimed names minus the released one, order-irrelevant.
    let mut set = UserSet::new();
    for name in ["alice", "bob", "carol"] {
        assert!(set.try_claim(&String::from(name)));
    }
    set.release(&String::from("bob"));
    let mut names = set.snapshot();
    names.sort();
    assert_eq!(names, vec![String::from("alice"), String::from("carol")]);
}

#[test]
fn empty_set_reports_empty() {
    let mut set = UserSet::new();
    assert!(set.is_empty());
    assert_eq!(set.len(), 0);
    assert!(set.try_claim(&String::from("alice")));
    assert!(!set.is_empty());
    set.release(&String::from("alice"));
    assert!(set.is_empty());
}

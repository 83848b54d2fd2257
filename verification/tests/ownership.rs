use dao_os::ownership::{Ownership, OwnershipError, PendingTransfer};

fn s(t: &str) -> String {
    t.to_string()
}

#[test]
fn update_ownership_sets_pending_and_keeps_owner() {
    let mut o = Ownership::new(s("old_owner"));
    o.propose(&s("old_owner"), s("new_owner"), None).unwrap();
    // The transfer is only proposed: owner unchanged, pending recorded,
    // with no expiry.
    assert_eq!(o.owner, s("old_owner"));
    assert_eq!(
        o.pending,
        Some(PendingTransfer {
            new_owner: s("new_owner"),
            expiry: None
        })
    );
}

#[test]
fn query_ownership_reads_the_record() {
    let mut o = Ownership::new(s("owner1"));
    assert_eq!(o.owner, s("owner1"));
    assert_eq!(o.pending, None);
    assert!(o.is_owner(&s("owner1")));
    assert!(!o.is_owner(&s("someone")));
    o.propose(&s("owner1"), s("owner2"), Some(7)).unwrap();
    assert_eq!(
        o.pending,
        Some(PendingTransfer {
            new_owner: s("owner2"),
            expiry: Some(7)
        })
    );
}

#[test]
fn only_owner_may_propose() {
    let mut o = Ownership::new(s("owner1"));
    let err = o.propose(&s("mallory"), s("mallory"), None).unwrap_err();
    assert_eq!(err, OwnershipError::NotOwner);
    assert_eq!(o.owner, s("owner1"));
    assert_eq!(o.pending, None);
}

#[test]
fn accept_before_expiry_transfers() {
    let mut o = Ownership::new(s("owner1"));
    o.propose(&s("owner1"), s("owner2"), Some(100)).unwrap();
    o.accept(&s("owner2"), 99).unwrap();
    assert_eq!(o.owner, s("owner2"));
    assert_eq!(o.pending, None);
}

#[test]
fn accept_needs_the_designated_owner() {
    let mut o = Ownership::new(s("owner1"));
    o.propose(&s("owner1"), s("owner2"), None).unwrap();
    let err = o.accept(&s("owner3"), 0).unwrap_err();
    assert_eq!(err, OwnershipError::NotPendingOwner);
    let err = {
        let mut fresh = Ownership::new(s("owner1"));
        fresh.accept(&s("owner2"), 0).unwrap_err()
    };
    assert_eq!(err, OwnershipError::NoPendingTransfer);
}

#[test]
fn cancel_clears_the_proposal() {
    let mut o = Ownership::new(s("owner1"));
    o.propose(&s("owner1"), s("owner2"), None).unwrap();
    o.cancel(&s("owner1")).unwrap();
    assert_eq!(o.pending, None);
    let err = o.accept(&s("owner2"), 0).unwrap_err();
    assert_eq!(err, OwnershipError::NoPendingTransfer);
}

use proposal_registry::service::{
    create_fits, create_proposal, edit_proposal, end_proposal, get_proposal, get_proposal_count,
    vote,
};
use proposal_registry::store::ProposalStore;
use proposal_registry::types::{CallerId, Choice, Proposal, VoteError};

fn caller(bytes: &[u8]) -> CallerId {
    CallerId { bytes: bytes.to_vec() }
}

#[test]
fn create_then_get_fresh() {
    let mut store = ProposalStore::new();
    let a = caller(b"alice");
    let prev = create_proposal(&mut store, a.clone(), 7, b"fix the roof".to_vec(), true);
    assert!(prev.is_none());
    let got = get_proposal(&store, 7).unwrap();
    assert_eq!(got.owner, a);
    assert_eq!(got.approve, 0);
    assert_eq!(got.reject, 0);
    assert_eq!(got.pass, 0);
    assert!(got.voted.is_empty());
    assert_eq!(got.description, b"fix the roof".to_vec());
    assert!(got.is_active);
}

#[test]
fn missing_key_operations() {
    let mut store = ProposalStore::new();
    let a = caller(b"alice");
    assert!(get_proposal(&store, 42).is_none());
    assert_eq!(
        edit_proposal(&mut store, &a, 42, b"x".to_vec(), true),
        Err(VoteError::NoSuchProposal)
    );
    assert_eq!(end_proposal(&mut store, &a, 42), Err(VoteError::NoSuchProposal));
    assert_eq!(
        vote(&mut store, a, 42, Choice::Approve),
        Err(VoteError::NoSuchProposal)
    );
    assert_eq!(get_proposal_count(&store), 0);
}

#[test]
fn repeated_reads_identical() {
    let mut store = ProposalStore::new();
    create_proposal(&mut store, caller(b"alice"), 3, b"repave the road".to_vec(), true);
    let first = get_proposal(&store, 3);
    let second = get_proposal(&store, 3);
    assert_eq!(first, second);
}

#[test]
fn second_vote_already_voted() {
    let mut store = ProposalStore::new();
    create_proposal(&mut store, caller(b"alice"), 1, b"plant trees".to_vec(), true);
    assert_eq!(vote(&mut store, caller(b"bob"), 1, Choice::Approve), Ok(()));
    assert_eq!(
        vote(&mut store, caller(b"bob"), 1, Choice::Reject),
        Err(VoteError::AlreadyVoted)
    );
    let got = get_proposal(&store, 1).unwrap();
    assert_eq!(got.approve, 1);
    assert_eq!(got.reject, 0);
    assert_eq!(got.pass, 0);
    assert_eq!(got.voted.len(), 1);
}

#[test]
fn non_owner_edit_end_rejected() {
    let mut store = ProposalStore::new();
    create_proposal(&mut store, caller(b"alice"), 9, b"buy a pump".to_vec(), true);
    let before = get_proposal(&store, 9);
    let eve = caller(b"eve");
    assert_eq!(
        edit_proposal(&mut store, &eve, 9, b"buy two pumps".to_vec(), false),
        Err(VoteError::AccessRejected)
    );
    assert_eq!(end_proposal(&mut store, &eve, 9), Err(VoteError::AccessRejected));
    assert_eq!(get_proposal(&store, 9), before);
}

#[test]
fn counter_totals() {
    let mut store = ProposalStore::new();
    create_proposal(&mut store, caller(b"alice"), 5, b"new bylaws".to_vec(), true);
    assert_eq!(vote(&mut store, caller(b"v1"), 5, Choice::Approve), Ok(()));
    assert_eq!(vote(&mut store, caller(b"v2"), 5, Choice::Approve), Ok(()));
    assert_eq!(vote(&mut store, caller(b"v3"), 5, Choice::Reject), Ok(()));
    assert_eq!(vote(&mut store, caller(b"v4"), 5, Choice::Pass), Ok(()));
    let got = get_proposal(&store, 5).unwrap();
    assert_eq!(got.approve, 2);
    assert_eq!(got.reject, 1);
    assert_eq!(got.pass, 1);
    assert_eq!(got.voted.len(), 4);
}

#[test]
fn end_then_inactive() {
    let mut store = ProposalStore::new();
    let a = caller(b"alice");
    create_proposal(&mut store, a.clone(), 2, b"close the pool".to_vec(), true);
    assert_eq!(end_proposal(&mut store, &a, 2), Ok(()));
    assert!(!get_proposal(&store, 2).unwrap().is_active);
    // A late vote is still counted but does not reactivate the proposal.
    assert_eq!(vote(&mut store, caller(b"bob"), 2, Choice::Approve), Ok(()));
    let got = get_proposal(&store, 2).unwrap();
    assert!(!got.is_active);
    assert_eq!(got.approve, 1);
}

#[test]
fn scenario_adopt_policy() {
    let mut store = ProposalStore::new();
    let a = caller(b"A");
    let b = caller(b"B");
    let c = caller(b"C");
    create_proposal(&mut store, a.clone(), 1, b"Adopt policy X".to_vec(), true);
    assert_eq!(get_proposal_count(&store), 1);
    assert_eq!(vote(&mut store, b.clone(), 1, Choice::Approve), Ok(()));
    let got = get_proposal(&store, 1).unwrap();
    assert_eq!(got.approve, 1);
    assert_eq!(got.voted, vec![b.clone()]);
    assert_eq!(
        vote(&mut store, b, 1, Choice::Pass),
        Err(VoteError::AlreadyVoted)
    );
    assert_eq!(get_proposal(&store, 1).unwrap().approve, 1);
    assert_eq!(end_proposal(&mut store, &c, 1), Err(VoteError::AccessRejected));
    assert!(get_proposal(&store, 1).unwrap().is_active);
    assert_eq!(end_proposal(&mut store, &a, 1), Ok(()));
    assert!(!get_proposal(&store, 1).unwrap().is_active);
}

#[test]
fn overwrite_on_reuse() {
    let mut store = ProposalStore::new();
    create_proposal(&mut store, caller(b"alice"), 4, b"first".to_vec(), true);
    let prev = create_proposal(&mut store, caller(b"bob"), 4, b"second".to_vec(), false);
    let prev = prev.unwrap();
    assert_eq!(prev.description, b"first".to_vec());
    assert_eq!(prev.owner, caller(b"alice"));
    let got = get_proposal(&store, 4).unwrap();
    assert_eq!(got.description, b"second".to_vec());
    assert_eq!(got.owner, caller(b"bob"));
    assert!(!got.is_active);
    assert_eq!(get_proposal_count(&store), 1);
}

#[test]
fn edit_updates_description_and_flag() {
    let mut store = ProposalStore::new();
    let a = caller(b"alice");
    create_proposal(&mut store, a.clone(), 6, b"old text".to_vec(), true);
    assert_eq!(vote(&mut store, caller(b"bob"), 6, Choice::Reject), Ok(()));
    assert_eq!(edit_proposal(&mut store, &a, 6, b"new text".to_vec(), false), Ok(()));
    let got = get_proposal(&store, 6).unwrap();
    assert_eq!(got.description, b"new text".to_vec());
    assert!(!got.is_active);
    // Counters and voters survive an edit.
    assert_eq!(got.reject, 1);
    assert_eq!(got.voted.len(), 1);
    assert_eq!(got.owner, a);
}

#[test]
fn edit_on_closed_rejected() {
    let mut store = ProposalStore::new();
    let a = caller(b"alice");
    create_proposal(&mut store, a.clone(), 12, b"seal the well".to_vec(), true);
    assert_eq!(end_proposal(&mut store, &a, 12), Ok(()));
    let before = get_proposal(&store, 12);
    // Not even the owner can edit a closed proposal back to active.
    assert_eq!(
        edit_proposal(&mut store, &a, 12, b"reopen the well".to_vec(), true),
        Err(VoteError::ProposalIsNotActive)
    );
    assert_eq!(get_proposal(&store, 12), before);
    assert!(!get_proposal(&store, 12).unwrap().is_active);
}

#[test]
fn oversize_edit_update_error() {
    let mut store = ProposalStore::new();
    let a = caller(b"alice");
    create_proposal(&mut store, a.clone(), 8, b"small".to_vec(), true);
    let before = get_proposal(&store, 8);
    let huge = vec![b'x'; 5000];
    assert_eq!(
        edit_proposal(&mut store, &a, 8, huge, true),
        Err(VoteError::UpdateError)
    );
    assert_eq!(get_proposal(&store, 8), before);
}

#[test]
fn oversize_vote_update_error() {
    let mut store = ProposalStore::new();
    let a = caller(b"alice");
    create_proposal(&mut store, a, 10, vec![b'd'; 4950], true);
    let big_voter = CallerId { bytes: vec![b'v'; 100] };
    assert_eq!(
        vote(&mut store, big_voter, 10, Choice::Approve),
        Err(VoteError::UpdateError)
    );
    let got = get_proposal(&store, 10).unwrap();
    assert_eq!(got.approve, 0);
    assert_eq!(got.voted.len(), 0);
}

#[test]
fn count_tracks_creates() {
    let mut store = ProposalStore::new();
    assert_eq!(get_proposal_count(&store), 0);
    create_proposal(&mut store, caller(b"alice"), 1, b"one".to_vec(), true);
    create_proposal(&mut store, caller(b"alice"), 2, b"two".to_vec(), true);
    assert_eq!(get_proposal_count(&store), 2);
    create_proposal(&mut store, caller(b"bob"), 2, b"two again".to_vec(), true);
    assert_eq!(get_proposal_count(&store), 2);
}

#[test]
fn update_record_requires_existing_key() {
    let mut store = ProposalStore::new();
    let record = Proposal {
        description: b"replacement".to_vec(),
        approve: 0,
        reject: 0,
        pass: 0,
        is_active: true,
        voted: vec![],
        owner: caller(b"alice"),
    };
    assert_eq!(
        store.update_record(11, record.clone()),
        Err(VoteError::NoSuchProposal)
    );
    create_proposal(&mut store, caller(b"alice"), 11, b"first text".to_vec(), true);
    assert_eq!(store.update_record(11, record), Ok(()));
    assert_eq!(
        get_proposal(&store, 11).unwrap().description,
        b"replacement".to_vec()
    );
}

#[test]
fn create_fits_checks_bound() {
    let small = b"ok".to_vec();
    let a = caller(b"alice");
    assert!(create_fits(&small, &a));
    let huge = vec![b'x'; 5000];
    assert!(!create_fits(&huge, &a));
    let exact = vec![b'x'; 5000 - 19 - 5];
    assert!(create_fits(&exact, &a));
    let over = vec![b'x'; 5000 - 19 - 4];
    assert!(!create_fits(&over, &a));
}

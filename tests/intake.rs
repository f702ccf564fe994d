use gig_protocol::committee::{committee_seed, select_committee};
use gig_protocol::error::Error;
use gig_protocol::intake::{IntakeEvent, SubmissionIntake};
use gig_protocol::ledger::Ledger;
use gig_protocol::registry::{MinerEvent, MinerRegistry, VerifierEvent, VerifierRegistry};
use gig_protocol::types::{AccountId, Origin, H256};
use gig_protocol::whitelist::Whitelist;

fn acct(k: u8) -> AccountId {
    AccountId::new([k; 32])
}

fn url(s: &str) -> Vec<u8> {
    s.as_bytes().to_vec()
}

/// Accounts 1..=11 funded, `n` of them registered as verifiers, and the example URL whitelisted.
fn setup(n: u8, max_assignments: usize) -> (Whitelist, VerifierRegistry, SubmissionIntake) {
    let mut ledger = Ledger::new(1);
    for k in 1..=11u8 {
        ledger.set_balance(acct(k), 1_000);
    }
    let mut verifiers = VerifierRegistry::new(max_assignments);
    for k in 1..=n {
        assert_eq!(verifiers.register_verifier(&mut ledger, Origin::Signed(acct(k)), 100), Ok(()));
    }
    let mut wl = Whitelist::new(256);
    assert_eq!(wl.add_url(Origin::Root, url("http://example.com")), Ok(()));
    (wl, verifiers, SubmissionIntake::new(256))
}

fn assigned_hashes(verifiers: &VerifierRegistry) -> Vec<AccountId> {
    verifiers
        .events
        .iter()
        .filter_map(|e| match e {
            VerifierEvent::SubmissionAssigned { verifier, .. } => Some(*verifier),
            _ => None,
        })
        .collect()
}

#[test]
fn tests_submit_hash_works() {
    let (wl, mut verifiers, mut intake) = setup(11, 256);
    let miner_id = acct(1);
    let u = url("http://example.com");
    let hash = H256::new([42; 32]);
    assert_eq!(intake.submit_hash(&wl, &mut verifiers, Origin::Signed(miner_id), u.clone(), hash), Ok(()));
    assert_eq!(intake.submission_miner(&hash), Some(miner_id));
    assert_eq!(intake.submission_url(&hash), Some(u.clone()));
    assert!(intake.events.iter().any(|e| matches!(e,
        IntakeEvent::SubmissionReceived { miner, .. } if *miner == miner_id)));
}

#[test]
fn tests_submit_hash_fails_for_duplicate_submission() {
    let (wl, mut verifiers, mut intake) = setup(11, 256);
    let u = url("http://example.com");
    let hash = H256::new([42; 32]);
    assert_eq!(intake.submit_hash(&wl, &mut verifiers, Origin::Signed(acct(1)), u.clone(), hash), Ok(()));
    let assignments_before = verifiers.assignments.len();
    assert_eq!(
        intake.submit_hash(&wl, &mut verifiers, Origin::Signed(acct(1)), u.clone(), hash),
        Err(Error::DuplicateSubmission)
    );
    assert_eq!(intake.submissions.len(), 1);
    assert_eq!(verifiers.assignments.len(), assignments_before);
    assert_eq!(intake.events.len(), 1);
}

#[test]
fn tests_submit_hash_fails_for_unwhitelisted_url() {
    let (wl, mut verifiers, mut intake) = setup(11, 256);
    assert_eq!(
        intake.submit_hash(&wl, &mut verifiers, Origin::Signed(acct(1)), url("http://unlisted.com"), H256::new([1; 32])),
        Err(Error::NotWhitelisted)
    );
    assert_eq!(intake.submissions.len(), 0);
    assert!(verifiers.assignments.is_empty());
}

#[test]
fn tests_submit_hash_fails_for_non_whitelisted_url() {
    let (_wl, mut verifiers, mut intake) = setup(11, 256);
    let empty = Whitelist::new(256);
    let mut miners = MinerRegistry::new();
    assert_eq!(
        miners.submit_hash(&mut intake, &empty, &mut verifiers, Origin::Signed(acct(1)), url("http://example.com"), H256::new([1; 32])),
        Err(Error::NotWhitelisted)
    );
    assert!(miners.events.is_empty());
}

#[test]
fn tests_submit_hash_works_for_whitelisted_url() {
    let (wl, mut verifiers, mut intake) = setup(11, 256);
    let mut miners = MinerRegistry::new();
    let u = url("http://example.com");
    let hash = H256::new([3; 32]);
    assert!(wl.is_whitelisted(&u).unwrap(), "URL should be in the whitelist");
    assert_eq!(miners.submit_hash(&mut intake, &wl, &mut verifiers, Origin::Signed(acct(1)), u.clone(), hash), Ok(()));
    assert_eq!(intake.submission_miner(&hash), Some(acct(1)));
    assert_eq!(miners.events.last(), Some(&MinerEvent::SubmissionForwarded { miner: acct(1), url: u, hash }));
}

#[test]
fn committee_has_ten_members_from_a_pool_of_eleven() {
    let (wl, mut verifiers, mut intake) = setup(11, 256);
    let hash = H256::new([5; 32]);
    assert_eq!(intake.submit_hash(&wl, &mut verifiers, Origin::Signed(acct(1)), url("http://example.com"), hash), Ok(()));
    let committee = assigned_hashes(&verifiers);
    assert_eq!(committee.len(), 10);
    let mut sorted: Vec<u8> = committee.iter().map(|a| a.bytes[0]).collect();
    sorted.sort();
    sorted.dedup();
    assert_eq!(sorted.len(), 10);
    assert!(sorted.iter().all(|k| (1..=11).contains(k)));
}

#[test]
fn committee_takes_the_whole_pool_of_three() {
    let (wl, mut verifiers, mut intake) = setup(3, 256);
    assert_eq!(
        intake.submit_hash(&wl, &mut verifiers, Origin::Signed(acct(1)), url("http://example.com"), H256::new([6; 32])),
        Ok(())
    );
    let mut members: Vec<u8> = assigned_hashes(&verifiers).iter().map(|a| a.bytes[0]).collect();
    members.sort();
    assert_eq!(members, vec![1, 2, 3]);
}

#[test]
fn submission_needs_three_verifiers() {
    let (wl, mut verifiers, mut intake) = setup(2, 256);
    assert_eq!(
        intake.submit_hash(&wl, &mut verifiers, Origin::Signed(acct(1)), url("http://example.com"), H256::new([6; 32])),
        Err(Error::InsufficientVerifiers)
    );
    assert_eq!(intake.submissions.len(), 0);
}

#[test]
fn committee_is_the_same_on_every_replica() {
    let hash = H256::new([77; 32]);
    let (wl1, mut v1, mut i1) = setup(11, 256);
    let (wl2, mut v2, mut i2) = setup(11, 256);
    assert_eq!(i1.submit_hash(&wl1, &mut v1, Origin::Signed(acct(1)), url("http://example.com"), hash), Ok(()));
    assert_eq!(i2.submit_hash(&wl2, &mut v2, Origin::Signed(acct(1)), url("http://example.com"), hash), Ok(()));
    assert_eq!(v1.events, v2.events);
    let pool: Vec<AccountId> = (1..=11u8).map(acct).collect();
    assert_eq!(select_committee(&pool, &hash), select_committee(&pool, &hash));
    assert_eq!(select_committee(&pool, &hash), assigned_hashes(&v1));
}

#[test]
fn committee_draw_shuffles_the_pool() {
    let pool: Vec<AccountId> = (1..=11u8).map(acct).collect();
    let unshuffled: Vec<AccountId> = pool[..10].to_vec();
    let shuffled_some = (0..8u8).any(|k| select_committee(&pool, &H256::new([k; 32])) != unshuffled);
    assert!(shuffled_some);
}

#[test]
fn committee_seed_is_a_zero_extended_digest() {
    let h1 = H256::new([1; 32]);
    let h2 = H256::new([2; 32]);
    let s1 = committee_seed(&h1);
    let s2 = committee_seed(&h2);
    assert!(s1[16..].iter().all(|b| *b == 0));
    assert_ne!(s1[..16], h1.bytes[..16]);
    assert_ne!(s1, s2);
    assert_eq!(s1, committee_seed(&h1));
}

#[test]
fn full_assignment_queue_refuses_the_whole_submission() {
    let (wl, mut verifiers, mut intake) = setup(3, 1);
    assert_eq!(
        intake.submit_hash(&wl, &mut verifiers, Origin::Signed(acct(1)), url("http://example.com"), H256::new([1; 32])),
        Ok(())
    );
    let events_before = verifiers.events.len();
    assert_eq!(
        intake.submit_hash(&wl, &mut verifiers, Origin::Signed(acct(1)), url("http://example.com"), H256::new([2; 32])),
        Err(Error::AssignmentsFull)
    );
    assert_eq!(verifiers.assignments.len(), 3);
    assert_eq!(verifiers.events.len(), events_before);
    assert_eq!(intake.submission_miner(&H256::new([2; 32])), None);
}

#[test]
fn submission_url_bound_and_origin_are_checked() {
    let (wl, mut verifiers, _) = setup(3, 256);
    let mut intake = SubmissionIntake::new(10);
    assert_eq!(
        intake.submit_hash(&wl, &mut verifiers, Origin::Signed(acct(1)), url("http://example.com"), H256::new([1; 32])),
        Err(Error::UrlTooLong)
    );
    assert_eq!(
        intake.submit_hash(&wl, &mut verifiers, Origin::Root, url("http://x"), H256::new([1; 32])),
        Err(Error::BadOrigin)
    );
}

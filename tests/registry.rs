use gig_protocol::error::Error;
use gig_protocol::ledger::Ledger;
use gig_protocol::registry::{MinerEvent, MinerRegistry, VerifierEvent, VerifierRegistry};
use gig_protocol::rpc::ValidatorRpcImpl;
use gig_protocol::types::{AccountId, Origin, H256};
use std::sync::Arc;

fn acct(k: u8) -> AccountId {
    AccountId::new([k; 32])
}

fn funded_ledger() -> Ledger {
    let mut ledger = Ledger::new(1);
    for k in 1..=11u8 {
        ledger.set_balance(acct(k), 1_000);
    }
    ledger
}

#[test]
fn tests_register_miner_works() {
    let mut ledger = funded_ledger();
    let mut miners = MinerRegistry::new();
    let miner_id = acct(1);
    let deposit = 100;
    assert_eq!(miners.register_miner(&mut ledger, Origin::Signed(miner_id), deposit), Ok(()));
    assert_eq!(miners.miners.get(&miner_id), Some(deposit));
    assert!(miners.events.iter().any(|e| matches!(e,
        MinerEvent::MinerRegistered { miner, deposit: dep } if *miner == miner_id && *dep == deposit)));
    assert_eq!(ledger.reserved_balance(&miner_id), 100);
    assert_eq!(ledger.free_balance(&miner_id), 900);
}

#[test]
fn miner_registration_is_refused_twice_and_without_funds() {
    let mut ledger = funded_ledger();
    let mut miners = MinerRegistry::new();
    assert_eq!(miners.register_miner(&mut ledger, Origin::Signed(acct(1)), 100), Ok(()));
    assert_eq!(miners.register_miner(&mut ledger, Origin::Signed(acct(1)), 100), Err(Error::MinerAlreadyRegistered));
    assert_eq!(miners.register_miner(&mut ledger, Origin::Signed(acct(2)), 5_000), Err(Error::InsufficientFunds));
    assert_eq!(miners.register_miner(&mut ledger, Origin::Root, 1), Err(Error::BadOrigin));
    assert_eq!(miners.miners.get(&acct(2)), None);
    assert_eq!(ledger.free_balance(&acct(2)), 1_000);
}

#[test]
fn register_verifier_works() {
    let mut ledger = funded_ledger();
    let mut verifiers = VerifierRegistry::new(256);
    let verifier_id = acct(1);
    let deposit = 100;
    assert_eq!(verifiers.register_verifier(&mut ledger, Origin::Signed(verifier_id), deposit), Ok(()));
    assert_eq!(verifiers.verifiers.get(&verifier_id), Some(deposit));
    assert!(verifiers.events.iter().any(|e| matches!(e,
        VerifierEvent::VerifierRegistered { verifier, deposit: dep } if *verifier == verifier_id && *dep == deposit)));
}

#[test]
fn tests_register_validator_works() {
    let mut ledger = funded_ledger();
    let mut verifiers = VerifierRegistry::new(256);
    assert_eq!(verifiers.register_verifier(&mut ledger, Origin::Signed(acct(1)), 100), Ok(()));
    assert_eq!(verifiers.verifiers.get(&acct(1)), Some(100));
    assert_eq!(
        verifiers.events.last(),
        Some(&VerifierEvent::VerifierRegistered { verifier: acct(1), deposit: 100 })
    );
}

fn registry_with_assignment(verifier: AccountId, hash: H256) -> (Ledger, VerifierRegistry) {
    let mut ledger = funded_ledger();
    let mut verifiers = VerifierRegistry::new(256);
    assert_eq!(verifiers.register_verifier(&mut ledger, Origin::Signed(verifier), 100), Ok(()));
    assert_eq!(verifiers.assign_submission(verifier, hash), Ok(()));
    (ledger, verifiers)
}

#[test]
fn tests_validate_submission_works() {
    let verifier_id = acct(1);
    let hash = H256::new([7; 32]);
    let (_ledger, mut verifiers) = registry_with_assignment(verifier_id, hash);
    assert_eq!(verifiers.validate_submission(Origin::Signed(verifier_id), hash, true), Ok(()));
    assert!(verifiers.events.iter().any(|e| matches!(e,
        VerifierEvent::ValidationCompleted { verifier, hash: h, valid } if *verifier == verifier_id && *h == hash && *valid)));
}

#[test]
fn validate_submission_fails_if_verifier_not_registered() {
    let mut verifiers = VerifierRegistry::new(256);
    assert_eq!(
        verifiers.validate_submission(Origin::Signed(acct(1)), H256::new([7; 32]), true),
        Err(Error::VerifierNotRegistered)
    );
}

#[test]
fn tests_validate_submission_fails_if_validator_not_registered() {
    let mut verifiers = VerifierRegistry::new(256);
    assert_eq!(
        verifiers.validate_submission(Origin::Signed(acct(1)), H256::new([9; 32]), false),
        Err(Error::VerifierNotRegistered)
    );
    assert!(verifiers.events.is_empty());
}

#[test]
fn tests_validate_submission_fails_if_submission_not_assigned() {
    let mut ledger = funded_ledger();
    let mut verifiers = VerifierRegistry::new(256);
    assert_eq!(verifiers.register_verifier(&mut ledger, Origin::Signed(acct(1)), 100), Ok(()));
    assert_eq!(
        verifiers.validate_submission(Origin::Signed(acct(1)), H256::new([7; 32]), true),
        Err(Error::SubmissionNotAssigned)
    );
}

#[test]
fn register_verifier_fails_if_already_registered() {
    let mut ledger = funded_ledger();
    let mut verifiers = VerifierRegistry::new(256);
    assert_eq!(verifiers.register_verifier(&mut ledger, Origin::Signed(acct(1)), 100), Ok(()));
    assert_eq!(
        verifiers.register_verifier(&mut ledger, Origin::Signed(acct(1)), 100),
        Err(Error::VerifierAlreadyRegistered)
    );
}

#[test]
fn tests_register_validator_fails_if_already_registered() {
    let mut ledger = funded_ledger();
    let mut verifiers = VerifierRegistry::new(256);
    assert_eq!(verifiers.register_verifier(&mut ledger, Origin::Signed(acct(1)), 100), Ok(()));
    assert_eq!(
        verifiers.register_verifier(&mut ledger, Origin::Signed(acct(1)), 100),
        Err(Error::VerifierAlreadyRegistered)
    );
    assert_eq!(ledger.reserved_balance(&acct(1)), 100);
}

#[test]
fn assignment_queue_is_bounded() {
    let mut verifiers = VerifierRegistry::new(2);
    let v = acct(3);
    assert_eq!(verifiers.assign_submission(v, H256::new([1; 32])), Ok(()));
    assert_eq!(verifiers.assign_submission(v, H256::new([2; 32])), Ok(()));
    assert_eq!(verifiers.assign_submission(v, H256::new([3; 32])), Err(Error::AssignmentsFull));
    assert_eq!(verifiers.assigned_submissions(&v), vec![H256::new([1; 32]), H256::new([2; 32])]);
    assert_eq!(verifiers.assign_submission(acct(4), H256::new([3; 32])), Ok(()));
}

#[test]
fn verifiers_iter_keeps_registration_order() {
    let mut ledger = funded_ledger();
    let mut verifiers = VerifierRegistry::new(256);
    for k in [5u8, 2, 9] {
        assert_eq!(verifiers.register_verifier(&mut ledger, Origin::Signed(acct(k)), 10 * k as u128), Ok(()));
    }
    assert_eq!(verifiers.verifiers_iter(), vec![(acct(5), 50), (acct(2), 20), (acct(9), 90)]);
}

#[test]
fn rpc_reports_assignments_and_dry_runs_validation() {
    let hash = H256::new([7; 32]);
    let (_ledger, verifiers) = registry_with_assignment(acct(1), hash);
    let rpc = ValidatorRpcImpl::new(Arc::new(verifiers));
    assert_eq!(rpc.get_assigned_submissions(acct(1)), vec![hash]);
    assert_eq!(rpc.submit_validation(acct(1), hash, true), Ok(true));
    assert_eq!(rpc.submit_validation(acct(1), H256::new([8; 32]), true), Err(Error::SubmissionNotAssigned));
    assert_eq!(rpc.submit_validation(acct(2), hash, true), Err(Error::VerifierNotRegistered));
    assert!(rpc.client.events.iter().all(|e| !matches!(e, VerifierEvent::ValidationCompleted { .. })));
}

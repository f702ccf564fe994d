use gig_protocol::error::Error;
use gig_protocol::ledger::{ExistenceRequirement, Ledger};
use gig_protocol::treasury::{Treasury, TreasuryEvent};
use gig_protocol::treasury_manager::{ManagerEvent, TreasuryManager};
use gig_protocol::types::{account_from_tag, AccountId, Origin};

fn acct(k: u8) -> AccountId {
    AccountId::new([k; 32])
}

fn setup() -> (Ledger, Treasury) {
    let mut ledger = Ledger::new(1);
    for k in 1..=4u8 {
        ledger.set_balance(acct(k), 1_000);
    }
    (ledger, Treasury::new(b"py/trsry"))
}

#[test]
fn deposit_funds_works() {
    let (mut ledger, mut treasury) = setup();
    assert_eq!(treasury.balance, 0);
    let sender = acct(1);
    let sent_amount = 200;
    assert_eq!(treasury.deposit_funds(&mut ledger, Origin::Signed(sender), sent_amount), Ok(()));
    assert_eq!(treasury.treasury_balance(), sent_amount);
    assert_eq!(treasury.events.last(), Some(&TreasuryEvent::FundsDeposited { who: sender, amount: sent_amount }));
    assert_eq!(ledger.free_balance(&treasury.account_id()), 200);
    assert_eq!(ledger.free_balance(&sender), 800);
}

#[test]
fn transfer_funds_works() {
    let (mut ledger, mut treasury) = setup();
    let sender = acct(1);
    let recipient = acct(2);
    assert_eq!(treasury.deposit_funds(&mut ledger, Origin::Signed(sender), 200), Ok(()));
    assert_eq!(treasury.transfer_funds(&mut ledger, Origin::Root, recipient, 150), Ok(()));
    assert_eq!(treasury.treasury_balance(), 200 - 150);
    assert_eq!(treasury.events.last(), Some(&TreasuryEvent::FundsTransferred { recipient, amount: 150 }));
    assert_eq!(ledger.free_balance(&recipient), 1_150);
}

#[test]
fn transfer_funds_fails_when_insufficient() {
    let (mut ledger, mut treasury) = setup();
    assert_eq!(treasury.transfer_funds(&mut ledger, Origin::Root, acct(2), 100), Err(Error::InsufficientFunds));
    assert!(treasury.events.is_empty());
    assert_eq!(ledger.free_balance(&acct(2)), 1_000);
}

#[test]
fn distribute_rewards_works() {
    let (mut ledger, mut treasury) = setup();
    let miner = acct(1);
    let validator = acct(2);
    assert_eq!(treasury.deposit_funds(&mut ledger, Origin::Signed(miner), 500), Ok(()));
    assert_eq!(treasury.balance, 500);
    assert!(treasury.balance >= 300 + 200);
    assert_eq!(treasury.distribute_rewards(&mut ledger, Origin::Root, miner, validator, 300, 200), Ok(()));
    assert_eq!(treasury.balance, 0);
    assert_eq!(
        treasury.events.last(),
        Some(&TreasuryEvent::RewardsDistributed { miner, validator, miner_reward: 300, validator_reward: 200 })
    );
}

#[test]
fn distribute_rewards_fails_when_insufficient() {
    let (mut ledger, mut treasury) = setup();
    assert_eq!(
        treasury.distribute_rewards(&mut ledger, Origin::Root, acct(1), acct(2), 300, 200),
        Err(Error::InsufficientFunds)
    );
}

#[test]
fn treasury_transfer_keeps_the_account_alive() {
    let (mut ledger, mut treasury) = setup();
    assert_eq!(treasury.deposit_funds(&mut ledger, Origin::Signed(acct(1)), 200), Ok(()));
    assert_eq!(treasury.transfer_funds(&mut ledger, Origin::Root, acct(2), 200), Err(Error::Expendability));
    assert_eq!(treasury.transfer_funds(&mut ledger, Origin::Signed(acct(1)), acct(2), 10), Err(Error::BadOrigin));
    assert_eq!(treasury.balance, 200);
    assert_eq!(ledger.free_balance(&treasury.account_id()), 200);
}

#[test]
fn treasury_account_is_derived_from_its_tag() {
    let t = Treasury::new(b"py/trsry");
    let mut expected = [0u8; 32];
    expected[..4].copy_from_slice(b"modl");
    expected[4..12].copy_from_slice(b"py/trsry");
    assert_eq!(t.account_id(), AccountId::new(expected));
    assert_eq!(account_from_tag(b"py/trsry"), t.account_id());
}

#[test]
fn ledger_transfer_rules() {
    let mut ledger = Ledger::new(10);
    ledger.set_balance(acct(1), 100);
    assert_eq!(ledger.transfer(&acct(1), &acct(2), 200, ExistenceRequirement::AllowDeath), Err(Error::InsufficientBalance));
    assert_eq!(ledger.transfer(&acct(1), &acct(2), 95, ExistenceRequirement::KeepAlive), Err(Error::Expendability));
    assert_eq!(ledger.transfer(&acct(1), &acct(2), 5, ExistenceRequirement::AllowDeath), Err(Error::ExistentialDeposit));
    assert_eq!(ledger.transfer(&acct(1), &acct(2), 95, ExistenceRequirement::AllowDeath), Ok(()));
    assert_eq!(ledger.free_balance(&acct(1)), 5);
    assert_eq!(ledger.free_balance(&acct(2)), 95);
    ledger.set_balance(acct(3), u128::MAX);
    assert_eq!(ledger.transfer(&acct(2), &acct(3), 1, ExistenceRequirement::AllowDeath), Err(Error::Overflow));
}

fn manager(fee: u8, miner_pct: u8, verifier_pct: u8) -> TreasuryManager {
    TreasuryManager::new(fee, miner_pct, verifier_pct, acct(0), 1_000).unwrap()
}

fn funded(amount: u128, ed: u128) -> (Ledger, Treasury) {
    let mut ledger = Ledger::new(ed);
    let treasury = Treasury::new(b"py/trsry");
    ledger.set_balance(treasury.account_id(), amount);
    (ledger, treasury)
}

#[test]
fn test_direct_reward_distribution() {
    let (mut ledger, mut treasury) = funded(1_000_000, 1);
    let mut m = manager(70, 50, 50);
    let treasury_account = treasury.account_id();
    let dev_account = acct(0);
    let miner_account = acct(5);
    let validator_1 = acct(3);
    let validator_2 = acct(4);
    let initial_treasury_balance = ledger.free_balance(&treasury_account);
    let initial_dev_balance = ledger.free_balance(&dev_account);
    let initial_miner_balance = ledger.free_balance(&miner_account);
    let initial_validator_1_balance = ledger.free_balance(&validator_1);
    let initial_validator_2_balance = ledger.free_balance(&validator_2);
    let total_reward = 1_000u128;
    assert_eq!(
        m.direct_reward_distribution(&mut treasury, &mut ledger, Origin::Root, miner_account, vec![validator_1, validator_2], total_reward),
        Ok(())
    );
    let dev_fee = total_reward * (100 - 70) / 100;
    let remaining_reward = total_reward - dev_fee;
    let miner_reward = remaining_reward * 50 / 100;
    let total_validator_reward = remaining_reward - miner_reward;
    let per_validator_reward = total_validator_reward / 2;
    assert_eq!(ledger.free_balance(&dev_account), initial_dev_balance + dev_fee);
    assert_eq!(ledger.free_balance(&miner_account), initial_miner_balance + miner_reward);
    assert_eq!(ledger.free_balance(&validator_1), initial_validator_1_balance + per_validator_reward);
    assert_eq!(ledger.free_balance(&validator_2), initial_validator_2_balance + per_validator_reward);
    assert_eq!(ledger.free_balance(&treasury_account), initial_treasury_balance - total_reward);
}

#[test]
fn happy_path_distribution_of_one_thousand() {
    let (mut ledger, mut treasury) = funded(1_000, 0);
    let mut m = manager(70, 50, 50);
    assert_eq!(
        m.direct_reward_distribution(&mut treasury, &mut ledger, Origin::Root, acct(5), vec![acct(3), acct(4)], 1_000),
        Ok(())
    );
    assert_eq!(ledger.free_balance(&acct(0)), 300);
    assert_eq!(ledger.free_balance(&acct(5)), 350);
    assert_eq!(ledger.free_balance(&acct(3)), 175);
    assert_eq!(ledger.free_balance(&acct(4)), 175);
    assert_eq!(ledger.free_balance(&treasury.account_id()), 0);
    assert_eq!(treasury.balance, 0);
    assert_eq!(
        m.events,
        vec![
            ManagerEvent::FeesAllocated { reward_amount: 1_000, treasury_amount: 700, developer_amount: 300 },
            ManagerEvent::RewardsDistributed {
                miner: acct(5),
                verifiers: vec![acct(3), acct(4)],
                miner_reward: 350,
                verifier_reward: 175,
            },
        ]
    );
}

#[test]
fn first_committee_member_takes_the_remainder() {
    let (mut ledger, mut treasury) = funded(10_000, 0);
    let mut m = manager(70, 50, 50);
    // dev 30, remaining 70, miner 35, committee 35 = 3 * 11 + 2
    assert_eq!(
        m.direct_reward_distribution(&mut treasury, &mut ledger, Origin::Root, acct(5), vec![acct(6), acct(7), acct(8)], 100),
        Ok(())
    );
    assert_eq!(ledger.free_balance(&acct(0)), 30);
    assert_eq!(ledger.free_balance(&acct(5)), 35);
    assert_eq!(ledger.free_balance(&acct(6)), 13);
    assert_eq!(ledger.free_balance(&acct(7)), 11);
    assert_eq!(ledger.free_balance(&acct(8)), 11);
    assert_eq!(ledger.free_balance(&treasury.account_id()), 10_000 - 100);
}

#[test]
fn failed_transfer_rolls_the_distribution_back() {
    // The treasury can pay the developer and the miner but not the whole committee.
    let (mut ledger, mut treasury) = funded(1_000, 1);
    let mut m = manager(70, 50, 50);
    let before_events = treasury.events.len();
    let r = m.direct_reward_distribution(&mut treasury, &mut ledger, Origin::Root, acct(5), vec![acct(3), acct(4)], 1_000);
    assert_eq!(r, Err(Error::Expendability));
    assert_eq!(ledger.free_balance(&treasury.account_id()), 1_000);
    assert_eq!(ledger.free_balance(&acct(0)), 0);
    assert_eq!(ledger.free_balance(&acct(5)), 0);
    assert_eq!(ledger.free_balance(&acct(3)), 0);
    assert_eq!(treasury.events.len(), before_events);
    assert!(m.events.is_empty());
}

#[test]
fn distribution_errors() {
    let (mut ledger, mut treasury) = funded(1_000_000, 1);
    let mut m = manager(70, 50, 50);
    assert_eq!(m.direct_reward_distribution(&mut treasury, &mut ledger, Origin::Root, acct(5), vec![acct(3)], 0), Err(Error::InvalidRewardSplit));
    assert_eq!(m.direct_reward_distribution(&mut treasury, &mut ledger, Origin::Root, acct(5), vec![], 100), Err(Error::NoVerifiersAssigned));
    assert_eq!(m.direct_reward_distribution(&mut treasury, &mut ledger, Origin::Signed(acct(1)), acct(5), vec![acct(3)], 100), Err(Error::BadOrigin));
    assert_eq!(m.direct_reward_distribution(&mut treasury, &mut ledger, Origin::Root, acct(5), vec![acct(3)], u128::MAX), Err(Error::InvalidRewardSplit));
    assert_eq!(ledger.free_balance(&treasury.account_id()), 1_000_000);
    assert!(TreasuryManager::new(101, 50, 50, acct(0), 1).is_err());
    assert_eq!(TreasuryManager::new(70, 60, 50, acct(0), 1).err(), Some(Error::InvalidFeeSplit));
}

#[test]
fn fee_arithmetic() {
    let m = manager(70, 50, 50);
    assert_eq!(m.calculate_fee(1_000), Ok(300));
    assert_eq!(m.calculate_fee(7), Ok(2));
    assert_eq!(m.calculate_fee(u128::MAX), Err(Error::InvalidRewardSplit));
    assert_eq!(m.calculate_remaining_reward(1_000, 300), Ok(700));
    assert_eq!(m.calculate_remaining_reward(10, 11), Err(Error::InvalidRewardSplit));
}

#[test]
fn deposit_adds_to_the_mirrored_balance() {
    let (mut ledger, mut treasury) = setup();
    ledger.set_balance(treasury.account_id(), 500);
    assert_eq!(treasury.deposit_funds(&mut ledger, Origin::Signed(acct(1)), 200), Ok(()));
    assert_eq!(treasury.treasury_balance(), 200);
    assert_eq!(ledger.free_balance(&treasury.account_id()), 700);
    assert_eq!(treasury.deposit_funds(&mut ledger, Origin::Signed(acct(1)), 800), Err(Error::Expendability));
    assert_eq!(treasury.treasury_balance(), 200);
}

#[test]
fn deposit_refused_when_the_mirror_would_overflow() {
    let (mut ledger, mut treasury) = setup();
    treasury.balance = u128::MAX;
    assert_eq!(treasury.deposit_funds(&mut ledger, Origin::Signed(acct(1)), 1), Err(Error::Overflow));
    assert_eq!(ledger.free_balance(&acct(1)), 1_000);
    assert!(treasury.events.is_empty());
}

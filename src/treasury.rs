use vstd::prelude::*;
use crate::error::Error;
use crate::ledger::{after_transfer, transfer_result, ExistenceRequirement, Ledger};
use crate::types::{account_from_tag, tag_account_bytes, ensure_root, ensure_signed, AccountId, Balance, Origin};

verus! {

#[derive(Clone, Copy, Debug, PartialEq)]
pub enum TreasuryEvent {
    FundsDeposited { who: AccountId, amount: Balance },
    FundsTransferred { recipient: AccountId, amount: Balance },
    RewardsDistributed {
        miner: AccountId,
        validator: AccountId,
        miner_reward: Balance,
        validator_reward: Balance,
    },
}

/// The outcome that a treasury transfer owes, given the free balances before it.
pub open spec fn treasury_transfer_result(
    free: spec_fn(AccountId) -> nat,
    ed: nat,
    account: AccountId,
    recipient: AccountId,
    amount: nat,
) -> Result<(), Error> {
    if free(account) < amount {
        Err(Error::InsufficientFunds)
    } else {
        transfer_result(free, ed, account, recipient, amount, ExistenceRequirement::KeepAlive)
    }
}

/// The pooled funds: an account of the ledger, and a mirror of its free balance.
pub struct Treasury {
    pub account: AccountId,
    pub balance: Balance,
    pub events: Vec<TreasuryEvent>,
}

impl Treasury {
    /// A treasury whose account is derived from `tag`.
    pub fn new(tag: &[u8; 8]) -> (r: Treasury)
        ensures
            r.account.bytes@ == tag_account_bytes(tag@),
            r.balance == 0,
            r.events@.len() == 0,
    {
        let account = account_from_tag(tag);
        Treasury { account, balance: 0, events: Vec::new() }
    }

    pub fn account_id(&self) -> (r: AccountId)
        ensures
            r == self.account,
    {
        self.account
    }

    /// The mirrored balance of the treasury account.
    pub fn treasury_balance(&self) -> (r: Balance)
        ensures
            r == self.balance,
    {
        self.balance
    }

    /// The signer moves `amount` of its free balance into the treasury, and the
    /// mirrored balance grows by `amount`; a mirror that would overflow refuses the deposit.
    pub fn deposit_funds(&mut self, ledger: &mut Ledger, origin: Origin, amount: Balance) -> (r:
        Result<(), Error>)
        requires
            old(ledger).wf(),
        ensures
            final(ledger).wf(),
            final(self).account == old(self).account,
            r == (match origin {
                Origin::Root => Err(Error::BadOrigin),
                Origin::Signed(who) => if old(self).balance + amount > u128::MAX {
                    Err(Error::Overflow)
                } else {
                    transfer_result(
                        old(ledger).free_fn(),
                        old(ledger).existential_deposit as nat,
                        who,
                        old(self).account,
                        amount as nat,
                        ExistenceRequirement::KeepAlive,
                    )
                },
            }),
            r is Err ==> final(ledger).same_balances(old(ledger)) && final(self).balance == old(
                self,
            ).balance && final(self).events@ == old(self).events@,
            r is Ok ==> (origin matches Origin::Signed(who) && {
                &&& forall|b: AccountId|
                    #[trigger] final(ledger).free(b) == after_transfer(
                        old(ledger).free_fn(),
                        who,
                        old(self).account,
                        amount as nat,
                    )(b)
                &&& final(self).balance == old(self).balance + amount
                &&& final(self).events@ == old(self).events@.push(
                    TreasuryEvent::FundsDeposited { who, amount },
                )
            }),
            forall|b: AccountId| #[trigger] final(ledger).reserved(b) == old(ledger).reserved(b),
            final(ledger).existential_deposit == old(ledger).existential_deposit,
    {
        let who = match ensure_signed(origin) {
            Ok(who) => who,
            Err(e) => {
                return Err(e);
            },
        };
        if self.balance > u128::MAX - amount {
            return Err(Error::Overflow);
        }
        match ledger.transfer(&who, &self.account, amount, ExistenceRequirement::KeepAlive) {
            Ok(()) => {},
            Err(e) => {
                return Err(e);
            },
        }
        self.balance = self.balance + amount;
        self.events.push(TreasuryEvent::FundsDeposited { who, amount });
        Ok(())
    }

    /// Governance pays `amount` from the treasury to `recipient`, after bringing
    /// the mirrored balance in line with the ledger.
    pub fn transfer_funds(
        &mut self,
        ledger: &mut Ledger,
        origin: Origin,
        recipient: AccountId,
        amount: Balance,
    ) -> (r: Result<(), Error>)
        requires
            old(ledger).wf(),
        ensures
            final(ledger).wf(),
            final(self).account == old(self).account,
            r == (if !(origin is Root) {
                Err(Error::BadOrigin)
            } else {
                treasury_transfer_result(
                    old(ledger).free_fn(),
                    old(ledger).existential_deposit as nat,
                    old(self).account,
                    recipient,
                    amount as nat,
                )
            }),
            r is Err ==> final(ledger).same_balances(old(ledger)) && final(self).balance == old(
                self,
            ).balance && final(self).events@ == old(self).events@,
            r is Ok ==> {
                &&& forall|b: AccountId|
                    #[trigger] final(ledger).free(b) == after_transfer(
                        old(ledger).free_fn(),
                        old(self).account,
                        recipient,
                        amount as nat,
                    )(b)
                &&& final(self).balance == final(ledger).free(old(self).account)
                &&& final(self).events@ == old(self).events@.push(
                    TreasuryEvent::FundsTransferred { recipient, amount },
                )
            },
            forall|b: AccountId| #[trigger] final(ledger).reserved(b) == old(ledger).reserved(b),
            final(ledger).existential_deposit == old(ledger).existential_deposit,
    {
        if ensure_root(origin).is_err() {
            return Err(Error::BadOrigin);
        }
        let reconciled = ledger.free_balance(&self.account);
        if reconciled < amount {
            return Err(Error::InsufficientFunds);
        }
        match ledger.transfer(&self.account, &recipient, amount, ExistenceRequirement::KeepAlive) {
            Ok(()) => {},
            Err(e) => {
                return Err(e);
            },
        }
        self.balance = ledger.free_balance(&self.account);
        self.events.push(TreasuryEvent::FundsTransferred { recipient, amount });
        Ok(())
    }

    /// Governance pays a miner and a validator their rewards in one step,
    /// checked against the mirrored balance; either both payments happen or neither.
    pub fn distribute_rewards(
        &mut self,
        ledger: &mut Ledger,
        origin: Origin,
        miner: AccountId,
        validator: AccountId,
        miner_reward: Balance,
        validator_reward: Balance,
    ) -> (r: Result<(), Error>)
        requires
            old(ledger).wf(),
        ensures
            final(ledger).wf(),
            final(self).account == old(self).account,
            !(origin is Root) ==> r == Err::<(), Error>(Error::BadOrigin),
            origin is Root && old(self).balance < miner_reward + validator_reward ==> r == Err::<
                (),
                Error,
            >(Error::InsufficientFunds),
            origin is Root && old(self).balance >= miner_reward + validator_reward ==> r == (
            match transfer_result(
                old(ledger).free_fn(),
                old(ledger).existential_deposit as nat,
                old(self).account,
                miner,
                miner_reward as nat,
                ExistenceRequirement::AllowDeath,
            ) {
                Err(e) => Err(e),
                Ok(_) => transfer_result(
                    after_transfer(old(ledger).free_fn(), old(self).account, miner, miner_reward as nat),
                    old(ledger).existential_deposit as nat,
                    old(self).account,
                    validator,
                    validator_reward as nat,
                    ExistenceRequirement::AllowDeath,
                ),
            }),
            r is Err ==> final(ledger).same_balances(old(ledger)) && final(self).balance == old(
                self,
            ).balance && final(self).events@ == old(self).events@,
            r is Ok ==> {
                &&& forall|b: AccountId|
                    #[trigger] final(ledger).free(b) == after_transfer(
                        after_transfer(
                            old(ledger).free_fn(),
                            old(self).account,
                            miner,
                            miner_reward as nat,
                        ),
                        old(self).account,
                        validator,
                        validator_reward as nat,
                    )(b)
                &&& final(self).balance == old(self).balance - miner_reward - validator_reward
                &&& final(self).events@ == old(self).events@.push(
                    TreasuryEvent::RewardsDistributed { miner, validator, miner_reward, validator_reward },
                )
            },
    {
        if ensure_root(origin).is_err() {
            return Err(Error::BadOrigin);
        }
        if self.balance < miner_reward || self.balance - miner_reward < validator_reward {
            return Err(Error::InsufficientFunds);
        }
        let saved = ledger.snapshot();
        let ghost start = ledger.free_fn();
        match ledger.transfer(&self.account, &miner, miner_reward, ExistenceRequirement::AllowDeath) {
            Ok(()) => {},
            Err(e) => {
                return Err(e);
            },
        }
        let ghost mid = ledger.free_fn();
        proof {
            assert(mid =~= after_transfer(start, self.account, miner, miner_reward as nat));
        }
        match ledger.transfer(
            &self.account,
            &validator,
            validator_reward,
            ExistenceRequirement::AllowDeath,
        ) {
            Ok(()) => {},
            Err(e) => {
                *ledger = saved;
                return Err(e);
            },
        }
        self.balance = self.balance - miner_reward - validator_reward;
        self.events.push(
            TreasuryEvent::RewardsDistributed { miner, validator, miner_reward, validator_reward },
        );
        Ok(())
    }
}

} // verus!

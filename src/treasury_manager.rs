use vstd::prelude::*;
use crate::error::{lemma_ok_unit, Error};
use crate::ledger::{after_transfer, Ledger};
use crate::payout::{
    after_payouts, lemma_payout_concat, lemma_payout_to_absent, lemma_payouts_conserve, pay_all,
    payout_events, payout_sum, payout_to, payouts_result,
};
use crate::treasury::{treasury_transfer_result, Treasury};
use crate::types::{ensure_root, AccountId, Balance, Origin};

verus! {

#[derive(Clone, Debug, PartialEq)]
pub enum ManagerEvent {
    FeesAllocated { reward_amount: Balance, treasury_amount: Balance, developer_amount: Balance },
    RewardsDistributed {
        miner: AccountId,
        verifiers: Vec<AccountId>,
        miner_reward: Balance,
        verifier_reward: Balance,
    },
}

/// An equal payment of `per` to each of `vs`.
pub open spec fn equal_payouts(vs: Seq<AccountId>, per: Balance) -> Seq<(AccountId, Balance)> {
    vs.map_values(|v: AccountId| (v, per))
}

/// The payments after the developer fee: the miner's reward, then each
/// committee member's share, the first member taking the remainder as well.
pub open spec fn reward_payouts(
    miner: AccountId,
    miner_reward: Balance,
    committee: Seq<AccountId>,
    per: Balance,
    rem: Balance,
) -> Seq<(AccountId, Balance)> {
    seq![(miner, miner_reward), (committee[0], (per + rem) as Balance)] + equal_payouts(
        committee.drop_first(),
        per,
    )
}

/// Splits rewards from protocol percentages and pays them out of the treasury.
pub struct TreasuryManager {
    /// Percentage of a reward that stays with the protocol; the rest is the developer fee.
    pub fee_split_treasury: u8,
    /// Percentage of the part after the developer fee that goes to the miner.
    pub miner_reward_percentage: u8,
    /// Percentage of the part after the developer fee that goes to the committee.
    pub verifier_reward_percentage: u8,
    pub dev_account: AccountId,
    /// The reward of a claim resolved valid.
    pub total_reward: Balance,
    pub events: Vec<ManagerEvent>,
}

impl TreasuryManager {
    pub open spec fn wf(&self) -> bool {
        &&& self.fee_split_treasury <= 100
        &&& self.miner_reward_percentage + self.verifier_reward_percentage == 100
    }

    /// The developer fee of `total`: its share beyond the protocol's, rounded down.
    pub open spec fn dev_fee(&self, total: nat) -> nat {
        total * (100 - self.fee_split_treasury) as nat / 100
    }

    pub open spec fn remaining(&self, total: nat) -> nat {
        (total - self.dev_fee(total)) as nat
    }

    /// The miner's part of what is left after the developer fee.
    pub open spec fn miner_share(&self, remaining: nat) -> nat {
        remaining * self.miner_reward_percentage as nat / 100
    }

    /// The committee's part of what is left after the developer fee.
    pub open spec fn committee_share(&self, remaining: nat) -> nat {
        (remaining - self.miner_share(remaining)) as nat
    }

    /// The payments of `remaining` to the miner and a committee of `committee`.
    pub open spec fn reward_split(&self, miner: AccountId, committee: Seq<AccountId>, remaining: nat) -> Seq<
        (AccountId, Balance),
    > {
        let n = committee.len();
        let pool = self.committee_share(remaining);
        reward_payouts(
            miner,
            self.miner_share(remaining) as Balance,
            committee,
            (pool / n) as Balance,
            (pool % n) as Balance,
        )
    }

    /// The payments after the developer fee, for a committee of `committee`.
    pub open spec fn rewards_for(&self, miner: AccountId, committee: Seq<AccountId>, total: nat) -> Seq<
        (AccountId, Balance),
    > {
        self.reward_split(miner, committee, self.remaining(total))
    }

    /// The outcome that `distribute_rewards` owes.
    pub open spec fn split_outcome(
        &self,
        free: spec_fn(AccountId) -> nat,
        ed: nat,
        acct: AccountId,
        miner: AccountId,
        committee: Seq<AccountId>,
        remaining: nat,
    ) -> Result<(), Error> {
        if committee.len() == 0 {
            Err(Error::NoVerifiersAssigned)
        } else if remaining * self.miner_reward_percentage as nat > u128::MAX {
            Err(Error::InvalidRewardSplit)
        } else {
            payouts_result(free, ed, acct, self.reward_split(miner, committee, remaining))
        }
    }

    /// Every payment of a distribution, in order.
    pub open spec fn all_payouts(&self, miner: AccountId, committee: Seq<AccountId>, total: nat) -> Seq<
        (AccountId, Balance),
    > {
        seq![(self.dev_account, self.dev_fee(total) as Balance)] + self.rewards_for(
            miner,
            committee,
            total,
        )
    }

    /// The outcome that `direct_reward_distribution` owes, given the free
    /// balances, existential deposit and treasury account before it.
    pub open spec fn distribution_outcome(
        &self,
        free: spec_fn(AccountId) -> nat,
        ed: nat,
        acct: AccountId,
        origin: Origin,
        miner: AccountId,
        committee: Seq<AccountId>,
        total: nat,
    ) -> Result<(), Error> {
        if !(origin is Root) {
            Err(Error::BadOrigin)
        } else if total == 0 {
            Err(Error::InvalidRewardSplit)
        } else if total * (100 - self.fee_split_treasury) as nat > u128::MAX {
            Err(Error::InvalidRewardSplit)
        } else if committee.len() == 0 {
            Err(Error::NoVerifiersAssigned)
        } else {
            match treasury_transfer_result(free, ed, acct, self.dev_account, self.dev_fee(total)) {
                Err(e) => Err(e),
                Ok(_) => self.split_outcome(
                    after_transfer(free, acct, self.dev_account, self.dev_fee(total)),
                    ed,
                    acct,
                    miner,
                    committee,
                    self.remaining(total),
                ),
            }
        }
    }

    /// The free balances after a distribution.
    pub open spec fn distribution_balances(
        &self,
        free: spec_fn(AccountId) -> nat,
        acct: AccountId,
        miner: AccountId,
        committee: Seq<AccountId>,
        total: nat,
    ) -> spec_fn(AccountId) -> nat {
        after_payouts(free, acct, self.all_payouts(miner, committee, total))
    }

    /// A manager with the given percentages; they must be percentages, and the
    /// miner's and committee's shares must add up to the whole.
    pub fn new(
        fee_split_treasury: u8,
        miner_reward_percentage: u8,
        verifier_reward_percentage: u8,
        dev_account: AccountId,
        total_reward: Balance,
    ) -> (r: Result<TreasuryManager, Error>)
        ensures
            match r {
                Ok(m) => {
                    &&& m.wf()
                    &&& m.fee_split_treasury == fee_split_treasury
                    &&& m.miner_reward_percentage == miner_reward_percentage
                    &&& m.verifier_reward_percentage == verifier_reward_percentage
                    &&& m.dev_account == dev_account
                    &&& m.total_reward == total_reward
                    &&& m.events@.len() == 0
                },
                Err(e) => e == Error::InvalidFeeSplit,
            },
            r is Ok <==> fee_split_treasury <= 100 && miner_reward_percentage
                + verifier_reward_percentage == 100,
    {
        if fee_split_treasury > 100 || miner_reward_percentage as u16 + verifier_reward_percentage as u16
            != 100 {
            return Err(Error::InvalidFeeSplit);
        }
        Ok(
            TreasuryManager {
                fee_split_treasury,
                miner_reward_percentage,
                verifier_reward_percentage,
                dev_account,
                total_reward,
                events: Vec::new(),
            },
        )
    }

    /// The developer fee of `total_reward`; refused if the product overflows.
    pub fn calculate_fee(&self, total_reward: Balance) -> (r: Result<Balance, Error>)
        requires
            self.wf(),
        ensures
            r == (if total_reward * (100 - self.fee_split_treasury) as nat > u128::MAX {
                Err(Error::InvalidRewardSplit)
            } else {
                Ok(self.dev_fee(total_reward as nat) as Balance)
            }),
    {
        let split = (100 - self.fee_split_treasury) as u128;
        match total_reward.checked_mul(split) {
            None => Err(Error::InvalidRewardSplit),
            Some(p) => Ok(p / 100),
        }
    }

    /// What is left of `total_reward` after `total_fee`.
    pub fn calculate_remaining_reward(&self, total_reward: Balance, total_fee: Balance) -> (r: Result<
        Balance,
        Error,
    >)
        ensures
            r == (if total_fee > total_reward {
                Err(Error::InvalidRewardSplit)
            } else {
                Ok((total_reward - total_fee) as Balance)
            }),
    {
        match total_reward.checked_sub(total_fee) {
            None => Err(Error::InvalidRewardSplit),
            Some(v) => Ok(v),
        }
    }

    /// Pays the developer fee to the developer account.
    pub fn transfer_developer_fee(&self, treasury: &mut Treasury, ledger: &mut Ledger, dev_fee: Balance) -> (r:
        Result<(), Error>)
        requires
            old(ledger).wf(),
        ensures
            final(ledger).wf(),
            final(treasury).account == old(treasury).account,
            final(ledger).existential_deposit == old(ledger).existential_deposit,
            forall|b: AccountId| #[trigger] final(ledger).reserved(b) == old(ledger).reserved(b),
            r == treasury_transfer_result(
                old(ledger).free_fn(),
                old(ledger).existential_deposit as nat,
                old(treasury).account,
                self.dev_account,
                dev_fee as nat,
            ),
            r is Ok ==> forall|b: AccountId|
                #[trigger] final(ledger).free(b) == after_transfer(
                    old(ledger).free_fn(),
                    old(treasury).account,
                    self.dev_account,
                    dev_fee as nat,
                )(b),
            r is Ok ==> final(treasury).events@ == old(treasury).events@ + payout_events(
                seq![(self.dev_account, dev_fee)],
            ),
            old(treasury).events@.is_prefix_of(final(treasury).events@),
    {
        let r = treasury.transfer_funds(ledger, Origin::Root, self.dev_account, dev_fee);
        assert(old(treasury).events@.is_prefix_of(treasury.events@));
        assert(payout_events(seq![(self.dev_account, dev_fee)]) =~= seq![
            crate::treasury::TreasuryEvent::FundsTransferred { recipient: self.dev_account, amount: dev_fee },
        ]);
        r
    }

    /// Pays the miner its share of `remaining_reward` and splits the rest equally
    /// over `verifiers`, the first one taking the remainder of the division.
    /// Returns the miner's reward and the equal share.
    pub fn distribute_rewards(
        &self,
        treasury: &mut Treasury,
        ledger: &mut Ledger,
        miner: AccountId,
        verifiers: &Vec<AccountId>,
        remaining_reward: Balance,
    ) -> (r: Result<(Balance, Balance), Error>)
        requires
            self.wf(),
            old(ledger).wf(),
        ensures
            final(ledger).wf(),
            final(treasury).account == old(treasury).account,
            final(ledger).existential_deposit == old(ledger).existential_deposit,
            forall|b: AccountId| #[trigger] final(ledger).reserved(b) == old(ledger).reserved(b),
            old(treasury).events@.is_prefix_of(final(treasury).events@),
            r is Ok ==> self.split_outcome(
                old(ledger).free_fn(),
                old(ledger).existential_deposit as nat,
                old(treasury).account,
                miner,
                verifiers@,
                remaining_reward as nat,
            ) is Ok,
            r matches Err(e) ==> self.split_outcome(
                old(ledger).free_fn(),
                old(ledger).existential_deposit as nat,
                old(treasury).account,
                miner,
                verifiers@,
                remaining_reward as nat,
            ) == Err::<(), Error>(e),
            r matches Ok((mr, per)) ==> {
                &&& mr == self.miner_share(remaining_reward as nat)
                &&& per == self.committee_share(remaining_reward as nat) / verifiers@.len()
                &&& forall|b: AccountId|
                    #[trigger] final(ledger).free(b) == after_payouts(
                        old(ledger).free_fn(),
                        old(treasury).account,
                        self.reward_split(miner, verifiers@, remaining_reward as nat),
                    )(b)
                &&& final(treasury).events@ == old(treasury).events@ + payout_events(
                    self.reward_split(miner, verifiers@, remaining_reward as nat),
                )
                &&& final(treasury).balance == final(ledger).free(old(treasury).account)
            },
    {
        assert(old(treasury).events@.is_prefix_of(treasury.events@));
        let n = verifiers.len();
        if n == 0 {
            return Err(Error::NoVerifiersAssigned);
        }
        let miner_reward = match remaining_reward.checked_mul(self.miner_reward_percentage as u128) {
            None => {
                return Err(Error::InvalidRewardSplit);
            },
            Some(p) => p / 100,
        };
        proof {
            let x = remaining_reward as nat;
            let k = self.miner_reward_percentage as nat;
            assert(x * k / 100 <= x) by (nonlinear_arith)
                requires
                    k <= 100,
            ;
        }
        let pool = remaining_reward - miner_reward;
        let per = pool / (n as u128);
        let rem = pool % (n as u128);
        proof {
            let d = n as int;
            let p = pool as int;
            vstd::arithmetic::div_mod::lemma_fundamental_div_mod(p, d);
            assert(p == d * (per as int) + (rem as int));
            let q = per as int;
            let m = rem as int;
            assert(q + m <= p) by (nonlinear_arith)
                requires
                    d >= 1,
                    p == d * q + m,
                    q >= 0,
                    m >= 0,
            ;
        }
        let mut payouts: Vec<(AccountId, Balance)> = Vec::new();
        payouts.push((miner, miner_reward));
        payouts.push((verifiers[0], per + rem));
        let ghost head = seq![(miner, miner_reward), (verifiers@[0], (per + rem) as Balance)];
        assert(payouts@ =~= head + equal_payouts(verifiers@.subrange(1, 1), per));
        let mut i: usize = 1;
        while i < n
            invariant
                n == verifiers@.len(),
                1 <= i <= n,
                payouts@ == head + equal_payouts(verifiers@.subrange(1, i as int), per),
            decreases n - i,
        {
            payouts.push((verifiers[i], per));
            i = i + 1;
            assert(payouts@ =~= head + equal_payouts(verifiers@.subrange(1, i as int), per));
        }
        assert(verifiers@.subrange(1, n as int) =~= verifiers@.drop_first());
        assert(payouts@ == self.reward_split(miner, verifiers@, remaining_reward as nat));
        match pay_all(treasury, ledger, &payouts) {
            Ok(()) => Ok((miner_reward, per)),
            Err(e) => Err(e),
        }
    }

    /// Governance pays out a resolved claim: the developer fee, the miner's
    /// reward and the committee's shares, all from the treasury. Either every
    /// payment happens or none does.
    pub fn direct_reward_distribution(
        &mut self,
        treasury: &mut Treasury,
        ledger: &mut Ledger,
        origin: Origin,
        miner: AccountId,
        verifiers: Vec<AccountId>,
        total_reward: Balance,
    ) -> (r: Result<(), Error>)
        requires
            old(self).wf(),
            old(ledger).wf(),
        ensures
            final(self).wf(),
            final(ledger).wf(),
            final(self).fee_split_treasury == old(self).fee_split_treasury,
            final(self).miner_reward_percentage == old(self).miner_reward_percentage,
            final(self).verifier_reward_percentage == old(self).verifier_reward_percentage,
            final(self).dev_account == old(self).dev_account,
            final(self).total_reward == old(self).total_reward,
            final(treasury).account == old(treasury).account,
            final(ledger).existential_deposit == old(ledger).existential_deposit,
            forall|b: AccountId| #[trigger] final(ledger).reserved(b) == old(ledger).reserved(b),
            r == old(self).distribution_outcome(
                old(ledger).free_fn(),
                old(ledger).existential_deposit as nat,
                old(treasury).account,
                origin,
                miner,
                verifiers@,
                total_reward as nat,
            ),
            r is Err ==> {
                &&& final(ledger).same_balances(old(ledger))
                &&& final(treasury).balance == old(treasury).balance
                &&& final(treasury).events@ == old(treasury).events@
                &&& final(self).events@ == old(self).events@
            },
            r is Ok ==> {
                let all = old(self).all_payouts(miner, verifiers@, total_reward as nat);
                let n = verifiers@.len();
                let remaining = old(self).remaining(total_reward as nat);
                &&& forall|b: AccountId|
                    #[trigger] final(ledger).free(b) == old(self).distribution_balances(
                        old(ledger).free_fn(),
                        old(treasury).account,
                        miner,
                        verifiers@,
                        total_reward as nat,
                    )(b)
                &&& final(treasury).balance == final(ledger).free(old(treasury).account)
                &&& final(treasury).events@ == old(treasury).events@ + payout_events(all)
                &&& final(self).events@ == old(self).events@.push(
                    ManagerEvent::FeesAllocated {
                        reward_amount: total_reward,
                        treasury_amount: remaining as Balance,
                        developer_amount: old(self).dev_fee(total_reward as nat) as Balance,
                    },
                ).push(
                    ManagerEvent::RewardsDistributed {
                        miner,
                        verifiers,
                        miner_reward: old(self).miner_share(remaining) as Balance,
                        verifier_reward: (old(self).committee_share(remaining) / n) as Balance,
                    },
                )
            },
    {
        if ensure_root(origin).is_err() {
            return Err(Error::BadOrigin);
        }
        if total_reward == 0 {
            return Err(Error::InvalidRewardSplit);
        }
        let dev_fee = match self.calculate_fee(total_reward) {
            Ok(f) => f,
            Err(e) => {
                return Err(e);
            },
        };
        proof {
            let x = total_reward as nat;
            let k = (100 - self.fee_split_treasury) as nat;
            assert(x * k / 100 <= x) by (nonlinear_arith)
                requires
                    k <= 100,
            ;
        }
        let remaining = match self.calculate_remaining_reward(total_reward, dev_fee) {
            Ok(v) => v,
            Err(e) => {
                return Err(e);
            },
        };
        if verifiers.len() == 0 {
            return Err(Error::NoVerifiersAssigned);
        }
        let saved_ledger = ledger.snapshot();
        let saved_balance = treasury.balance;
        let saved_events = treasury.events.len();
        let ghost free0 = ledger.free_fn();
        let ghost events0 = treasury.events@;
        match self.transfer_developer_fee(treasury, ledger, dev_fee) {
            Ok(()) => {},
            Err(e) => {
                *ledger = saved_ledger;
                treasury.balance = saved_balance;
                treasury.events.truncate(saved_events);
                assert(treasury.events@ =~= events0.subrange(0, saved_events as int));
                assert(treasury.events@ =~= events0);
                return Err(e);
            },
        }
        let ghost free1 = ledger.free_fn();
        proof {
            assert(free1 =~= after_transfer(free0, treasury.account, self.dev_account, dev_fee as nat));
        }
        let (miner_reward, per) = match self.distribute_rewards(
            treasury,
            ledger,
            miner,
            &verifiers,
            remaining,
        ) {
            Ok(v) => v,
            Err(e) => {
                *ledger = saved_ledger;
                treasury.balance = saved_balance;
                treasury.events.truncate(saved_events);
                assert(treasury.events@ =~= events0.subrange(0, saved_events as int));
                assert(treasury.events@ =~= events0);
                return Err(e);
            },
        };
        proof {
            let all = self.all_payouts(miner, verifiers@, total_reward as nat);
            let dev_pair = seq![(self.dev_account, dev_fee)];
            assert(all.drop_first() =~= self.rewards_for(miner, verifiers@, total_reward as nat));
            assert(all[0] == (self.dev_account, dev_fee));
            assert(payout_events(all) =~= payout_events(dev_pair) + payout_events(
                self.rewards_for(miner, verifiers@, total_reward as nat),
            ));
            assert(treasury.events@ =~= old(treasury).events@ + payout_events(all));
        }
        proof {
            let o = self.distribution_outcome(free0, ledger.existential_deposit as nat, treasury.account, origin, miner, verifiers@, total_reward as nat);
            lemma_ok_unit(o);
        }
        self.events.push(
            ManagerEvent::FeesAllocated {
                reward_amount: total_reward,
                treasury_amount: remaining,
                developer_amount: dev_fee,
            },
        );
        self.events.push(
            ManagerEvent::RewardsDistributed {
                miner,
                verifiers,
                miner_reward,
                verifier_reward: per,
            },
        );
        Ok(())
    }
}

pub proof fn lemma_equal_payouts_sum(vs: Seq<AccountId>, per: Balance)
    ensures
        payout_sum(equal_payouts(vs, per)) == per * vs.len(),
    decreases vs.len(),
{
    if vs.len() == 0 {
        assert(per * vs.len() == 0);
    } else {
        assert(equal_payouts(vs, per).drop_first() =~= equal_payouts(vs.drop_first(), per));
        assert(equal_payouts(vs, per)[0].1 == per);
        lemma_equal_payouts_sum(vs.drop_first(), per);
        let n = vs.len() as int;
        let p = per as int;
        assert(p * n == p + p * (n - 1)) by (nonlinear_arith);
    }
}

pub proof fn lemma_equal_payouts_to(vs: Seq<AccountId>, per: Balance, i: int)
    requires
        0 <= i < vs.len(),
        forall|x: int, y: int| 0 <= x < y < vs.len() ==> vs[x] != vs[y],
    ensures
        payout_to(equal_payouts(vs, per), vs[i]) == per,
    decreases vs.len(),
{
    let ps = equal_payouts(vs, per);
    let rest = vs.drop_first();
    assert(ps.drop_first() =~= equal_payouts(rest, per));
    if i == 0 {
        assert forall|k: int| 0 <= k < equal_payouts(rest, per).len() implies equal_payouts(
            rest,
            per,
        )[k].0 != vs[0] by {
            assert(rest[k] == vs[k + 1]);
        }
        lemma_payout_to_absent(equal_payouts(rest, per), vs[0]);
    } else {
        assert(rest[i - 1] == vs[i]);
        lemma_equal_payouts_to(rest, per, i - 1);
    }
}

/// Fund conservation of a distribution. When it succeeds and the treasury,
/// the developer, the miner and the (distinct) committee members are distinct
/// accounts, the treasury's free balance falls by exactly the total reward:
/// the developer gains the developer fee, the miner its reward, each member
/// the equal share and the first member also the remainder of the division,
/// so that the committee gains together what is left after the miner.
pub proof fn lemma_fund_conservation(
    m: TreasuryManager,
    free: spec_fn(AccountId) -> nat,
    ed: nat,
    acct: AccountId,
    miner: AccountId,
    committee: Seq<AccountId>,
    total: nat,
)
    requires
        m.wf(),
        total <= u128::MAX,
        m.distribution_outcome(free, ed, acct, Origin::Root, miner, committee, total) is Ok,
        acct != m.dev_account,
        acct != miner,
        m.dev_account != miner,
        forall|k: int|
            0 <= k < committee.len() ==> committee[k] != acct && committee[k] != m.dev_account
                && committee[k] != miner,
        forall|x: int, y: int| 0 <= x < y < committee.len() ==> committee[x] != committee[y],
    ensures
        ({
            let after = m.distribution_balances(free, acct, miner, committee, total);
            let n = committee.len();
            let remaining = m.remaining(total);
            let pool = m.committee_share(remaining);
            &&& after(acct) == free(acct) - total
            &&& after(m.dev_account) == free(m.dev_account) + m.dev_fee(total)
            &&& after(miner) == free(miner) + m.miner_share(remaining)
            &&& after(committee[0]) == free(committee[0]) + pool / n + pool % n
            &&& forall|i: int| 1 <= i < n ==> #[trigger] after(committee[i]) == free(committee[i]) + pool / n
            &&& (pool / n) * n + pool % n == pool
            &&& m.dev_fee(total) + m.miner_share(remaining) + pool == total
            &&& forall|a: AccountId|
                a != acct && a != m.dev_account && a != miner && !committee.contains(a)
                    ==> #[trigger] after(a) == free(a)
        }),
{
    let n = committee.len();
    let fee = m.dev_fee(total);
    let remaining = m.remaining(total);
    let mr = m.miner_share(remaining);
    let pool = m.committee_share(remaining);
    let per = pool / n;
    let rem = pool % n;
    let k1 = (100 - m.fee_split_treasury) as nat;
    let k2 = m.miner_reward_percentage as nat;
    assert(total * k1 / 100 <= total) by (nonlinear_arith)
        requires
            k1 <= 100,
    ;
    assert(remaining * k2 / 100 <= remaining) by (nonlinear_arith)
        requires
            k2 <= 100,
    ;
    vstd::arithmetic::div_mod::lemma_fundamental_div_mod(pool as int, n as int);
    assert(per * n + rem == pool) by (nonlinear_arith)
        requires
            pool == n * per + rem,
    ;
    assert(per + rem <= pool) by (nonlinear_arith)
        requires
            n >= 1,
            pool == n * per + rem,
    ;
    let dev_pair = seq![(m.dev_account, fee as Balance)];
    let head = seq![(miner, mr as Balance), (committee[0], (per + rem) as Balance)];
    let tail = equal_payouts(committee.drop_first(), per as Balance);
    let rewards = m.rewards_for(miner, committee, total);
    let all = m.all_payouts(miner, committee, total);
    assert(rewards == head + tail);
    assert(all == dev_pair + rewards);
    assert(all.drop_first() =~= rewards);
    let f1 = after_transfer(free, acct, m.dev_account, fee);
    assert(payouts_result(free, ed, acct, all) == payouts_result(f1, ed, acct, rewards));
    assert forall|k: int| 0 <= k < all.len() implies all[k].0 != acct by {
        if k >= 3 {
            assert(all[k] == tail[k - 3]);
            assert(committee.drop_first()[k - 3] == committee[k - 2]);
        }
    }
    lemma_payouts_conserve(free, ed, acct, all);
    lemma_payout_concat(dev_pair, rewards);
    lemma_payout_concat(head, tail);
    lemma_equal_payouts_sum(committee.drop_first(), per as Balance);
    assert(per + rem <= u128::MAX);
    assert(fee <= u128::MAX);
    let second = seq![(committee[0], (per + rem) as Balance)];
    assert(head.drop_first() =~= second);
    assert(second.drop_first() =~= Seq::<(AccountId, Balance)>::empty());
    assert(dev_pair.drop_first() =~= Seq::<(AccountId, Balance)>::empty());
    assert(payout_sum(second) == per + rem);
    assert forall|a: AccountId| #[trigger] payout_to(second, a) == (if a == committee[0] {
        per + rem
    } else {
        0
    }) by {
        assert(second[0].1 as nat == per + rem);
        assert(payout_to(second.drop_first(), a) == 0);
    }
    assert forall|a: AccountId| #[trigger] payout_to(head, a) == (if a == miner {
        mr
    } else {
        0
    }) + payout_to(second, a) by {}
    assert forall|a: AccountId| #[trigger] payout_to(dev_pair, a) == (if a == m.dev_account {
        fee
    } else {
        0
    }) by {
        assert(dev_pair[0].1 as nat == fee);
        assert(payout_to(dev_pair.drop_first(), a) == 0);
    }
    assert(payout_sum(head) == mr + per + rem);
    assert(payout_sum(dev_pair) == fee);
    assert(per * (n - 1) + per == per * n) by (nonlinear_arith)
        requires
            n >= 1,
    ;
    assert(payout_sum(all) == total);
    let rest = committee.drop_first();
    assert forall|k: int| 0 <= k < rest.len() implies rest[k] == committee[k + 1] by {}
    assert forall|x: int, y: int| 0 <= x < y < rest.len() implies rest[x] != rest[y] by {
        assert(rest[x] == committee[x + 1] && rest[y] == committee[y + 1]);
    }
    // The developer, the miner and the first member are outside the equal shares.
    assert forall|k: int| 0 <= k < tail.len() implies tail[k].0 != m.dev_account && tail[k].0 != miner
        && tail[k].0 != committee[0] by {
        assert(tail[k].0 == committee[k + 1]);
    }
    lemma_payout_to_absent(tail, m.dev_account);
    lemma_payout_to_absent(tail, miner);
    lemma_payout_to_absent(tail, committee[0]);
    assert(payout_to(head, m.dev_account) == 0);
    assert(payout_to(dev_pair, m.dev_account) == fee);
    assert(payout_to(head, miner) == mr);
    assert(payout_to(dev_pair, miner) == 0);
    assert(payout_to(head, committee[0]) == per + rem);
    assert(payout_to(dev_pair, committee[0]) == 0);
    assert forall|i: int| 1 <= i < n implies #[trigger] m.distribution_balances(
        free,
        acct,
        miner,
        committee,
        total,
    )(committee[i]) == free(committee[i]) + per by {
        lemma_equal_payouts_to(rest, per as Balance, i - 1);
        assert(rest[i - 1] == committee[i]);
        assert(payout_to(head, committee[i]) == 0);
        assert(payout_to(dev_pair, committee[i]) == 0);
    }
    assert forall|a: AccountId|
        a != acct && a != m.dev_account && a != miner && !committee.contains(a) implies #[trigger] m.distribution_balances(
        free,
        acct,
        miner,
        committee,
        total,
    )(a) == free(a) by {
        assert forall|k: int| 0 <= k < tail.len() implies tail[k].0 != a by {
            assert(tail[k].0 == committee[k + 1]);
        }
        lemma_payout_to_absent(tail, a);
        assert(committee[0] != a);
        assert(payout_to(head, a) == 0);
        assert(payout_to(dev_pair, a) == 0);
    }
}

} // verus!

use vstd::prelude::*;
use crate::error::Error;
use crate::ledger::Ledger;
use crate::table::Table;
use crate::treasury::Treasury;
use crate::treasury_manager::TreasuryManager;
use crate::types::{ensure_signed, AccountId, BlockNumber, Key, Origin, H256};
use crate::error::lemma_ok_unit;

verus! {

#[derive(Clone, Copy, Debug, PartialEq)]
pub enum AggregatorEvent {
    SubmissionValidated { miner: AccountId, hash: H256, valid: bool },
    SubmissionExpired { hash: H256 },
    /// A claim resolved valid, but its payout was refused; no funds moved.
    DistributionFailed { hash: H256, error: Error },
}

/// The attestations of the claim `h`, oldest first.
pub open spec fn tally_in(s: Seq<(H256, AccountId, bool)>, h: H256) -> Seq<(AccountId, bool)>
    decreases s.len(),
{
    if s.len() == 0 {
        Seq::empty()
    } else {
        let prev = tally_in(s.drop_last(), h);
        if s.last().0 == h {
            prev.push((s.last().1, s.last().2))
        } else {
            prev
        }
    }
}

pub proof fn lemma_tally_in_push(s: Seq<(H256, AccountId, bool)>, e: (H256, AccountId, bool), h: H256)
    ensures
        tally_in(s.push(e), h) == (if e.0 == h {
            tally_in(s, h).push((e.1, e.2))
        } else {
            tally_in(s, h)
        }),
{
    assert(s.push(e).drop_last() =~= s);
}

/// How many attestations of `t` say valid.
pub open spec fn valid_count(t: Seq<(AccountId, bool)>) -> nat
    decreases t.len(),
{
    if t.len() == 0 {
        0
    } else {
        valid_count(t.drop_last()) + if t.last().1 {
            1nat
        } else {
            0nat
        }
    }
}

/// The accounts that attested, in order.
pub open spec fn attesters(t: Seq<(AccountId, bool)>) -> Seq<AccountId> {
    t.map_values(|e: (AccountId, bool)| e.0)
}

/// The quorum rule: at least three attestations, and at least two thirds of them valid.
pub open spec fn resolves_valid(valid: nat, total: nat) -> bool {
    total >= 3 && 3 * valid >= 2 * total
}

/// Whether `valid` out of `total` attestations resolve a claim as valid.
pub fn threshold_met(valid: usize, total: usize) -> (r: bool)
    ensures
        r == resolves_valid(valid as nat, total as nat),
{
    total >= 3 && 3 * (valid as u128) >= 2 * (total as u128)
}

/// The deadline of a claim first attested at `now`.
pub open spec fn deadline_after(now: BlockNumber, timeout: BlockNumber) -> BlockNumber {
    if now + timeout > u64::MAX {
        u64::MAX
    } else {
        (now + timeout) as BlockNumber
    }
}

/// The event that reports a refused payout of a valid claim, if the
/// distribution from the free balances `free` is refused.
pub open spec fn payout_failure_events(
    m: TreasuryManager,
    free: spec_fn(AccountId) -> nat,
    ed: nat,
    acct: AccountId,
    miner: AccountId,
    hash: H256,
    committee: Seq<AccountId>,
) -> Seq<AggregatorEvent> {
    match m.distribution_outcome(
        free,
        ed,
        acct,
        Origin::Root,
        miner,
        committee,
        m.total_reward as nat,
    ) {
        Ok(_) => Seq::empty(),
        Err(e) => seq![AggregatorEvent::DistributionFailed { hash, error: e }],
    }
}

/// The events that resolving a claim with the attestations `t` emits, when
/// `m` pays from the treasury account `acct` out of the free balances `free`.
pub open spec fn resolution_events(
    m: TreasuryManager,
    free: spec_fn(AccountId) -> nat,
    ed: nat,
    acct: AccountId,
    miner: AccountId,
    hash: H256,
    t: Seq<(AccountId, bool)>,
) -> Seq<AggregatorEvent> {
    if t.len() < 3 {
        Seq::empty()
    } else if resolves_valid(valid_count(t), t.len()) {
        payout_failure_events(m, free, ed, acct, miner, hash, attesters(t)).push(
            AggregatorEvent::SubmissionValidated { miner, hash, valid: true },
        )
    } else {
        seq![AggregatorEvent::SubmissionValidated { miner, hash, valid: false }]
    }
}

/// The manager, treasury and ledger keep their configuration and well-formedness.
pub open spec fn funds_wf(
    m0: TreasuryManager,
    m1: TreasuryManager,
    t0: Treasury,
    t1: Treasury,
    l0: Ledger,
    l1: Ledger,
) -> bool {
    &&& m1.wf()
    &&& l1.wf()
    &&& m1.fee_split_treasury == m0.fee_split_treasury
    &&& m1.miner_reward_percentage == m0.miner_reward_percentage
    &&& m1.verifier_reward_percentage == m0.verifier_reward_percentage
    &&& m1.dev_account == m0.dev_account
    &&& m1.total_reward == m0.total_reward
    &&& t1.account == t0.account
    &&& l1.existential_deposit == l0.existential_deposit
    &&& forall|b: AccountId| #[trigger] l1.reserved(b) == l0.reserved(b)
}

/// No funds moved and no treasury or manager event was emitted.
pub open spec fn funds_kept(
    m0: TreasuryManager,
    m1: TreasuryManager,
    t0: Treasury,
    t1: Treasury,
    l0: Ledger,
    l1: Ledger,
) -> bool {
    &&& l1.same_balances(&l0)
    &&& t1.balance == t0.balance
    &&& t1.events@ == t0.events@
    &&& m1.events@ == m0.events@
}

/// What resolving a claim with the attestations `t` does to the funds: a
/// valid resolution pays the reward out as the manager's distribution does,
/// and leaves the funds as they were if that distribution is refused.
pub open spec fn resolution_funds(
    m0: TreasuryManager,
    m1: TreasuryManager,
    t0: Treasury,
    t1: Treasury,
    l0: Ledger,
    l1: Ledger,
    miner: AccountId,
    t: Seq<(AccountId, bool)>,
) -> bool {
    if t.len() >= 3 && resolves_valid(valid_count(t), t.len()) {
        match m0.distribution_outcome(
            l0.free_fn(),
            l0.existential_deposit as nat,
            t0.account,
            Origin::Root,
            miner,
            attesters(t),
            m0.total_reward as nat,
        ) {
            Ok(_) => forall|b: AccountId|
                #[trigger] l1.free(b) == m0.distribution_balances(
                    l0.free_fn(),
                    t0.account,
                    miner,
                    attesters(t),
                    m0.total_reward as nat,
                )(b),
            Err(_) => funds_kept(m0, m1, t0, t1, l0, l1),
        }
    } else {
        funds_kept(m0, m1, t0, t1, l0, l1)
    }
}

/// Whether some of the first `i` entries of `es` is for the claim `h`.
pub open spec fn done_in(es: Seq<(H256, BlockNumber)>, i: int, h: H256) -> bool {
    exists|k: int| 0 <= k < i && #[trigger] es[k].0 == h
}

/// Collects attestations per claim, decides claims by the quorum rule, and
/// expires claims whose deadline has passed.
pub struct Aggregator {
    /// Every attestation, as (claim, verifier, judgement), oldest first.
    pub tally: Vec<(H256, AccountId, bool)>,
    pub deadlines: Table<H256, BlockNumber>,
    pub processed: Table<H256, ()>,
    pub miner_for_hash: Table<H256, AccountId>,
    pub max_verifier_submissions: usize,
    pub verification_timeout: BlockNumber,
    pub events: Vec<AggregatorEvent>,
}

impl Aggregator {
    pub open spec fn wf(&self) -> bool {
        &&& self.deadlines.wf()
        &&& self.processed.wf()
        &&& self.miner_for_hash.wf()
    }

    /// The attestations of the claim `h`.
    pub open spec fn tally_of(&self, h: H256) -> Seq<(AccountId, bool)> {
        tally_in(self.tally@, h)
    }

    pub open spec fn is_processed(&self, h: H256) -> bool {
        self.processed@.contains_key(h)
    }

    pub fn new(max_verifier_submissions: usize, verification_timeout: BlockNumber) -> (r: Aggregator)
        ensures
            r.wf(),
            r.tally@.len() == 0,
            r.deadlines@ == Map::<H256, BlockNumber>::empty(),
            r.processed@ == Map::<H256, ()>::empty(),
            r.miner_for_hash@ == Map::<H256, AccountId>::empty(),
            r.max_verifier_submissions == max_verifier_submissions,
            r.verification_timeout == verification_timeout,
            r.events@.len() == 0,
    {
        Aggregator {
            tally: Vec::new(),
            deadlines: Table::new(),
            processed: Table::new(),
            miner_for_hash: Table::new(),
            max_verifier_submissions,
            verification_timeout,
            events: Vec::new(),
        }
    }

    /// The attestations of the claim `h`, oldest first.
    pub fn verifier_submissions(&self, h: &H256) -> (r: Vec<(AccountId, bool)>)
        ensures
            r@ == self.tally_of(*h),
    {
        let mut r: Vec<(AccountId, bool)> = Vec::new();
        let mut i: usize = 0;
        while i < self.tally.len()
            invariant
                0 <= i <= self.tally@.len(),
                r@ == tally_in(self.tally@.take(i as int), *h),
            decreases self.tally@.len() - i,
        {
            let (hh, v, ok) = self.tally[i];
            proof {
                assert(self.tally@.take(i + 1) =~= self.tally@.take(i as int).push(self.tally@[i as int]));
                lemma_tally_in_push(self.tally@.take(i as int), self.tally@[i as int], *h);
            }
            if hh.same(h) {
                r.push((v, ok));
            }
            i = i + 1;
        }
        assert(self.tally@.take(i as int) =~= self.tally@);
        r
    }

    pub fn verification_deadline(&self, h: &H256) -> (r: Option<BlockNumber>)
        requires
            self.wf(),
        ensures
            r == (if self.deadlines@.contains_key(*h) {
                Some(self.deadlines@[*h])
            } else {
                None::<BlockNumber>
            }),
    {
        self.deadlines.get(h)
    }

    /// The outcome that `submit_verification` owes.
    pub open spec fn verification_outcome(&self, origin: Origin, now: BlockNumber, hash: H256) -> Result<
        (),
        Error,
    > {
        match origin {
            Origin::Root => Err(Error::BadOrigin),
            Origin::Signed(v) => if self.tally_of(hash).len() >= self.max_verifier_submissions {
                Err(Error::AttestationsFull)
            } else if self.is_processed(hash) {
                Err(Error::SubmissionAlreadyProcessed)
            } else if self.deadlines@.contains_key(hash) && now > self.deadlines@[hash] {
                Err(Error::VerificationExpired)
            } else if attesters(self.tally_of(hash)).contains(v) {
                Err(Error::AlreadyAttested)
            } else {
                Ok(())
            },
        }
    }

    /// A verifier attests to the claim `hash` at block `now`. The first
    /// attestation caches `miner` as the claim's miner and opens its deadline;
    /// the attestation that fills the tally resolves the claim.
    pub fn submit_verification(
        &mut self,
        manager: &mut TreasuryManager,
        treasury: &mut Treasury,
        ledger: &mut Ledger,
        origin: Origin,
        now: BlockNumber,
        miner: AccountId,
        hash: H256,
        is_valid: bool,
    ) -> (r: Result<(), Error>)
        requires
            old(self).wf(),
            old(manager).wf(),
            old(ledger).wf(),
        ensures
            final(self).wf(),
            final(self).max_verifier_submissions == old(self).max_verifier_submissions,
            final(self).verification_timeout == old(self).verification_timeout,
            funds_wf(*old(manager), *final(manager), *old(treasury), *final(treasury), *old(ledger), *final(ledger)),
            r == old(self).verification_outcome(origin, now, hash),
            r is Err ==> {
                &&& final(self).tally@ == old(self).tally@
                &&& final(self).deadlines@ == old(self).deadlines@
                &&& final(self).processed@ == old(self).processed@
                &&& final(self).miner_for_hash@ == old(self).miner_for_hash@
                &&& final(self).events@ == old(self).events@
                &&& funds_kept(*old(manager), *final(manager), *old(treasury), *final(treasury), *old(ledger), *final(ledger))
            },
            r is Ok ==> (origin matches Origin::Signed(v) && {
                let t = final(self).tally_of(hash);
                let m = final(self).miner_for_hash@[hash];
                &&& final(self).tally@ == old(self).tally@.push((hash, v, is_valid))
                &&& t == old(self).tally_of(hash).push((v, is_valid))
                &&& final(self).miner_for_hash@ == (if old(self).miner_for_hash@.contains_key(hash) {
                    old(self).miner_for_hash@
                } else {
                    old(self).miner_for_hash@.insert(hash, miner)
                })
                &&& final(self).deadlines@ == (if old(self).deadlines@.contains_key(hash) {
                    old(self).deadlines@
                } else {
                    old(self).deadlines@.insert(hash, deadline_after(now, old(self).verification_timeout))
                })
                &&& if t.len() >= old(self).max_verifier_submissions {
                    &&& final(self).processed@ == old(self).processed@.insert(hash, ())
                    &&& final(self).events@ == old(self).events@ + resolution_events(
                        *old(manager),
                        old(ledger).free_fn(),
                        old(ledger).existential_deposit as nat,
                        old(treasury).account,
                        m,
                        hash,
                        t,
                    )
                    &&& resolution_funds(
                        *old(manager),
                        *final(manager),
                        *old(treasury),
                        *final(treasury),
                        *old(ledger),
                        *final(ledger),
                        m,
                        t,
                    )
                } else {
                    &&& final(self).processed@ == old(self).processed@
                    &&& final(self).events@ == old(self).events@
                    &&& funds_kept(*old(manager), *final(manager), *old(treasury), *final(treasury), *old(ledger), *final(ledger))
                }
            }),
    {
        let v = match ensure_signed(origin) {
            Ok(v) => v,
            Err(e) => {
                return Err(e);
            },
        };
        let current = self.verifier_submissions(&hash);
        if current.len() >= self.max_verifier_submissions {
            return Err(Error::AttestationsFull);
        }
        if self.processed.contains_key(&hash) {
            return Err(Error::SubmissionAlreadyProcessed);
        }
        let deadline = self.deadlines.get(&hash);
        match deadline {
            Some(d) => {
                if now > d {
                    return Err(Error::VerificationExpired);
                }
            },
            None => {},
        }
        let mut attested = false;
        let mut i: usize = 0;
        while i < current.len()
            invariant
                0 <= i <= current@.len(),
                attested == (exists|k: int| 0 <= k < i && current@[k].0 == v),
            decreases current@.len() - i,
        {
            if current[i].0.same(&v) {
                attested = true;
            }
            i = i + 1;
        }
        proof {
            if attesters(current@).contains(v) {
                let k = choose|k: int| 0 <= k < attesters(current@).len() && attesters(current@)[k] == v;
                assert(current@[k].0 == v);
            }
            if attested {
                let k = choose|k: int| 0 <= k < i && current@[k].0 == v;
                assert(attesters(current@)[k] == v);
            }
        }
        if attested {
            return Err(Error::AlreadyAttested);
        }
        if !self.miner_for_hash.contains_key(&hash) {
            self.miner_for_hash.insert(hash, miner);
        }
        proof {
            lemma_tally_in_push(self.tally@, (hash, v, is_valid), hash);
        }
        self.tally.push((hash, v, is_valid));
        if deadline.is_none() {
            let timeout = self.verification_timeout;
            let d = if now > u64::MAX - timeout {
                u64::MAX
            } else {
                now + timeout
            };
            self.deadlines.insert(hash, d);
        }
        if current.len() + 1 >= self.max_verifier_submissions {
            match self.miner_for_hash.get(&hash) {
                Some(m) => {
                    self.process_submissions(manager, treasury, ledger, m, hash);
                },
                None => {},
            }
            self.processed.insert(hash, ());
        }
        Ok(())
    }

    /// At the end of block `n`, the open claim `h` is resolved: it has
    /// attestations, its deadline has not passed, and its miner is known.
    pub open spec fn resolves_at(&self, n: BlockNumber, h: H256) -> bool {
        &&& self.deadlines@.contains_key(h)
        &&& !self.is_processed(h)
        &&& self.tally_of(h).len() > 0
        &&& n <= self.deadlines@[h]
        &&& self.miner_for_hash@.contains_key(h)
    }

    /// At the end of block `n`, the open claim `h` expires: its deadline has passed.
    pub open spec fn expires_at(&self, n: BlockNumber, h: H256) -> bool {
        &&& self.deadlines@.contains_key(h)
        &&& !self.is_processed(h)
        &&& n > self.deadlines@[h]
    }

    /// The events that the end of block `n` emits for the claims of `es`, in
    /// order, starting from the free balances `free`; `m` pays out from `acct`.
    pub open spec fn finalize_events(
        &self,
        m: TreasuryManager,
        ed: nat,
        acct: AccountId,
        n: BlockNumber,
        es: Seq<(H256, BlockNumber)>,
        free: spec_fn(AccountId) -> nat,
    ) -> Seq<AggregatorEvent>
        decreases es.len(),
    {
        if es.len() == 0 {
            Seq::empty()
        } else {
            let h = es.last().0;
            let f = self.finalize_free(m, ed, acct, n, es.drop_last(), free);
            self.finalize_events(m, ed, acct, n, es.drop_last(), free) + if self.resolves_at(n, h) {
                resolution_events(m, f, ed, acct, self.miner_for_hash@[h], h, self.tally_of(h))
            } else if self.expires_at(n, h) {
                seq![AggregatorEvent::SubmissionExpired { hash: h }]
            } else {
                Seq::empty()
            }
        }
    }

    /// The free balances after the end of block `n` has resolved the claims of
    /// `es` in order, starting from `free`; `m` pays out from the treasury account `acct`.
    pub open spec fn finalize_free(
        &self,
        m: TreasuryManager,
        ed: nat,
        acct: AccountId,
        n: BlockNumber,
        es: Seq<(H256, BlockNumber)>,
        free: spec_fn(AccountId) -> nat,
    ) -> spec_fn(AccountId) -> nat
        decreases es.len(),
    {
        if es.len() == 0 {
            free
        } else {
            let f = self.finalize_free(m, ed, acct, n, es.drop_last(), free);
            let h = es.last().0;
            let t = self.tally_of(h);
            let miner = self.miner_for_hash@[h];
            if self.resolves_at(n, h) && t.len() >= 3 && resolves_valid(valid_count(t), t.len()) {
                match m.distribution_outcome(
                    f,
                    ed,
                    acct,
                    Origin::Root,
                    miner,
                    attesters(t),
                    m.total_reward as nat,
                ) {
                    Ok(_) => m.distribution_balances(f, acct, miner, attesters(t), m.total_reward as nat),
                    Err(_) => f,
                }
            } else {
                f
            }
        }
    }

    /// The end-of-block hook for block `n`: every open claim with attestations
    /// whose deadline has not passed is resolved, every open claim whose
    /// deadline has passed expires, and processed claims are left alone.
    pub fn on_finalize(
        &mut self,
        manager: &mut TreasuryManager,
        treasury: &mut Treasury,
        ledger: &mut Ledger,
        n: BlockNumber,
    )
        requires
            old(self).wf(),
            old(manager).wf(),
            old(ledger).wf(),
        ensures
            final(self).wf(),
            final(self).max_verifier_submissions == old(self).max_verifier_submissions,
            final(self).verification_timeout == old(self).verification_timeout,
            final(self).tally@ == old(self).tally@,
            funds_wf(*old(manager), *final(manager), *old(treasury), *final(treasury), *old(ledger), *final(ledger)),
            forall|h: H256|
                #[trigger] final(self).deadlines@.contains_key(h) == (old(self).deadlines@.contains_key(h)
                    && !old(self).expires_at(n, h)),
            forall|h: H256|
                #[trigger] final(self).deadlines@.contains_key(h) ==> final(self).deadlines@[h] == old(
                    self,
                ).deadlines@[h],
            forall|h: H256|
                #[trigger] final(self).is_processed(h) == (old(self).is_processed(h) || old(self).resolves_at(n, h)
                    || old(self).expires_at(n, h)),
            forall|h: H256|
                #[trigger] final(self).miner_for_hash@.contains_key(h) == (old(self).miner_for_hash@.contains_key(h)
                    && !old(self).expires_at(n, h)),
            forall|h: H256|
                #[trigger] final(self).miner_for_hash@.contains_key(h) ==> final(self).miner_for_hash@[h]
                    == old(self).miner_for_hash@[h],
            final(self).events@ == old(self).events@ + old(self).finalize_events(
                *old(manager),
                old(ledger).existential_deposit as nat,
                old(treasury).account,
                n,
                old(self).deadlines.entries@,
                old(ledger).free_fn(),
            ),
            forall|b: AccountId|
                #[trigger] final(ledger).free(b) == old(self).finalize_free(
                    *old(manager),
                    old(ledger).existential_deposit as nat,
                    old(treasury).account,
                    n,
                    old(self).deadlines.entries@,
                    old(ledger).free_fn(),
                )(b),
            (forall|h: H256| !old(self).resolves_at(n, h)) ==> funds_kept(
                *old(manager),
                *final(manager),
                *old(treasury),
                *final(treasury),
                *old(ledger),
                *final(ledger),
            ),
    {
        let snapshot = self.deadlines.to_vec();
        let ghost es = old(self).deadlines.entries@;
        let ghost o = *old(self);
        let mut i: usize = 0;
        assert(es.take(0) =~= Seq::<(H256, BlockNumber)>::empty());
        assert(self.events@ =~= o.events@ + o.finalize_events(
            *old(manager),
            old(ledger).existential_deposit as nat,
            old(treasury).account,
            n,
            es.take(0),
            old(ledger).free_fn(),
        ));
        while i < snapshot.len()
            invariant
                snapshot@ == es,
                es == o.deadlines.entries@,
                o == *old(self),
                o.wf(),
                self.wf(),
                manager.wf(),
                ledger.wf(),
                0 <= i <= es.len(),
                self.max_verifier_submissions == o.max_verifier_submissions,
                self.verification_timeout == o.verification_timeout,
                self.tally@ == o.tally@,
                funds_wf(*old(manager), *manager, *old(treasury), *treasury, *old(ledger), *ledger),
                forall|h: H256|
                    #[trigger] self.deadlines@.contains_key(h) == (o.deadlines@.contains_key(h) && !(
                    done_in(es, i as int, h) && o.expires_at(n, h))),
                forall|h: H256|
                    #[trigger] self.deadlines@.contains_key(h) ==> self.deadlines@[h] == o.deadlines@[h],
                forall|h: H256|
                    #[trigger] self.is_processed(h) == (o.is_processed(h) || (done_in(es, i as int, h) && (
                    o.resolves_at(n, h) || o.expires_at(n, h)))),
                forall|h: H256|
                    #[trigger] self.miner_for_hash@.contains_key(h) == (o.miner_for_hash@.contains_key(h)
                        && !(done_in(es, i as int, h) && o.expires_at(n, h))),
                forall|h: H256|
                    #[trigger] self.miner_for_hash@.contains_key(h) ==> self.miner_for_hash@[h]
                        == o.miner_for_hash@[h],
                self.events@ == o.events@ + o.finalize_events(
                    *old(manager),
                    old(ledger).existential_deposit as nat,
                    old(treasury).account,
                    n,
                    es.take(i as int),
                    old(ledger).free_fn(),
                ),
                ledger.free_fn() == o.finalize_free(
                    *old(manager),
                    old(ledger).existential_deposit as nat,
                    old(treasury).account,
                    n,
                    es.take(i as int),
                    old(ledger).free_fn(),
                ),
                (forall|h: H256| !o.resolves_at(n, h)) ==> funds_kept(
                    *old(manager),
                    *manager,
                    *old(treasury),
                    *treasury,
                    *old(ledger),
                    *ledger,
                ),
            decreases es.len() - i,
        {
            let (h, d) = snapshot[i];
            let ghost before = self.events@;
            let ghost prev = *self;
            let ghost free_before = ledger.free_fn();
            proof {
                crate::table::lemma_map_of_index(es, i as int);
                assert(!done_in(es, i as int, h)) by {
                    if done_in(es, i as int, h) {
                        let k = choose|k: int| 0 <= k < i && #[trigger] es[k].0 == h;
                        assert(es[k].0 == es[i as int].0);
                    }
                }
                assert forall|g: H256| #[trigger] done_in(es, i + 1, g) == (done_in(es, i as int, g) || g == h) by {
                    if done_in(es, i + 1, g) {
                        let k = choose|k: int| 0 <= k < i + 1 && #[trigger] es[k].0 == g;
                        if k < i {
                            assert(done_in(es, i as int, g));
                        }
                    }
                    if done_in(es, i as int, g) {
                        let k = choose|k: int| 0 <= k < i && #[trigger] es[k].0 == g;
                        assert(0 <= k < i + 1 && es[k].0 == g);
                    }
                    if g == h {
                        assert(es[i as int].0 == g);
                    }
                }
                assert(es.take(i + 1).drop_last() =~= es.take(i as int));
                assert(es.take(i + 1).last() == es[i as int]);
            }
            let ghost step_events = if o.resolves_at(n, h) {
                resolution_events(
                    *old(manager),
                    free_before,
                    old(ledger).existential_deposit as nat,
                    old(treasury).account,
                    o.miner_for_hash@[h],
                    h,
                    o.tally_of(h),
                )
            } else if o.expires_at(n, h) {
                seq![AggregatorEvent::SubmissionExpired { hash: h }]
            } else {
                Seq::empty()
            };
            assert(o.finalize_events(
                *old(manager),
                old(ledger).existential_deposit as nat,
                old(treasury).account,
                n,
                es.take(i + 1),
                old(ledger).free_fn(),
            ) == o.finalize_events(
                *old(manager),
                old(ledger).existential_deposit as nat,
                old(treasury).account,
                n,
                es.take(i as int),
                old(ledger).free_fn(),
            ) + step_events);
            assert(self.is_processed(h) == o.is_processed(h));
            assert(d == o.deadlines@[h]);
            if self.processed.contains_key(&h) {
                assert(step_events =~= Seq::<AggregatorEvent>::empty());
                assert(self.events@ =~= o.events@ + o.finalize_events(
                    *old(manager),
                    old(ledger).existential_deposit as nat,
                    old(treasury).account,
                    n,
                    es.take(i + 1),
                    old(ledger).free_fn(),
                ));
            } else {
                let subs = self.verifier_submissions(&h);
                assert(subs@ == o.tally_of(h));
                if subs.len() > 0 && n <= d {
                    match self.miner_for_hash.get(&h) {
                        Some(m) => {
                            assert(o.resolves_at(n, h));
                            self.process_submissions(manager, treasury, ledger, m, h);
                            self.processed.insert(h, ());
                        },
                        None => {
                            assert(!o.resolves_at(n, h) && !o.expires_at(n, h));
                            assert(step_events =~= Seq::<AggregatorEvent>::empty());
                        },
                    }
                } else if n > d {
                    assert(o.expires_at(n, h));
                    self.handle_expired_submission(h);
                } else {
                    assert(!o.resolves_at(n, h) && !o.expires_at(n, h));
                    assert(step_events =~= Seq::<AggregatorEvent>::empty());
                }
                assert(self.events@ =~= before + step_events);
                assert(self.events@ =~= o.events@ + o.finalize_events(
                    *old(manager),
                    old(ledger).existential_deposit as nat,
                    old(treasury).account,
                    n,
                    es.take(i + 1),
                    old(ledger).free_fn(),
                ));
            }
            proof {
                assert(ledger.free_fn() =~= o.finalize_free(
                    *old(manager),
                    old(ledger).existential_deposit as nat,
                    old(treasury).account,
                    n,
                    es.take(i + 1),
                    old(ledger).free_fn(),
                ));
            }
            assert forall|g: H256| g != h implies #[trigger] self.is_processed(g) == prev.is_processed(g) by {}
            assert forall|g: H256|
                #[trigger] self.is_processed(g) == (o.is_processed(g) || (done_in(es, i + 1, g) && (
                o.resolves_at(n, g) || o.expires_at(n, g)))) by {
                if g != h {
                    assert(prev.is_processed(g) == (o.is_processed(g) || (done_in(es, i as int, g) && (
                    o.resolves_at(n, g) || o.expires_at(n, g)))));
                }
            }
            i = i + 1;
        }
        proof {
            assert(es.take(i as int) =~= es);
            assert(ledger.free_fn() == o.finalize_free(
                *old(manager),
                old(ledger).existential_deposit as nat,
                old(treasury).account,
                n,
                es,
                old(ledger).free_fn(),
            ));
            assert forall|h: H256| #[trigger] done_in(es, i as int, h) == o.deadlines@.contains_key(h) by {
                crate::table::lemma_map_of_contains(es, h);
                if o.deadlines@.contains_key(h) {
                    let k = choose|k: int| 0 <= k < es.len() && es[k].0 == h;
                    assert(0 <= k < i && es[k].0 == h);
                }
            }
        }
    }

    /// Resolves the claim `hash` by the quorum rule over its attestations and
    /// marks it processed; with fewer than three attestations nothing happens.
    pub fn process_submissions(
        &mut self,
        manager: &mut TreasuryManager,
        treasury: &mut Treasury,
        ledger: &mut Ledger,
        miner: AccountId,
        hash: H256,
    )
        requires
            old(self).wf(),
            old(manager).wf(),
            old(ledger).wf(),
        ensures
            final(self).wf(),
            final(self).tally@ == old(self).tally@,
            final(self).deadlines == old(self).deadlines,
            final(self).processed@ == (if old(self).tally_of(hash).len() >= 3 {
                old(self).processed@.insert(hash, ())
            } else {
                old(self).processed@
            }),
            final(self).miner_for_hash == old(self).miner_for_hash,
            final(self).max_verifier_submissions == old(self).max_verifier_submissions,
            final(self).verification_timeout == old(self).verification_timeout,
            final(self).events@ == old(self).events@ + resolution_events(
                *old(manager),
                old(ledger).free_fn(),
                old(ledger).existential_deposit as nat,
                old(treasury).account,
                miner,
                hash,
                old(self).tally_of(hash),
            ),
            funds_wf(*old(manager), *final(manager), *old(treasury), *final(treasury), *old(ledger), *final(ledger)),
            resolution_funds(
                *old(manager),
                *final(manager),
                *old(treasury),
                *final(treasury),
                *old(ledger),
                *final(ledger),
                miner,
                old(self).tally_of(hash),
            ),
    {
        let submissions = self.verifier_submissions(&hash);
        let total = submissions.len();
        let valid = count_valid(&submissions);
        let ghost events = resolution_events(
            *old(manager),
            old(ledger).free_fn(),
            old(ledger).existential_deposit as nat,
            old(treasury).account,
            miner,
            hash,
            submissions@,
        );
        if total < 3 {
            assert(events =~= Seq::<AggregatorEvent>::empty());
            assert(self.events@ =~= old(self).events@ + events);
            return;
        }
        if threshold_met(valid, total) {
            self.handle_valid_submission(manager, treasury, ledger, hash, miner, &submissions);
        } else {
            self.handle_invalid_submission(hash, miner);
        }
        assert(self.events@ =~= old(self).events@ + events);
        self.processed.insert(hash, ());
    }

    /// Pays out a claim resolved valid and records the resolution. A refused
    /// payout moves no funds and is reported by its own event before the
    /// resolution; the claim is resolved all the same.
    pub fn handle_valid_submission(
        &mut self,
        manager: &mut TreasuryManager,
        treasury: &mut Treasury,
        ledger: &mut Ledger,
        hash: H256,
        miner: AccountId,
        submissions: &Vec<(AccountId, bool)>,
    )
        requires
            old(manager).wf(),
            old(ledger).wf(),
        ensures
            final(self).tally == old(self).tally,
            final(self).deadlines == old(self).deadlines,
            final(self).processed == old(self).processed,
            final(self).miner_for_hash == old(self).miner_for_hash,
            final(self).max_verifier_submissions == old(self).max_verifier_submissions,
            final(self).verification_timeout == old(self).verification_timeout,
            final(self).events@ == old(self).events@ + payout_failure_events(
                *old(manager),
                old(ledger).free_fn(),
                old(ledger).existential_deposit as nat,
                old(treasury).account,
                miner,
                hash,
                attesters(submissions@),
            ).push(AggregatorEvent::SubmissionValidated { miner, hash, valid: true }),
            funds_wf(*old(manager), *final(manager), *old(treasury), *final(treasury), *old(ledger), *final(ledger)),
            match old(manager).distribution_outcome(
                old(ledger).free_fn(),
                old(ledger).existential_deposit as nat,
                old(treasury).account,
                Origin::Root,
                miner,
                attesters(submissions@),
                old(manager).total_reward as nat,
            ) {
                Ok(_) => forall|b: AccountId|
                    #[trigger] final(ledger).free(b) == old(manager).distribution_balances(
                        old(ledger).free_fn(),
                        old(treasury).account,
                        miner,
                        attesters(submissions@),
                        old(manager).total_reward as nat,
                    )(b),
                Err(_) => funds_kept(*old(manager), *final(manager), *old(treasury), *final(treasury), *old(ledger), *final(ledger)),
            },
    {
        let verifiers = attester_accounts(submissions);
        let total_reward = manager.total_reward;
        match manager.direct_reward_distribution(
            treasury,
            ledger,
            Origin::Root,
            miner,
            verifiers,
            total_reward,
        ) {
            Ok(()) => {},
            Err(error) => {
                self.events.push(AggregatorEvent::DistributionFailed { hash, error });
            },
        }
        self.events.push(AggregatorEvent::SubmissionValidated { miner, hash, valid: true });
    }

    /// Records a claim resolved invalid; no funds move.
    pub fn handle_invalid_submission(&mut self, hash: H256, miner: AccountId)
        ensures
            final(self).tally == old(self).tally,
            final(self).deadlines == old(self).deadlines,
            final(self).processed == old(self).processed,
            final(self).miner_for_hash == old(self).miner_for_hash,
            final(self).max_verifier_submissions == old(self).max_verifier_submissions,
            final(self).verification_timeout == old(self).verification_timeout,
            final(self).events@ == old(self).events@.push(
                AggregatorEvent::SubmissionValidated { miner, hash, valid: false },
            ),
    {
        self.events.push(AggregatorEvent::SubmissionValidated { miner, hash, valid: false });
    }

    /// Closes a claim whose deadline passed: its deadline and cached miner go,
    /// and it is marked processed. No funds move.
    pub fn handle_expired_submission(&mut self, hash: H256)
        requires
            old(self).wf(),
        ensures
            final(self).wf(),
            final(self).tally == old(self).tally,
            final(self).deadlines@ == old(self).deadlines@.remove(hash),
            final(self).miner_for_hash@ == old(self).miner_for_hash@.remove(hash),
            final(self).processed@ == old(self).processed@.insert(hash, ()),
            final(self).max_verifier_submissions == old(self).max_verifier_submissions,
            final(self).verification_timeout == old(self).verification_timeout,
            final(self).events@ == old(self).events@.push(AggregatorEvent::SubmissionExpired { hash }),
    {
        self.deadlines.remove(&hash);
        self.miner_for_hash.remove(&hash);
        self.processed.insert(hash, ());
        self.events.push(AggregatorEvent::SubmissionExpired { hash });
    }

    pub fn processed_submission(&self, h: &H256) -> (r: bool)
        requires
            self.wf(),
        ensures
            r == self.is_processed(*h),
    {
        self.processed.contains_key(h)
    }
}

/// The number of valid judgements in `t`.
pub fn count_valid(t: &Vec<(AccountId, bool)>) -> (r: usize)
    ensures
        r == valid_count(t@),
{
    let mut c: usize = 0;
    let mut i: usize = 0;
    while i < t.len()
        invariant
            0 <= i <= t@.len(),
            c == valid_count(t@.take(i as int)),
            c <= i,
        decreases t@.len() - i,
    {
        proof {
            assert(t@.take(i + 1).drop_last() =~= t@.take(i as int));
        }
        if t[i].1 {
            c = c + 1;
        }
        i = i + 1;
    }
    assert(t@.take(i as int) =~= t@);
    c
}

/// The accounts of the attestations `t`.
pub fn attester_accounts(t: &Vec<(AccountId, bool)>) -> (r: Vec<AccountId>)
    ensures
        r@ == attesters(t@),
{
    let mut r: Vec<AccountId> = Vec::new();
    let mut i: usize = 0;
    while i < t.len()
        invariant
            0 <= i <= t@.len(),
            r@ == attesters(t@.take(i as int)),
        decreases t@.len() - i,
    {
        r.push(t[i].0);
        i = i + 1;
        assert(r@ =~= attesters(t@.take(i as int)));
    }
    assert(t@.take(i as int) =~= t@);
    r
}

/// A processed claim is closed for good: an attestation to it is refused as
/// already processed (unless its tally is already full, which is refused
/// first), and the end-of-block hook neither resolves nor expires it again.
pub proof fn lemma_processed_absorbing(a: Aggregator, v: AccountId, now: BlockNumber, n: BlockNumber, h: H256)
    requires
        a.is_processed(h),
        a.tally_of(h).len() < a.max_verifier_submissions,
    ensures
        a.verification_outcome(Origin::Signed(v), now, h) == Err::<(), Error>(
            Error::SubmissionAlreadyProcessed,
        ),
        !a.resolves_at(n, h),
        !a.expires_at(n, h),
{
}

} // verus!

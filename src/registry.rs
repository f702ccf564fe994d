use vstd::prelude::*;
use crate::error::Error;
use crate::ledger::Ledger;
use crate::table::Table;
use crate::intake::{pool_ids, SubmissionIntake};
use crate::committee::{committee_of, well_drawn};
use crate::types::{ensure_signed, AccountId, Balance, Key, Origin, H256};
use crate::whitelist::{copy_bytes, Whitelist};

verus! {

#[derive(Clone, Debug, PartialEq)]
pub enum MinerEvent {
    MinerRegistered { miner: AccountId, deposit: Balance },
    SubmissionForwarded { miner: AccountId, url: Vec<u8>, hash: H256 },
}

/// Miners and the deposit each one holds in reserve.
pub struct MinerRegistry {
    pub miners: Table<AccountId, Balance>,
    pub events: Vec<MinerEvent>,
}

impl MinerRegistry {
    pub open spec fn wf(&self) -> bool {
        self.miners.wf()
    }

    pub fn new() -> (r: MinerRegistry)
        ensures
            r.wf(),
            r.miners@ == Map::<AccountId, Balance>::empty(),
            r.events@.len() == 0,
    {
        MinerRegistry { miners: Table::new(), events: Vec::new() }
    }

    /// Registers the signer as a miner, reserving `deposit` of its balance.
    pub fn register_miner(&mut self, ledger: &mut Ledger, origin: Origin, deposit: Balance) -> (r:
        Result<(), Error>)
        requires
            old(self).wf(),
            old(ledger).wf(),
        ensures
            final(self).wf(),
            final(ledger).wf(),
            r == (match origin {
                Origin::Root => Err(Error::BadOrigin),
                Origin::Signed(who) => if old(self).miners@.contains_key(who) {
                    Err(Error::MinerAlreadyRegistered)
                } else if old(ledger).reserve_outcome(who, deposit) is Err {
                    Err(Error::InsufficientFunds)
                } else {
                    Ok(())
                },
            }),
            r is Err ==> final(self).miners@ == old(self).miners@ && final(self).events@
                == old(self).events@ && final(ledger).same_balances(old(ledger)),
            r is Ok ==> (origin matches Origin::Signed(who) && {
                &&& final(self).miners@ == old(self).miners@.insert(who, deposit)
                &&& final(self).events@ == old(self).events@.push(
                    MinerEvent::MinerRegistered { miner: who, deposit },
                )
                &&& final(ledger).reserved(who) == old(ledger).reserved(who) + deposit
                &&& final(ledger).free(who) == old(ledger).free(who) - deposit
            }),
    {
        let who = match ensure_signed(origin) {
            Ok(who) => who,
            Err(e) => {
                return Err(e);
            },
        };
        if self.miners.contains_key(&who) {
            return Err(Error::MinerAlreadyRegistered);
        }
        match ledger.reserve(&who, deposit) {
            Ok(()) => {},
            Err(_) => {
                return Err(Error::InsufficientFunds);
            },
        }
        self.miners.insert(who, deposit);
        self.events.push(MinerEvent::MinerRegistered { miner: who, deposit });
        Ok(())
    }

    /// A miner submits a claim through the registry: the URL is checked
    /// against the whitelist, then the claim goes to the intake.
    pub fn submit_hash(
        &mut self,
        intake: &mut SubmissionIntake,
        whitelist: &Whitelist,
        verifiers: &mut VerifierRegistry,
        origin: Origin,
        url: Vec<u8>,
        hash: H256,
    ) -> (r: Result<(), Error>)
        requires
            old(intake).wf(),
            old(verifiers).wf(),
        ensures
            final(intake).wf(),
            final(verifiers).wf(),
            final(self).miners == old(self).miners,
            final(verifiers).verifiers == old(verifiers).verifiers,
            r == (if origin is Root {
                Err(Error::BadOrigin)
            } else if url@.len() > whitelist.max_url_length {
                Err(Error::UrlTooLong)
            } else if !whitelist@.contains(url@) {
                Err(Error::NotWhitelisted)
            } else {
                old(intake).submit_outcome(whitelist, old(verifiers), origin, url@, hash)
            }),
            r is Ok || r == Err::<(), Error>(Error::AssignmentsFull) ==> {
                let pool = pool_ids(old(verifiers).verifiers.entries@);
                let committee = committee_of(hash, pool);
                &&& well_drawn(hash, pool)
                &&& pool.no_duplicates()
                &&& (r is Ok <==> forall|v: AccountId|
                    committee.contains(v) ==> #[trigger] old(verifiers).assigned(v).len()
                        < old(verifiers).max_assignments)
            },
            r is Err ==> {
                &&& final(self).events@ == old(self).events@
                &&& final(intake).claims() == old(intake).claims()
                &&& final(intake).events@ == old(intake).events@
                &&& final(verifiers).assignments@ == old(verifiers).assignments@
                &&& final(verifiers).events@ == old(verifiers).events@
            },
            r is Ok ==> (origin matches Origin::Signed(miner) && {
                let committee = committee_of(hash, pool_ids(old(verifiers).verifiers.entries@));
                &&& final(intake).claims() == old(intake).claims().insert(hash, (miner, url@))
                &&& final(verifiers).assignments@ == old(verifiers).assignments@
                    + assignment_pairs(committee, hash)
                &&& final(self).events@ == old(self).events@.push(
                    MinerEvent::SubmissionForwarded { miner, url, hash },
                )
            }),
    {
        let miner = match ensure_signed(origin) {
            Ok(who) => who,
            Err(e) => {
                return Err(e);
            },
        };
        match whitelist.is_whitelisted(&url) {
            Err(e) => {
                return Err(e);
            },
            Ok(false) => {
                return Err(Error::NotWhitelisted);
            },
            Ok(true) => {},
        }
        match intake.submit_hash(whitelist, verifiers, origin, copy_bytes(&url), hash) {
            Ok(()) => {},
            Err(e) => {
                return Err(e);
            },
        }
        self.events.push(MinerEvent::SubmissionForwarded { miner, url, hash });
        Ok(())
    }
}

#[derive(Clone, Copy, Debug, PartialEq)]
pub enum VerifierEvent {
    VerifierRegistered { verifier: AccountId, deposit: Balance },
    SubmissionAssigned { verifier: AccountId, hash: H256 },
    ValidationCompleted { verifier: AccountId, hash: H256, valid: bool },
}

/// The hashes assigned to `v`, in the order of assignment.
pub open spec fn assigned_in(s: Seq<(AccountId, H256)>, v: AccountId) -> Seq<H256>
    decreases s.len(),
{
    if s.len() == 0 {
        Seq::empty()
    } else {
        let prev = assigned_in(s.drop_last(), v);
        if s.last().0 == v {
            prev.push(s.last().1)
        } else {
            prev
        }
    }
}

proof fn lemma_assigned_in_push(s: Seq<(AccountId, H256)>, e: (AccountId, H256), v: AccountId)
    ensures
        assigned_in(s.push(e), v) == (if e.0 == v {
            assigned_in(s, v).push(e.1)
        } else {
            assigned_in(s, v)
        }),
{
    assert(s.push(e).drop_last() =~= s);
}

/// Whether assigning `hash` to each member of `committee` in turn, starting from
/// the assignments `s`, stays within `max` hashes per verifier.
pub open spec fn assignments_fit(
    s: Seq<(AccountId, H256)>,
    committee: Seq<AccountId>,
    hash: H256,
    max: nat,
) -> bool
    decreases committee.len(),
{
    if committee.len() == 0 {
        true
    } else {
        assigned_in(s, committee[0]).len() < max && assignments_fit(
            s.push((committee[0], hash)),
            committee.drop_first(),
            hash,
            max,
        )
    }
}

/// Assigning to a committee without repeats fits exactly when every member's
/// queue has room.
pub proof fn lemma_assignments_fit_distinct(
    s: Seq<(AccountId, H256)>,
    committee: Seq<AccountId>,
    hash: H256,
    max: nat,
)
    requires
        committee.no_duplicates(),
    ensures
        assignments_fit(s, committee, hash, max) <==> forall|k: int|
            0 <= k < committee.len() ==> #[trigger] assigned_in(s, committee[k]).len() < max,
    decreases committee.len(),
{
    if committee.len() > 0 {
        let rest = committee.drop_first();
        let s1 = s.push((committee[0], hash));
        assert forall|k: int| 0 <= k < rest.len() implies #[trigger] assigned_in(s1, rest[k])
            == assigned_in(s, rest[k]) by {
            assert(rest[k] == committee[k + 1]);
            lemma_assigned_in_push(s, (committee[0], hash), rest[k]);
        }
        assert(rest.no_duplicates()) by {
            assert forall|i: int, j: int| 0 <= i < rest.len() && 0 <= j < rest.len() && i != j implies rest[i] != rest[j] by {
                assert(rest[i] == committee[i + 1] && rest[j] == committee[j + 1]);
            }
        }
        lemma_assignments_fit_distinct(s1, rest, hash, max);
        if forall|k: int| 0 <= k < committee.len() ==> #[trigger] assigned_in(s, committee[k]).len() < max {
            assert forall|k: int| 0 <= k < rest.len() implies #[trigger] assigned_in(s1, rest[k]).len() < max by {
                assert(rest[k] == committee[k + 1]);
            }
        }
        if assignments_fit(s, committee, hash, max) {
            assert forall|k: int| 0 <= k < committee.len() implies #[trigger] assigned_in(s, committee[k]).len() < max by {
                if k > 0 {
                    assert(rest[k - 1] == committee[k]);
                    assert(assigned_in(s1, rest[k - 1]).len() < max);
                }
            }
        }
    }
}

/// The pairs that assigning `hash` to each member of `committee` appends.
pub open spec fn assignment_pairs(committee: Seq<AccountId>, hash: H256) -> Seq<(AccountId, H256)> {
    committee.map_values(|v: AccountId| (v, hash))
}

/// The events that assigning `hash` to each member of `committee` emits.
pub open spec fn assignment_events(committee: Seq<AccountId>, hash: H256) -> Seq<VerifierEvent> {
    committee.map_values(|v: AccountId| VerifierEvent::SubmissionAssigned { verifier: v, hash })
}

/// Verifiers, their deposits, and the queue of claims assigned to each.
pub struct VerifierRegistry {
    pub verifiers: Table<AccountId, Balance>,
    /// Every assignment made, as (verifier, hash), oldest first.
    pub assignments: Vec<(AccountId, H256)>,
    pub max_assignments: usize,
    pub events: Vec<VerifierEvent>,
}

impl VerifierRegistry {
    pub open spec fn wf(&self) -> bool {
        self.verifiers.wf()
    }

    /// The hashes assigned to `v`.
    pub open spec fn assigned(&self, v: AccountId) -> Seq<H256> {
        assigned_in(self.assignments@, v)
    }

    pub fn new(max_assignments: usize) -> (r: VerifierRegistry)
        ensures
            r.wf(),
            r.verifiers@ == Map::<AccountId, Balance>::empty(),
            r.assignments@.len() == 0,
            r.max_assignments == max_assignments,
            r.events@.len() == 0,
    {
        VerifierRegistry {
            verifiers: Table::new(),
            assignments: Vec::new(),
            max_assignments,
            events: Vec::new(),
        }
    }

    /// Registers the signer as a verifier, reserving `deposit` of its balance.
    pub fn register_verifier(&mut self, ledger: &mut Ledger, origin: Origin, deposit: Balance) -> (r:
        Result<(), Error>)
        requires
            old(self).wf(),
            old(ledger).wf(),
        ensures
            final(self).wf(),
            final(ledger).wf(),
            final(self).assignments@ == old(self).assignments@,
            final(self).max_assignments == old(self).max_assignments,
            r == (match origin {
                Origin::Root => Err(Error::BadOrigin),
                Origin::Signed(who) => if old(self).verifiers@.contains_key(who) {
                    Err(Error::VerifierAlreadyRegistered)
                } else if old(ledger).reserve_outcome(who, deposit) is Err {
                    Err(Error::InsufficientFunds)
                } else {
                    Ok(())
                },
            }),
            r is Err ==> final(self).verifiers@ == old(self).verifiers@ && final(self).events@
                == old(self).events@ && final(ledger).same_balances(old(ledger)),
            r is Ok ==> (origin matches Origin::Signed(who) && {
                &&& final(self).verifiers@ == old(self).verifiers@.insert(who, deposit)
                &&& final(self).verifiers.key_seq() == old(self).verifiers.key_seq().push(who)
                &&& final(self).events@ == old(self).events@.push(
                    VerifierEvent::VerifierRegistered { verifier: who, deposit },
                )
                &&& final(ledger).reserved(who) == old(ledger).reserved(who) + deposit
                &&& final(ledger).free(who) == old(ledger).free(who) - deposit
            }),
    {
        let who = match ensure_signed(origin) {
            Ok(who) => who,
            Err(e) => {
                return Err(e);
            },
        };
        if self.verifiers.contains_key(&who) {
            return Err(Error::VerifierAlreadyRegistered);
        }
        match ledger.reserve(&who, deposit) {
            Ok(()) => {},
            Err(_) => {
                return Err(Error::InsufficientFunds);
            },
        }
        self.verifiers.insert(who, deposit);
        self.events.push(VerifierEvent::VerifierRegistered { verifier: who, deposit });
        Ok(())
    }

    /// The hashes assigned to `v`, oldest first.
    pub fn assigned_submissions(&self, v: &AccountId) -> (r: Vec<H256>)
        ensures
            r@ == self.assigned(*v),
    {
        let mut r: Vec<H256> = Vec::new();
        let mut i: usize = 0;
        while i < self.assignments.len()
            invariant
                0 <= i <= self.assignments@.len(),
                r@ == assigned_in(self.assignments@.take(i as int), *v),
            decreases self.assignments@.len() - i,
        {
            let (a, h) = self.assignments[i];
            proof {
                assert(self.assignments@.take(i + 1) =~= self.assignments@.take(i as int).push(
                    self.assignments@[i as int],
                ));
                lemma_assigned_in_push(self.assignments@.take(i as int), self.assignments@[i as int], *v);
            }
            if a.same(v) {
                r.push(h);
            }
            i = i + 1;
        }
        assert(self.assignments@.take(i as int) =~= self.assignments@);
        r
    }

    /// Whether `who` is a registered verifier with `hash` in its queue.
    pub fn check_assigned(&self, who: &AccountId, hash: &H256) -> (r: Result<(), Error>)
        requires
            self.wf(),
        ensures
            r == (if !self.verifiers@.contains_key(*who) {
                Err(Error::VerifierNotRegistered)
            } else if !self.assigned(*who).contains(*hash) {
                Err(Error::SubmissionNotAssigned)
            } else {
                Ok(())
            }),
    {
        if !self.verifiers.contains_key(who) {
            return Err(Error::VerifierNotRegistered);
        }
        let assigned = self.assigned_submissions(who);
        let mut found = false;
        let mut i: usize = 0;
        while i < assigned.len()
            invariant
                0 <= i <= assigned@.len(),
                found == (exists|k: int| 0 <= k < i && assigned@[k] == *hash),
            decreases assigned@.len() - i,
        {
            if assigned[i].same(hash) {
                found = true;
            }
            i = i + 1;
        }
        if !found {
            return Err(Error::SubmissionNotAssigned);
        }
        Ok(())
    }

    /// A verifier reports its judgement of an assigned claim; this only emits an event.
    pub fn validate_submission(&mut self, origin: Origin, hash: H256, is_valid: bool) -> (r: Result<
        (),
        Error,
    >)
        requires
            old(self).wf(),
        ensures
            final(self).wf(),
            final(self).verifiers == old(self).verifiers,
            final(self).assignments@ == old(self).assignments@,
            final(self).max_assignments == old(self).max_assignments,
            r == (match origin {
                Origin::Root => Err(Error::BadOrigin),
                Origin::Signed(who) => if !old(self).verifiers@.contains_key(who) {
                    Err(Error::VerifierNotRegistered)
                } else if !old(self).assigned(who).contains(hash) {
                    Err(Error::SubmissionNotAssigned)
                } else {
                    Ok(())
                },
            }),
            r is Err ==> final(self).events@ == old(self).events@,
            r is Ok ==> (origin matches Origin::Signed(who) && final(self).events@
                == old(self).events@.push(
                VerifierEvent::ValidationCompleted { verifier: who, hash, valid: is_valid },
            )),
    {
        let who = match ensure_signed(origin) {
            Ok(who) => who,
            Err(e) => {
                return Err(e);
            },
        };
        match self.check_assigned(&who, &hash) {
            Ok(()) => {},
            Err(e) => {
                return Err(e);
            },
        }
        self.events.push(VerifierEvent::ValidationCompleted { verifier: who, hash, valid: is_valid });
        Ok(())
    }

    /// Appends `hash` to the queue of `verifier`, within the bound on queue length.
    pub fn assign_submission(&mut self, verifier: AccountId, hash: H256) -> (r: Result<(), Error>)
        requires
            old(self).wf(),
        ensures
            final(self).wf(),
            final(self).verifiers == old(self).verifiers,
            final(self).max_assignments == old(self).max_assignments,
            r == (if old(self).assigned(verifier).len() >= old(self).max_assignments {
                Err(Error::AssignmentsFull)
            } else {
                Ok(())
            }),
            r is Err ==> final(self).assignments@ == old(self).assignments@ && final(self).events@
                == old(self).events@,
            r is Ok ==> final(self).assignments@ == old(self).assignments@.push((verifier, hash)),
            r is Ok ==> final(self).events@ == old(self).events@.push(
                VerifierEvent::SubmissionAssigned { verifier, hash },
            ),
    {
        let queue = self.assigned_submissions(&verifier);
        if queue.len() >= self.max_assignments {
            return Err(Error::AssignmentsFull);
        }
        self.assignments.push((verifier, hash));
        self.events.push(VerifierEvent::SubmissionAssigned { verifier, hash });
        Ok(())
    }

    /// Assigns `hash` to every member of `committee` in turn; if one queue is
    /// full, no assignment is kept.
    pub fn assign_committee(&mut self, committee: &Vec<AccountId>, hash: H256) -> (r: Result<
        (),
        Error,
    >)
        requires
            old(self).wf(),
        ensures
            final(self).wf(),
            final(self).verifiers == old(self).verifiers,
            final(self).max_assignments == old(self).max_assignments,
            r == (if assignments_fit(
                old(self).assignments@,
                committee@,
                hash,
                old(self).max_assignments as nat,
            ) {
                Ok(())
            } else {
                Err(Error::AssignmentsFull)
            }),
            r is Err ==> final(self).assignments@ == old(self).assignments@ && final(self).events@
                == old(self).events@,
            r is Ok ==> final(self).assignments@ == old(self).assignments@ + assignment_pairs(
                committee@,
                hash,
            ),
            r is Ok ==> final(self).events@ == old(self).events@ + assignment_events(
                committee@,
                hash,
            ),
    {
        let saved_assignments = self.assignments.len();
        let saved_events = self.events.len();
        let mut i: usize = 0;
        assert(committee@.skip(0) =~= committee@);
        assert(committee@.take(0) =~= Seq::<AccountId>::empty());
        assert(self.assignments@ =~= old(self).assignments@ + assignment_pairs(committee@.take(0), hash));
        assert(self.events@ =~= old(self).events@ + assignment_events(committee@.take(0), hash));
        while i < committee.len()
            invariant
                self.wf(),
                self.verifiers == old(self).verifiers,
                self.max_assignments == old(self).max_assignments,
                0 <= i <= committee@.len(),
                saved_assignments == old(self).assignments@.len(),
                saved_events == old(self).events@.len(),
                self.assignments@ == old(self).assignments@ + assignment_pairs(
                    committee@.take(i as int),
                    hash,
                ),
                self.events@ == old(self).events@ + assignment_events(committee@.take(i as int), hash),
                assignments_fit(old(self).assignments@, committee@, hash, self.max_assignments as nat)
                    == assignments_fit(
                    self.assignments@,
                    committee@.skip(i as int),
                    hash,
                    self.max_assignments as nat,
                ),
            decreases committee@.len() - i,
        {
            proof {
                assert(committee@.skip(i as int).drop_first() =~= committee@.skip(i + 1));
                assert(committee@.take(i + 1) =~= committee@.take(i as int).push(committee@[i as int]));
                assert(assignment_pairs(committee@.take(i + 1), hash) =~= assignment_pairs(
                    committee@.take(i as int),
                    hash,
                ).push((committee@[i as int], hash)));
                assert(assignment_events(committee@.take(i + 1), hash) =~= assignment_events(
                    committee@.take(i as int),
                    hash,
                ).push(VerifierEvent::SubmissionAssigned { verifier: committee@[i as int], hash }));
            }
            match self.assign_submission(committee[i], hash) {
                Ok(()) => {},
                Err(e) => {
                    self.assignments.truncate(saved_assignments);
                    self.events.truncate(saved_events);
                    assert(self.assignments@ =~= old(self).assignments@);
                    assert(self.events@ =~= old(self).events@);
                    return Err(e);
                },
            }
            i = i + 1;
        }
        assert(committee@.take(i as int) =~= committee@);
        Ok(())
    }

    /// The registered verifiers and their deposits, in registration order.
    pub fn verifiers_iter(&self) -> (r: Vec<(AccountId, Balance)>)
        ensures
            r@ == self.verifiers.entries@,
    {
        self.verifiers.to_vec()
    }
}

} // verus!

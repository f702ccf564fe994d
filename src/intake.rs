use vstd::prelude::*;
use crate::committee::{committee_of, select_committee, well_drawn};
use crate::error::Error;
use crate::registry::{
    assigned_in, assignment_events, assignment_pairs, assignments_fit, lemma_assignments_fit_distinct,
    VerifierRegistry,
};
use crate::table::Table;
use crate::types::{ensure_signed, AccountId, Origin, H256};
use crate::whitelist::{copy_bytes, Whitelist};

verus! {

/// An accepted claim: the miner that made it and the URL it is bound to.
pub struct Submission {
    pub miner: AccountId,
    pub url: Vec<u8>,
}

#[derive(Clone, Debug, PartialEq)]
pub enum IntakeEvent {
    SubmissionReceived { miner: AccountId, hash: H256, url: Vec<u8> },
}

/// Accepts claims, checks them against the whitelist and earlier claims, and
/// assigns each to a committee of verifiers.
pub struct SubmissionIntake {
    pub submissions: Table<H256, Submission>,
    pub max_url_length: usize,
    pub events: Vec<IntakeEvent>,
}

/// The account ids of a verifier snapshot, in order.
pub open spec fn pool_ids(entries: Seq<(AccountId, u128)>) -> Seq<AccountId> {
    entries.map_values(|e: (AccountId, u128)| e.0)
}

impl SubmissionIntake {
    pub open spec fn wf(&self) -> bool {
        self.submissions.wf()
    }

    /// The claims on record: hash to (miner, URL).
    pub open spec fn claims(&self) -> Map<H256, (AccountId, Seq<u8>)> {
        self.submissions@.map_values(|s: Submission| (s.miner, s.url@))
    }

    pub fn new(max_url_length: usize) -> (r: SubmissionIntake)
        ensures
            r.wf(),
            r.claims() == Map::<H256, (AccountId, Seq<u8>)>::empty(),
            r.max_url_length == max_url_length,
            r.events@.len() == 0,
    {
        let r = SubmissionIntake { submissions: Table::new(), max_url_length, events: Vec::new() };
        assert(r.claims() =~= Map::<H256, (AccountId, Seq<u8>)>::empty());
        r
    }

    /// The outcome that `submit_hash` owes for these inputs and this state.
    pub open spec fn submit_outcome(
        &self,
        whitelist: &Whitelist,
        verifiers: &VerifierRegistry,
        origin: Origin,
        url: Seq<u8>,
        hash: H256,
    ) -> Result<(), Error> {
        let pool = pool_ids(verifiers.verifiers.entries@);
        match origin {
            Origin::Root => Err(Error::BadOrigin),
            Origin::Signed(_) => if url.len() > self.max_url_length {
                Err(Error::UrlTooLong)
            } else if url.len() > whitelist.max_url_length {
                Err(Error::UrlTooLong)
            } else if !whitelist@.contains(url) {
                Err(Error::NotWhitelisted)
            } else if self.submissions@.contains_key(hash) {
                Err(Error::DuplicateSubmission)
            } else if pool.len() < 3 {
                Err(Error::InsufficientVerifiers)
            } else if !assignments_fit(
                verifiers.assignments@,
                committee_of(hash, pool),
                hash,
                verifiers.max_assignments as nat,
            ) {
                Err(Error::AssignmentsFull)
            } else {
                Ok(())
            },
        }
    }

    /// A miner submits the claim `hash` for the source `url`. The claim is
    /// recorded and assigned to the committee drawn for it.
    pub fn submit_hash(
        &mut self,
        whitelist: &Whitelist,
        verifiers: &mut VerifierRegistry,
        origin: Origin,
        url: Vec<u8>,
        hash: H256,
    ) -> (r: Result<(), Error>)
        requires
            old(self).wf(),
            old(verifiers).wf(),
        ensures
            final(self).wf(),
            final(verifiers).wf(),
            final(self).max_url_length == old(self).max_url_length,
            final(verifiers).verifiers == old(verifiers).verifiers,
            final(verifiers).max_assignments == old(verifiers).max_assignments,
            r == old(self).submit_outcome(whitelist, old(verifiers), origin, url@, hash),
            old(self).claims().contains_key(hash) ==> r is Err,
            r is Ok || r == Err::<(), Error>(Error::AssignmentsFull) ==> {
                let pool = pool_ids(old(verifiers).verifiers.entries@);
                let committee = committee_of(hash, pool);
                &&& well_drawn(hash, pool)
                &&& pool.no_duplicates()
                &&& (r is Ok <==> forall|v: AccountId|
                    committee.contains(v) ==> #[trigger] old(verifiers).assigned(v).len()
                        < old(verifiers).max_assignments)
            },
            r is Err ==> {
                &&& final(self).claims() == old(self).claims()
                &&& final(self).events@ == old(self).events@
                &&& final(verifiers).assignments@ == old(verifiers).assignments@
                &&& final(verifiers).events@ == old(verifiers).events@
            },
            r is Ok ==> (origin matches Origin::Signed(miner) && {
                let committee = committee_of(hash, pool_ids(old(verifiers).verifiers.entries@));
                &&& final(self).claims() == old(self).claims().insert(hash, (miner, url@))
                &&& final(self).events@ == old(self).events@.push(
                    IntakeEvent::SubmissionReceived { miner, hash, url },
                )
                &&& final(verifiers).assignments@ == old(verifiers).assignments@
                    + assignment_pairs(committee, hash)
                &&& final(verifiers).events@ == old(verifiers).events@ + assignment_events(
                    committee,
                    hash,
                )
            }),
    {
        let miner = match ensure_signed(origin) {
            Ok(who) => who,
            Err(e) => {
                return Err(e);
            },
        };
        if url.len() > self.max_url_length {
            return Err(Error::UrlTooLong);
        }
        match whitelist.is_whitelisted(&url) {
            Err(e) => {
                return Err(e);
            },
            Ok(false) => {
                return Err(Error::NotWhitelisted);
            },
            Ok(true) => {},
        }
        if self.submissions.contains_key(&hash) {
            return Err(Error::DuplicateSubmission);
        }
        let snapshot = verifiers.verifiers_iter();
        if snapshot.len() < 3 {
            return Err(Error::InsufficientVerifiers);
        }
        let mut pool: Vec<AccountId> = Vec::new();
        let mut i: usize = 0;
        while i < snapshot.len()
            invariant
                0 <= i <= snapshot@.len(),
                pool@ == pool_ids(snapshot@).take(i as int),
            decreases snapshot@.len() - i,
        {
            pool.push(snapshot[i].0);
            i = i + 1;
            assert(pool@ =~= pool_ids(snapshot@).take(i as int));
        }
        assert(pool@ =~= pool_ids(snapshot@));
        let committee = select_committee(&pool, &hash);
        proof {
            assert(pool@.no_duplicates());
            lemma_assignments_fit_distinct(
                verifiers.assignments@,
                committee@,
                hash,
                verifiers.max_assignments as nat,
            );
            let fits = assignments_fit(
                verifiers.assignments@,
                committee@,
                hash,
                verifiers.max_assignments as nat,
            );
            if fits {
                assert forall|v: AccountId| committee@.contains(v) implies #[trigger] verifiers.assigned(v).len()
                    < verifiers.max_assignments by {
                    let k = choose|k: int| 0 <= k < committee@.len() && committee@[k] == v;
                    assert(assigned_in(verifiers.assignments@, committee@[k]).len() < verifiers.max_assignments);
                }
            } else {
                let k = choose|k: int| 0 <= k < committee@.len() && !(#[trigger] assigned_in(verifiers.assignments@, committee@[k]).len() < verifiers.max_assignments);
                assert(committee@.contains(committee@[k]));
                assert(!(verifiers.assigned(committee@[k]).len() < verifiers.max_assignments));
            }
        }
        match verifiers.assign_committee(&committee, hash) {
            Ok(()) => {},
            Err(e) => {
                return Err(e);
            },
        }
        self.submissions.insert(hash, Submission { miner, url: copy_bytes(&url) });
        self.events.push(IntakeEvent::SubmissionReceived { miner, hash, url });
        proof {
            assert(self.claims() =~= old(self).claims().insert(hash, (miner, url@)));
        }
        Ok(())
    }

    /// The miner of the claim `hash`, if it is on record.
    pub fn submission_miner(&self, hash: &H256) -> (r: Option<AccountId>)
        requires
            self.wf(),
        ensures
            r == (if self.claims().contains_key(*hash) {
                Some(self.claims()[*hash].0)
            } else {
                None::<AccountId>
            }),
    {
        match self.submissions.find(hash) {
            Some(i) => Some(self.submissions.entries[i].1.miner),
            None => None,
        }
    }

    /// The URL of the claim `hash`, if it is on record.
    pub fn submission_url(&self, hash: &H256) -> (r: Option<Vec<u8>>)
        requires
            self.wf(),
        ensures
            match r {
                Some(u) => self.claims().contains_key(*hash) && u@ == self.claims()[*hash].1,
                None => !self.claims().contains_key(*hash),
            },
    {
        match self.submissions.find(hash) {
            Some(i) => Some(copy_bytes(&self.submissions.entries[i].1.url)),
            None => None,
        }
    }
}

} // verus!

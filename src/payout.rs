use vstd::prelude::*;
use crate::error::Error;
use crate::ledger::{after_transfer, Ledger};
use crate::treasury::{treasury_transfer_result, Treasury, TreasuryEvent};
use crate::types::{AccountId, Balance, Origin};

verus! {

/// The outcome of paying each (recipient, amount) of `ps` in turn from the
/// treasury account `acct`, stopping at the first refusal.
pub open spec fn payouts_result(
    free: spec_fn(AccountId) -> nat,
    ed: nat,
    acct: AccountId,
    ps: Seq<(AccountId, Balance)>,
) -> Result<(), Error>
    decreases ps.len(),
{
    if ps.len() == 0 {
        Ok(())
    } else {
        match treasury_transfer_result(free, ed, acct, ps[0].0, ps[0].1 as nat) {
            Err(e) => Err(e),
            Ok(_) => payouts_result(
                after_transfer(free, acct, ps[0].0, ps[0].1 as nat),
                ed,
                acct,
                ps.drop_first(),
            ),
        }
    }
}

/// The free balances after paying each of `ps` from `acct`.
pub open spec fn after_payouts(
    free: spec_fn(AccountId) -> nat,
    acct: AccountId,
    ps: Seq<(AccountId, Balance)>,
) -> spec_fn(AccountId) -> nat
    decreases ps.len(),
{
    if ps.len() == 0 {
        free
    } else {
        after_payouts(after_transfer(free, acct, ps[0].0, ps[0].1 as nat), acct, ps.drop_first())
    }
}

/// The events of the treasury transfers that pay `ps`.
pub open spec fn payout_events(ps: Seq<(AccountId, Balance)>) -> Seq<TreasuryEvent> {
    ps.map_values(
        |p: (AccountId, Balance)| TreasuryEvent::FundsTransferred { recipient: p.0, amount: p.1 },
    )
}

/// The total amount of `ps`.
pub open spec fn payout_sum(ps: Seq<(AccountId, Balance)>) -> nat
    decreases ps.len(),
{
    if ps.len() == 0 {
        0
    } else {
        ps[0].1 as nat + payout_sum(ps.drop_first())
    }
}

/// The amount that `ps` pays to `a`.
pub open spec fn payout_to(ps: Seq<(AccountId, Balance)>, a: AccountId) -> nat
    decreases ps.len(),
{
    if ps.len() == 0 {
        0
    } else {
        (if ps[0].0 == a {
            ps[0].1 as nat
        } else {
            0
        }) + payout_to(ps.drop_first(), a)
    }
}

/// Paying `ps` from `acct`, none of which goes back to `acct`, takes their
/// total from `acct` and gives each recipient exactly what `ps` owes it.
pub proof fn lemma_payouts_conserve(
    free: spec_fn(AccountId) -> nat,
    ed: nat,
    acct: AccountId,
    ps: Seq<(AccountId, Balance)>,
)
    requires
        payouts_result(free, ed, acct, ps) is Ok,
        forall|k: int| 0 <= k < ps.len() ==> ps[k].0 != acct,
    ensures
        payout_sum(ps) <= free(acct),
        after_payouts(free, acct, ps)(acct) == free(acct) - payout_sum(ps),
        forall|a: AccountId|
            a != acct ==> #[trigger] after_payouts(free, acct, ps)(a) == free(a) + payout_to(ps, a),
    decreases ps.len(),
{
    if ps.len() > 0 {
        let f1 = after_transfer(free, acct, ps[0].0, ps[0].1 as nat);
        let rest = ps.drop_first();
        assert forall|k: int| 0 <= k < rest.len() implies rest[k].0 != acct by {
            assert(rest[k] == ps[k + 1]);
        }
        lemma_payouts_conserve(f1, ed, acct, rest);
    }
}

/// A component's contribution to a payout list when its recipients do not include `a`.
pub proof fn lemma_payout_to_absent(ps: Seq<(AccountId, Balance)>, a: AccountId)
    requires
        forall|k: int| 0 <= k < ps.len() ==> ps[k].0 != a,
    ensures
        payout_to(ps, a) == 0,
    decreases ps.len(),
{
    if ps.len() > 0 {
        let rest = ps.drop_first();
        assert forall|k: int| 0 <= k < rest.len() implies rest[k].0 != a by {
            assert(rest[k] == ps[k + 1]);
        }
        lemma_payout_to_absent(rest, a);
    }
}

pub proof fn lemma_payout_concat(x: Seq<(AccountId, Balance)>, y: Seq<(AccountId, Balance)>)
    ensures
        payout_sum(x + y) == payout_sum(x) + payout_sum(y),
        forall|a: AccountId| #[trigger] payout_to(x + y, a) == payout_to(x, a) + payout_to(y, a),
    decreases x.len(),
{
    if x.len() == 0 {
        assert(x + y =~= y);
    } else {
        assert((x + y).drop_first() =~= x.drop_first() + y);
        assert((x + y)[0] == x[0]);
        lemma_payout_concat(x.drop_first(), y);
        assert forall|a: AccountId| #[trigger] payout_to(x + y, a) == payout_to(x, a) + payout_to(y, a) by {
            assert(payout_to(x + y, a) == (if x[0].0 == a { x[0].1 as nat } else { 0 }) + payout_to(x.drop_first() + y, a));
        }
    }
}

/// Pays each of `payouts` in turn from the treasury through its root-gated
/// transfer, stopping at the first refusal. What was paid before a refusal
/// stays paid: the caller rolls back.
pub fn pay_all(treasury: &mut Treasury, ledger: &mut Ledger, payouts: &Vec<(AccountId, Balance)>) -> (r:
    Result<(), Error>)
    requires
        old(ledger).wf(),
    ensures
        final(ledger).wf(),
        final(treasury).account == old(treasury).account,
        final(ledger).existential_deposit == old(ledger).existential_deposit,
        forall|b: AccountId| #[trigger] final(ledger).reserved(b) == old(ledger).reserved(b),
        r == payouts_result(
            old(ledger).free_fn(),
            old(ledger).existential_deposit as nat,
            old(treasury).account,
            payouts@,
        ),
        r is Ok ==> forall|b: AccountId|
            #[trigger] final(ledger).free(b) == after_payouts(
                old(ledger).free_fn(),
                old(treasury).account,
                payouts@,
            )(b),
        r is Ok ==> final(treasury).events@ == old(treasury).events@ + payout_events(payouts@),
        old(treasury).events@.is_prefix_of(final(treasury).events@),
        r is Ok && payouts@.len() > 0 ==> final(treasury).balance == final(ledger).free(
            old(treasury).account,
        ),
{
    let ghost free0 = ledger.free_fn();
    let ghost ed = ledger.existential_deposit as nat;
    let ghost acct = treasury.account;
    let mut i: usize = 0;
    assert(payouts@.skip(0) =~= payouts@);
    assert(treasury.events@ =~= old(treasury).events@ + payout_events(payouts@.take(0)));
    while i < payouts.len()
        invariant
            ledger.wf(),
            treasury.account == acct,
            acct == old(treasury).account,
            ed == old(ledger).existential_deposit as nat,
            free0 == old(ledger).free_fn(),
            ledger.existential_deposit as nat == ed,
            0 <= i <= payouts@.len(),
            forall|b: AccountId| #[trigger] ledger.reserved(b) == old(ledger).reserved(b),
            payouts_result(free0, ed, acct, payouts@) == payouts_result(
                ledger.free_fn(),
                ed,
                acct,
                payouts@.skip(i as int),
            ),
            after_payouts(free0, acct, payouts@) == after_payouts(
                ledger.free_fn(),
                acct,
                payouts@.skip(i as int),
            ),
            treasury.events@ == old(treasury).events@ + payout_events(payouts@.take(i as int)),
            i > 0 ==> treasury.balance == ledger.free(acct),
        decreases payouts@.len() - i,
    {
        let (recipient, amount) = payouts[i];
        let ghost before = ledger.free_fn();
        proof {
            assert(payouts@.skip(i as int).drop_first() =~= payouts@.skip(i + 1));
            assert(payouts@.skip(i as int)[0] == payouts@[i as int]);
        }
        match treasury.transfer_funds(ledger, Origin::Root, recipient, amount) {
            Ok(()) => {},
            Err(e) => {
                assert(old(treasury).events@.is_prefix_of(treasury.events@));
                return Err(e);
            },
        }
        proof {
            assert(ledger.free_fn() =~= after_transfer(before, acct, recipient, amount as nat));
            assert(payouts@.take(i + 1) =~= payouts@.take(i as int).push(payouts@[i as int]));
            assert(payout_events(payouts@.take(i + 1)) =~= payout_events(payouts@.take(i as int)).push(
                TreasuryEvent::FundsTransferred { recipient, amount },
            ));
        }
        i = i + 1;
    }
    proof {
        assert(payouts@.skip(i as int).len() == 0);
        assert(payouts@.take(i as int) =~= payouts@);
        assert(ledger.free_fn() =~= after_payouts(free0, acct, payouts@));
        assert(old(treasury).events@.is_prefix_of(treasury.events@));
    }
    Ok(())
}

} // verus!

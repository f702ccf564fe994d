use vstd::prelude::*;
use crate::error::Error;
use crate::table::Table;
use crate::types::{AccountId, Balance, Key};

verus! {

/// What an account holds: a spendable part and a part reserved by the protocol.
#[derive(Clone, Copy, Debug, PartialEq, Eq, Structural)]
pub struct AccountData {
    pub free: Balance,
    pub reserved: Balance,
}

/// Whether a transfer may leave the source below the existential deposit.
#[derive(Clone, Copy, Debug, PartialEq, Eq, Structural)]
pub enum ExistenceRequirement {
    KeepAlive,
    AllowDeath,
}

/// The outcome that a transfer owes, given the free balances before it.
pub open spec fn transfer_result(
    free: spec_fn(AccountId) -> nat,
    ed: nat,
    from: AccountId,
    to: AccountId,
    amount: nat,
    req: ExistenceRequirement,
) -> Result<(), Error> {
    if free(from) < amount {
        Err(Error::InsufficientBalance)
    } else if amount == 0 || from == to {
        Ok(())
    } else if req == ExistenceRequirement::KeepAlive && free(from) - amount < ed {
        Err(Error::Expendability)
    } else if free(to) + amount > u128::MAX {
        Err(Error::Overflow)
    } else if free(to) + amount < ed {
        Err(Error::ExistentialDeposit)
    } else {
        Ok(())
    }
}

/// The free balances after a transfer of `amount` from `from` to `to`.
pub open spec fn after_transfer(
    free: spec_fn(AccountId) -> nat,
    from: AccountId,
    to: AccountId,
    amount: nat,
) -> spec_fn(AccountId) -> nat {
    |a: AccountId|
        if from != to && a == from {
            (free(a) - amount) as nat
        } else if from != to && a == to {
            free(a) + amount
        } else {
            free(a)
        }
}

/// The balances ledger: free and reserved balance per account.
pub struct Ledger {
    pub accounts: Table<AccountId, AccountData>,
    pub existential_deposit: Balance,
}

impl Ledger {
    pub open spec fn wf(&self) -> bool {
        self.accounts.wf()
    }

    /// Free balance of `a`; an unknown account holds nothing.
    pub open spec fn free(&self, a: AccountId) -> nat {
        if self.accounts@.contains_key(a) {
            self.accounts@[a].free as nat
        } else {
            0
        }
    }

    /// Reserved balance of `a`.
    pub open spec fn reserved(&self, a: AccountId) -> nat {
        if self.accounts@.contains_key(a) {
            self.accounts@[a].reserved as nat
        } else {
            0
        }
    }

    /// Same balances for every account.
    pub open spec fn same_balances(&self, other: &Ledger) -> bool {
        &&& forall|a: AccountId| #[trigger] self.free(a) == other.free(a)
        &&& forall|a: AccountId| #[trigger] self.reserved(a) == other.reserved(a)
        &&& self.existential_deposit == other.existential_deposit
    }

    /// The free balance of every account, as a function.
    pub open spec fn free_fn(&self) -> spec_fn(AccountId) -> nat {
        |a: AccountId| self.free(a)
    }

    /// The outcome that `reserve` owes for these balances.
    pub open spec fn reserve_outcome(&self, who: AccountId, amount: Balance) -> Result<(), Error> {
        if self.free(who) < amount {
            Err(Error::InsufficientBalance)
        } else if self.reserved(who) + amount > u128::MAX {
            Err(Error::Overflow)
        } else {
            Ok(())
        }
    }

    pub fn new(existential_deposit: Balance) -> (r: Ledger)
        ensures
            r.wf(),
            r.existential_deposit == existential_deposit,
            forall|a: AccountId| r.free(a) == 0 && r.reserved(a) == 0,
    {
        Ledger { accounts: Table::new(), existential_deposit }
    }

    pub fn free_balance(&self, a: &AccountId) -> (r: Balance)
        requires
            self.wf(),
        ensures
            r == self.free(*a),
    {
        match self.accounts.get(a) {
            Some(d) => d.free,
            None => 0,
        }
    }

    pub fn reserved_balance(&self, a: &AccountId) -> (r: Balance)
        requires
            self.wf(),
        ensures
            r == self.reserved(*a),
    {
        match self.accounts.get(a) {
            Some(d) => d.reserved,
            None => 0,
        }
    }

    fn put(&mut self, a: AccountId, d: AccountData)
        requires
            old(self).wf(),
        ensures
            final(self).wf(),
            final(self).existential_deposit == old(self).existential_deposit,
            final(self).free(a) == d.free,
            final(self).reserved(a) == d.reserved,
            forall|b: AccountId| b != a ==> final(self).free(b) == old(self).free(b),
            forall|b: AccountId| b != a ==> final(self).reserved(b) == old(self).reserved(b),
    {
        self.accounts.insert(a, d);
    }

    /// Sets the free balance of `a`, as a genesis or administrative act.
    pub fn set_balance(&mut self, a: AccountId, free: Balance)
        requires
            old(self).wf(),
        ensures
            final(self).wf(),
            final(self).existential_deposit == old(self).existential_deposit,
            final(self).free(a) == free,
            final(self).reserved(a) == old(self).reserved(a),
            forall|b: AccountId| b != a ==> final(self).free(b) == old(self).free(b),
            forall|b: AccountId| b != a ==> final(self).reserved(b) == old(self).reserved(b),
    {
        let reserved = self.reserved_balance(&a);
        self.put(a, AccountData { free, reserved });
    }

    /// Moves `amount` of free balance from `from` to `to`.
    pub fn transfer(
        &mut self,
        from: &AccountId,
        to: &AccountId,
        amount: Balance,
        req: ExistenceRequirement,
    ) -> (r: Result<(), Error>)
        requires
            old(self).wf(),
        ensures
            final(self).wf(),
            r == transfer_result(
                old(self).free_fn(),
                old(self).existential_deposit as nat,
                *from,
                *to,
                amount as nat,
                req,
            ),
            r is Err ==> final(self).same_balances(old(self)),
            r is Ok ==> forall|b: AccountId|
                #[trigger] final(self).free(b) == after_transfer(
                    old(self).free_fn(),
                    *from,
                    *to,
                    amount as nat,
                )(b),
            forall|b: AccountId| #[trigger] final(self).reserved(b) == old(self).reserved(b),
            final(self).existential_deposit == old(self).existential_deposit,
    {
        let from_free = self.free_balance(from);
        if from_free < amount {
            return Err(Error::InsufficientBalance);
        }
        if amount == 0 || from.same(to) {
            return Ok(());
        }
        if req == ExistenceRequirement::KeepAlive && from_free - amount < self.existential_deposit {
            return Err(Error::Expendability);
        }
        let to_free = self.free_balance(to);
        if to_free > u128::MAX - amount {
            return Err(Error::Overflow);
        }
        if to_free + amount < self.existential_deposit {
            return Err(Error::ExistentialDeposit);
        }
        let from_reserved = self.reserved_balance(from);
        let to_reserved = self.reserved_balance(to);
        self.put(*from, AccountData { free: from_free - amount, reserved: from_reserved });
        self.put(*to, AccountData { free: to_free + amount, reserved: to_reserved });
        Ok(())
    }

    /// Moves `amount` of the free balance of `who` into its reserved balance.
    pub fn reserve(&mut self, who: &AccountId, amount: Balance) -> (r: Result<(), Error>)
        requires
            old(self).wf(),
        ensures
            final(self).wf(),
            final(self).existential_deposit == old(self).existential_deposit,
            r == old(self).reserve_outcome(*who, amount),
            r is Err ==> final(self).same_balances(old(self)),
            r is Ok ==> final(self).free(*who) == old(self).free(*who) - amount,
            r is Ok ==> final(self).reserved(*who) == old(self).reserved(*who) + amount,
            r is Ok ==> forall|b: AccountId|
                b != *who ==> #[trigger] final(self).free(b) == old(self).free(b)
                    && final(self).reserved(b) == old(self).reserved(b),
    {
        let free = self.free_balance(who);
        let reserved = self.reserved_balance(who);
        if free < amount {
            return Err(Error::InsufficientBalance);
        }
        if reserved > u128::MAX - amount {
            return Err(Error::Overflow);
        }
        self.put(*who, AccountData { free: free - amount, reserved: reserved + amount });
        Ok(())
    }

    /// An independent ledger with the same balances.
    pub fn snapshot(&self) -> (r: Ledger)
        requires
            self.wf(),
        ensures
            r.wf(),
            r.same_balances(self),
    {
        Ledger { accounts: self.accounts.duplicate(), existential_deposit: self.existential_deposit }
    }
}

} // verus!

//! The escrow ledger: spendable and reserved balances per account.
//!
//! The task registry is its only writer.  Reserving moves an amount of an
//! account's spendable balance into its reserved balance, releasing moves it
//! back, and settling atomically unreserves an amount from one account and
//! transfers it to another — either the whole settlement happens or nothing
//! does.

use vstd::prelude::*;
use crate::errors::Error;
use crate::table::Table;

verus! {

/// Spendable and reserved balance of one account.
#[derive(Clone, Copy, PartialEq, Eq, Debug, Structural)]
pub struct Bal {
    pub free: u128,
    pub reserved: u128,
}

/// The balance an account holds under `m`; accounts never touched hold zero.
pub open spec fn bal_of(m: Map<u64, Bal>, a: u64) -> Bal {
    if m.contains_key(a) {
        m[a]
    } else {
        Bal { free: 0, reserved: 0 }
    }
}

/// What reserving `amount` from `a` does to the balances.
pub open spec fn reserve_effect(m: Map<u64, Bal>, a: u64, amount: u128) -> Map<u64, Bal>
    recommends
        amount <= bal_of(m, a).free,
{
    m.insert(
        a,
        Bal {
            free: (bal_of(m, a).free - amount) as u128,
            reserved: (bal_of(m, a).reserved + amount) as u128,
        },
    )
}

/// What releasing up to `amount` of `a`'s reserved balance does: the released
/// amount is capped by what is actually reserved.
pub open spec fn unreserve_effect(m: Map<u64, Bal>, a: u64, amount: u128) -> Map<u64, Bal> {
    let rel = released_amount(m, a, amount);
    m.insert(
        a,
        Bal {
            free: (bal_of(m, a).free + rel) as u128,
            reserved: (bal_of(m, a).reserved - rel) as u128,
        },
    )
}

/// How much a release of up to `amount` actually returns to `a`.
pub open spec fn released_amount(m: Map<u64, Bal>, a: u64, amount: u128) -> u128 {
    if amount <= bal_of(m, a).reserved {
        amount
    } else {
        bal_of(m, a).reserved
    }
}

/// What settling `amount` from `from` to `to` does: the amount leaves
/// `from`'s reserved balance and joins `to`'s spendable balance.
pub open spec fn settle_effect(m: Map<u64, Bal>, from: u64, to: u64, amount: u128) -> Map<
    u64,
    Bal,
>
    recommends
        amount <= bal_of(m, from).reserved,
{
    if from == to {
        m.insert(
            from,
            Bal {
                free: (bal_of(m, from).free + amount) as u128,
                reserved: (bal_of(m, from).reserved - amount) as u128,
            },
        )
    } else {
        m.insert(
            from,
            Bal {
                free: bal_of(m, from).free,
                reserved: (bal_of(m, from).reserved - amount) as u128,
            },
        ).insert(
            to,
            Bal { free: (bal_of(m, to).free + amount) as u128, reserved: bal_of(m, to).reserved },
        )
    }
}

/// The escrow ledger.
pub struct Ledger {
    accounts: Table<Bal>,
}

impl View for Ledger {
    type V = Map<u64, Bal>;

    closed spec fn view(&self) -> Map<u64, Bal> {
        self.accounts@
    }
}

impl Ledger {
    /// Every account's two balances together fit the balance type, so moving
    /// an amount between them can never overflow.
    pub closed spec fn wf(self) -> bool {
        &&& self.accounts.wf()
        &&& forall|a: u64| #[trigger]
            self@.contains_key(a) ==> self@[a].free + self@[a].reserved <= u128::MAX
    }

    /// What well-formedness guarantees to the outside: the two balances of an
    /// account always fit the balance type together.
    pub proof fn lemma_wf_bound(self, a: u64)
        requires
            self.wf(),
        ensures
            self.free_of(a) + self.reserved_of(a) <= u128::MAX,
    {
    }

    pub open spec fn free_of(self, a: u64) -> u128 {
        bal_of(self@, a).free
    }

    pub open spec fn reserved_of(self, a: u64) -> u128 {
        bal_of(self@, a).reserved
    }

    /// An empty ledger: every account holds zero.
    pub fn new() -> (r: Self)
        ensures
            r.wf(),
            r@ == Map::<u64, Bal>::empty(),
    {
        Ledger { accounts: Table::new() }
    }

    /// The spendable balance of `account`.
    pub fn free_balance(&self, account: u64) -> (r: u128)
        requires
            self.wf(),
        ensures
            r == self.free_of(account),
    {
        match self.accounts.get(account) {
            Some(b) => b.free,
            None => 0,
        }
    }

    /// The reserved balance of `account`.
    pub fn reserved_balance(&self, account: u64) -> (r: u128)
        requires
            self.wf(),
        ensures
            r == self.reserved_of(account),
    {
        match self.accounts.get(account) {
            Some(b) => b.reserved,
            None => 0,
        }
    }

    /// Endows `account` with `amount` of spendable balance.
    pub fn deposit(&mut self, account: u64, amount: u128)
        requires
            old(self).wf(),
            old(self).free_of(account) + old(self).reserved_of(account) + amount <= u128::MAX,
        ensures
            final(self).wf(),
            final(self)@ == old(self)@.insert(
                account,
                Bal {
                    free: (old(self).free_of(account) + amount) as u128,
                    reserved: old(self).reserved_of(account),
                },
            ),
    {
        let b = self.balance_entry(account);
        self.accounts.insert(account, Bal { free: b.free + amount, reserved: b.reserved });
    }

    /// The stored balance of `account`, defaulting to zero.
    fn balance_entry(&self, account: u64) -> (r: Bal)
        requires
            self.wf(),
        ensures
            r == bal_of(self@, account),
    {
        match self.accounts.get(account) {
            Some(b) => *b,
            None => Bal { free: 0, reserved: 0 },
        }
    }

    /// The account's spendable balance covers `amount`.
    pub fn can_reserve(&self, account: u64, amount: u128) -> (r: bool)
        requires
            self.wf(),
        ensures
            r == (amount <= self.free_of(account)),
    {
        amount <= self.free_balance(account)
    }

    /// Moves `amount` from `account`'s spendable into its reserved balance.
    pub fn reserve(&mut self, account: u64, amount: u128) -> (r: Result<(), Error>)
        requires
            old(self).wf(),
        ensures
            final(self).wf(),
            r is Ok <==> amount <= old(self).free_of(account),
            r is Ok ==> final(self)@ == reserve_effect(old(self)@, account, amount),
            r is Err ==> r == Err::<(), Error>(Error::InsufficientBalance) && *final(self) == *old(
                self,
            ),
    {
        let b = self.balance_entry(account);
        if amount > b.free {
            return Err(Error::InsufficientBalance);
        }
        self.accounts.insert(
            account,
            Bal { free: b.free - amount, reserved: b.reserved + amount },
        );
        Ok(())
    }

    /// Returns up to `amount` of `account`'s reserved balance to spendable,
    /// and reports how much was actually released.
    pub fn unreserve(&mut self, account: u64, amount: u128) -> (released: u128)
        requires
            old(self).wf(),
        ensures
            final(self).wf(),
            released == released_amount(old(self)@, account, amount),
            final(self)@ == unreserve_effect(old(self)@, account, amount),
    {
        let b = self.balance_entry(account);
        let rel = if amount <= b.reserved {
            amount
        } else {
            b.reserved
        };
        self.accounts.insert(account, Bal { free: b.free + rel, reserved: b.reserved - rel });
        rel
    }

    /// Atomically unreserves `amount` from `from` and transfers it to `to`.
    /// If the transfer leg cannot complete, nothing changes at all.
    pub fn settle(&mut self, from: u64, to: u64, amount: u128) -> (r: Result<(), Error>)
        requires
            old(self).wf(),
            amount <= old(self).reserved_of(from),
        ensures
            final(self).wf(),
            r is Ok <==> (from == to || old(self).free_of(to) + old(self).reserved_of(to) + amount
                <= u128::MAX),
            r is Ok ==> final(self)@ == settle_effect(old(self)@, from, to, amount),
            r is Err ==> r == Err::<(), Error>(Error::RewardTransferFailed) && *final(self)
                == *old(self),
    {
        let bf = self.balance_entry(from);
        if from == to {
            self.accounts.insert(
                from,
                Bal { free: bf.free + amount, reserved: bf.reserved - amount },
            );
            return Ok(());
        }
        let bt = self.balance_entry(to);
        if amount > u128::MAX - bt.free || bt.free + amount > u128::MAX - bt.reserved {
            return Err(Error::RewardTransferFailed);
        }
        self.accounts.insert(from, Bal { free: bf.free, reserved: bf.reserved - amount });
        self.accounts.insert(to, Bal { free: bt.free + amount, reserved: bt.reserved });
        Ok(())
    }
}

/// Reserving an amount and then releasing the same amount is a round trip:
/// every account ends with exactly the balances it started with.  This is the
/// escrow algebra behind creating a task with reward `amount` and deleting it
/// right away, which restores the creator's spendable balance in full.
pub proof fn lemma_reserve_release_round_trip(m: Map<u64, Bal>, a: u64, amount: u128)
    requires
        amount <= bal_of(m, a).free,
        bal_of(m, a).free + bal_of(m, a).reserved <= u128::MAX,
    ensures
        forall|b: u64| #[trigger] bal_of(
            unreserve_effect(reserve_effect(m, a, amount), a, amount),
            b,
        ) == bal_of(m, b),
{
    let m1 = reserve_effect(m, a, amount);
    let m2 = unreserve_effect(m1, a, amount);
    assert(released_amount(m1, a, amount) == amount);
    assert(bal_of(m2, a) == bal_of(m, a));
}

} // verus!

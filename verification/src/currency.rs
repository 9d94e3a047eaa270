//! The balances that the chain's currency holds, with the operations that the
//! pallets use: withdraw into an imbalance, resolve an imbalance into an
//! account, and transfer between accounts.
//!
//! An account exists while its free balance is above zero (an existential
//! deposit of one unit): a balance that falls to zero reaps the account.
use vstd::prelude::*;
use vstd::hash_map::HashMapWithView;

verus! {

broadcast use vstd::std_specs::hash::group_hash_axioms;

/// Failures of a currency operation.
#[derive(Clone, Copy, Debug, PartialEq, Eq, Structural)]
pub enum Error {
    /// The source account holds less than the amount asked for.
    InsufficientBalance,
    /// The destination balance would not fit in a `u64`.
    Overflow,
}

/// Free balance of `who` in the balance map `m` (zero for an account that
/// does not exist).
pub open spec fn free_of(m: Map<u64, u64>, who: u64) -> u64 {
    if m.contains_key(who) {
        m[who]
    } else {
        0
    }
}

/// The balance map with the balance of `who` set to `amount`; a zero balance
/// removes the account.
pub open spec fn with_free(m: Map<u64, u64>, who: u64, amount: u64) -> Map<u64, u64> {
    if amount == 0 {
        m.remove(who)
    } else {
        m.insert(who, amount)
    }
}

/// Whether `amount` can be withdrawn from `who`.
pub open spec fn can_withdraw(m: Map<u64, u64>, who: u64, amount: u64) -> bool {
    amount <= free_of(m, who)
}

/// The balance map after withdrawing `amount` from `who` (which must be
/// possible).
pub open spec fn after_withdraw(m: Map<u64, u64>, who: u64, amount: u64) -> Map<u64, u64> {
    if amount == 0 {
        m
    } else {
        with_free(m, who, (free_of(m, who) - amount) as u64)
    }
}

/// The balance map after crediting `amount` to `who`, creating the account
/// if needed. A credit that would overflow the balance is dropped.
pub open spec fn after_deposit_creating(m: Map<u64, u64>, who: u64, amount: u64) -> Map<u64, u64> {
    if amount == 0 || free_of(m, who) + amount > u64::MAX {
        m
    } else {
        m.insert(who, (free_of(m, who) + amount) as u64)
    }
}

/// Whether crediting `amount` to `who` without creating the account succeeds.
pub open spec fn deposit_into_existing_ok(m: Map<u64, u64>, who: u64, amount: u64) -> bool {
    amount == 0 || (m.contains_key(who) && free_of(m, who) + amount <= u64::MAX)
}

/// The balance map after crediting `amount` to an existing `who`; when the
/// credit fails the amount is dropped.
pub open spec fn after_deposit_into_existing(m: Map<u64, u64>, who: u64, amount: u64) -> Map<
    u64,
    u64,
> {
    if amount != 0 && deposit_into_existing_ok(m, who, amount) {
        m.insert(who, (free_of(m, who) + amount) as u64)
    } else {
        m
    }
}

/// The outcome of a transfer of `value` from `from` to `to`.
pub open spec fn transfer_outcome(m: Map<u64, u64>, from: u64, to: u64, value: u64) -> Result<
    (),
    Error,
> {
    if value == 0 || from == to {
        Ok(())
    } else if free_of(m, from) < value {
        Err(Error::InsufficientBalance)
    } else if free_of(m, to) + value > u64::MAX {
        Err(Error::Overflow)
    } else {
        Ok(())
    }
}

/// The balance map after a successful transfer of `value` from `from` to `to`.
pub open spec fn after_transfer(m: Map<u64, u64>, from: u64, to: u64, value: u64) -> Map<u64, u64> {
    if value == 0 || from == to {
        m
    } else {
        with_free(
            m.insert(to, (free_of(m, to) + value) as u64),
            from,
            (free_of(m, from) - value) as u64,
        )
    }
}

/// The free balances of all existing accounts.
pub struct Balances {
    free: HashMapWithView<u64, u64>,
}

impl View for Balances {
    type V = Map<u64, u64>;

    closed spec fn view(&self) -> Map<u64, u64> {
        self.free@
    }
}

impl Balances {
    /// Every stored balance is above zero.
    pub closed spec fn wf(&self) -> bool {
        forall|who: u64| #[trigger] self.free@.contains_key(who) ==> self.free@[who] > 0
    }

    /// A ledger in which no account exists.
    pub fn new() -> (r: Self)
        ensures
            r.wf(),
            r@ == Map::<u64, u64>::empty(),
    {
        Balances { free: HashMapWithView::new() }
    }

    fn store(&mut self, who: u64, amount: u64)
        requires
            old(self).wf(),
        ensures
            final(self).wf(),
            final(self)@ == with_free(old(self)@, who, amount),
    {
        if amount == 0 {
            let _ = self.free.remove(&who);
        } else {
            self.free.insert(who, amount);
        }
    }

    /// Sets the free balance of `who` (zero reaps the account).
    pub fn make_free_balance_be(&mut self, who: u64, amount: u64)
        requires
            old(self).wf(),
        ensures
            final(self).wf(),
            final(self)@ == with_free(old(self)@, who, amount),
    {
        self.store(who, amount);
    }

    /// The free balance of `who`.
    pub fn free_balance(&self, who: u64) -> (r: u64)
        ensures
            r == free_of(self@, who),
    {
        match self.free.get(&who) {
            Some(v) => *v,
            None => 0,
        }
    }

    /// Whether `who` exists (holds a balance above zero).
    pub fn account_exists(&self, who: u64) -> (r: bool)
        ensures
            r == self@.contains_key(who),
    {
        self.free.contains_key(&who)
    }

    /// Takes `amount` out of `who`, returning the withdrawn amount; fails,
    /// changing nothing, when `who` holds less.
    pub fn withdraw(&mut self, who: u64, amount: u64) -> (r: Result<u64, Error>)
        requires
            old(self).wf(),
        ensures
            final(self).wf(),
            can_withdraw(old(self)@, who, amount) ==> r == Ok::<u64, Error>(amount)
                && final(self)@ == after_withdraw(old(self)@, who, amount),
            !can_withdraw(old(self)@, who, amount) ==> r == Err::<u64, Error>(Error::InsufficientBalance)
                && final(self)@ == old(self)@,
    {
        if amount == 0 {
            return Ok(0);
        }
        let current = self.free_balance(who);
        if current < amount {
            return Err(Error::InsufficientBalance);
        }
        self.store(who, current - amount);
        Ok(amount)
    }

    /// Credits a withdrawn `amount` to `who`, creating the account if needed;
    /// an amount that would overflow the balance is dropped.
    pub fn resolve_creating(&mut self, who: u64, amount: u64)
        requires
            old(self).wf(),
        ensures
            final(self).wf(),
            final(self)@ == after_deposit_creating(old(self)@, who, amount),
    {
        if amount == 0 {
            return ;
        }
        let current = self.free_balance(who);
        if current <= u64::MAX - amount {
            self.free.insert(who, current + amount);
        }
    }

    /// Credits a withdrawn `amount` to `who` only if `who` exists; returns
    /// whether it was credited (otherwise the amount is dropped).
    pub fn resolve_into_existing(&mut self, who: u64, amount: u64) -> (r: bool)
        requires
            old(self).wf(),
        ensures
            final(self).wf(),
            r == deposit_into_existing_ok(old(self)@, who, amount),
            final(self)@ == after_deposit_into_existing(old(self)@, who, amount),
    {
        if amount == 0 {
            return true;
        }
        match self.free.get(&who) {
            None => false,
            Some(v) => {
                let current = *v;
                if current <= u64::MAX - amount {
                    self.free.insert(who, current + amount);
                    true
                } else {
                    false
                }
            },
        }
    }

    /// Moves `value` from `from` to `to`.
    pub fn transfer(&mut self, from: u64, to: u64, value: u64) -> (r: Result<(), Error>)
        requires
            old(self).wf(),
        ensures
            final(self).wf(),
            r == transfer_outcome(old(self)@, from, to, value),
            r is Ok ==> final(self)@ == after_transfer(old(self)@, from, to, value),
            r is Err ==> final(self)@ == old(self)@,
    {
        if value == 0 || from == to {
            return Ok(());
        }
        let from_free = self.free_balance(from);
        if from_free < value {
            return Err(Error::InsufficientBalance);
        }
        let to_free = self.free_balance(to);
        if to_free > u64::MAX - value {
            return Err(Error::Overflow);
        }
        self.free.insert(to, to_free + value);
        self.store(from, from_free - value);
        Ok(())
    }
}


/// Resolving a withdrawn amount back into the account it came from restores
/// every balance.
pub proof fn lemma_withdraw_then_resolve_restores(b: Balances, who: u64, amount: u64)
    requires
        b.wf(),
        can_withdraw(b@, who, amount),
    ensures
        after_deposit_creating(after_withdraw(b@, who, amount), who, amount) == b@,
{
    let m = b@;
    if amount != 0 {
        assert(m.contains_key(who));
        assert(after_deposit_creating(after_withdraw(m, who, amount), who, amount) =~= m);
    }
}

/// A transfer moves the value from one account to the other: the two
/// balances keep their sum and every other balance stays as it was.
pub proof fn lemma_transfer_conserves(b: Balances, from: u64, to: u64, value: u64)
    requires
        b.wf(),
        transfer_outcome(b@, from, to, value) is Ok,
    ensures
        free_of(after_transfer(b@, from, to, value), from) + free_of(
            after_transfer(b@, from, to, value),
            to,
        ) == free_of(b@, from) + free_of(b@, to),
        forall|k: u64|
            k != from && k != to ==> #[trigger] free_of(after_transfer(b@, from, to, value), k)
                == free_of(b@, k),
{
}

/// Sending `value` from `from` to `to` and then returning it, by a
/// withdrawal from `to` credited to the still existing `from`, restores every
/// balance.
pub proof fn lemma_transfer_then_return_restores(b: Balances, from: u64, to: u64, value: u64)
    requires
        b.wf(),
        transfer_outcome(b@, from, to, value) is Ok,
        from != to,
        value > 0,
        free_of(b@, from) > value,
    ensures
        can_withdraw(after_transfer(b@, from, to, value), to, value),
        after_deposit_into_existing(
            after_withdraw(after_transfer(b@, from, to, value), to, value),
            from,
            value,
        ) == b@,
{
    let m = b@;
    let m1 = after_transfer(m, from, to, value);
    let m2 = after_withdraw(m1, to, value);
    assert(m.contains_key(from));
    if m.contains_key(to) {
        assert(m2 =~= m.insert(from, (free_of(m, from) - value) as u64));
    } else {
        assert(m2 =~= m.insert(from, (free_of(m, from) - value) as u64));
    }
    assert(after_deposit_into_existing(m2, from, value) =~= m);
}

/// What each balance operation does to the free balances: a withdrawal
/// takes the amount from its account, a credit adds it (dropped only when
/// the balance would overflow, or, for an existing-only credit, when the
/// account does not exist), and a transfer moves the value from one account
/// to the other; every other account keeps its balance.
pub proof fn lemma_balance_operations(m: Map<u64, u64>, who: u64, to: u64, amount: u64, other: u64)
    ensures
        can_withdraw(m, who, amount) <==> amount <= free_of(m, who),
        can_withdraw(m, who, amount) ==> free_of(after_withdraw(m, who, amount), who) == free_of(
            m,
            who,
        ) - amount,
        other != who ==> free_of(after_withdraw(m, who, amount), other) == free_of(m, other),
        free_of(m, who) + amount <= u64::MAX ==> free_of(after_deposit_creating(m, who, amount), who)
            == free_of(m, who) + amount,
        free_of(m, who) + amount > u64::MAX ==> after_deposit_creating(m, who, amount) == m,
        other != who ==> free_of(after_deposit_creating(m, who, amount), other) == free_of(m, other),
        (m.contains_key(who) && free_of(m, who) + amount <= u64::MAX) ==> free_of(
            after_deposit_into_existing(m, who, amount),
            who,
        ) == free_of(m, who) + amount,
        (amount > 0 && !m.contains_key(who)) ==> after_deposit_into_existing(m, who, amount) == m,
        other != who ==> free_of(after_deposit_into_existing(m, who, amount), other) == free_of(
            m,
            other,
        ),
        (transfer_outcome(m, who, to, amount) == Err::<(), Error>(Error::InsufficientBalance)) <==> (
        amount > 0 && who != to && free_of(m, who) < amount),
        (transfer_outcome(m, who, to, amount) == Err::<(), Error>(Error::Overflow)) <==> (amount > 0
            && who != to && free_of(m, who) >= amount && free_of(m, to) + amount > u64::MAX),
        (transfer_outcome(m, who, to, amount) is Ok && who != to) ==> {
            &&& free_of(after_transfer(m, who, to, amount), who) == free_of(m, who) - amount
            &&& free_of(after_transfer(m, who, to, amount), to) == free_of(m, to) + amount
            &&& (other != who && other != to) ==> free_of(after_transfer(m, who, to, amount), other)
                == free_of(m, other)
        },
        transfer_outcome(m, who, who, amount) is Ok,
        after_transfer(m, who, who, amount) == m,
{
}

} // verus!

//! The time-locked ledger itself: a total supply, per-account balances,
//! per-account locked amounts and per-account unlock times, together with
//! the lock and unlock operations and their accounting invariants.

use vstd::prelude::*;

use crate::account_map::AccountMap;
use crate::account_map::key_index;
use crate::account_map::lemma_sum_nonneg;
use crate::account_map::lemma_sum_push;
use crate::account_map::lemma_sum_remove;
use crate::account_map::lemma_sum_update;
use crate::account_map::sum_values;

verus! {

/// An opaque participant identifier, supplied by the host.
pub type AccountId = u128;

/// A non-negative quantity of the ledger's native unit.
pub type Balance = u128;

/// A point in time, supplied by the host; non-decreasing across calls.
pub type Timestamp = u64;

/// The ways an operation can be refused.
#[derive(Clone, Copy, Debug, PartialEq, Eq)]
pub enum Error {
    /// A lock asked for more than the remaining total supply.
    NotEnoughBalance,
    /// An unlock came before the caller's unlock time.
    NotSpendLockTime,
    /// An unlock found no locked amount recorded for the caller.
    NoValue,
    /// The host reported that the value transfer failed.
    SendFailed,
}

/// The ledger state. All mutation goes through `lock` and `unlock`; the
/// remaining operations are read-only queries.
pub struct Lockdrop {
    total_supply: Balance,
    balances: AccountMap<Balance>,
    lock_balance: AccountMap<Balance>,
    lock_time: AccountMap<Timestamp>,
    initial_supply: Ghost<Balance>,
}

impl Lockdrop {
    /// The remaining total supply.
    pub closed spec fn spec_total_supply(self) -> Balance {
        self.total_supply
    }

    /// The supply the ledger was created with.
    pub closed spec fn spec_initial_supply(self) -> Balance {
        self.initial_supply@
    }

    /// The recorded token balance of `a`; zero when `a` never appeared.
    pub closed spec fn spec_balance(self, a: AccountId) -> Balance {
        match self.balances.spec_get(a) {
            Some(v) => v,
            None => 0,
        }
    }

    /// True when a locked amount is recorded for `a`.
    pub closed spec fn spec_has_lock(self, a: AccountId) -> bool {
        self.lock_balance.contains_key(a)
    }

    /// The locked amount of `a`; zero when no record exists.
    pub closed spec fn spec_locked(self, a: AccountId) -> Balance {
        match self.lock_balance.spec_get(a) {
            Some(v) => v,
            None => 0,
        }
    }

    /// The unlock time of `a`; zero when `a` never locked.
    pub closed spec fn spec_lock_time(self, a: AccountId) -> Timestamp {
        match self.lock_time.spec_get(a) {
            Some(t) => t,
            None => 0,
        }
    }

    /// The sum of all locked amounts.
    pub closed spec fn locked_total(self) -> int {
        sum_values(self.lock_balance.entries@)
    }

    /// Well-formedness: each map has distinct keys, and the remaining
    /// supply together with everything locked never exceeds the supply
    /// the ledger was created with.
    pub closed spec fn wf(self) -> bool {
        &&& self.balances.wf()
        &&& self.lock_balance.wf()
        &&& self.lock_time.wf()
        &&& self.total_supply as int + self.locked_total() <= self.initial_supply@ as int
    }

    /// What `unlock` decides for `caller` at time `now`, before the host
    /// is asked to transfer anything: the locked amount to pay out when
    /// the lock is due, and the reason for refusal otherwise.
    pub open spec fn spec_unlock_decision(self, caller: AccountId, now: Timestamp) -> Result<
        Balance,
        Error,
    > {
        if !self.spec_has_lock(caller) {
            Err(Error::NoValue)
        } else if now < self.spec_lock_time(caller) {
            Err(Error::NotSpendLockTime)
        } else {
            Ok(self.spec_locked(caller))
        }
    }

    /// Creates the ledger, crediting the whole initial supply to the
    /// creating caller. No amount is locked yet.
    pub fn new(caller: AccountId, initial_supply: Balance) -> (s: Lockdrop)
        ensures
            s.wf(),
            s.spec_total_supply() == initial_supply,
            s.spec_initial_supply() == initial_supply,
            s.spec_balance(caller) == initial_supply,
            forall|a: AccountId| a != caller ==> #[trigger] s.spec_balance(a) == 0,
            forall|a: AccountId| !(#[trigger] s.spec_has_lock(a)),
            forall|a: AccountId| #[trigger] s.spec_locked(a) == 0,
            forall|a: AccountId| #[trigger] s.spec_lock_time(a) == 0,
    {
        let mut balances = AccountMap::empty();
        balances.insert(caller, initial_supply);
        Lockdrop {
            total_supply: initial_supply,
            balances,
            lock_balance: AccountMap::empty(),
            lock_time: AccountMap::empty(),
            initial_supply: Ghost(initial_supply),
        }
    }

    /// The remaining total supply.
    pub fn total_supply(&self) -> (r: Balance)
        ensures
            r == self.spec_total_supply(),
    {
        self.total_supply
    }

    /// The recorded token balance of `owner`.
    pub fn balance_of_token(&self, owner: AccountId) -> (r: Balance)
        requires
            self.wf(),
        ensures
            r == self.spec_balance(owner),
    {
        self.balance_of_or_zero(&owner)
    }

    /// The locked amount of `owner`; zero when nothing is locked.
    pub fn balance_of_lock(&self, owner: AccountId) -> (r: Balance)
        requires
            self.wf(),
        ensures
            r == self.spec_locked(owner),
    {
        let balance = match self.lock_balance.get(owner) {
            Some(v) => v,
            None => 0,
        };
        balance
    }

    fn balance_of_or_zero(&self, owner: &AccountId) -> (r: Balance)
        requires
            self.wf(),
        ensures
            r == self.spec_balance(*owner),
    {
        match self.balances.get(*owner) {
            Some(v) => v,
            None => 0,
        }
    }

    fn get_lock_time(&self, owner: &AccountId) -> (r: Timestamp)
        requires
            self.wf(),
        ensures
            r == self.spec_lock_time(*owner),
    {
        match self.lock_time.get(*owner) {
            Some(t) => t,
            None => 0,
        }
    }

    /// The unlock time of `owner`; zero when `owner` never locked.
    pub fn pub_get_lock_time(&self, owner: AccountId) -> (r: Timestamp)
        requires
            self.wf(),
        ensures
            r == self.spec_lock_time(owner),
    {
        self.get_lock_time(&owner)
    }

    /// Freezes the attached value under the caller's account until
    /// `milliseconds` past `now`. Refused exactly when the attached value
    /// exceeds the remaining total supply; the supply then shrinks by the
    /// attached value, and the caller's lock record, unlock time and
    /// mirrored balance are overwritten. The mirrored balance entry is a
    /// record of the deposit, not a spendable amount.
    pub fn lock(
        &mut self,
        caller: AccountId,
        attached_value: Balance,
        milliseconds: u64,
        now: Timestamp,
    ) -> (r: Result<(), Error>)
        requires
            old(self).wf(),
            now + milliseconds <= Timestamp::MAX,
        ensures
            final(self).wf(),
            final(self).spec_initial_supply() == old(self).spec_initial_supply(),
            r == Err::<(), Error>(Error::NotEnoughBalance) <==> attached_value > old(self).spec_total_supply(),
            r is Err ==> r == Err::<(), Error>(Error::NotEnoughBalance),
            r is Err ==> *final(self) == *old(self),
            r is Ok ==> final(self).spec_total_supply() == old(self).spec_total_supply()
                - attached_value,
            r is Ok ==> final(self).spec_has_lock(caller),
            r is Ok ==> final(self).spec_locked(caller) == attached_value,
            r is Ok ==> final(self).spec_lock_time(caller) == now + milliseconds,
            r is Ok ==> final(self).spec_balance(caller) == attached_value,
            r is Ok ==> forall|a: AccountId|
                a != caller ==> #[trigger] final(self).spec_locked(a) == old(self).spec_locked(a),
            r is Ok ==> forall|a: AccountId|
                a != caller ==> (#[trigger] final(self).spec_has_lock(a) == old(self).spec_has_lock(a)),
            r is Ok ==> forall|a: AccountId|
                a != caller ==> #[trigger] final(self).spec_lock_time(a) == old(self).spec_lock_time(a),
            r is Ok ==> forall|a: AccountId|
                a != caller ==> #[trigger] final(self).spec_balance(a) == old(self).spec_balance(
                    a,
                ),
    {
        if self.total_supply < attached_value {
            return Err(Error::NotEnoughBalance);
        }
        let to_time = now + milliseconds;
        let ghost pre_locked = self.lock_balance.entries@;
        self.lock_balance.insert(caller, attached_value);
        proof {
            if crate::account_map::has_key(pre_locked, caller) {
                let i = key_index(pre_locked, caller);
                assert(0 <= i < pre_locked.len() && pre_locked[i].0 == caller);
                lemma_sum_update(pre_locked, i, (caller, attached_value));
            } else {
                lemma_sum_push(pre_locked, (caller, attached_value));
            }
        }
        self.lock_time.insert(caller, to_time);
        self.balances.insert(caller, attached_value);
        self.total_supply = self.total_supply - attached_value;
        Ok(())
    }

    /// The first half of an unlock: decides, for `caller` at time `now`,
    /// whether the lock is due, and reports the amount the host should
    /// transfer back. Reads nothing but the ledger and mutates nothing;
    /// the host performs the transfer and then reports its outcome to
    /// `unlock`.
    pub fn prepare_unlock(&self, caller: AccountId, now: Timestamp) -> (r: Result<Balance, Error>)
        requires
            self.wf(),
        ensures
            r == self.spec_unlock_decision(caller, now),
    {
        match self.lock_balance.get(caller) {
            None => Err(Error::NoValue),
            Some(amount) => {
                if now < self.get_lock_time(&caller) {
                    Err(Error::NotSpendLockTime)
                } else {
                    Ok(amount)
                }
            },
        }
    }

    /// The second half of an unlock. `transfer_succeeded` is the host's
    /// report on the transfer of the locked amount back to the caller.
    /// Every refusal — no lock record, a lock not yet due, or a failed
    /// transfer — leaves the ledger exactly as it was, so a failed unlock
    /// can simply be retried. Only a due lock whose transfer succeeded
    /// clears the caller's lock record; the unlock time and the mirrored
    /// balance entry stay behind, as records of the past deposit.
    pub fn unlock(
        &mut self,
        caller: AccountId,
        now: Timestamp,
        transfer_succeeded: bool,
    ) -> (r: Result<(), Error>)
        requires
            old(self).wf(),
        ensures
            final(self).wf(),
            final(self).spec_initial_supply() == old(self).spec_initial_supply(),
            !old(self).spec_has_lock(caller) ==> r == Err::<(), Error>(Error::NoValue) && *final(self) == *old(self),
            old(self).spec_has_lock(caller) && now < old(self).spec_lock_time(caller) ==> r
                == Err::<(), Error>(Error::NotSpendLockTime) && *final(self) == *old(self),
            old(self).spec_has_lock(caller) && now >= old(self).spec_lock_time(caller)
                && !transfer_succeeded ==> r == Err::<(), Error>(Error::SendFailed) && *final(self)
                == *old(self),
            r is Ok <==> old(self).spec_unlock_decision(caller, now) is Ok && transfer_succeeded,
            r is Ok ==> !final(self).spec_has_lock(caller),
            r is Ok ==> final(self).spec_locked(caller) == 0,
            r is Ok ==> forall|a: AccountId|
                a != caller ==> #[trigger] final(self).spec_locked(a) == old(self).spec_locked(a),
            r is Ok ==> forall|a: AccountId|
                a != caller ==> (#[trigger] final(self).spec_has_lock(a) == old(self).spec_has_lock(a)),
            r is Ok ==> final(self).spec_total_supply() == old(self).spec_total_supply(),
            r is Ok ==> forall|a: AccountId| #[trigger]
                final(self).spec_balance(a) == old(self).spec_balance(a),
            r is Ok ==> forall|a: AccountId| #[trigger]
                final(self).spec_lock_time(a) == old(self).spec_lock_time(a),
    {
        match self.prepare_unlock(caller, now) {
            Err(e) => Err(e),
            Ok(amount) => {
                if transfer_succeeded {
                    proof {
                        let s = self.lock_balance.entries@;
                        assert(crate::account_map::has_key(s, caller));
                        let i = key_index(s, caller);
                        assert(0 <= i < s.len() && s[i].0 == caller);
                        lemma_sum_remove(s, i);
                    }
                    self.lock_balance.remove(caller);
                    Ok(())
                } else {
                    Err(Error::SendFailed)
                }
            },
        }
    }
}

/// Conservation: the remaining total supply together with the sum of all
/// locked amounts never exceeds the supply the ledger was created with —
/// no operation creates value.
pub proof fn lemma_conservation(s: Lockdrop)
    requires
        s.wf(),
    ensures
        s.spec_total_supply() as int + s.locked_total() <= s.spec_initial_supply() as int,
{
}

/// Every amount the ledger reports — a balance, a locked amount, the
/// remaining supply and the sum of everything locked — is non-negative;
/// the operations are proved free of underflow rather than wrapping.
pub proof fn lemma_amounts_nonneg(s: Lockdrop, a: AccountId)
    ensures
        s.spec_balance(a) >= 0,
        s.spec_locked(a) >= 0,
        s.spec_total_supply() >= 0,
        s.locked_total() >= 0,
{
    lemma_sum_nonneg(s.lock_balance.entries@);
}

/// Unlock gating: with a lock record present, the unlock decision refuses
/// with `NotSpendLockTime` at every time before the recorded unlock time,
/// and grants the locked amount at every time from it on.
pub proof fn lemma_unlock_gating(s: Lockdrop, caller: AccountId, now: Timestamp)
    requires
        s.spec_has_lock(caller),
    ensures
        now < s.spec_lock_time(caller) ==> s.spec_unlock_decision(caller, now) == Err::<
            Balance,
            Error,
        >(Error::NotSpendLockTime),
        now >= s.spec_lock_time(caller) ==> s.spec_unlock_decision(caller, now) == Ok::<
            Balance,
            Error,
        >(s.spec_locked(caller)),
{
}

/// Once no lock record exists for `caller` — in particular right after a
/// successful unlock removed it — the recorded locked amount is zero and
/// any further unlock attempt is refused for want of an active lock.
pub proof fn lemma_unlock_not_repeatable(s: Lockdrop, caller: AccountId, now: Timestamp)
    requires
        !s.spec_has_lock(caller),
    ensures
        s.spec_locked(caller) == 0,
        s.spec_unlock_decision(caller, now) == Err::<Balance, Error>(Error::NoValue),
{
}

} // verus!

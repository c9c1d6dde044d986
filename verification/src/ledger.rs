//! The balance ledger: a mapping from (owner, token) to a quantity. A missing
//! entry means a balance of zero. `credit` and `debit` are the only ways any
//! component moves value, and both are checked: a credit fails on overflow, a
//! debit fails when the balance cannot cover it — nothing clamps silently.

use vstd::prelude::*;

use crate::amount::Amount;
use crate::error::DexError;
use crate::token::{token_eq, TokenId};

verus! {

/// An authenticated account identity, as the hosting environment supplies it.
#[derive(Debug, PartialEq, Eq, Hash)]
pub struct AccountOwner {
    pub id: String,
}

impl Clone for AccountOwner {
    /// Cloning preserves the identity exactly.
    fn clone(&self) -> (r: AccountOwner)
        ensures
            r == *self,
    {
        AccountOwner { id: self.id.clone() }
    }
}

/// Whether two account identities denote the same account.
pub open spec fn owner_eq(a: AccountOwner, b: AccountOwner) -> bool {
    a.id@ == b.id@
}

impl AccountOwner {
    /// Decides whether two identities denote the same account.
    pub fn same_account(&self, other: &AccountOwner) -> (r: bool)
        ensures
            r == owner_eq(*self, *other),
    {
        self.id == other.id
    }
}

/// One ledger row: an owner's holding of one token.
pub struct BalanceEntry {
    pub owner: AccountOwner,
    pub token: TokenId,
    pub amount: Amount,
}

/// Whether a ledger row belongs to the given (owner, token) key.
pub open spec fn entry_matches(e: BalanceEntry, o: AccountOwner, t: TokenId) -> bool {
    owner_eq(e.owner, o) && token_eq(e.token, t)
}

/// The balance a row sequence gives to a key: the first matching row's
/// amount, or zero when no row matches.
pub open spec fn balance_in(s: Seq<BalanceEntry>, o: AccountOwner, t: TokenId) -> nat
    decreases s.len(),
{
    if s.len() == 0 {
        0
    } else if entry_matches(s[0], o, t) {
        s[0].amount.attos as nat
    } else {
        balance_in(s.drop_first(), o, t)
    }
}

/// Whether some row carries the key.
pub open spec fn has_entry(s: Seq<BalanceEntry>, o: AccountOwner, t: TokenId) -> bool
    decreases s.len(),
{
    if s.len() == 0 {
        false
    } else if entry_matches(s[0], o, t) {
        true
    } else {
        has_entry(s.drop_first(), o, t)
    }
}

/// The mapping from (owner, token) to balances.
pub struct Ledger {
    pub entries: Vec<BalanceEntry>,
}

/// All balances outside the one (owner, token) key agree between two ledgers.
pub open spec fn unchanged_except(a: Ledger, b: Ledger, o: AccountOwner, t: TokenId) -> bool {
    forall|o2: AccountOwner, t2: TokenId|
        !(owner_eq(o2, o) && token_eq(t2, t)) ==> #[trigger] b.balance_of(o2, t2) == a.balance_of(
            o2,
            t2,
        )
}

/// Dropping a non-matching head row changes neither lookup.
proof fn lemma_skip_step(s: Seq<BalanceEntry>, i: int, o: AccountOwner, t: TokenId)
    requires
        0 <= i < s.len(),
        !entry_matches(s[i], o, t),
    ensures
        balance_in(s.skip(i), o, t) == balance_in(s.skip(i + 1), o, t),
        has_entry(s.skip(i), o, t) == has_entry(s.skip(i + 1), o, t),
{
    assert(s.skip(i)[0] == s[i]);
    assert(s.skip(i).drop_first() =~= s.skip(i + 1));
}

/// A matching head row decides both lookups.
proof fn lemma_skip_found(s: Seq<BalanceEntry>, i: int, o: AccountOwner, t: TokenId)
    requires
        0 <= i < s.len(),
        entry_matches(s[i], o, t),
    ensures
        balance_in(s.skip(i), o, t) == s[i].amount.attos,
        has_entry(s.skip(i), o, t),
{
    assert(s.skip(i)[0] == s[i]);
}

/// Overwriting the first row that matches its own key sets that key's
/// balance to the new row's amount.
proof fn lemma_update_same_key(s: Seq<BalanceEntry>, i: int, e2: BalanceEntry, o: AccountOwner, t: TokenId)
    requires
        0 <= i < s.len(),
        entry_matches(s[i], o, t),
        entry_matches(e2, o, t),
        forall|j: int| 0 <= j < i ==> !entry_matches(#[trigger] s[j], o, t),
    ensures
        balance_in(s.update(i, e2), o, t) == e2.amount.attos,
    decreases i,
{
    let s2 = s.update(i, e2);
    if i == 0 {
        assert(s2[0] == e2);
    } else {
        assert(s2[0] == s[0]);
        assert(s2.drop_first() =~= s.drop_first().update(i - 1, e2));
        assert(forall|j: int|
            0 <= j < i - 1 ==> !entry_matches(#[trigger] s.drop_first()[j], o, t)) by {
            assert(forall|j: int| 0 <= j < i - 1 ==> s.drop_first()[j] == s[j + 1]);
        }
        lemma_update_same_key(s.drop_first(), i - 1, e2, o, t);
    }
}

/// Overwriting a row leaves every key the row (old and new) does not carry
/// untouched.
proof fn lemma_update_other_key(s: Seq<BalanceEntry>, i: int, e2: BalanceEntry, o: AccountOwner, t: TokenId)
    requires
        0 <= i < s.len(),
        !entry_matches(s[i], o, t),
        !entry_matches(e2, o, t),
    ensures
        balance_in(s.update(i, e2), o, t) == balance_in(s, o, t),
    decreases i,
{
    let s2 = s.update(i, e2);
    if i == 0 {
        assert(s2[0] == e2);
        assert(s2.drop_first() =~= s.drop_first());
    } else {
        assert(s2[0] == s[0]);
        assert(s2.drop_first() =~= s.drop_first().update(i - 1, e2));
        lemma_update_other_key(s.drop_first(), i - 1, e2, o, t);
    }
}

/// Appending a row affects only a key with no earlier row, and only when the
/// new row carries it.
proof fn lemma_push(s: Seq<BalanceEntry>, e: BalanceEntry, o: AccountOwner, t: TokenId)
    ensures
        balance_in(s.push(e), o, t) == if has_entry(s, o, t) {
            balance_in(s, o, t)
        } else if entry_matches(e, o, t) {
            e.amount.attos as nat
        } else {
            0nat
        },
    decreases s.len(),
{
    let s2 = s.push(e);
    if s.len() == 0 {
        assert(s2[0] == e);
        assert(s2.drop_first() =~= Seq::<BalanceEntry>::empty());
        if !entry_matches(e, o, t) {
            assert(balance_in(s2, o, t) == balance_in(s2.drop_first(), o, t));
        }
    } else {
        assert(s2[0] == s[0]);
        assert(s2.drop_first() =~= s.drop_first().push(e));
        lemma_push(s.drop_first(), e, o, t);
        if entry_matches(s[0], o, t) {
            assert(balance_in(s2, o, t) == s[0].amount.attos);
            assert(balance_in(s, o, t) == s[0].amount.attos);
        } else {
            assert(balance_in(s2, o, t) == balance_in(s.drop_first().push(e), o, t));
            assert(balance_in(s, o, t) == balance_in(s.drop_first(), o, t));
            assert(has_entry(s, o, t) == has_entry(s.drop_first(), o, t));
        }
    }
}

/// A key with no row has balance zero.
proof fn lemma_absent_zero(s: Seq<BalanceEntry>, o: AccountOwner, t: TokenId)
    requires
        !has_entry(s, o, t),
    ensures
        balance_in(s, o, t) == 0,
    decreases s.len(),
{
    if s.len() > 0 {
        lemma_absent_zero(s.drop_first(), o, t);
    }
}

impl Ledger {
    /// The balance this ledger gives to a key.
    pub open spec fn balance_of(self, o: AccountOwner, t: TokenId) -> nat {
        balance_in(self.entries@, o, t)
    }

    /// An empty ledger: every balance is zero.
    pub fn new() -> (r: Ledger)
        ensures
            forall|o: AccountOwner, t: TokenId| #[trigger] r.balance_of(o, t) == 0,
            r.entries@.len() == 0,
    {
        Ledger { entries: Vec::new() }
    }

    /// The index of the first row carrying the key, if any.
    fn find_entry(&self, owner: &AccountOwner, token: &TokenId) -> (r: Option<usize>)
        ensures
            match r {
                Some(i) => i < self.entries@.len() && entry_matches(self.entries@[i as int], *owner, *token)
                    && self.balance_of(*owner, *token) == self.entries@[i as int].amount.attos
                    && forall|j: int|
                    0 <= j < i ==> !entry_matches(#[trigger] self.entries@[j], *owner, *token),
                None => self.balance_of(*owner, *token) == 0 && !has_entry(self.entries@, *owner, *token),
            },
    {
        let s = Ghost(self.entries@);
        let n = self.entries.len();
        let mut i: usize = 0;
        proof {
            assert(s@.skip(0) =~= s@);
        }
        loop
            invariant
                i <= n,
                n == s@.len(),
                s@ == self.entries@,
                balance_in(s@, *owner, *token) == balance_in(s@.skip(i as int), *owner, *token),
                has_entry(s@, *owner, *token) == has_entry(s@.skip(i as int), *owner, *token),
                forall|j: int| 0 <= j < i ==> !entry_matches(#[trigger] s@[j], *owner, *token),
            decreases n - i,
        {
            if i == n {
                assert(s@.skip(i as int) =~= Seq::<BalanceEntry>::empty());
                return None;
            }
            let e = &self.entries[i];
            if e.owner.same_account(owner) && e.token.same_asset(token) {
                proof {
                    lemma_skip_found(s@, i as int, *owner, *token);
                }
                return Some(i);
            }
            proof {
                lemma_skip_step(s@, i as int, *owner, *token);
            }
            i = i + 1;
        }
    }

    /// Returns the key's balance; zero when no row carries the key.
    pub fn get_balance(&self, owner: &AccountOwner, token: &TokenId) -> (r: Amount)
        ensures
            r.attos == self.balance_of(*owner, *token),
    {
        match self.find_entry(owner, token) {
            Some(i) => self.entries[i].amount,
            None => Amount::zero(),
        }
    }

    /// Adds to the key's balance with checked addition, creating the row on
    /// first credit; fails (mutating nothing) when the sum leaves the domain.
    pub fn credit(&mut self, owner: &AccountOwner, token: &TokenId, amount: Amount) -> (r: Result<
        (),
        DexError,
    >)
        ensures
            match r {
                Ok(()) => old(self).balance_of(*owner, *token) + amount.attos <= u128::MAX
                    && final(self).balance_of(*owner, *token) == old(self).balance_of(*owner, *token)
                    + amount.attos && unchanged_except(*old(self), *final(self), *owner, *token),
                Err(e) => e == DexError::ArithmeticOverflow && old(self).balance_of(*owner, *token)
                    + amount.attos > u128::MAX && *final(self) == *old(self),
            },
    {
        match self.find_entry(owner, token) {
            Some(i) => {
                let cur = self.entries[i].amount;
                match cur.checked_add(amount) {
                    Some(sum) => {
                        let ghost old_entries = self.entries@;
                        let ghost e_old = self.entries@[i as int];
                        self.entries[i].amount = sum;
                        proof {
                            let e2 = self.entries@[i as int];
                            assert(self.entries@ =~= old_entries.update(i as int, e2));
                            assert(e2.owner == e_old.owner && e2.token == e_old.token);
                            lemma_update_same_key(old_entries, i as int, e2, *owner, *token);
                            assert forall|o2: AccountOwner, t2: TokenId|
                                !(owner_eq(o2, *owner) && token_eq(t2, *token)) implies #[trigger] self
                                .balance_of(o2, t2) == old(self).balance_of(o2, t2) by {
                                lemma_update_other_key(old_entries, i as int, e2, o2, t2);
                            }
                        }
                        Ok(())
                    },
                    None => Err(DexError::ArithmeticOverflow),
                }
            },
            None => {
                // No row yet: the balance is zero, so the sum is the amount
                // itself and always fits.
                let ghost old_entries = self.entries@;
                let e = BalanceEntry { owner: owner.clone(), token: token.clone(), amount };
                self.entries.push(e);
                proof {
                    assert(self.entries@ =~= old_entries.push(e));
                    lemma_push(old_entries, e, *owner, *token);
                    assert forall|o2: AccountOwner, t2: TokenId|
                        !(owner_eq(o2, *owner) && token_eq(t2, *token)) implies #[trigger] self
                        .balance_of(o2, t2) == old(self).balance_of(o2, t2) by {
                        lemma_push(old_entries, e, o2, t2);
                        if !has_entry(old_entries, o2, t2) {
                            lemma_absent_zero(old_entries, o2, t2);
                        }
                    }
                }
                Ok(())
            },
        }
    }

    /// Removes from the key's balance exactly; fails (mutating nothing) when
    /// the balance cannot cover the amount.
    pub fn debit(&mut self, owner: &AccountOwner, token: &TokenId, amount: Amount) -> (r: Result<
        (),
        DexError,
    >)
        ensures
            match r {
                Ok(()) => old(self).balance_of(*owner, *token) >= amount.attos && final(self)
                    .balance_of(*owner, *token) == old(self).balance_of(*owner, *token)
                    - amount.attos && unchanged_except(*old(self), *final(self), *owner, *token),
                Err(e) => e == DexError::InsufficientBalance && old(self).balance_of(*owner, *token)
                    < amount.attos && *final(self) == *old(self),
            },
    {
        match self.find_entry(owner, token) {
            Some(i) => {
                let cur = self.entries[i].amount;
                match cur.checked_sub(amount) {
                    Some(rest) => {
                        let ghost old_entries = self.entries@;
                        let ghost e_old = self.entries@[i as int];
                        self.entries[i].amount = rest;
                        proof {
                            let e2 = self.entries@[i as int];
                            assert(self.entries@ =~= old_entries.update(i as int, e2));
                            lemma_update_same_key(old_entries, i as int, e2, *owner, *token);
                            assert forall|o2: AccountOwner, t2: TokenId|
                                !(owner_eq(o2, *owner) && token_eq(t2, *token)) implies #[trigger] self
                                .balance_of(o2, t2) == old(self).balance_of(o2, t2) by {
                                lemma_update_other_key(old_entries, i as int, e2, o2, t2);
                            }
                        }
                        Ok(())
                    },
                    None => Err(DexError::InsufficientBalance),
                }
            },
            None => {
                if amount.is_zero() {
                    Ok(())
                } else {
                    Err(DexError::InsufficientBalance)
                }
            },
        }
    }

    /// Every (token, amount) row a given owner holds, in ledger order: one
    /// output row per ledger row of that owner, carrying its token and the
    /// key's effective balance.
    pub fn balances_of_owner(&self, owner: &AccountOwner) -> (r: Vec<(TokenId, Amount)>)
        ensures
            r@.len() == owner_tokens(self.entries@, *owner).len(),
            forall|k: int|
                0 <= k < r@.len() ==> (#[trigger] r@[k]).0 == owner_tokens(self.entries@, *owner)[k]
                    && r@[k].1.attos == self.balance_of(*owner, r@[k].0),
    {
        let mut out: Vec<(TokenId, Amount)> = Vec::new();
        let n = self.entries.len();
        let mut i: usize = 0;
        while i < n
            invariant
                i <= n,
                n == self.entries@.len(),
                out@.len() == owner_tokens(self.entries@.take(i as int), *owner).len(),
                forall|k: int|
                    0 <= k < out@.len() ==> (#[trigger] out@[k]).0 == owner_tokens(
                        self.entries@.take(i as int),
                        *owner,
                    )[k] && out@[k].1.attos == self.balance_of(*owner, out@[k].0),
            decreases n - i,
        {
            let e = &self.entries[i];
            proof {
                assert(self.entries@.take(i + 1).drop_last() =~= self.entries@.take(i as int));
                assert(self.entries@.take(i + 1).last() == self.entries@[i as int]);
            }
            if e.owner.same_account(owner) {
                let bal = self.get_balance(owner, &e.token);
                // Report the key's effective balance, so duplicate rows (which
                // the update path never creates) could not misreport.
                out.push((e.token.clone(), bal));
            }
            i = i + 1;
        }
        proof {
            assert(self.entries@.take(n as int) =~= self.entries@);
        }
        out
    }
}

/// The tokens of one owner's ledger rows, in ledger order.
pub open spec fn owner_tokens(s: Seq<BalanceEntry>, o: AccountOwner) -> Seq<TokenId>
    decreases s.len(),
{
    if s.len() == 0 {
        Seq::empty()
    } else {
        let rest = owner_tokens(s.drop_last(), o);
        if owner_eq(s.last().owner, o) {
            rest.push(s.last().token)
        } else {
            rest
        }
    }
}

} // verus!

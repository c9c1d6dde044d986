//! The engine's owned state aggregate: the balance ledger, the pool registry,
//! and the pending-withdrawal records, with every state transition of the
//! engine as a checked, atomic method — it fully applies or it returns a
//! typed error having mutated nothing.

use vstd::prelude::*;

use crate::amount::Amount;
use crate::error::DexError;
use crate::ledger::{owner_eq, AccountOwner, Ledger};
use crate::math::{checked_add_u128, lemma_div_bounds, lemma_mul_div_le, mul_div};
use crate::pool::{
    pool_has_pair, spec_after_fee, spec_quote, swap_quote, wf_pool, Pool, MAX_FEE_RATE_BPS,
};
use crate::token::{lemma_token_lt_trichotomy, token_eq, token_lt, TokenId};

verus! {

/// The durable intent of one requested withdrawal: the ledger debit has
/// already happened; an external operator later marks the record processed.
pub struct WithdrawalRequest {
    pub id: u64,
    pub user: AccountOwner,
    pub token: TokenId,
    pub amount: Amount,
    pub target_address: String,
    pub created_at: u64,
    pub processed: bool,
}

/// The engine state: per-account balances, the pool registry, and the
/// pending withdrawal records.
pub struct DexState {
    pub user_balances: Ledger,
    pub pools: Vec<Pool>,
    pub pending_withdrawals: Vec<WithdrawalRequest>,
    pub next_withdrawal_id: u64,
}

impl DexState {
    /// Every pool is well-formed and no two pools trade the same unordered
    /// pair. Constructors establish this and every transition preserves it.
    pub open spec fn wf(self) -> bool {
        &&& (forall|i: int| 0 <= i < self.pools@.len() ==> wf_pool(#[trigger] self.pools@[i]))
        &&& (forall|i: int, j: int|
            0 <= i < j < self.pools@.len() ==> !pool_has_pair(
                #[trigger] self.pools@[i],
                (#[trigger] self.pools@[j]).token_a,
                self.pools@[j].token_b,
            ))
    }

    /// The balance the ledger gives to (owner, token).
    pub open spec fn balance_of(self, o: AccountOwner, t: TokenId) -> nat {
        self.user_balances.balance_of(o, t)
    }

    /// Whether a pool trades the unordered pair `{x, y}`.
    pub open spec fn has_pool(self, x: TokenId, y: TokenId) -> bool {
        exists|i: int| 0 <= i < self.pools@.len() && pool_has_pair(#[trigger] self.pools@[i], x, y)
    }

    /// A fresh engine: no balances, no pools, no pending withdrawals.
    pub fn new() -> (r: DexState)
        ensures
            r.wf(),
            forall|o: AccountOwner, t: TokenId| #[trigger] r.balance_of(o, t) == 0,
            r.pools@.len() == 0,
            r.pending_withdrawals@.len() == 0,
            r.next_withdrawal_id == 0,
    {
        DexState {
            user_balances: Ledger::new(),
            pools: Vec::new(),
            pending_withdrawals: Vec::new(),
            next_withdrawal_id: 0,
        }
    }

    /// Two distinct pools never trade the same pair.
    proof fn lemma_unique_pool(self, x: TokenId, y: TokenId, i: int, j: int)
        requires
            self.wf(),
            0 <= i < self.pools@.len(),
            0 <= j < self.pools@.len(),
            pool_has_pair(self.pools@[i], x, y),
            pool_has_pair(self.pools@[j], x, y),
        ensures
            i == j,
    {
        if i < j {
            assert(pool_has_pair(self.pools@[i], self.pools@[j].token_a, self.pools@[j].token_b));
        } else if j < i {
            assert(pool_has_pair(self.pools@[j], self.pools@[i].token_a, self.pools@[i].token_b));
        }
    }

    /// The registry slot trading `{x, y}`, if one exists.
    fn find_pool(&self, x: &TokenId, y: &TokenId) -> (r: Option<usize>)
        ensures
            match r {
                Some(i) => i < self.pools@.len() && pool_has_pair(self.pools@[i as int], *x, *y)
                    && self.has_pool(*x, *y),
                None => !self.has_pool(*x, *y),
            },
    {
        let n = self.pools.len();
        let mut i: usize = 0;
        while i < n
            invariant
                i <= n,
                n == self.pools@.len(),
                forall|j: int| 0 <= j < i ==> !pool_has_pair(#[trigger] self.pools@[j], *x, *y),
            decreases n - i,
        {
            let p = &self.pools[i];
            if (p.token_a.same_asset(x) && p.token_b.same_asset(y)) || (p.token_a.same_asset(y)
                && p.token_b.same_asset(x)) {
                return Some(i);
            }
            i = i + 1;
        }
        None
    }
}

/// The pool a successful creation stores: the caller's pair brought into
/// canonical order, reserves following their tokens, and an initial share
/// supply equal to the caller's first-token deposit.
pub open spec fn spec_new_pool(
    token_a: TokenId,
    token_b: TokenId,
    amount_a: Amount,
    amount_b: Amount,
    fee_rate: u32,
) -> Pool {
    if token_lt(token_a, token_b) {
        Pool {
            token_a,
            token_b,
            reserve_a: amount_a,
            reserve_b: amount_b,
            total_shares: amount_a,
            fee_rate,
        }
    } else {
        Pool {
            token_a: token_b,
            token_b: token_a,
            reserve_a: amount_b,
            reserve_b: amount_a,
            total_shares: amount_a,
            fee_rate,
        }
    }
}

/// The first reason pool creation fails, if any, in validation order.
pub open spec fn spec_create_error(
    s: DexState,
    owner: AccountOwner,
    token_a: TokenId,
    token_b: TokenId,
    amount_a: Amount,
    amount_b: Amount,
    fee_rate: u32,
) -> Option<DexError> {
    if amount_a.attos == 0 || amount_b.attos == 0 {
        Some(DexError::InvalidAmount)
    } else if fee_rate > MAX_FEE_RATE_BPS {
        Some(DexError::FeeRateTooHigh)
    } else if token_eq(token_a, token_b) {
        Some(DexError::InvalidAmount)
    } else if s.has_pool(token_a, token_b) {
        Some(DexError::PoolAlreadyExists)
    } else if s.balance_of(owner, token_a) < amount_a.attos {
        Some(DexError::InsufficientBalance)
    } else if s.balance_of(owner, token_b) < amount_b.attos {
        Some(DexError::InsufficientBalance)
    } else {
        None
    }
}

/// What a pool-creation call does: on failure the state is untouched and the
/// error is the first failing validation; on success the caller paid both
/// deposits and exactly the new pool was appended.
pub open spec fn create_pool_spec(
    old_s: DexState,
    new_s: DexState,
    owner: AccountOwner,
    token_a: TokenId,
    token_b: TokenId,
    amount_a: Amount,
    amount_b: Amount,
    fee_rate: u32,
    r: Result<(), DexError>,
) -> bool {
    match r {
        Err(e) => spec_create_error(old_s, owner, token_a, token_b, amount_a, amount_b, fee_rate)
            == Some(e) && new_s == old_s,
        Ok(()) => {
            &&& spec_create_error(old_s, owner, token_a, token_b, amount_a, amount_b, fee_rate)
                is None
            &&& new_s.pools@ == old_s.pools@.push(
                spec_new_pool(token_a, token_b, amount_a, amount_b, fee_rate),
            )
            &&& new_s.balance_of(owner, token_a) == old_s.balance_of(owner, token_a)
                - amount_a.attos
            &&& new_s.balance_of(owner, token_b) == old_s.balance_of(owner, token_b)
                - amount_b.attos
            &&& (forall|o2: AccountOwner, t2: TokenId|
                !(owner_eq(o2, owner) && (token_eq(t2, token_a) || token_eq(t2, token_b)))
                    ==> #[trigger] new_s.balance_of(o2, t2) == old_s.balance_of(o2, t2))
            &&& new_s.pending_withdrawals == old_s.pending_withdrawals
            &&& new_s.next_withdrawal_id == old_s.next_withdrawal_id
        },
    }
}

impl DexState {
    /// Creates the pool for a new token pair, seeding it with a two-sided
    /// deposit debited from the caller.
    pub fn create_pool(
        &mut self,
        owner: &AccountOwner,
        token_a: TokenId,
        token_b: TokenId,
        amount_a: Amount,
        amount_b: Amount,
        fee_rate: u32,
    ) -> (r: Result<(), DexError>)
        requires
            old(self).wf(),
        ensures
            final(self).wf(),
            create_pool_spec(
                *old(self),
                *final(self),
                *owner,
                token_a,
                token_b,
                amount_a,
                amount_b,
                fee_rate,
                r,
            ),
    {
        if amount_a.is_zero() || amount_b.is_zero() {
            return Err(DexError::InvalidAmount);
        }
        if fee_rate > MAX_FEE_RATE_BPS {
            return Err(DexError::FeeRateTooHigh);
        }
        if token_a.same_asset(&token_b) {
            return Err(DexError::InvalidAmount);
        }
        match self.find_pool(&token_a, &token_b) {
            Some(_) => {
                return Err(DexError::PoolAlreadyExists);
            },
            None => {},
        }
        let balance_a = self.user_balances.get_balance(owner, &token_a);
        if balance_a.to_attos() < amount_a.to_attos() {
            return Err(DexError::InsufficientBalance);
        }
        let balance_b = self.user_balances.get_balance(owner, &token_b);
        if balance_b.to_attos() < amount_b.to_attos() {
            return Err(DexError::InsufficientBalance);
        }
        let ghost old_s = *self;
        proof {
            lemma_token_lt_trichotomy(token_a, token_b);
        }
        let pool = if token_a.lt(&token_b) {
            Pool {
                token_a: token_a.clone(),
                token_b: token_b.clone(),
                reserve_a: amount_a,
                reserve_b: amount_b,
                total_shares: amount_a,
                fee_rate,
            }
        } else {
            Pool {
                token_a: token_b.clone(),
                token_b: token_a.clone(),
                reserve_a: amount_b,
                reserve_b: amount_a,
                total_shares: amount_a,
                fee_rate,
            }
        };
        self.pools.push(pool);
        match self.user_balances.debit(owner, &token_a, amount_a) {
            Ok(()) => {},
            Err(e) => {
                proof {
                    assert(false);
                }
                return Err(e);
            },
        }
        match self.user_balances.debit(owner, &token_b, amount_b) {
            Ok(()) => {},
            Err(e) => {
                proof {
                    assert(false);
                }
                return Err(e);
            },
        }
        proof {
            let np = spec_new_pool(token_a, token_b, amount_a, amount_b, fee_rate);
            assert(self.pools@ =~= old_s.pools@.push(np));
            // Well-formedness: the new pool is canonical and seeded, and it
            // trades a pair no existing pool trades.
            assert(wf_pool(np));
            assert forall|i: int, j: int|
                0 <= i < j < self.pools@.len() implies !pool_has_pair(
                #[trigger] self.pools@[i],
                (#[trigger] self.pools@[j]).token_a,
                self.pools@[j].token_b,
            ) by {
                if j == old_s.pools@.len() {
                    assert(!pool_has_pair(old_s.pools@[i], token_a, token_b));
                } else {
                    assert(!pool_has_pair(old_s.pools@[i], old_s.pools@[j].token_a, old_s.pools@[j].token_b));
                }
            }
        }
        Ok(())
    }
}

} // verus!

verus! {

/// The deposits of a liquidity call keyed to the pool's own sides: the
/// caller may name the pair in either order.
pub open spec fn oriented_deposits(
    p: Pool,
    token_a: TokenId,
    amount_a: Amount,
    amount_b: Amount,
) -> (nat, nat) {
    if token_eq(p.token_a, token_a) {
        (amount_a.attos as nat, amount_b.attos as nat)
    } else {
        (amount_b.attos as nat, amount_a.attos as nat)
    }
}

/// The shares a deposit mints against a pool, or the overflow that stops it.
/// A drained pool is re-seeded exactly as at creation: the first-side deposit
/// becomes the share supply; otherwise minting is proportional on the
/// first-side deposit alone, multiply before divide.
pub open spec fn spec_add_outcome(p: Pool, da: nat, db: nat) -> Result<nat, DexError> {
    let ts = p.total_shares.attos as nat;
    let ra = p.reserve_a.attos as nat;
    let rb = p.reserve_b.attos as nat;
    if ts > 0 && ts * da > u128::MAX {
        Err(DexError::ArithmeticOverflow)
    } else {
        let mint = if ts == 0 {
            da
        } else {
            ts * da / ra
        };
        if ra + da > u128::MAX || rb + db > u128::MAX || ts + mint > u128::MAX {
            Err(DexError::ArithmeticOverflow)
        } else {
            Ok(mint)
        }
    }
}

/// The pool left after a deposit of `(da, db)` minting `mint` shares.
pub open spec fn spec_added_pool(p: Pool, da: nat, db: nat, mint: nat) -> Pool {
    Pool {
        token_a: p.token_a,
        token_b: p.token_b,
        reserve_a: Amount { attos: (p.reserve_a.attos + da) as u128 },
        reserve_b: Amount { attos: (p.reserve_b.attos + db) as u128 },
        total_shares: Amount { attos: (p.total_shares.attos + mint) as u128 },
        fee_rate: p.fee_rate,
    }
}

/// What a liquidity deposit does. On failure nothing changed and the error
/// is classified in validation order (zero amounts, missing pool, caller
/// balances, arithmetic). On success the pool at every index trading the
/// pair — there is exactly one — took both deposits and minted the returned
/// shares, the caller paid both amounts, and nothing else moved.
pub open spec fn add_liquidity_spec(
    old_s: DexState,
    new_s: DexState,
    owner: AccountOwner,
    token_a: TokenId,
    token_b: TokenId,
    amount_a: Amount,
    amount_b: Amount,
    r: Result<Amount, DexError>,
) -> bool {
    match r {
        Err(e) => new_s == old_s && {
            if amount_a.attos == 0 || amount_b.attos == 0 {
                e == DexError::InvalidAmount
            } else if !old_s.has_pool(token_a, token_b) {
                e == DexError::PoolNotFound
            } else if old_s.balance_of(owner, token_a) < amount_a.attos || old_s.balance_of(
                owner,
                token_b,
            ) < amount_b.attos {
                e == DexError::InsufficientBalance
            } else {
                forall|i: int|
                    0 <= i < old_s.pools@.len() && pool_has_pair(
                        #[trigger] old_s.pools@[i],
                        token_a,
                        token_b,
                    ) ==> {
                        let (da, db) = oriented_deposits(old_s.pools@[i], token_a, amount_a, amount_b);
                        spec_add_outcome(old_s.pools@[i], da, db) == Err::<nat, DexError>(e)
                    }
            }
        },
        Ok(shares) => {
            &&& amount_a.attos > 0 && amount_b.attos > 0
            &&& old_s.has_pool(token_a, token_b)
            &&& old_s.balance_of(owner, token_a) >= amount_a.attos
            &&& old_s.balance_of(owner, token_b) >= amount_b.attos
            &&& (forall|i: int|
                0 <= i < old_s.pools@.len() && pool_has_pair(
                    #[trigger] old_s.pools@[i],
                    token_a,
                    token_b,
                ) ==> {
                    let (da, db) = oriented_deposits(old_s.pools@[i], token_a, amount_a, amount_b);
                    spec_add_outcome(old_s.pools@[i], da, db) == Ok::<nat, DexError>(
                        shares.attos as nat,
                    ) && new_s.pools@ == old_s.pools@.update(
                        i,
                        spec_added_pool(old_s.pools@[i], da, db, shares.attos as nat),
                    )
                })
            &&& new_s.balance_of(owner, token_a) == old_s.balance_of(owner, token_a)
                - amount_a.attos
            &&& new_s.balance_of(owner, token_b) == old_s.balance_of(owner, token_b)
                - amount_b.attos
            &&& (forall|o2: AccountOwner, t2: TokenId|
                !(owner_eq(o2, owner) && (token_eq(t2, token_a) || token_eq(t2, token_b)))
                    ==> #[trigger] new_s.balance_of(o2, t2) == old_s.balance_of(o2, t2))
            &&& new_s.pending_withdrawals == old_s.pending_withdrawals
            &&& new_s.next_withdrawal_id == old_s.next_withdrawal_id
        },
    }
}

impl DexState {
    /// Deposits both amounts into the pair's pool and mints shares from the
    /// pool's first-side deposit.
    pub fn add_liquidity(
        &mut self,
        owner: &AccountOwner,
        token_a: TokenId,
        token_b: TokenId,
        amount_a: Amount,
        amount_b: Amount,
    ) -> (r: Result<Amount, DexError>)
        requires
            old(self).wf(),
        ensures
            final(self).wf(),
            add_liquidity_spec(
                *old(self),
                *final(self),
                *owner,
                token_a,
                token_b,
                amount_a,
                amount_b,
                r,
            ),
    {
        if amount_a.is_zero() || amount_b.is_zero() {
            return Err(DexError::InvalidAmount);
        }
        let i = match self.find_pool(&token_a, &token_b) {
            Some(i) => i,
            None => {
                return Err(DexError::PoolNotFound);
            },
        };
        let balance_a = self.user_balances.get_balance(owner, &token_a);
        let balance_b = self.user_balances.get_balance(owner, &token_b);
        if balance_a.to_attos() < amount_a.to_attos() || balance_b.to_attos()
            < amount_b.to_attos() {
            return Err(DexError::InsufficientBalance);
        }
        let ghost old_s = *self;
        proof {
            // The pair's tokens are distinct, so the two ledger keys differ.
            lemma_token_lt_trichotomy(self.pools@[i as int].token_a, self.pools@[i as int].token_b);
        }
        let a_first = self.pools[i].token_a.same_asset(&token_a);
        let da = if a_first {
            amount_a
        } else {
            amount_b
        };
        let db = if a_first {
            amount_b
        } else {
            amount_a
        };
        let ts = self.pools[i].total_shares.to_attos();
        let ra = self.pools[i].reserve_a.to_attos();
        let rb = self.pools[i].reserve_b.to_attos();
        let mint: u128 = if ts == 0 {
            da.to_attos()
        } else {
            match mul_div(ts, da.to_attos(), ra) {
                Ok(m) => m,
                Err(e) => {
                    return Err(e);
                },
            }
        };
        let new_ra = match checked_add_u128(ra, da.to_attos()) {
            Some(v) => v,
            None => {
                return Err(DexError::ArithmeticOverflow);
            },
        };
        let new_rb = match checked_add_u128(rb, db.to_attos()) {
            Some(v) => v,
            None => {
                return Err(DexError::ArithmeticOverflow);
            },
        };
        let new_ts = match checked_add_u128(ts, mint) {
            Some(v) => v,
            None => {
                return Err(DexError::ArithmeticOverflow);
            },
        };
        self.pools[i].reserve_a = Amount::from_attos(new_ra);
        self.pools[i].reserve_b = Amount::from_attos(new_rb);
        self.pools[i].total_shares = Amount::from_attos(new_ts);
        match self.user_balances.debit(owner, &token_a, amount_a) {
            Ok(()) => {},
            Err(e) => {
                proof {
                    assert(false);
                }
                return Err(e);
            },
        }
        match self.user_balances.debit(owner, &token_b, amount_b) {
            Ok(()) => {},
            Err(e) => {
                proof {
                    assert(false);
                }
                return Err(e);
            },
        }
        proof {
            let p = old_s.pools@[i as int];
            let np = spec_added_pool(
                p,
                da.attos as nat,
                db.attos as nat,
                mint as nat,
            );
            assert(self.pools@ =~= old_s.pools@.update(i as int, np));
            if ts > 0 {
                lemma_div_bounds(ts as int * da.attos as int, ra as int);
            }
            assert(wf_pool(np));
            assert forall|j: int|
                0 <= j < old_s.pools@.len() && pool_has_pair(
                    #[trigger] old_s.pools@[j],
                    token_a,
                    token_b,
                ) implies j == i as int by {
                old_s.lemma_unique_pool(token_a, token_b, j, i as int);
            }
            assert forall|x: int, y: int|
                0 <= x < y < self.pools@.len() implies !pool_has_pair(
                #[trigger] self.pools@[x],
                (#[trigger] self.pools@[y]).token_a,
                self.pools@[y].token_b,
            ) by {
                assert(self.pools@[x].token_a == old_s.pools@[x].token_a);
                assert(!pool_has_pair(old_s.pools@[x], old_s.pools@[y].token_a, old_s.pools@[y].token_b));
            }
        }
        Ok(Amount::from_attos(mint))
    }
}

} // verus!

verus! {

/// The proportional payouts `floor(reserve * shares / total_shares)` for each
/// side of a pool, keyed to the pool's own sides.
pub open spec fn spec_remove_payouts(p: Pool, s_amt: nat) -> (nat, nat) {
    (
        (p.reserve_a.attos as nat) * s_amt / (p.total_shares.attos as nat),
        (p.reserve_b.attos as nat) * s_amt / (p.total_shares.attos as nat),
    )
}

/// The payouts of a share redemption keyed to the caller's token order.
pub open spec fn oriented_payouts(p: Pool, token_a: TokenId, s_amt: nat) -> (nat, nat) {
    let (pa, pb) = spec_remove_payouts(p, s_amt);
    if token_eq(p.token_a, token_a) {
        (pa, pb)
    } else {
        (pb, pa)
    }
}

/// The pool left after redeeming `s_amt` shares.
pub open spec fn spec_removed_pool(p: Pool, s_amt: nat) -> Pool {
    let (pa, pb) = spec_remove_payouts(p, s_amt);
    Pool {
        token_a: p.token_a,
        token_b: p.token_b,
        reserve_a: Amount { attos: (p.reserve_a.attos - pa) as u128 },
        reserve_b: Amount { attos: (p.reserve_b.attos - pb) as u128 },
        total_shares: Amount { attos: (p.total_shares.attos - s_amt) as u128 },
        fee_rate: p.fee_rate,
    }
}

/// What a share redemption does. On failure nothing changed and the error is
/// classified in validation order (zero or excessive share amount, missing
/// pool, arithmetic, the caller's credit fitting the domain). On success the
/// pool trading the pair paid out both proportional amounts, the caller was
/// credited them in the order it named the tokens, and nothing else moved.
pub open spec fn remove_liquidity_spec(
    old_s: DexState,
    new_s: DexState,
    owner: AccountOwner,
    token_a: TokenId,
    token_b: TokenId,
    share_amount: Amount,
    r: Result<(Amount, Amount), DexError>,
) -> bool {
    match r {
        Err(e) => new_s == old_s && {
            if share_amount.attos == 0 {
                e == DexError::InvalidShareAmount
            } else if !old_s.has_pool(token_a, token_b) {
                e == DexError::PoolNotFound
            } else {
                forall|i: int|
                    0 <= i < old_s.pools@.len() && pool_has_pair(
                        #[trigger] old_s.pools@[i],
                        token_a,
                        token_b,
                    ) ==> {
                        let p = old_s.pools@[i];
                        let s_amt = share_amount.attos as nat;
                        if s_amt > p.total_shares.attos {
                            e == DexError::InvalidShareAmount
                        } else if p.reserve_a.attos * s_amt > u128::MAX || p.reserve_b.attos * s_amt
                            > u128::MAX {
                            e == DexError::ArithmeticOverflow
                        } else {
                            let (ca, cb) = oriented_payouts(p, token_a, s_amt);
                            (old_s.balance_of(owner, token_a) + ca > u128::MAX || old_s.balance_of(
                                owner,
                                token_b,
                            ) + cb > u128::MAX) && e == DexError::ArithmeticOverflow
                        }
                    }
            }
        },
        Ok((out_a, out_b)) => {
            &&& share_amount.attos > 0
            &&& old_s.has_pool(token_a, token_b)
            &&& (forall|i: int|
                0 <= i < old_s.pools@.len() && pool_has_pair(
                    #[trigger] old_s.pools@[i],
                    token_a,
                    token_b,
                ) ==> {
                    let p = old_s.pools@[i];
                    let s_amt = share_amount.attos as nat;
                    let (ca, cb) = oriented_payouts(p, token_a, s_amt);
                    &&& s_amt <= p.total_shares.attos
                    &&& p.reserve_a.attos * s_amt <= u128::MAX
                    &&& p.reserve_b.attos * s_amt <= u128::MAX
                    &&& out_a.attos == ca
                    &&& out_b.attos == cb
                    &&& new_s.pools@ == old_s.pools@.update(i, spec_removed_pool(p, s_amt))
                })
            &&& new_s.balance_of(owner, token_a) == old_s.balance_of(owner, token_a)
                + out_a.attos
            &&& new_s.balance_of(owner, token_b) == old_s.balance_of(owner, token_b)
                + out_b.attos
            &&& (forall|o2: AccountOwner, t2: TokenId|
                !(owner_eq(o2, owner) && (token_eq(t2, token_a) || token_eq(t2, token_b)))
                    ==> #[trigger] new_s.balance_of(o2, t2) == old_s.balance_of(o2, t2))
            &&& new_s.pending_withdrawals == old_s.pending_withdrawals
            &&& new_s.next_withdrawal_id == old_s.next_withdrawal_id
        },
    }
}

impl DexState {
    /// Redeems shares for the proportional slice of both reserves, credited
    /// to the caller.
    pub fn remove_liquidity(
        &mut self,
        owner: &AccountOwner,
        token_a: TokenId,
        token_b: TokenId,
        share_amount: Amount,
    ) -> (r: Result<(Amount, Amount), DexError>)
        requires
            old(self).wf(),
        ensures
            final(self).wf(),
            remove_liquidity_spec(
                *old(self),
                *final(self),
                *owner,
                token_a,
                token_b,
                share_amount,
                r,
            ),
    {
        if share_amount.is_zero() {
            return Err(DexError::InvalidShareAmount);
        }
        let i = match self.find_pool(&token_a, &token_b) {
            Some(i) => i,
            None => {
                return Err(DexError::PoolNotFound);
            },
        };
        let ts = self.pools[i].total_shares.to_attos();
        let ra = self.pools[i].reserve_a.to_attos();
        let rb = self.pools[i].reserve_b.to_attos();
        let s_amt = share_amount.to_attos();
        if s_amt > ts {
            return Err(DexError::InvalidShareAmount);
        }
        let pa = match mul_div(ra, s_amt, ts) {
            Ok(v) => v,
            Err(e) => {
                return Err(e);
            },
        };
        let pb = match mul_div(rb, s_amt, ts) {
            Ok(v) => v,
            Err(e) => {
                return Err(e);
            },
        };
        proof {
            lemma_mul_div_le(ra as int, s_amt as int, ts as int);
            lemma_mul_div_le(rb as int, s_amt as int, ts as int);
        }
        if pa > ra || pb > rb {
            // Defensive: the proportional formula cannot pay out more than a
            // reserve, so this cannot be reached.
            return Err(DexError::InsufficientPoolReserves);
        }
        let ghost old_s = *self;
        proof {
            lemma_token_lt_trichotomy(self.pools@[i as int].token_a, self.pools@[i as int].token_b);
        }
        let a_first = self.pools[i].token_a.same_asset(&token_a);
        let ca = if a_first {
            pa
        } else {
            pb
        };
        let cb = if a_first {
            pb
        } else {
            pa
        };
        let balance_a = self.user_balances.get_balance(owner, &token_a);
        match checked_add_u128(balance_a.to_attos(), ca) {
            Some(_) => {},
            None => {
                return Err(DexError::ArithmeticOverflow);
            },
        }
        let balance_b = self.user_balances.get_balance(owner, &token_b);
        match checked_add_u128(balance_b.to_attos(), cb) {
            Some(_) => {},
            None => {
                return Err(DexError::ArithmeticOverflow);
            },
        }
        proof {
            // Redeeming part of the supply leaves both reserves positive;
            // redeeming all of it drains both exactly.
            if s_amt < ts {
                lemma_div_bounds(ra as int * s_amt as int, ts as int);
                lemma_div_bounds(rb as int * s_amt as int, ts as int);
                assert(pa < ra && pb < rb) by (nonlinear_arith)
                    requires
                        pa * ts <= ra * s_amt,
                        pb * ts <= rb * s_amt,
                        s_amt < ts,
                        0 < ra,
                        0 < rb,
                        0 <= pa,
                        0 <= pb,
                        pa <= ra,
                        pb <= rb;
            } else {
                assert(ra * s_amt == ts * ra && rb * s_amt == ts * rb) by (nonlinear_arith)
                    requires
                        s_amt == ts;
                vstd::arithmetic::div_mod::lemma_div_multiples_vanish(ra as int, ts as int);
                vstd::arithmetic::div_mod::lemma_div_multiples_vanish(rb as int, ts as int);
            }
        }
        self.pools[i].reserve_a = Amount::from_attos(ra - pa);
        self.pools[i].reserve_b = Amount::from_attos(rb - pb);
        self.pools[i].total_shares = Amount::from_attos(ts - s_amt);
        match self.user_balances.credit(owner, &token_a, Amount::from_attos(ca)) {
            Ok(()) => {},
            Err(e) => {
                proof {
                    assert(false);
                }
                return Err(e);
            },
        }
        match self.user_balances.credit(owner, &token_b, Amount::from_attos(cb)) {
            Ok(()) => {},
            Err(e) => {
                proof {
                    assert(false);
                }
                return Err(e);
            },
        }
        proof {
            let p = old_s.pools@[i as int];
            let np = spec_removed_pool(p, s_amt as nat);
            assert(self.pools@ =~= old_s.pools@.update(i as int, np));
            assert(wf_pool(np));
            assert forall|j: int|
                0 <= j < old_s.pools@.len() && pool_has_pair(
                    #[trigger] old_s.pools@[j],
                    token_a,
                    token_b,
                ) implies j == i as int by {
                old_s.lemma_unique_pool(token_a, token_b, j, i as int);
            }
            assert forall|x: int, y: int|
                0 <= x < y < self.pools@.len() implies !pool_has_pair(
                #[trigger] self.pools@[x],
                (#[trigger] self.pools@[y]).token_a,
                self.pools@[y].token_b,
            ) by {
                assert(self.pools@[x].token_a == old_s.pools@[x].token_a);
                assert(!pool_has_pair(old_s.pools@[x], old_s.pools@[y].token_a, old_s.pools@[y].token_b));
            }
        }
        Ok((Amount::from_attos(ca), Amount::from_attos(cb)))
    }
}

} // verus!

verus! {

/// The outcome a swap is owed against one pool, given the caller's balances
/// of the input and output tokens: either the quoted output or the first
/// failing check, in validation order.
pub open spec fn spec_swap_outcome(
    p: Pool,
    from_is_a: bool,
    bal_from: nat,
    bal_to: nat,
    amount: nat,
) -> Result<nat, DexError> {
    let inr = if from_is_a {
        p.reserve_a.attos as nat
    } else {
        p.reserve_b.attos as nat
    };
    let outr = if from_is_a {
        p.reserve_b.attos as nat
    } else {
        p.reserve_a.attos as nat
    };
    if bal_from < amount {
        Err(DexError::InsufficientBalance)
    } else if inr == 0 {
        Err(DexError::ZeroReserve)
    } else if amount * p.fee_rate > u128::MAX {
        Err(DexError::ArithmeticOverflow)
    } else {
        let x = spec_after_fee(amount, p.fee_rate as nat);
        if inr + x > u128::MAX || outr * x > u128::MAX {
            Err(DexError::ArithmeticOverflow)
        } else {
            let q = spec_quote(inr, outr, x);
            if q == 0 && x > 0 {
                Err(DexError::SwapTooSmall)
            } else if q >= outr {
                Err(DexError::InsufficientOutputReserve)
            } else if bal_to + q > u128::MAX {
                Err(DexError::ArithmeticOverflow)
            } else {
                Ok(q)
            }
        }
    }
}

/// The pool left by a successful swap: the effective (post-fee) input joined
/// the input reserve, the quote left the output reserve, shares unchanged.
pub open spec fn spec_swapped_pool(p: Pool, from_is_a: bool, x: nat, q: nat) -> Pool {
    if from_is_a {
        Pool {
            token_a: p.token_a,
            token_b: p.token_b,
            reserve_a: Amount { attos: (p.reserve_a.attos + x) as u128 },
            reserve_b: Amount { attos: (p.reserve_b.attos - q) as u128 },
            total_shares: p.total_shares,
            fee_rate: p.fee_rate,
        }
    } else {
        Pool {
            token_a: p.token_a,
            token_b: p.token_b,
            reserve_a: Amount { attos: (p.reserve_a.attos - q) as u128 },
            reserve_b: Amount { attos: (p.reserve_b.attos + x) as u128 },
            total_shares: p.total_shares,
            fee_rate: p.fee_rate,
        }
    }
}

/// The reserve product of a pool, the quantity a constant-product market
/// maker holds (weakly) invariant.
pub open spec fn spec_product(p: Pool) -> nat {
    (p.reserve_a.attos as nat) * (p.reserve_b.attos as nat)
}

/// What a swap does. On failure nothing changed and the error is classified
/// in validation order. On success, against the one pool trading the pair:
/// the caller paid `amount` of the input token and received the
/// constant-product quote of the output token, the pool took the effective
/// input and gave up the quote — and the reserve product did not decrease,
/// growing by less than one unit of the new input reserve (so a zero-fee
/// swap preserves it up to that rounding sliver).
pub open spec fn swap_tokens_spec(
    old_s: DexState,
    new_s: DexState,
    owner: AccountOwner,
    from_token: TokenId,
    to_token: TokenId,
    amount: Amount,
    r: Result<Amount, DexError>,
) -> bool {
    match r {
        Err(e) => new_s == old_s && {
            if amount.attos == 0 {
                e == DexError::InvalidAmount
            } else if !old_s.has_pool(from_token, to_token) {
                e == DexError::PoolNotFound
            } else {
                forall|i: int|
                    0 <= i < old_s.pools@.len() && pool_has_pair(
                        #[trigger] old_s.pools@[i],
                        from_token,
                        to_token,
                    ) ==> spec_swap_outcome(
                        old_s.pools@[i],
                        token_eq(old_s.pools@[i].token_a, from_token),
                        old_s.balance_of(owner, from_token),
                        old_s.balance_of(owner, to_token),
                        amount.attos as nat,
                    ) == Err::<nat, DexError>(e)
            }
        },
        Ok(received) => {
            &&& amount.attos > 0
            &&& old_s.has_pool(from_token, to_token)
            &&& old_s.balance_of(owner, from_token) >= amount.attos
            &&& (forall|i: int|
                0 <= i < old_s.pools@.len() && pool_has_pair(
                    #[trigger] old_s.pools@[i],
                    from_token,
                    to_token,
                ) ==> {
                    let p = old_s.pools@[i];
                    let from_is_a = token_eq(p.token_a, from_token);
                    let x = spec_after_fee(amount.attos as nat, p.fee_rate as nat);
                    let np = spec_swapped_pool(p, from_is_a, x, received.attos as nat);
                    &&& spec_swap_outcome(
                        p,
                        from_is_a,
                        old_s.balance_of(owner, from_token),
                        old_s.balance_of(owner, to_token),
                        amount.attos as nat,
                    ) == Ok::<nat, DexError>(received.attos as nat)
                    &&& new_s.pools@ == old_s.pools@.update(i, np)
                    &&& spec_product(np) >= spec_product(p)
                    &&& spec_product(np) < spec_product(p) + (inr_of(p, from_is_a) + x)
                })
            &&& new_s.balance_of(owner, from_token) == old_s.balance_of(owner, from_token)
                - amount.attos
            &&& new_s.balance_of(owner, to_token) == old_s.balance_of(owner, to_token)
                + received.attos
            &&& (forall|o2: AccountOwner, t2: TokenId|
                !(owner_eq(o2, owner) && (token_eq(t2, from_token) || token_eq(t2, to_token)))
                    ==> #[trigger] new_s.balance_of(o2, t2) == old_s.balance_of(o2, t2))
            &&& new_s.pending_withdrawals == old_s.pending_withdrawals
            &&& new_s.next_withdrawal_id == old_s.next_withdrawal_id
        },
    }
}

/// A pool's input-side reserve for a given swap direction.
pub open spec fn inr_of(p: Pool, from_is_a: bool) -> nat {
    if from_is_a {
        p.reserve_a.attos as nat
    } else {
        p.reserve_b.attos as nat
    }
}

impl DexState {
    /// Swaps `amount` of the input token for the constant-product quote of
    /// the output token, the input-side fee staying in the pool.
    pub fn swap_tokens(
        &mut self,
        owner: &AccountOwner,
        from_token: TokenId,
        to_token: TokenId,
        amount: Amount,
    ) -> (r: Result<Amount, DexError>)
        requires
            old(self).wf(),
        ensures
            final(self).wf(),
            swap_tokens_spec(
                *old(self),
                *final(self),
                *owner,
                from_token,
                to_token,
                amount,
                r,
            ),
    {
        if amount.is_zero() {
            return Err(DexError::InvalidAmount);
        }
        let i = match self.find_pool(&from_token, &to_token) {
            Some(i) => i,
            None => {
                return Err(DexError::PoolNotFound);
            },
        };
        let from_balance = self.user_balances.get_balance(owner, &from_token);
        if from_balance.to_attos() < amount.to_attos() {
            return Err(DexError::InsufficientBalance);
        }
        proof {
            lemma_token_lt_trichotomy(self.pools@[i as int].token_a, self.pools@[i as int].token_b);
        }
        let from_is_a = self.pools[i].token_a.same_asset(&from_token);
        let ra = self.pools[i].reserve_a.to_attos();
        let rb = self.pools[i].reserve_b.to_attos();
        let inr = if from_is_a {
            ra
        } else {
            rb
        };
        let outr = if from_is_a {
            rb
        } else {
            ra
        };
        if inr == 0 {
            return Err(DexError::ZeroReserve);
        }
        let fee_rate = self.pools[i].fee_rate;
        let (x, q) = match swap_quote(inr, outr, amount.to_attos(), fee_rate) {
            Ok(v) => v,
            Err(e) => {
                return Err(e);
            },
        };
        if q == 0 && x > 0 {
            return Err(DexError::SwapTooSmall);
        }
        if q >= outr {
            return Err(DexError::InsufficientOutputReserve);
        }
        let to_balance = self.user_balances.get_balance(owner, &to_token);
        match checked_add_u128(to_balance.to_attos(), q) {
            Some(_) => {},
            None => {
                return Err(DexError::ArithmeticOverflow);
            },
        }
        let ghost old_s = *self;
        if from_is_a {
            self.pools[i].reserve_a = Amount::from_attos(inr + x);
            self.pools[i].reserve_b = Amount::from_attos(outr - q);
        } else {
            self.pools[i].reserve_b = Amount::from_attos(inr + x);
            self.pools[i].reserve_a = Amount::from_attos(outr - q);
        }
        match self.user_balances.debit(owner, &from_token, amount) {
            Ok(()) => {},
            Err(e) => {
                proof {
                    assert(false);
                }
                return Err(e);
            },
        }
        match self.user_balances.credit(owner, &to_token, Amount::from_attos(q)) {
            Ok(()) => {},
            Err(e) => {
                proof {
                    assert(false);
                }
                return Err(e);
            },
        }
        proof {
            let p = old_s.pools@[i as int];
            let np = spec_swapped_pool(p, from_is_a, x as nat, q as nat);
            assert(self.pools@ =~= old_s.pools@.update(i as int, np));
            crate::math::lemma_swap_product(inr as int, outr as int, x as int);
            assert(spec_product(np) == (inr as nat + x as nat) * (outr as nat - q as nat)
                && spec_product(p) == (inr as nat) * (outr as nat)) by (nonlinear_arith)
                requires
                    np.reserve_a.attos == if from_is_a { inr + x } else { outr - q },
                    np.reserve_b.attos == if from_is_a { outr - q } else { inr + x },
                    p.reserve_a.attos == if from_is_a { inr } else { outr },
                    p.reserve_b.attos == if from_is_a { outr } else { inr },
                    q <= outr,
                    spec_product(np) == (np.reserve_a.attos as nat) * (np.reserve_b.attos as nat),
                    spec_product(p) == (p.reserve_a.attos as nat) * (p.reserve_b.attos as nat);
            assert(wf_pool(np));
            assert forall|j: int|
                0 <= j < old_s.pools@.len() && pool_has_pair(
                    #[trigger] old_s.pools@[j],
                    from_token,
                    to_token,
                ) implies j == i as int by {
                old_s.lemma_unique_pool(from_token, to_token, j, i as int);
            }
            assert forall|a: int, b: int|
                0 <= a < b < self.pools@.len() implies !pool_has_pair(
                #[trigger] self.pools@[a],
                (#[trigger] self.pools@[b]).token_a,
                self.pools@[b].token_b,
            ) by {
                assert(self.pools@[a].token_a == old_s.pools@[a].token_a);
                assert(!pool_has_pair(old_s.pools@[a], old_s.pools@[b].token_a, old_s.pools@[b].token_b));
            }
        }
        Ok(Amount::from_attos(q))
    }
}

} // verus!

verus! {

/// The most a single faucet claim may hand out.
pub const FAUCET_CLAIM_MAX: u128 = 10_000;

/// One owner's holding of one token, as the query surface reports it.
pub struct UserBalance {
    pub owner: AccountOwner,
    pub token: TokenId,
    pub amount: Amount,
}

impl DexState {
    /// Records an externally authorized deposit as a ledger credit.
    pub fn process_deposit(&mut self, owner: &AccountOwner, token: &TokenId, amount: Amount) -> (r:
        Result<(), DexError>)
        requires
            old(self).wf(),
        ensures
            final(self).wf(),
            match r {
                Ok(()) => old(self).balance_of(*owner, *token) + amount.attos <= u128::MAX
                    && final(self).balance_of(*owner, *token) == old(self).balance_of(
                    *owner,
                    *token,
                ) + amount.attos && crate::ledger::unchanged_except(
                    old(self).user_balances,
                    final(self).user_balances,
                    *owner,
                    *token,
                ),
                Err(e) => e == DexError::ArithmeticOverflow && old(self).balance_of(*owner, *token)
                    + amount.attos > u128::MAX && *final(self) == *old(self),
            },
            final(self).pools == old(self).pools,
            final(self).pending_withdrawals == old(self).pending_withdrawals,
            final(self).next_withdrawal_id == old(self).next_withdrawal_id,
    {
        self.user_balances.credit(owner, token, amount)
    }

    /// Debits the caller immediately and records the durable withdrawal
    /// intent; settlement on the external chain happens out of process.
    pub fn request_withdrawal(
        &mut self,
        owner: &AccountOwner,
        token: &TokenId,
        amount: Amount,
        target_address: String,
        created_at: u64,
    ) -> (r: Result<u64, DexError>)
        requires
            old(self).wf(),
        ensures
            final(self).wf(),
            match r {
                Ok(id) => {
                    &&& old(self).next_withdrawal_id < u64::MAX
                    &&& id == old(self).next_withdrawal_id
                    &&& old(self).balance_of(*owner, *token) >= amount.attos
                    &&& final(self).balance_of(*owner, *token) == old(self).balance_of(
                        *owner,
                        *token,
                    ) - amount.attos
                    &&& crate::ledger::unchanged_except(
                        old(self).user_balances,
                        final(self).user_balances,
                        *owner,
                        *token,
                    )
                    &&& final(self).pending_withdrawals@.len() == old(
                        self,
                    ).pending_withdrawals@.len() + 1
                    &&& final(self).pending_withdrawals@ == old(self).pending_withdrawals@.push(
                        final(self).pending_withdrawals@.last(),
                    )
                    &&& {
                        let rec = final(self).pending_withdrawals@.last();
                        rec.id == id && rec.user == *owner && rec.token == *token && rec.amount
                            == amount && rec.target_address == target_address && rec.created_at
                            == created_at && !rec.processed
                    }
                    &&& final(self).next_withdrawal_id == old(self).next_withdrawal_id + 1
                },
                Err(e) => *final(self) == *old(self) && {
                    if old(self).next_withdrawal_id == u64::MAX {
                        e == DexError::ArithmeticOverflow
                    } else {
                        e == DexError::InsufficientBalance && old(self).balance_of(*owner, *token)
                            < amount.attos
                    }
                },
            },
            final(self).pools == old(self).pools,
    {
        if self.next_withdrawal_id == u64::MAX {
            return Err(DexError::ArithmeticOverflow);
        }
        match self.user_balances.debit(owner, token, amount) {
            Ok(()) => {},
            Err(e) => {
                return Err(e);
            },
        }
        let id = self.next_withdrawal_id;
        let record = WithdrawalRequest {
            id,
            user: owner.clone(),
            token: token.clone(),
            amount,
            target_address,
            created_at,
            processed: false,
        };
        self.pending_withdrawals.push(record);
        self.next_withdrawal_id = id + 1;
        Ok(id)
    }

    /// Credits a bounded number of demonstration tokens to the caller.
    pub fn claim_faucet_tokens(&mut self, owner: &AccountOwner, token: &TokenId, amount: Amount)
        -> (r: Result<(), DexError>)
        requires
            old(self).wf(),
        ensures
            final(self).wf(),
            match r {
                Ok(()) => {
                    &&& amount.attos <= FAUCET_CLAIM_MAX
                    &&& old(self).balance_of(*owner, *token) + amount.attos <= u128::MAX
                    &&& final(self).balance_of(*owner, *token) == old(self).balance_of(
                        *owner,
                        *token,
                    ) + amount.attos
                    &&& crate::ledger::unchanged_except(
                        old(self).user_balances,
                        final(self).user_balances,
                        *owner,
                        *token,
                    )
                },
                Err(e) => *final(self) == *old(self) && {
                    if amount.attos > FAUCET_CLAIM_MAX {
                        e == DexError::InvalidAmount
                    } else {
                        e == DexError::ArithmeticOverflow && old(self).balance_of(*owner, *token)
                            + amount.attos > u128::MAX
                    }
                },
            },
            final(self).pools == old(self).pools,
            final(self).pending_withdrawals == old(self).pending_withdrawals,
            final(self).next_withdrawal_id == old(self).next_withdrawal_id,
    {
        if amount.to_attos() > FAUCET_CLAIM_MAX {
            return Err(DexError::InvalidAmount);
        }
        self.user_balances.credit(owner, token, amount)
    }

    /// Every pool in the registry, in registry order.
    pub fn pools_list(&self) -> (r: Vec<Pool>)
        ensures
            r@ == self.pools@,
    {
        let mut out: Vec<Pool> = Vec::new();
        let n = self.pools.len();
        let mut i: usize = 0;
        while i < n
            invariant
                i <= n,
                n == self.pools@.len(),
                out@ =~= self.pools@.take(i as int),
            decreases n - i,
        {
            out.push(self.pools[i].clone());
            proof {
                assert(out@ =~= self.pools@.take(i + 1));
            }
            i = i + 1;
        }
        proof {
            assert(self.pools@.take(n as int) =~= self.pools@);
        }
        out
    }

    /// The pool trading the pair, in either token order, if one exists.
    pub fn pool_by_tokens(&self, token_a: &TokenId, token_b: &TokenId) -> (r: Option<Pool>)
        requires
            self.wf(),
        ensures
            match r {
                Some(p) => self.has_pool(*token_a, *token_b) && (forall|i: int|
                    0 <= i < self.pools@.len() && pool_has_pair(
                        #[trigger] self.pools@[i],
                        *token_a,
                        *token_b,
                    ) ==> p == self.pools@[i]),
                None => !self.has_pool(*token_a, *token_b),
            },
    {
        match self.find_pool(token_a, token_b) {
            Some(i) => {
                let p = self.pools[i].clone();
                proof {
                    assert forall|j: int|
                        0 <= j < self.pools@.len() && pool_has_pair(
                            #[trigger] self.pools@[j],
                            *token_a,
                            *token_b,
                        ) implies p == self.pools@[j] by {
                        self.lemma_unique_pool(*token_a, *token_b, j, i as int);
                    }
                }
                Some(p)
            },
            None => None,
        }
    }

    /// One owner's balance of one token, zero when absent.
    pub fn user_balance(&self, owner: &AccountOwner, token: &TokenId) -> (r: Amount)
        ensures
            r.attos == self.balance_of(*owner, *token),
    {
        self.user_balances.get_balance(owner, token)
    }

    /// Every balance row of one owner: one output row per ledger row of that
    /// owner, in ledger order.
    pub fn user_balances_of(&self, owner: &AccountOwner) -> (r: Vec<UserBalance>)
        ensures
            r@.len() == crate::ledger::owner_tokens(self.user_balances.entries@, *owner).len(),
            forall|k: int|
                0 <= k < r@.len() ==> (#[trigger] r@[k]).token == crate::ledger::owner_tokens(
                    self.user_balances.entries@,
                    *owner,
                )[k] && r@[k].amount.attos == self.balance_of(*owner, r@[k].token) && owner_eq(
                    r@[k].owner,
                    *owner,
                ),
    {
        let rows = self.user_balances.balances_of_owner(owner);
        let mut out: Vec<UserBalance> = Vec::new();
        let n = rows.len();
        let mut i: usize = 0;
        while i < n
            invariant
                i <= n,
                n == rows@.len(),
                n == crate::ledger::owner_tokens(self.user_balances.entries@, *owner).len(),
                forall|k: int|
                    0 <= k < rows@.len() ==> (#[trigger] rows@[k]).0
                        == crate::ledger::owner_tokens(self.user_balances.entries@, *owner)[k]
                        && rows@[k].1.attos == self.balance_of(*owner, rows@[k].0),
                out@.len() == i,
                forall|k: int|
                    0 <= k < out@.len() ==> (#[trigger] out@[k]).token == rows@[k].0
                        && out@[k].amount == rows@[k].1 && owner_eq(out@[k].owner, *owner),
            decreases n - i,
        {
            let (token, amount) = (rows[i].0.clone(), rows[i].1);
            out.push(UserBalance { owner: owner.clone(), token, amount });
            i = i + 1;
        }
        out
    }

    /// Quotes a swap without mutating anything, with exactly the pricing the
    /// swap itself uses: fee first, then the constant-product formula. `None`
    /// when no pool trades the pair, the amount or the input reserve is
    /// zero, or an intermediate product leaves the domain.
    pub fn estimate_swap(&self, from_token: &TokenId, to_token: &TokenId, amount: Amount) -> (r:
        Option<Amount>)
        requires
            self.wf(),
        ensures
            match r {
                Some(q) => self.has_pool(*from_token, *to_token) && (forall|i: int|
                    0 <= i < self.pools@.len() && pool_has_pair(
                        #[trigger] self.pools@[i],
                        *from_token,
                        *to_token,
                    ) ==> spec_estimate(self.pools@[i], token_eq(self.pools@[i].token_a, *from_token), amount.attos as nat)
                        == Some(q.attos as nat)),
                None => !self.has_pool(*from_token, *to_token) || (forall|i: int|
                    0 <= i < self.pools@.len() && pool_has_pair(
                        #[trigger] self.pools@[i],
                        *from_token,
                        *to_token,
                    ) ==> spec_estimate(self.pools@[i], token_eq(self.pools@[i].token_a, *from_token), amount.attos as nat)
                        is None),
            },
    {
        let i = match self.find_pool(from_token, to_token) {
            Some(i) => i,
            None => {
                return None;
            },
        };
        proof {
            assert forall|j: int|
                0 <= j < self.pools@.len() && pool_has_pair(
                    #[trigger] self.pools@[j],
                    *from_token,
                    *to_token,
                ) implies j == i as int by {
                self.lemma_unique_pool(*from_token, *to_token, j, i as int);
            }
        }
        let from_is_a = self.pools[i].token_a.same_asset(from_token);
        let ra = self.pools[i].reserve_a.to_attos();
        let rb = self.pools[i].reserve_b.to_attos();
        let inr = if from_is_a {
            ra
        } else {
            rb
        };
        let outr = if from_is_a {
            rb
        } else {
            ra
        };
        if inr == 0 || amount.is_zero() {
            return None;
        }
        match swap_quote(inr, outr, amount.to_attos(), self.pools[i].fee_rate) {
            Ok((_, q)) => Some(Amount::from_attos(q)),
            Err(_) => None,
        }
    }
}

/// The quote the read-only estimate owes against one pool: the same fee and
/// constant-product formula as the swap itself.
pub open spec fn spec_estimate(p: Pool, from_is_a: bool, amount: nat) -> Option<nat> {
    let inr = inr_of(p, from_is_a);
    let outr = inr_of(p, !from_is_a);
    if inr == 0 || amount == 0 {
        None
    } else if amount * p.fee_rate > u128::MAX {
        None
    } else {
        let x = spec_after_fee(amount, p.fee_rate as nat);
        if inr + x > u128::MAX || outr * x > u128::MAX {
            None
        } else {
            Some(spec_quote(inr, outr, x))
        }
    }
}

} // verus!

verus! {

/// Pool resolution is order-independent: any slot trading `{x, y}` named in
/// one order trades it named in the other, so a pool created for `(x, y)`
/// is the very pool a swap quoting `(y, x)` resolves — there is only one
/// such slot in a well-formed registry.
pub proof fn lemma_pool_resolution_order_independent(s: DexState, x: TokenId, y: TokenId)
    ensures
        s.has_pool(x, y) == s.has_pool(y, x),
        forall|i: int|
            0 <= i < s.pools@.len() ==> pool_has_pair(#[trigger] s.pools@[i], x, y)
                == pool_has_pair(s.pools@[i], y, x),
{
}

/// Any two resolutions of the same unordered pair, in either order, land on
/// the same registry slot.
pub proof fn lemma_same_pool_either_order(s: DexState, x: TokenId, y: TokenId, i: int, j: int)
    requires
        s.wf(),
        0 <= i < s.pools@.len(),
        0 <= j < s.pools@.len(),
        pool_has_pair(s.pools@[i], x, y),
        pool_has_pair(s.pools@[j], y, x),
    ensures
        i == j,
{
    s.lemma_unique_pool(x, y, i, j);
}

/// A successful swap never decreases the reserve product of the pool it
/// trades against, and grows it by less than one unit of the new input
/// reserve: with a fee the product (weakly) rises, and with a zero fee it is
/// preserved up to that rounding sliver.
pub proof fn lemma_swap_preserves_product(
    old_s: DexState,
    new_s: DexState,
    owner: AccountOwner,
    from_token: TokenId,
    to_token: TokenId,
    amount: Amount,
    received: Amount,
    i: int,
)
    requires
        swap_tokens_spec(old_s, new_s, owner, from_token, to_token, amount, Ok(received)),
        0 <= i < old_s.pools@.len(),
        pool_has_pair(old_s.pools@[i], from_token, to_token),
    ensures
        spec_product(new_s.pools@[i]) >= spec_product(old_s.pools@[i]),
        spec_product(new_s.pools@[i]) < spec_product(old_s.pools@[i]) + inr_of(
            old_s.pools@[i],
            token_eq(old_s.pools@[i].token_a, from_token),
        ) + spec_after_fee(amount.attos as nat, old_s.pools@[i].fee_rate as nat),
{
    let p = old_s.pools@[i];
    let from_is_a = token_eq(p.token_a, from_token);
    let x = spec_after_fee(amount.attos as nat, p.fee_rate as nat);
    let np = spec_swapped_pool(p, from_is_a, x, received.attos as nat);
    assert(new_s.pools@ == old_s.pools@.update(i, np));
    assert(new_s.pools@[i] == np);
}

/// The liquidity round-trip law: adding a (b-side at least proportional)
/// deposit and immediately redeeming the freshly minted shares never pays
/// out more than was deposited on either side — rounding cannot favor the
/// caller — and leaves both reserves no smaller than before the deposit.
pub proof fn lemma_liquidity_add_remove_round_trip(
    old_s: DexState,
    mid_s: DexState,
    new_s: DexState,
    owner: AccountOwner,
    token_a: TokenId,
    token_b: TokenId,
    amount_a: Amount,
    amount_b: Amount,
    shares: Amount,
    out_a: Amount,
    out_b: Amount,
    i: int,
)
    requires
        old_s.wf(),
        mid_s.wf(),
        add_liquidity_spec(old_s, mid_s, owner, token_a, token_b, amount_a, amount_b, Ok(shares)),
        remove_liquidity_spec(mid_s, new_s, owner, token_a, token_b, shares, Ok((out_a, out_b))),
        0 <= i < old_s.pools@.len(),
        pool_has_pair(old_s.pools@[i], token_a, token_b),
        ({
            // The deposit is at least proportional on the pool's second side.
            let p = old_s.pools@[i];
            let (da, db) = oriented_deposits(p, token_a, amount_a, amount_b);
            (p.reserve_b.attos as nat) * da <= (p.reserve_a.attos as nat) * db
        }),
    ensures
        out_a.attos <= amount_a.attos,
        out_b.attos <= amount_b.attos,
        new_s.pools@[i].reserve_a.attos >= old_s.pools@[i].reserve_a.attos,
        new_s.pools@[i].reserve_b.attos >= old_s.pools@[i].reserve_b.attos,
        new_s.pools@[i].total_shares.attos == old_s.pools@[i].total_shares.attos,
{
    let p = old_s.pools@[i];
    let (da, db) = oriented_deposits(p, token_a, amount_a, amount_b);
    let mint = shares.attos as nat;
    let ap = spec_added_pool(p, da, db, mint);
    assert(mid_s.pools@ == old_s.pools@.update(i, ap));
    assert(mid_s.pools@[i] == ap);
    assert(pool_has_pair(mid_s.pools@[i], token_a, token_b));
    let s_amt = shares.attos as nat;
    let rp = spec_removed_pool(ap, s_amt);
    assert(new_s.pools@ == mid_s.pools@.update(i, rp));
    assert(new_s.pools@[i] == rp);
    let ra = p.reserve_a.attos as nat;
    let rb = p.reserve_b.attos as nat;
    let ts = p.total_shares.attos as nat;
    let (pa, pb) = spec_remove_payouts(ap, s_amt);
    if ts == 0 {
        // A drained pool is re-seeded: the fresh shares are the whole supply,
        // so redeeming them drains it again, paying out the deposit exactly.
        assert(ra == 0 && rb == 0);
        assert(mint == da);
        assert(ap.total_shares.attos == da && ap.reserve_a.attos == da && ap.reserve_b.attos == db);
        assert((da as int) * (da as int) / (da as int) == da && (db as int) * (da as int) / (
        da as int) == db) by (nonlinear_arith)
            requires
                da > 0;
        assert(pa == da && pb == db);
    } else {
        assert(mint == ts * da / ra);
        crate::math::lemma_liquidity_round_trip(ra as int, rb as int, ts as int, da as int, db as int);
        assert(pa == ((ra + da) as nat) * mint / ((ts + mint) as nat));
    }
    assert(out_a.attos <= amount_a.attos && out_b.attos <= amount_b.attos) by {
        if token_eq(p.token_a, token_a) {
            assert(out_a.attos == pa && out_b.attos == pb);
        } else {
            assert(out_a.attos == pb && out_b.attos == pa);
        }
    }
}

} // verus!

verus! {

impl Default for DexState {
    /// The default engine state is the fresh one.
    fn default() -> (r: DexState)
        ensures
            r.wf(),
            forall|o: AccountOwner, t: TokenId| #[trigger] r.balance_of(o, t) == 0,
            r.pools@.len() == 0,
            r.pending_withdrawals@.len() == 0,
            r.next_withdrawal_id == 0,
    {
        DexState::new()
    }
}

} // verus!

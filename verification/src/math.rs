//! The one ratio routine every proportional computation shares — share
//! minting, share redemption and swap quoting all go through [`mul_div`] —
//! together with the arithmetic facts behind the engine's economic
//! guarantees: a swap never decreases the reserve product, a zero-fee swap
//! preserves it up to bounded rounding, and a liquidity add/remove round trip
//! never pays out more than was put in.

use vstd::arithmetic::div_mod::{
    lemma_fundamental_div_mod, lemma_mod_division_less_than_divisor,
};
use vstd::prelude::*;

use crate::error::DexError;

verus! {

/// `floor(a * b / c)` in unsigned 128-bit arithmetic, multiply before divide,
/// failing instead of wrapping when the intermediate product leaves the
/// domain.
pub fn mul_div(a: u128, b: u128, c: u128) -> (r: Result<u128, DexError>)
    requires
        c > 0,
    ensures
        match r {
            Ok(v) => a * b <= u128::MAX && v == a * b / (c as int),
            Err(e) => e == DexError::ArithmeticOverflow && a * b > u128::MAX,
        },
{
    match checked_mul_u128(a, b) {
        Some(p) => Ok(p / c),
        None => Err(DexError::ArithmeticOverflow),
    }
}

/// Overflow-checked product of two 128-bit values.
pub fn checked_mul_u128(a: u128, b: u128) -> (r: Option<u128>)
    ensures
        match r {
            Some(p) => p == a * b && a * b <= u128::MAX,
            None => a * b > u128::MAX,
        },
{
    if b == 0 {
        assert(a * 0 == 0) by (nonlinear_arith);
        Some(0)
    } else {
        let q = u128::MAX / b;
        proof {
            lemma_fundamental_div_mod(u128::MAX as int, b as int);
            lemma_mod_division_less_than_divisor(u128::MAX as int, b as int);
        }
        if a <= q {
            proof {
                assert(a * b <= q * b) by (nonlinear_arith)
                    requires
                        a <= q,
                        b > 0,
                ;
                assert(q * b <= u128::MAX) by (nonlinear_arith)
                    requires
                        u128::MAX == (b as int) * q + (u128::MAX as int) % (b as int),
                        (u128::MAX as int) % (b as int) >= 0,
                ;
            }
            Some(a * b)
        } else {
            proof {
                assert(a * b > u128::MAX) by (nonlinear_arith)
                    requires
                        a >= q + 1,
                        b > 0,
                        u128::MAX == (b as int) * q + (u128::MAX as int) % (b as int),
                        (u128::MAX as int) % (b as int) < b,
                ;
            }
            None
        }
    }
}

/// Overflow-checked sum of two 128-bit values.
pub fn checked_add_u128(a: u128, b: u128) -> (r: Option<u128>)
    ensures
        match r {
            Some(s) => s == a + b && a + b <= u128::MAX,
            None => a + b > u128::MAX,
        },
{
    if a <= u128::MAX - b {
        Some(a + b)
    } else {
        None
    }
}

/// With a factor no larger than the divisor, `a * b / c` stays below `a`:
/// a proportional payout of at most all shares never exceeds the reserve.
pub proof fn lemma_mul_div_le(a: int, b: int, c: int)
    requires
        0 <= a,
        0 <= b <= c,
        0 < c,
    ensures
        a * b / c <= a,
{
    lemma_fundamental_div_mod(a * b, c);
    lemma_mod_division_less_than_divisor(a * b, c);
    let q = a * b / c;
    assert(q <= a) by (nonlinear_arith)
        requires
            a * b == c * q + (a * b) % c,
            (a * b) % c >= 0,
            0 <= a,
            0 <= b <= c,
            0 < c,
    ;
}

/// The two-sided bound a floored quotient obeys:
/// `q * d <= n < (q + 1) * d` for `q == n / d`.
pub proof fn lemma_div_bounds(n: int, d: int)
    requires
        0 <= n,
        0 < d,
    ensures
        (n / d) * d <= n,
        n < (n / d + 1) * d,
        0 <= n / d,
{
    lemma_fundamental_div_mod(n, d);
    lemma_mod_division_less_than_divisor(n, d);
    assert((n / d) * d <= n && n < (n / d + 1) * d && 0 <= n / d) by (nonlinear_arith)
        requires
            n == d * (n / d) + n % d,
            0 <= n % d < d,
            0 <= n,
            0 < d,
    ;
}

/// The constant-product facts of one swap. With input reserve `input`,
/// output reserve `output`, effective (post-fee) input `x`, and quote
/// `q = floor(output * x / (input + x))`:
/// the quote never reaches the output reserve, the reserve product never
/// decreases, and it grows by less than one unit of the new input reserve —
/// so a zero-fee swap preserves the product up to that rounding sliver.
pub proof fn lemma_swap_product(input: int, output: int, x: int)
    requires
        0 < input,
        0 <= output,
        0 <= x,
    ensures
        output * x / (input + x) <= output,
        output * x / (input + x) < output || output == 0,
        (input + x) * (output - output * x / (input + x)) >= input * output,
        (input + x) * (output - output * x / (input + x)) < input * output + (input + x),
{
    let d = input + x;
    let q = output * x / d;
    lemma_fundamental_div_mod(output * x, d);
    lemma_mod_division_less_than_divisor(output * x, d);
    assert(q <= output && (q < output || output == 0) && d * (output - q) >= input * output && d * (
    output - q) < input * output + d) by (nonlinear_arith)
        requires
            output * x == d * q + (output * x) % d,
            0 <= (output * x) % d < d,
            d == input + x,
            0 < input,
            0 <= output,
            0 <= x,
    ;
}

/// The liquidity round-trip facts. Adding `(da, db)` to a pool holding
/// `(ra, rb)` with `ts` outstanding shares mints `m = floor(ts * da / ra)`
/// shares; immediately redeeming those same `m` shares pays out
/// `pa = floor((ra + da) * m / (ts + m))` and
/// `pb = floor((rb + db) * m / (ts + m))`. Provided the deposit was at least
/// proportional on the `b` side (`rb * da <= ra * db`), neither payout
/// exceeds the matching deposit — rounding never favors the caller — and the
/// `a`-side shortfall is below one unit plus the pool's share of rounding:
/// `(ts + m) * (da - pa) < ra + ts + m`.
pub proof fn lemma_liquidity_round_trip(ra: int, rb: int, ts: int, da: int, db: int)
    requires
        0 < ra,
        0 <= rb,
        0 < ts,
        0 < da,
        0 <= db,
        rb * da <= ra * db,
    ensures
        ({
            let m = ts * da / ra;
            let pa = (ra + da) * m / (ts + m);
            let pb = (rb + db) * m / (ts + m);
            pa <= da && pb <= db && (ts + m) * (da - pa) < ra + ts + m
        }),
{
    let m = ts * da / ra;
    lemma_div_bounds(ts * da, ra);
    assert(0 <= m);
    let s = ts + m;
    let pa = (ra + da) * m / s;
    let pb = (rb + db) * m / s;
    lemma_div_bounds((ra + da) * m, s);
    lemma_div_bounds((rb + db) * m, s);
    // Share minting is a floor, so `m * ra <= ts * da`.
    assert(m * ra <= ts * da) by (nonlinear_arith)
        requires
            (ts * da / ra) * ra <= ts * da,
            m == ts * da / ra,
    ;
    // Payout a: `(ra + da) * m <= da * (ts + m)` follows from `m * ra <= ts * da`,
    // and a floor of something at most `da * s / s` is at most `da`.
    assert(pa <= da) by (nonlinear_arith)
        requires
            m * ra <= ts * da,
            pa * s <= (ra + da) * m,
            (ra + da) * m < (pa + 1) * s,
            s == ts + m,
            0 < ts,
            0 <= m,
            0 < da,
    ;
    // Payout b: the proportionality premise gives `m * rb <= ts * db`.
    assert(m * rb <= ts * db) by (nonlinear_arith)
        requires
            m * ra <= ts * da,
            rb * da <= ra * db,
            0 < ra,
            0 <= rb,
            0 < ts,
            0 < da,
            0 <= db,
            0 <= m,
    ;
    assert(pb <= db) by (nonlinear_arith)
        requires
            m * rb <= ts * db,
            pb * s <= (rb + db) * m,
            (rb + db) * m < (pb + 1) * s,
            s == ts + m,
            0 < ts,
            0 <= m,
            0 <= db,
    ;
    // The a-side shortfall: `m` is within one of `ts * da / ra` exactly, so the
    // redeemed amount misses `da` by less than `1 + ra / s`.
    assert((ts + m) * (da - pa) < ra + ts + m) by (nonlinear_arith)
        requires
            ts * da < (m + 1) * ra,
            pa * s <= (ra + da) * m,
            (ra + da) * m < (pa + 1) * s,
            s == ts + m,
            0 < ra,
            0 < ts,
            0 <= m,
            0 < da,
    ;
}

} // verus!

//! Balance display helpers: exact decimal rendering, compact unit notation
//! (`1.5M`, `20K`, …) with round-half-up at one decimal place, and the user
//! profile that suggests liquidity denominations scaled to a balance.

use vstd::arithmetic::div_mod::{
    lemma_fundamental_div_mod, lemma_hoist_over_denominator, lemma_mod_division_less_than_divisor,
};
use vstd::prelude::*;
use vstd::string::StrSliceExecFns;
use vstd::string::StringExecFns;

use crate::amount::{Amount, ATTOS_PER_TOKEN};

verus! {

/// The decimal digit character for a value below ten.
pub open spec fn digit_char(d: nat) -> char {
    if d == 0 {
        '0'
    } else if d == 1 {
        '1'
    } else if d == 2 {
        '2'
    } else if d == 3 {
        '3'
    } else if d == 4 {
        '4'
    } else if d == 5 {
        '5'
    } else if d == 6 {
        '6'
    } else if d == 7 {
        '7'
    } else if d == 8 {
        '8'
    } else {
        '9'
    }
}

/// The decimal rendering of a natural number, most significant digit first.
pub open spec fn spec_decimal(n: nat) -> Seq<char>
    decreases n,
{
    if n < 10 {
        seq![digit_char(n)]
    } else {
        spec_decimal(n / 10).push(digit_char(n % 10))
    }
}

/// One decimal digit as a string slice.
fn digit_str(d: u128) -> (r: &'static str)
    requires
        d < 10,
    ensures
        r@ == seq![digit_char(d as nat)],
{
    let r: &'static str = match d {
        0 => "0",
        1 => "1",
        2 => "2",
        3 => "3",
        4 => "4",
        5 => "5",
        6 => "6",
        7 => "7",
        8 => "8",
        _ => "9",
    };
    proof {
        reveal_strlit("0");
        reveal_strlit("1");
        reveal_strlit("2");
        reveal_strlit("3");
        reveal_strlit("4");
        reveal_strlit("5");
        reveal_strlit("6");
        reveal_strlit("7");
        reveal_strlit("8");
        reveal_strlit("9");
        assert(r@ =~= seq![digit_char(d as nat)]);
    }
    r
}

/// Renders a number in decimal.
pub fn u128_to_string(n: u128) -> (s: String)
    ensures
        s@ == spec_decimal(n as nat),
    decreases n,
{
    if n < 10 {
        String::from_str(digit_str(n))
    } else {
        let mut s = u128_to_string(n / 10);
        s.append(digit_str(n % 10));
        proof {
            assert(s@ =~= spec_decimal((n / 10) as nat).push(digit_char((n % 10) as nat)));
        }
        s
    }
}

/// The value scaled by a divisor and rounded half-up to tenths.
pub open spec fn spec_round_tenths(value: nat, divisor: nat) -> nat {
    (value * 10 + divisor / 2) / divisor
}

/// A scaled value rendered with its unit suffix: the whole part, a single
/// tenths digit when it is not zero, then the suffix.
pub open spec fn spec_format_scaled(value: nat, divisor: nat, suffix: Seq<char>) -> Seq<char> {
    let tenths = spec_round_tenths(value, divisor);
    if tenths % 10 == 0 {
        spec_decimal(tenths / 10) + suffix
    } else {
        spec_decimal(tenths / 10) + seq!['.'] + seq![digit_char(tenths % 10)] + suffix
    }
}

/// Whether the scaled value rounds into the display band at the top of a
/// unit: at or above 999.95 of it.
pub open spec fn spec_in_band(value: nat, divisor: nat) -> bool {
    20 * value >= 19999 * divisor
}

/// Renders `value / divisor` to one decimal place, half-up, with the suffix.
fn format_scaled(value: u128, divisor: u128, suffix: &str) -> (s: String)
    requires
        divisor >= 1000,
        divisor <= u128::MAX / 20,
        divisor % 2 == 0,
    ensures
        s@ == spec_format_scaled(value as nat, divisor as nat, suffix@),
{
    let q = value / divisor;
    let r = value % divisor;
    proof {
        lemma_fundamental_div_mod(value as int, divisor as int);
        lemma_mod_division_less_than_divisor(value as int, divisor as int);
    }
    // `value * 10 + divisor / 2` hoisted through the quotient so nothing
    // overflows: tenths == q * 10 + (r * 10 + divisor / 2) / divisor.
    let rest = (r * 10 + divisor / 2) / divisor;
    proof {
        let d = divisor as int;
        lemma_hoist_over_denominator(r as int * 10 + d / 2, 10 * q as int, divisor as nat);
        assert(value as int * 10 + d / 2 == (r as int * 10 + d / 2) + (10 * q as int) * d)
            by (nonlinear_arith)
            requires
                value == d * (q as int) + r,
                d == divisor as int;
        assert(rest <= 10) by {
            assert(r as int * 10 + d / 2 <= 11 * d - 1) by (nonlinear_arith)
                requires
                    r < d,
                    d >= 1000;
            vstd::arithmetic::div_mod::lemma_div_is_ordered(
                r as int * 10 + d / 2,
                11 * d - 1,
                d,
            );
            vstd::arithmetic::div_mod::lemma_fundamental_div_mod_converse(
                11 * d - 1,
                d,
                10,
                d - 1,
            );
        }
        assert(q <= u128::MAX / 1000) by {
            vstd::arithmetic::div_mod::lemma_div_is_ordered_by_denominator(
                u128::MAX as int,
                1000,
                d,
            );
            vstd::arithmetic::div_mod::lemma_div_is_ordered(value as int, u128::MAX as int, d);
        }
        assert(q * 10 + 10 <= u128::MAX) by (nonlinear_arith)
            requires
                q <= u128::MAX / 1000,
                (u128::MAX / 1000) * 1000 <= u128::MAX,
        ;
        assert((u128::MAX as int / 1000) * 1000 <= u128::MAX) by {
            lemma_fundamental_div_mod(u128::MAX as int, 1000);
            lemma_mod_division_less_than_divisor(u128::MAX as int, 1000);
        }
    }
    let tenths = q * 10 + rest;
    proof {
        assert(tenths == spec_round_tenths(value as nat, divisor as nat));
    }
    let whole = tenths / 10;
    let frac = tenths % 10;
    let mut s = u128_to_string(whole);
    if frac != 0 {
        s.append(".");
        s.append(digit_str(frac));
    }
    s.append(suffix);
    proof {
        reveal_strlit(".");
        if tenths % 10 == 0 {
            assert(s@ =~= spec_format_scaled(value as nat, divisor as nat, suffix@));
        } else {
            assert(s@ =~= spec_format_scaled(value as nat, divisor as nat, suffix@));
        }
    }
    s
}

/// Decides the top-of-unit band `value / divisor >= 999.95` exactly.
fn in_band(value: u128, divisor: u128) -> (r: bool)
    requires
        divisor >= 1000,
        divisor <= u128::MAX / 20,
        divisor % 20 == 0,
    ensures
        r == spec_in_band(value as nat, divisor as nat),
{
    let q = value / divisor;
    let r2 = value % divisor;
    proof {
        lemma_fundamental_div_mod(value as int, divisor as int);
        lemma_mod_division_less_than_divisor(value as int, divisor as int);
        let d = divisor as int;
        assert((q > 999 || (q == 999 && 20 * r2 >= 19 * d)) == (20 * value as int >= 19999 * d))
            by (nonlinear_arith)
            requires
                value == d * (q as int) + r2,
                0 <= r2 < d,
                d >= 1000,
                0 <= q,
        ;
    }
    q > 999 || (q == 999 && 20 * r2 >= 19 * divisor)
}

} // verus!

verus! {

/// The unit ladder: powers of ten, three apart, each with its suffix.
pub const UNIT_K: u128 = 1_000;

pub const UNIT_M: u128 = 1_000_000;

pub const UNIT_B: u128 = 1_000_000_000;

pub const UNIT_T: u128 = 1_000_000_000_000;

pub const UNIT_Q: u128 = 1_000_000_000_000_000;

pub const UNIT_QI: u128 = 1_000_000_000_000_000_000;

pub const UNIT_S: u128 = 1_000_000_000_000_000_000_000;

pub const UNIT_SP: u128 = 1_000_000_000_000_000_000_000_000;

pub const UNIT_O: u128 = 1_000_000_000_000_000_000_000_000_000;

pub const UNIT_N: u128 = 1_000_000_000_000_000_000_000_000_000_000;

pub const UNIT_D: u128 = 1_000_000_000_000_000_000_000_000_000_000_000;

/// The rendering for one rung of the ladder: a value in the 999.95-band at
/// the top of its unit falls through to the unit paired with it at the
/// mirrored rung of the ladder; every other value is rendered in its own
/// unit.
pub open spec fn spec_pick(
    value: nat,
    divisor: nat,
    suffix: Seq<char>,
    mirror_divisor: nat,
    mirror_suffix: Seq<char>,
) -> Seq<char> {
    if spec_in_band(value, divisor) {
        spec_format_scaled(value, mirror_divisor, mirror_suffix)
    } else {
        spec_format_scaled(value, divisor, suffix)
    }
}

/// Compact unit notation: exact decimal below one thousand, otherwise the
/// largest unit the value reaches, one decimal place, half-up.
pub open spec fn spec_format_units(value: nat) -> Seq<char> {
    if value < 1000 {
        spec_decimal(value)
    } else if value >= UNIT_D {
        spec_pick(value, UNIT_D as nat, "D"@, UNIT_K as nat, "K"@)
    } else if value >= UNIT_N {
        spec_pick(value, UNIT_N as nat, "N"@, UNIT_M as nat, "M"@)
    } else if value >= UNIT_O {
        spec_pick(value, UNIT_O as nat, "O"@, UNIT_B as nat, "B"@)
    } else if value >= UNIT_SP {
        spec_pick(value, UNIT_SP as nat, "Sp"@, UNIT_T as nat, "T"@)
    } else if value >= UNIT_S {
        spec_pick(value, UNIT_S as nat, "S"@, UNIT_Q as nat, "Q"@)
    } else if value >= UNIT_QI {
        spec_pick(value, UNIT_QI as nat, "Qi"@, UNIT_QI as nat, "Qi"@)
    } else if value >= UNIT_Q {
        spec_pick(value, UNIT_Q as nat, "Q"@, UNIT_S as nat, "S"@)
    } else if value >= UNIT_T {
        spec_pick(value, UNIT_T as nat, "T"@, UNIT_SP as nat, "Sp"@)
    } else if value >= UNIT_B {
        spec_pick(value, UNIT_B as nat, "B"@, UNIT_O as nat, "O"@)
    } else if value >= UNIT_M {
        spec_pick(value, UNIT_M as nat, "M"@, UNIT_N as nat, "N"@)
    } else {
        spec_pick(value, UNIT_K as nat, "K"@, UNIT_D as nat, "D"@)
    }
}

/// Renders one rung: the value's own unit, or the mirrored unit inside the
/// top band.
fn pick(value: u128, divisor: u128, suffix: &str, mirror_divisor: u128, mirror_suffix: &str) -> (s:
    String)
    requires
        1000 <= divisor <= u128::MAX / 20,
        divisor % 20 == 0,
        1000 <= mirror_divisor <= u128::MAX / 20,
        mirror_divisor % 20 == 0,
    ensures
        s@ == spec_pick(
            value as nat,
            divisor as nat,
            suffix@,
            mirror_divisor as nat,
            mirror_suffix@,
        ),
{
    if in_band(value, divisor) {
        format_scaled(value, mirror_divisor, mirror_suffix)
    } else {
        format_scaled(value, divisor, suffix)
    }
}

/// Renders a token count compactly: exact decimal below one thousand,
/// otherwise scaled to the largest unit reached, one decimal place, half-up.
pub fn format_amount_units(value: u128) -> (s: String)
    ensures
        s@ == spec_format_units(value as nat),
{
    if value < 1000 {
        u128_to_string(value)
    } else if value >= UNIT_D {
        pick(value, UNIT_D, "D", UNIT_K, "K")
    } else if value >= UNIT_N {
        pick(value, UNIT_N, "N", UNIT_M, "M")
    } else if value >= UNIT_O {
        pick(value, UNIT_O, "O", UNIT_B, "B")
    } else if value >= UNIT_SP {
        pick(value, UNIT_SP, "Sp", UNIT_T, "T")
    } else if value >= UNIT_S {
        pick(value, UNIT_S, "S", UNIT_Q, "Q")
    } else if value >= UNIT_QI {
        pick(value, UNIT_QI, "Qi", UNIT_QI, "Qi")
    } else if value >= UNIT_Q {
        pick(value, UNIT_Q, "Q", UNIT_S, "S")
    } else if value >= UNIT_T {
        pick(value, UNIT_T, "T", UNIT_SP, "Sp")
    } else if value >= UNIT_B {
        pick(value, UNIT_B, "B", UNIT_O, "O")
    } else if value >= UNIT_M {
        pick(value, UNIT_M, "M", UNIT_N, "N")
    } else {
        pick(value, UNIT_K, "K", UNIT_D, "D")
    }
}

} // verus!

verus! {

/// One suggested denomination: the quantity, its rendered text, and whether
/// the balance covers it.
pub struct TokenAmount {
    pub amount: Amount,
    pub text: String,
    pub enable: bool,
}

/// The liquidity suggestions derived from a balance: the smallest suggested
/// denomination, the balance as the maximum, and five scaled suggestions
/// (absent when the balance is below the smallest base).
pub struct LiquidityData {
    pub min_amount: Amount,
    pub max_amount: Amount,
    pub suggested_amounts: Option<[TokenAmount; 5]>,
}

/// A user's balance together with its derived liquidity suggestions.
pub struct UserProfile {
    pub balance: Amount,
    pub liquidity_data: Option<LiquidityData>,
}

/// A product clamped at the top of the 128-bit domain.
pub open spec fn spec_sat_mul(a: nat, b: nat) -> nat {
    if a * b > u128::MAX {
        u128::MAX as nat
    } else {
        a * b
    }
}

/// The base denomination for a balance: one hundred tokens, scaled up
/// tenfold while the balance reaches five hundred of it, stopping when the
/// next step would leave the domain.
pub open spec fn spec_base_level(balance: nat, base: nat) -> nat
    decreases u128::MAX as nat - base
    when 0 < base <= u128::MAX
{
    if balance >= spec_sat_mul(base, 500) {
        if base * 10 > u128::MAX {
            base
        } else {
            spec_base_level(balance, base * 10)
        }
    } else {
        base
    }
}

/// The five suggested denominations: 1, 5, 25, 100 and 250 times the base,
/// each clamped at the top of the domain.
pub open spec fn spec_denom(base: nat, k: int) -> nat {
    if k == 0 {
        base
    } else if k == 1 {
        spec_sat_mul(base, 5)
    } else if k == 2 {
        spec_sat_mul(base, 25)
    } else if k == 3 {
        spec_sat_mul(base, 100)
    } else {
        spec_sat_mul(base, 250)
    }
}

/// What the derived liquidity data of a balance looks like: below one
/// hundred tokens only the bounds, otherwise the five suggestions with their
/// rendered token counts and affordability flags.
pub open spec fn spec_liquidity_for(balance: Amount, ld: Option<LiquidityData>) -> bool {
    if balance.attos < 100 * ATTOS_PER_TOKEN {
        ld matches Some(l) && l.min_amount.attos == 0 && l.max_amount == balance
            && l.suggested_amounts is None
    } else {
        ld matches Some(l) && {
            let base = spec_base_level(balance.attos as nat, (100 * ATTOS_PER_TOKEN) as nat);
            &&& l.min_amount.attos == base
            &&& l.max_amount == balance
            &&& l.suggested_amounts matches Some(arr) && (forall|k: int|
                0 <= k < 5 ==> {
                    let dk = spec_denom(base, k);
                    (#[trigger] arr@[k]).amount.attos == dk && arr@[k].text@ == spec_format_units(
                        dk / (ATTOS_PER_TOKEN as nat),
                    ) && arr@[k].enable == (dk <= balance.attos)
                })
        }
    }
}

impl UserProfile {
    /// Replaces the balance, leaving the derived data untouched.
    pub fn update_balance(&mut self, amount: Amount)
        ensures
            final(self).balance == amount,
            final(self).liquidity_data == old(self).liquidity_data,
    {
        self.balance = amount
    }

    /// Derives the liquidity suggestions for the current balance.
    pub fn calculate_liquidity_data(&mut self)
        ensures
            final(self).balance == old(self).balance,
            spec_liquidity_for(old(self).balance, final(self).liquidity_data),
    {
        let base0 = Amount::from_tokens(100);
        if self.balance.to_attos() < base0.to_attos() {
            self.liquidity_data = Some(
                LiquidityData {
                    min_amount: Amount::zero(),
                    max_amount: self.balance,
                    suggested_amounts: None,
                },
            );
            return;
        }
        let ghost balance0 = self.balance;
        let mut base = base0;
        loop
            invariant
                0 < base.attos,
                self.balance == balance0,
                self.liquidity_data == old(self).liquidity_data,
                self.balance == old(self).balance,
                spec_base_level(self.balance.attos as nat, base.attos as nat) == spec_base_level(
                    self.balance.attos as nat,
                    base0.attos as nat,
                ),
            ensures
                0 < base.attos,
                self.balance == balance0,
                self.liquidity_data == old(self).liquidity_data,
                self.balance == old(self).balance,
                base.attos == spec_base_level(self.balance.attos as nat, base0.attos as nat),
            decreases u128::MAX - base.attos,
        {
            let cap = match base.try_mul(500) {
                Some(v) => v,
                None => Amount::max_amount(),
            };
            if self.balance.to_attos() < cap.to_attos() {
                break;
            }
            match base.try_mul(10) {
                Some(next) => {
                    base = next;
                },
                None => {
                    break;
                },
            }
        }
        let d0 = base;
        let d1 = base.saturating_mul(5);
        let d2 = base.saturating_mul(25);
        let d3 = base.saturating_mul(100);
        let d4 = base.saturating_mul(250);
        let t0 = format_amount_units(d0.saturating_div(ATTOS_PER_TOKEN));
        let t1 = format_amount_units(d1.saturating_div(ATTOS_PER_TOKEN));
        let t2 = format_amount_units(d2.saturating_div(ATTOS_PER_TOKEN));
        let t3 = format_amount_units(d3.saturating_div(ATTOS_PER_TOKEN));
        let t4 = format_amount_units(d4.saturating_div(ATTOS_PER_TOKEN));
        let e0 = d0.to_attos() <= self.balance.to_attos();
        let e1 = d1.to_attos() <= self.balance.to_attos();
        let e2 = d2.to_attos() <= self.balance.to_attos();
        let e3 = d3.to_attos() <= self.balance.to_attos();
        let e4 = d4.to_attos() <= self.balance.to_attos();
        let suggested: [TokenAmount; 5] = [
            TokenAmount { amount: d0, text: t0, enable: e0 },
            TokenAmount { amount: d1, text: t1, enable: e1 },
            TokenAmount { amount: d2, text: t2, enable: e2 },
            TokenAmount { amount: d3, text: t3, enable: e3 },
            TokenAmount { amount: d4, text: t4, enable: e4 },
        ];
        self.liquidity_data = Some(
            LiquidityData {
                min_amount: d0,
                max_amount: self.balance,
                suggested_amounts: Some(suggested),
            },
        );
    }

    /// Discards the derived liquidity data.
    pub fn clear_liquidity_data(&mut self)
        ensures
            final(self).liquidity_data is None,
            final(self).balance == old(self).balance,
    {
        self.liquidity_data = None
    }
}

} // verus!

verus! {

impl Default for UserProfile {
    /// A profile starts with no balance and no derived data.
    fn default() -> (r: UserProfile)
        ensures
            r.balance.attos == 0,
            r.liquidity_data is None,
    {
        UserProfile { balance: Amount::zero(), liquidity_data: None }
    }
}

} // verus!

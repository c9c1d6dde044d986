//! The unit of all value: a non-negative 128-bit fixed-point quantity counted
//! in attos (the smallest indivisible unit; one whole token is `10^18` attos).

use vstd::prelude::*;

verus! {

/// Number of attos in one whole token.
pub const ATTOS_PER_TOKEN: u128 = 1_000_000_000_000_000_000;

/// A non-negative fixed-granularity quantity of some token, counted in attos.
#[derive(Clone, Copy, Debug, PartialEq, Eq, Structural, Hash, PartialOrd, Ord)]
pub struct Amount {
    pub attos: u128,
}

impl Amount {
    /// The zero quantity.
    pub fn zero() -> (r: Amount)
        ensures
            r.attos == 0,
    {
        Amount { attos: 0 }
    }

    /// One whole token.
    pub fn one() -> (r: Amount)
        ensures
            r.attos == ATTOS_PER_TOKEN,
    {
        Amount { attos: ATTOS_PER_TOKEN }
    }

    /// The largest representable quantity.
    pub fn max_amount() -> (r: Amount)
        ensures
            r.attos == u128::MAX,
    {
        Amount { attos: u128::MAX }
    }

    /// Builds a quantity directly from a count of attos.
    pub fn from_attos(attos: u128) -> (r: Amount)
        ensures
            r.attos == attos,
    {
        Amount { attos }
    }

    /// Builds a quantity from a count of whole tokens.
    pub fn from_tokens(tokens: u128) -> (r: Amount)
        requires
            tokens * ATTOS_PER_TOKEN <= u128::MAX,
        ensures
            r.attos == tokens * ATTOS_PER_TOKEN,
    {
        proof {
            assert(tokens * ATTOS_PER_TOKEN == ATTOS_PER_TOKEN * tokens) by (nonlinear_arith);
        }
        Amount { attos: tokens * ATTOS_PER_TOKEN }
    }

    /// The raw atto count.
    pub fn to_attos(&self) -> (r: u128)
        ensures
            r == self.attos,
    {
        self.attos
    }

    /// True exactly on the zero quantity.
    pub fn is_zero(&self) -> (r: bool)
        ensures
            r == (self.attos == 0),
    {
        self.attos == 0
    }

    /// Addition that clamps at the top of the domain instead of overflowing.
    pub fn saturating_add(self, other: Amount) -> (r: Amount)
        ensures
            r.attos == if self.attos + other.attos <= u128::MAX {
                self.attos + other.attos
            } else {
                u128::MAX as int
            },
    {
        if self.attos <= u128::MAX - other.attos {
            Amount { attos: self.attos + other.attos }
        } else {
            Amount { attos: u128::MAX }
        }
    }

    /// Subtraction that clamps at zero instead of underflowing.
    pub fn saturating_sub(self, other: Amount) -> (r: Amount)
        ensures
            r.attos == if self.attos >= other.attos {
                self.attos - other.attos
            } else {
                0int
            },
    {
        if self.attos >= other.attos {
            Amount { attos: self.attos - other.attos }
        } else {
            Amount { attos: 0 }
        }
    }

    /// Multiplication by a scalar, clamping at the top of the domain.
    pub fn saturating_mul(self, factor: u128) -> (r: Amount)
        ensures
            r.attos == if self.attos * factor <= u128::MAX {
                self.attos * factor
            } else {
                u128::MAX as int
            },
    {
        match self.checked_mul_scalar(factor) {
            Some(v) => v,
            None => Amount { attos: u128::MAX },
        }
    }

    /// Division by a positive scalar; the result is a plain scalar count.
    pub fn saturating_div(self, divisor: u128) -> (r: u128)
        requires
            divisor > 0,
        ensures
            r == self.attos / divisor,
    {
        self.attos / divisor
    }

    /// Addition that reports overflow instead of wrapping or clamping.
    pub fn checked_add(self, other: Amount) -> (r: Option<Amount>)
        ensures
            match r {
                Some(v) => self.attos + other.attos <= u128::MAX && v.attos == self.attos
                    + other.attos,
                None => self.attos + other.attos > u128::MAX,
            },
    {
        if self.attos <= u128::MAX - other.attos {
            Some(Amount { attos: self.attos + other.attos })
        } else {
            None
        }
    }

    /// Subtraction that reports underflow instead of wrapping or clamping.
    pub fn checked_sub(self, other: Amount) -> (r: Option<Amount>)
        ensures
            match r {
                Some(v) => self.attos >= other.attos && v.attos == self.attos - other.attos,
                None => self.attos < other.attos,
            },
    {
        if self.attos >= other.attos {
            Some(Amount { attos: self.attos - other.attos })
        } else {
            None
        }
    }

    /// Multiplication by a scalar that reports overflow instead of clamping.
    pub fn try_mul(self, factor: u128) -> (r: Option<Amount>)
        ensures
            match r {
                Some(v) => self.attos * factor <= u128::MAX && v.attos == self.attos * factor,
                None => self.attos * factor > u128::MAX,
            },
    {
        self.checked_mul_scalar(factor)
    }

    /// Shared overflow-checked scalar multiplication.
    fn checked_mul_scalar(self, factor: u128) -> (r: Option<Amount>)
        ensures
            match r {
                Some(v) => self.attos * factor <= u128::MAX && v.attos == self.attos * factor,
                None => self.attos * factor > u128::MAX,
            },
    {
        if factor == 0 {
            assert(self.attos * 0 == 0) by (nonlinear_arith);
            Some(Amount { attos: 0 })
        } else if self.attos <= u128::MAX / factor {
            proof {
                let q = u128::MAX as int / factor as int;
                assert(self.attos * factor <= q * factor) by (nonlinear_arith)
                    requires
                        self.attos <= q,
                        factor > 0,
                ;
                assert(q * factor <= u128::MAX) by (nonlinear_arith)
                    requires
                        q == u128::MAX as int / factor as int,
                        factor > 0,
                ;
            }
            Some(Amount { attos: self.attos * factor })
        } else {
            proof {
                let q = u128::MAX as int / factor as int;
                assert(self.attos * factor > u128::MAX) by (nonlinear_arith)
                    requires
                        self.attos > q,
                        q == u128::MAX as int / factor as int,
                        factor > 0,
                ;
            }
            None
        }
    }
}

} // verus!

//! Canonical, totally-ordered identifiers for fungible assets. The order is
//! what makes pool keys canonical: a pair of distinct tokens has exactly one
//! sorted form, so requests naming the tokens in either order resolve to the
//! same pool.

use vstd::prelude::*;

verus! {

/// The chain a token lives on.
#[derive(Clone, Copy, Debug, PartialEq, Eq, Structural, Hash, PartialOrd, Ord)]
pub enum ChainType {
    Ethereum,
    Polygon,
    Base,
    Bitcoin,
    Solana,
}

/// The position of a chain in the total order on [`ChainType`].
pub open spec fn spec_chain_rank(c: ChainType) -> int {
    match c {
        ChainType::Ethereum => 0,
        ChainType::Polygon => 1,
        ChainType::Base => 2,
        ChainType::Bitcoin => 3,
        ChainType::Solana => 4,
    }
}

/// Computes the rank of a chain in the total order.
pub fn chain_rank(c: ChainType) -> (r: u8)
    ensures
        r == spec_chain_rank(c),
{
    match c {
        ChainType::Ethereum => 0,
        ChainType::Polygon => 1,
        ChainType::Base => 2,
        ChainType::Bitcoin => 3,
        ChainType::Solana => 4,
    }
}

/// Strict lexicographic order on character sequences: a proper prefix comes
/// first, otherwise the first differing character decides by code point.
pub open spec fn str_lt(a: Seq<char>, b: Seq<char>) -> bool
    decreases a.len(),
{
    if b.len() == 0 {
        false
    } else if a.len() == 0 {
        true
    } else if a[0] != b[0] {
        (a[0] as u32) < (b[0] as u32)
    } else {
        str_lt(a.drop_first(), b.drop_first())
    }
}

/// The order on character sequences is a strict total order: for any two
/// sequences exactly one of `str_lt(a, b)`, `str_lt(b, a)`, `a == b` holds.
pub proof fn lemma_str_lt_trichotomy(a: Seq<char>, b: Seq<char>)
    ensures
        str_lt(a, b) || str_lt(b, a) || a == b,
        str_lt(a, b) ==> !str_lt(b, a) && a != b,
        str_lt(b, a) ==> !str_lt(a, b) && a != b,
    decreases a.len(),
{
    if a.len() == 0 && b.len() == 0 {
        assert(a =~= b);
    } else if a.len() == 0 || b.len() == 0 {
        assert(a.len() != b.len());
    } else if a[0] != b[0] {
        vstd::utf8::char_u32_cast(a[0], a[0] as u32);
        vstd::utf8::char_u32_cast(b[0], b[0] as u32);
        assert((a[0] as u32) != (b[0] as u32));
    } else {
        lemma_str_lt_trichotomy(a.drop_first(), b.drop_first());
        if a.drop_first() == b.drop_first() {
            assert forall|j: int| 0 <= j < a.len() implies a[j] == b[j] by {
                if j > 0 {
                    assert(a[j] == a.drop_first()[j - 1]);
                    assert(b[j] == b.drop_first()[j - 1]);
                }
            }
            assert(a =~= b);
        }
        if a == b {
            assert(a.drop_first() =~= b.drop_first());
        }
    }
}

/// Identifies a fungible asset: the chain it lives on, its contract address
/// there, and its display symbol. Two values name the same asset exactly when
/// all three fields agree.
#[derive(Debug, PartialEq, Eq, Hash)]
pub struct TokenId {
    pub chain: ChainType,
    pub address: String,
    pub symbol: String,
}

impl Clone for TokenId {
    /// Cloning preserves the identifier exactly.
    fn clone(&self) -> (r: TokenId)
        ensures
            r == *self,
    {
        TokenId { chain: self.chain, address: self.address.clone(), symbol: self.symbol.clone() }
    }
}

/// Whether two identifiers name the same asset: full field equality.
pub open spec fn token_eq(a: TokenId, b: TokenId) -> bool {
    a.chain == b.chain && a.address@ == b.address@ && a.symbol@ == b.symbol@
}

/// The strict total order on token identifiers: by chain rank, then address,
/// then symbol, each lexicographically.
pub open spec fn token_lt(a: TokenId, b: TokenId) -> bool {
    ||| spec_chain_rank(a.chain) < spec_chain_rank(b.chain)
    ||| (a.chain == b.chain && str_lt(a.address@, b.address@))
    ||| (a.chain == b.chain && a.address@ == b.address@ && str_lt(a.symbol@, b.symbol@))
}

/// For any two token identifiers exactly one of `token_lt(a, b)`,
/// `token_lt(b, a)`, `token_eq(a, b)` holds.
pub proof fn lemma_token_lt_trichotomy(a: TokenId, b: TokenId)
    ensures
        token_lt(a, b) || token_lt(b, a) || token_eq(a, b),
        token_lt(a, b) ==> !token_lt(b, a) && !token_eq(a, b),
        token_lt(b, a) ==> !token_lt(a, b) && !token_eq(a, b),
{
    if a.chain == b.chain {
        lemma_str_lt_trichotomy(a.address@, b.address@);
        if a.address@ == b.address@ {
            lemma_str_lt_trichotomy(a.symbol@, b.symbol@);
        }
    }
}

impl TokenId {
    /// Decides whether two identifiers name the same asset.
    pub fn same_asset(&self, other: &TokenId) -> (r: bool)
        ensures
            r == token_eq(*self, *other),
    {
        self.chain == other.chain && self.address == other.address && self.symbol == other.symbol
    }

    /// Decides the strict total order on identifiers.
    pub fn lt(&self, other: &TokenId) -> (r: bool)
        ensures
            r == token_lt(*self, *other),
    {
        let ra = chain_rank(self.chain);
        let rb = chain_rank(other.chain);
        if ra < rb {
            true
        } else if rb < ra {
            false
        } else if str_lt_exec(self.address.as_str(), other.address.as_str()) {
            true
        } else if !(self.address == other.address) {
            proof {
                lemma_str_lt_trichotomy(self.address@, other.address@);
            }
            false
        } else {
            str_lt_exec(self.symbol.as_str(), other.symbol.as_str())
        }
    }
}

/// Decides the lexicographic order on string slices.
pub fn str_lt_exec(a: &str, b: &str) -> (r: bool)
    ensures
        r == str_lt(a@, b@),
{
    let alen = a.unicode_len();
    let blen = b.unicode_len();
    let mut i: usize = 0;
    proof {
        assert(a@.skip(0) =~= a@);
        assert(b@.skip(0) =~= b@);
    }
    loop
        invariant
            i <= alen,
            i <= blen,
            alen == a@.len(),
            blen == b@.len(),
            str_lt(a@, b@) == str_lt(a@.skip(i as int), b@.skip(i as int)),
        decreases blen - i,
    {
        if i == blen {
            return false;
        }
        if i == alen {
            return true;
        }
        let ca = a.get_char(i);
        let cb = b.get_char(i);
        if ca as u32 != cb as u32 {
            assert(a@.skip(i as int)[0] == ca && b@.skip(i as int)[0] == cb);
            return (ca as u32) < (cb as u32);
        }
        proof {
            assert(a@.skip(i as int)[0] == ca && b@.skip(i as int)[0] == cb);
            vstd::utf8::char_u32_cast(ca, ca as u32);
            vstd::utf8::char_u32_cast(cb, cb as u32);
            assert(ca == cb);
            assert(a@.skip(i as int).drop_first() =~= a@.skip(i + 1));
            assert(b@.skip(i as int).drop_first() =~= b@.skip(i + 1));
        }
        i = i + 1;
    }
}

} // verus!

//! The bridge tracker: the record types and value logic for following
//! deposit events on an external chain and for withdrawal intents flowing
//! the other way. Reading the chain itself is the host's work; what is
//! verified here is the shaping of its answers — event rows from raw log
//! parts, decimal nonce parsing, the query text — and the tracked state.

use vstd::prelude::*;
use vstd::string::StrSliceExecFns;
use vstd::string::StringExecFns;

use crate::profile::{spec_decimal, u128_to_string};

verus! {

/// Marker type naming the tracker's operation interface.
pub struct BridgeTrackerAbi;

/// The tracker's requests.
pub enum Operation {
    /// Read bridge contract events up to a block.
    UpdateDeposits { to_block: u64 },
    /// Process one withdrawal request.
    ProcessWithdrawal { user: String, token: String, amount: String, nonce: u64 },
}

/// What the tracker is instantiated with: where to read, and from which
/// block on.
pub struct InstantiationArgument {
    pub ethereum_endpoint: String,
    pub bridge_contract: String,
    pub usdc_contract: String,
    pub start_block: u64,
}

/// One deposit observed on the external chain.
pub struct DepositEvent {
    pub user: String,
    pub token: String,
    pub amount: String,
    pub nonce: u64,
    pub block_number: u64,
}

/// One withdrawal intent awaiting external settlement.
pub struct WithdrawalRequest {
    pub user: String,
    pub token: String,
    pub amount: String,
    pub nonce: u64,
    pub processed: bool,
}

/// Whether a character is a decimal digit.
pub open spec fn is_digit(c: char) -> bool {
    48 <= c as u32 <= 57
}

/// The numeric value of a digit character.
pub open spec fn char_digit(c: char) -> nat {
    (c as u32 - 48) as nat
}

/// The value of a digit string, most significant digit first.
pub open spec fn spec_digits_val(s: Seq<char>) -> nat
    decreases s.len(),
{
    if s.len() == 0 {
        0
    } else {
        spec_digits_val(s.drop_last()) * 10 + char_digit(s.last())
    }
}

/// The digit part of a numeral: everything after an optional leading plus.
pub open spec fn spec_numeral_digits(s: Seq<char>) -> Seq<char> {
    if s.len() > 0 && s[0] == '+' {
        s.drop_first()
    } else {
        s
    }
}

/// Whether a string is a decimal `u64` numeral: an optional leading plus,
/// then one or more digits, with a value that fits.
pub open spec fn spec_u64_numeral(s: Seq<char>) -> bool {
    let digits = spec_numeral_digits(s);
    &&& digits.len() > 0
    &&& (forall|i: int| 0 <= i < digits.len() ==> is_digit(#[trigger] digits[i]))
    &&& spec_digits_val(digits) <= u64::MAX
}

/// The value of a numeral, or zero for anything that is not one.
pub open spec fn spec_parse_u64_or_zero(s: Seq<char>) -> nat {
    if spec_u64_numeral(s) {
        spec_digits_val(spec_numeral_digits(s))
    } else {
        0
    }
}

/// A longer digit prefix never has a smaller value.
proof fn lemma_digits_val_take_le(s: Seq<char>, k: int)
    requires
        0 <= k <= s.len(),
    ensures
        spec_digits_val(s.take(k)) <= spec_digits_val(s),
    decreases s.len() - k,
{
    if k == s.len() {
        assert(s.take(k) =~= s);
    } else {
        assert(s.take(k + 1).drop_last() =~= s.take(k));
        assert(s.take(k + 1).last() == s[k]);
        assert(spec_digits_val(s.take(k + 1)) == spec_digits_val(s.take(k)) * 10 + char_digit(
            s[k],
        ));
        assert(spec_digits_val(s.take(k)) <= spec_digits_val(s.take(k)) * 10) by (nonlinear_arith);
        lemma_digits_val_take_le(s, k + 1);
    }
}

/// Parses a decimal `u64` numeral: an optional leading plus, then digits.
/// Returns the value exactly when the text is such a numeral and its value
/// fits; `None` otherwise.
pub fn parse_u64(s: &str) -> (r: Option<u64>)
    ensures
        match r {
            Some(v) => spec_u64_numeral(s@) && v == spec_digits_val(spec_numeral_digits(s@)),
            None => !spec_u64_numeral(s@),
        },
{
    let n = s.unicode_len();
    if n == 0 {
        return None;
    }
    let first = s.get_char(0);
    let start: usize = if first as u32 == 43 {
        1
    } else {
        0
    };
    proof {
        vstd::utf8::char_u32_cast(first, first as u32);
        reveal_strlit("+");
        assert((first as u32 == 43) == (s@[0] == '+')) by {
            if first as u32 == 43 {
                assert(first == (43u32 as char));
                assert('+' as u32 == 43);
                vstd::utf8::char_u32_cast('+', 43);
            }
        }
        assert(spec_numeral_digits(s@) =~= s@.skip(start as int));
    }
    if n == start {
        return None;
    }
    let ghost digits = s@.skip(start as int);
    let mut acc: u64 = 0;
    let mut i: usize = start;
    while i < n
        invariant
            start <= i <= n,
            n == s@.len(),
            start <= 1,
            digits == s@.skip(start as int),
            digits == spec_numeral_digits(s@),
            digits.len() == n - start,
            forall|j: int| 0 <= j < i - start ==> is_digit(#[trigger] digits[j]),
            acc == spec_digits_val(digits.take(i - start)),
        decreases n - i,
    {
        let c = s.get_char(i);
        let cu = c as u32;
        if cu < 48 || cu > 57 {
            proof {
                assert(digits[i - start] == s@[i as int]);
                assert(!is_digit(digits[i - start]));
            }
            return None;
        }
        let d = (cu - 48) as u64;
        proof {
            assert(digits[i - start] == s@[i as int]);
            assert(is_digit(digits[i - start]));
            assert(char_digit(digits[i - start]) == d);
            assert(digits.take(i - start + 1).drop_last() =~= digits.take(i - start));
            assert(digits.take(i - start + 1).last() == digits[i - start]);
        }
        if acc > (u64::MAX - d) / 10 {
            proof {
                let k = i - start;
                assert(acc * 10 + d > u64::MAX) by (nonlinear_arith)
                    requires
                        acc > (u64::MAX - d) / 10,
                        ((u64::MAX - d) as int / 10) * 10 + (u64::MAX - d) as int % 10 == (u64::MAX
                            - d) as int,
                        0 <= (u64::MAX - d) as int % 10 < 10,
                        d <= 9,
                ;
                vstd::arithmetic::div_mod::lemma_fundamental_div_mod((u64::MAX - d) as int, 10);
                vstd::arithmetic::div_mod::lemma_mod_division_less_than_divisor(
                    (u64::MAX - d) as int,
                    10,
                );
                assert(spec_digits_val(digits.take(k + 1)) > u64::MAX);
                lemma_digits_val_take_le(digits, k + 1);
            }
            return None;
        }
        proof {
            vstd::arithmetic::div_mod::lemma_fundamental_div_mod((u64::MAX - d) as int, 10);
            vstd::arithmetic::div_mod::lemma_mod_division_less_than_divisor(
                (u64::MAX - d) as int,
                10,
            );
            assert(acc * 10 + d <= u64::MAX) by (nonlinear_arith)
                requires
                    acc <= (u64::MAX - d) / 10,
                    ((u64::MAX - d) as int / 10) * 10 + (u64::MAX - d) as int % 10 == (u64::MAX
                        - d) as int,
                    0 <= (u64::MAX - d) as int % 10 < 10,
                    d <= 9,
            ;
        }
        acc = acc * 10 + d;
        i = i + 1;
    }
    proof {
        assert(digits.take(n - start) =~= digits);
    }
    Some(acc)
}

/// Shapes one raw event log into a deposit row: the indexed topics carry the
/// user, the token and the nonce; the data field carries the amount. A nonce
/// that is not a decimal numeral becomes zero.
pub fn deposit_event_from_log(topics: &Vec<String>, data: String, block_number: u64) -> (r:
    DepositEvent)
    requires
        topics@.len() >= 4,
    ensures
        r.user@ == topics@[1]@,
        r.token@ == topics@[2]@,
        r.amount@ == data@,
        r.nonce == spec_parse_u64_or_zero(topics@[3]@),
        r.block_number == block_number,
{
    let nonce = match parse_u64(topics[3].as_str()) {
        Some(v) => v,
        None => 0,
    };
    DepositEvent {
        user: topics[1].clone(),
        token: topics[2].clone(),
        amount: data,
        nonce,
        block_number,
    }
}

/// The query text that asks the service for deposit events up to a block.
pub fn deposit_events_query(end_block: u64) -> (r: String)
    ensures
        r@ == "query { readDepositEvents(endBlock: "@ + spec_decimal(end_block as nat) + ") }"@,
{
    let mut s = String::from_str("query { readDepositEvents(endBlock: ");
    let num = u128_to_string(end_block as u128);
    s.append(num.as_str());
    s.append(") }");
    s
}

/// One tracked balance row: (user, token) to a decimal balance string.
pub struct TrackedBalance {
    pub user: String,
    pub token: String,
    pub balance: String,
}

/// The tracker's state: where it reads, from which block, and what it has
/// seen.
pub struct BridgeTrackerState {
    pub ethereum_endpoint: String,
    pub bridge_contract: String,
    pub usdc_contract: String,
    pub start_block: u64,
    pub deposits: Vec<DepositEvent>,
    pub withdrawals: Vec<WithdrawalRequest>,
    pub user_balances: Vec<TrackedBalance>,
}

/// The balance string a row sequence gives to a (user, token) key: the first
/// matching row's balance, or the empty string.
pub open spec fn tracked_balance_in(s: Seq<TrackedBalance>, user: Seq<char>, token: Seq<char>) -> Seq<char>
    decreases s.len(),
{
    if s.len() == 0 {
        Seq::empty()
    } else if s[0].user@ == user && s[0].token@ == token {
        s[0].balance@
    } else {
        tracked_balance_in(s.drop_first(), user, token)
    }
}

impl BridgeTrackerState {
    /// A fresh tracker with nothing configured and nothing seen.
    pub fn new() -> (r: BridgeTrackerState)
        ensures
            r.ethereum_endpoint@.len() == 0,
            r.bridge_contract@.len() == 0,
            r.usdc_contract@.len() == 0,
            r.start_block == 0,
            r.deposits@.len() == 0,
            r.withdrawals@.len() == 0,
            r.user_balances@.len() == 0,
    {
        BridgeTrackerState {
            ethereum_endpoint: String::new(),
            bridge_contract: String::new(),
            usdc_contract: String::new(),
            start_block: 0,
            deposits: Vec::new(),
            withdrawals: Vec::new(),
            user_balances: Vec::new(),
        }
    }

    /// Adopts the instantiation argument: endpoint, contracts and starting
    /// block.
    pub fn instantiate(&mut self, argument: InstantiationArgument)
        ensures
            final(self).ethereum_endpoint == argument.ethereum_endpoint,
            final(self).bridge_contract == argument.bridge_contract,
            final(self).usdc_contract == argument.usdc_contract,
            final(self).start_block == argument.start_block,
            final(self).deposits == old(self).deposits,
            final(self).withdrawals == old(self).withdrawals,
            final(self).user_balances == old(self).user_balances,
    {
        self.ethereum_endpoint = argument.ethereum_endpoint;
        self.bridge_contract = argument.bridge_contract;
        self.usdc_contract = argument.usdc_contract;
        self.start_block = argument.start_block;
    }

    /// A user's tracked balance of a token, the empty string when unknown.
    pub fn user_balance(&self, user: &String, token: &String) -> (r: String)
        ensures
            r@ == tracked_balance_in(self.user_balances@, user@, token@),
    {
        let n = self.user_balances.len();
        let mut i: usize = 0;
        proof {
            assert(self.user_balances@.skip(0) =~= self.user_balances@);
        }
        loop
            invariant
                i <= n,
                n == self.user_balances@.len(),
                tracked_balance_in(self.user_balances@, user@, token@) == tracked_balance_in(
                    self.user_balances@.skip(i as int),
                    user@,
                    token@,
                ),
            decreases n - i,
        {
            if i == n {
                proof {
                    assert(self.user_balances@.skip(i as int) =~= Seq::<TrackedBalance>::empty());
                }
                return String::new();
            }
            let row = &self.user_balances[i];
            proof {
                assert(self.user_balances@.skip(i as int)[0] == self.user_balances@[i as int]);
                assert(self.user_balances@.skip(i as int).drop_first() =~= self.user_balances@.skip(
                    i + 1,
                ));
            }
            if row.user == *user && row.token == *token {
                return row.balance.clone();
            }
            i = i + 1;
        }
    }
}

} // verus!

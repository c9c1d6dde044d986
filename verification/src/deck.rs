//! Blackjack hand valuation over a 52-card encoding: cards are numbered by
//! suit blocks of thirteen (1–13 spades, 14–26 hearts, 27–39 diamonds,
//! 40–52 clubs), so a card's rank is its position within its block. Aces
//! count eleven, falling back to one while the hand would bust.

use vstd::prelude::*;

verus! {

/// A card's blackjack value: rank 1 (ace) is eleven, ranks ten and above
/// (ten and face cards) are ten, the rest count their rank.
pub open spec fn spec_card_value(card: u8) -> nat {
    let rank = ((card + 12) % 13 + 1) as nat;
    if rank == 1 {
        11
    } else if rank >= 10 {
        10
    } else {
        rank
    }
}

/// Whether a card is an ace.
pub open spec fn spec_is_ace(card: u8) -> bool {
    (card + 12) % 13 + 1 == 1
}

/// The hand's total with every ace counted as eleven.
pub open spec fn spec_raw_total(hand: Seq<u8>) -> nat
    decreases hand.len(),
{
    if hand.len() == 0 {
        0
    } else {
        spec_raw_total(hand.drop_last()) + spec_card_value(hand.last())
    }
}

/// How many aces the hand holds.
pub open spec fn spec_ace_count(hand: Seq<u8>) -> nat
    decreases hand.len(),
{
    if hand.len() == 0 {
        0
    } else {
        spec_ace_count(hand.drop_last()) + if spec_is_ace(hand.last()) {
            1nat
        } else {
            0nat
        }
    }
}

/// The ace fallback: while the total busts and an eleven-valued ace remains,
/// count that ace as one instead.
pub open spec fn spec_adjust(total: nat, aces: nat) -> nat
    decreases aces,
{
    if total > 21 && aces > 0 {
        spec_adjust((total - 10) as nat, (aces - 1) as nat)
    } else {
        total
    }
}

/// The value of a whole hand.
pub open spec fn spec_hand_value(hand: Seq<u8>) -> nat {
    spec_adjust(spec_raw_total(hand), spec_ace_count(hand))
}

/// Computes the blackjack value of a hand of cards.
pub fn calculate_hand_value(hand: &Vec<u8>) -> (r: u128)
    ensures
        r == spec_hand_value(hand@),
{
    let n = hand.len();
    let mut total: u128 = 0;
    let mut aces: u128 = 0;
    let mut i: usize = 0;
    while i < n
        invariant
            i <= n,
            n == hand@.len(),
            total == spec_raw_total(hand@.take(i as int)),
            aces == spec_ace_count(hand@.take(i as int)),
            total <= 11 * i,
            aces <= i,
        decreases n - i,
    {
        let card = hand[i];
        let rank = (card % 13 + 12) % 13 + 1;
        proof {
            assert(hand@.take(i + 1).drop_last() =~= hand@.take(i as int));
            assert(hand@.take(i + 1).last() == hand@[i as int]);
            vstd::arithmetic::div_mod::lemma_add_mod_noop(card as int, 12, 13);
            assert((card % 13 + 12) % 13 == (card + 12) % 13);
        }
        if rank == 1 {
            total = total + 11;
            aces = aces + 1;
        } else if rank >= 10 {
            total = total + 10;
        } else {
            total = total + rank as u128;
        }
        i = i + 1;
    }
    proof {
        assert(hand@.take(n as int) =~= hand@);
    }
    while total > 21 && aces > 0
        invariant
            spec_adjust(total as nat, aces as nat) == spec_hand_value(hand@),
        decreases aces,
    {
        total = total - 10;
        aces = aces - 1;
    }
    total
}

} // verus!

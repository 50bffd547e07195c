//! The deck: an ordered pile of cards, built once as the full 52-card set.

use vstd::arithmetic::div_mod::lemma_fundamental_div_mod_converse;
use vstd::prelude::*;

use crate::cards::{Card, Side, Suit, Value};
use rand::seq::SliceRandom;

verus! {

/// An ordered pile of cards. Cards leave from the top (the end of the
/// sequence), one per draw; a fresh deck holds all 52 distinct cards.
#[derive(Debug, Clone)]
pub struct Deck {
    pub deck: Vec<Card>,
}

/// The suit of the `i`-th block of thirteen cards in a fresh deck.
pub open spec fn suit_at(i: int) -> Suit {
    if i == 0 {
        Suit::Spades
    } else if i == 1 {
        Suit::Hearts
    } else if i == 2 {
        Suit::Diamonds
    } else {
        Suit::Clubs
    }
}

/// The value at offset `j` inside a suit block of a fresh deck, lowest first.
pub open spec fn value_at(j: int) -> Value {
    if j == 0 {
        Value::Two
    } else if j == 1 {
        Value::Three
    } else if j == 2 {
        Value::Four
    } else if j == 3 {
        Value::Five
    } else if j == 4 {
        Value::Six
    } else if j == 5 {
        Value::Seven
    } else if j == 6 {
        Value::Eight
    } else if j == 7 {
        Value::Nine
    } else if j == 8 {
        Value::Ten
    } else if j == 9 {
        Value::Jack
    } else if j == 10 {
        Value::Queen
    } else if j == 11 {
        Value::King
    } else {
        Value::Ace
    }
}

/// The card at position `k` of a fresh deck: suit-major, rank-minor, face-down.
pub open spec fn fresh_card(k: int) -> Card {
    Card { suit: suit_at(k / 13), value: value_at(k % 13), side: Side::Back }
}

/// Two distinct positions of a fresh deck hold cards of distinct identity.
proof fn lemma_fresh_card_distinct(i: int, j: int)
    requires
        0 <= i < 52,
        0 <= j < 52,
        i != j,
    ensures
        fresh_card(i).suit != fresh_card(j).suit || fresh_card(i).value != fresh_card(j).value,
{
    vstd::arithmetic::div_mod::lemma_fundamental_div_mod(i, 13);
    vstd::arithmetic::div_mod::lemma_fundamental_div_mod(j, 13);
    vstd::arithmetic::div_mod::lemma_mod_bound(i, 13);
    vstd::arithmetic::div_mod::lemma_mod_bound(j, 13);
    assert(0 <= i / 13 < 4 && 0 <= j / 13 < 4) by (nonlinear_arith)
        requires
            0 <= i < 52,
            0 <= j < 52,
            i == 13 * (i / 13) + i % 13,
            j == 13 * (j / 13) + j % 13,
            0 <= i % 13 < 13,
            0 <= j % 13 < 13,
    ;
}

/// The suit of block `i`, for building a fresh deck.
fn suit_of(i: usize) -> (s: Suit)
    requires
        i < 4,
    ensures
        s == suit_at(i as int),
{
    if i == 0 {
        Suit::Spades
    } else if i == 1 {
        Suit::Hearts
    } else if i == 2 {
        Suit::Diamonds
    } else {
        Suit::Clubs
    }
}

/// The value at offset `j` of a suit block, for building a fresh deck.
fn value_of(j: usize) -> (v: Value)
    requires
        j < 13,
    ensures
        v == value_at(j as int),
{
    if j == 0 {
        Value::Two
    } else if j == 1 {
        Value::Three
    } else if j == 2 {
        Value::Four
    } else if j == 3 {
        Value::Five
    } else if j == 4 {
        Value::Six
    } else if j == 5 {
        Value::Seven
    } else if j == 6 {
        Value::Eight
    } else if j == 7 {
        Value::Nine
    } else if j == 8 {
        Value::Ten
    } else if j == 9 {
        Value::Jack
    } else if j == 10 {
        Value::Queen
    } else if j == 11 {
        Value::King
    } else {
        Value::Ace
    }
}

/// Relies on rand's `SliceRandom::shuffle`: a Fisher-Yates shuffle that
/// reorders the slice in place by swaps, so exactly the same cards remain.
#[verifier::external_body]
fn shuffle_in_place(cards: &mut Vec<Card>)
    ensures
        final(cards)@.to_multiset() == old(cards)@.to_multiset(),
        final(cards)@.len() == old(cards)@.len(),
{
    cards.shuffle(&mut rand::thread_rng());
}

impl Deck {
    /// The full 52-card set, face-down, in canonical suit-major, rank-minor
    /// order: every (suit, value) pair occurs exactly once.
    pub fn new() -> (d: Deck)
        ensures
            d.deck@.len() == 52,
            forall|k: int| 0 <= k < 52 ==> d.deck@[k] == fresh_card(k),
            forall|k: int| 0 <= k < 52 ==> d.deck@[k].side == Side::Back,
            forall|i: int, j: int|
                0 <= i < 52 && 0 <= j < 52 && i != j ==> (d.deck@[i].suit != d.deck@[j].suit
                    || d.deck@[i].value != d.deck@[j].value),
    {
        let mut cards: Vec<Card> = Vec::new();
        let mut s: usize = 0;
        while s < 4
            invariant
                s <= 4,
                cards@.len() == 13 * s,
                forall|k: int| 0 <= k < cards@.len() ==> cards@[k] == fresh_card(k),
            decreases 4 - s,
        {
            let mut v: usize = 0;
            while v < 13
                invariant
                    s < 4,
                    v <= 13,
                    cards@.len() == 13 * s + v,
                    forall|k: int| 0 <= k < cards@.len() ==> cards@[k] == fresh_card(k),
                decreases 13 - v,
            {
                let k: usize = cards.len();
                cards.push(Card::new(suit_of(s), value_of(v), Side::Back));
                proof {
                    lemma_fundamental_div_mod_converse(k as int, 13, s as int, v as int);
                }
                v += 1;
            }
            s += 1;
        }
        let d = Deck { deck: cards };
        assert forall|k: int| 0 <= k < 52 implies d.deck@[k].side == Side::Back by {
            assert(d.deck@[k] == fresh_card(k));
        };
        assert forall|i: int, j: int|
            0 <= i < 52 && 0 <= j < 52 && i != j implies (d.deck@[i].suit != d.deck@[j].suit
            || d.deck@[i].value != d.deck@[j].value) by {
            lemma_fresh_card_distinct(i, j);
        };
        d
    }

    /// Permute the deck into an order chosen by the thread's random number
    /// generator. The deck keeps exactly the same cards.
    pub fn shuffle(&mut self)
        ensures
            final(self).deck@.to_multiset() == old(self).deck@.to_multiset(),
            final(self).deck@.len() == old(self).deck@.len(),
    {
        shuffle_in_place(&mut self.deck);
    }

    /// Remove and return the top card (the end of the sequence); `None` on an
    /// empty deck, which is left unchanged.
    pub fn draw(&mut self) -> (c: Option<Card>)
        ensures
            old(self).deck@.len() == 0 ==> c is None && final(self).deck@ == old(self).deck@,
            old(self).deck@.len() > 0 ==> c == Some(old(self).deck@.last()) && final(self).deck@
                == old(self).deck@.drop_last(),
    {
        self.deck.pop()
    }

    /// How many cards remain.
    pub fn len(&self) -> (n: usize)
        ensures
            n == self.deck@.len(),
    {
        self.deck.len()
    }

    /// Put `card` on top of the deck.
    pub fn push(&mut self, card: Card)
        ensures
            final(self).deck@ == old(self).deck@.push(card),
    {
        self.deck.push(card);
    }

    /// A copy of the deck's contents, bottom first.
    pub fn get_deck(&self) -> (cards: Vec<Card>)
        ensures
            cards@ == self.deck@,
    {
        crate::cards::clone_cards(&self.deck)
    }
}

} // verus!

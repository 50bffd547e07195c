//! Cards: a suit, a value with a total rank order, and an orientation.

use vstd::prelude::*;

verus! {

/// One of the four suits of a standard deck.
#[derive(Debug, PartialEq, Eq, Structural, Clone, Copy)]
pub enum Suit {
    Spades,
    Hearts,
    Diamonds,
    Clubs,
}

/// A card value. Values are compared by [`rank`]: Two is lowest, Ace highest.
#[derive(Debug, PartialEq, Eq, Structural, Clone, Copy)]
pub enum Value {
    Two,
    Three,
    Four,
    Five,
    Six,
    Seven,
    Eight,
    Nine,
    Ten,
    Jack,
    Queen,
    King,
    Ace,
}

/// Position of a value in the order Two < Three < ... < King < Ace,
/// counted from 0 for Two up to 12 for Ace.
pub open spec fn rank(v: Value) -> int {
    match v {
        Value::Two => 0,
        Value::Three => 1,
        Value::Four => 2,
        Value::Five => 3,
        Value::Six => 4,
        Value::Seven => 5,
        Value::Eight => 6,
        Value::Nine => 7,
        Value::Ten => 8,
        Value::Jack => 9,
        Value::Queen => 10,
        Value::King => 11,
        Value::Ace => 12,
    }
}

impl Value {
    /// The rank of this value as a machine integer.
    fn rank(&self) -> (r: u8)
        ensures
            r as int == rank(*self),
    {
        match self {
            Value::Two => 0,
            Value::Three => 1,
            Value::Four => 2,
            Value::Five => 3,
            Value::Six => 4,
            Value::Seven => 5,
            Value::Eight => 6,
            Value::Nine => 7,
            Value::Ten => 8,
            Value::Jack => 9,
            Value::Queen => 10,
            Value::King => 11,
            Value::Ace => 12,
        }
    }
}

impl PartialOrd for Value {
    fn partial_cmp(&self, other: &Self) -> (r: Option<core::cmp::Ordering>) {
        let a: u8 = self.rank();
        let b: u8 = other.rank();
        if a < b {
            Some(core::cmp::Ordering::Less)
        } else if a == b {
            Some(core::cmp::Ordering::Equal)
        } else {
            Some(core::cmp::Ordering::Greater)
        }
    }
}

impl vstd::std_specs::cmp::PartialOrdSpecImpl for Value {
    open spec fn obeys_partial_cmp_spec() -> bool {
        true
    }

    open spec fn partial_cmp_spec(&self, other: &Self) -> Option<core::cmp::Ordering> {
        if rank(*self) < rank(*other) {
            Some(core::cmp::Ordering::Less)
        } else if rank(*self) == rank(*other) {
            Some(core::cmp::Ordering::Equal)
        } else {
            Some(core::cmp::Ordering::Greater)
        }
    }
}

/// Comparison by rank is a strict total order on values: any two values are
/// either equal or strictly ordered one way, never both, and the order is
/// transitive. Equal ranks only arise from equal values.
pub proof fn lemma_rank_strict_total_order(a: Value, b: Value, c: Value)
    ensures
        rank(a) < rank(b) || rank(b) < rank(a) || a == b,
        a == b ==> rank(a) == rank(b),
        !(rank(a) < rank(b) && rank(b) < rank(a)),
        rank(a) < rank(b) && rank(b) < rank(c) ==> rank(a) < rank(c),
{
}

/// The orientation of a card: `Front` is face-up, `Back` is face-down.
#[derive(Debug, PartialEq, Eq, Structural, Clone, Copy)]
pub enum Side {
    Front,
    Back,
}

/// A playing card: its identity is the (suit, value) pair; the side is
/// mutable presentation state and never takes part in comparisons.
#[derive(Debug, PartialEq, Eq, Structural, Clone, Copy)]
pub struct Card {
    pub suit: Suit,
    pub value: Value,
    pub side: Side,
}

/// `c` turned face-up, identity unchanged.
pub open spec fn face_up(c: Card) -> Card {
    Card { side: Side::Front, ..c }
}

/// `c` turned face-down, identity unchanged.
pub open spec fn face_down(c: Card) -> Card {
    Card { side: Side::Back, ..c }
}

impl Card {
    /// A card with the given suit, value and orientation.
    pub fn new(suit: Suit, value: Value, side: Side) -> (c: Card)
        ensures
            c == (Card { suit, value, side }),
    {
        Card { suit, value, side }
    }

    /// Turn the card over, leaving its identity unchanged.
    pub fn flip(&mut self)
        ensures
            final(self).suit == old(self).suit,
            final(self).value == old(self).value,
            final(self).side == (match old(self).side {
                Side::Front => Side::Back,
                Side::Back => Side::Front,
            }),
    {
        self.side = match self.side {
            Side::Front => Side::Back,
            Side::Back => Side::Front,
        };
    }
}

/// `s` with every card turned face-down, order kept.
pub open spec fn face_down_all(s: Seq<Card>) -> Seq<Card> {
    s.map_values(|c: Card| face_down(c))
}

/// The top card of a hand as it is played: orientation set by `face_up`,
/// identity unchanged.
pub open spec fn oriented(c: Card, face_up: bool) -> Card {
    if face_up {
        crate::cards::face_up(c)
    } else {
        face_down(c)
    }
}

/// A copy of a pile of cards, element for element.
pub fn clone_cards(cards: &Vec<Card>) -> (r: Vec<Card>)
    ensures
        r@ == cards@,
{
    let mut r: Vec<Card> = Vec::new();
    let mut i: usize = 0;
    while i < cards.len()
        invariant
            i <= cards@.len(),
            r@ == cards@.take(i as int),
        decreases cards@.len() - i,
    {
        r.push(cards[i]);
        proof {
            assert(cards@.take(i + 1) =~= cards@.take(i as int).push(cards@[i as int]));
        }
        i += 1;
    }
    proof {
        assert(cards@.take(cards@.len() as int) =~= cards@);
    }
    r
}

/// A copy of a pile of cards in reverse order, newest card first.
pub fn reversed_cards(cards: &Vec<Card>) -> (r: Vec<Card>)
    ensures
        r@ == cards@.reverse(),
{
    let mut r: Vec<Card> = Vec::new();
    let mut i: usize = 0;
    while i < cards.len()
        invariant
            i <= cards@.len(),
            r@.len() == i as int,
            forall|k: int| 0 <= k < i ==> r@[k] == cards@[cards@.len() - 1 - k],
        decreases cards@.len() - i,
    {
        r.push(cards[cards.len() - 1 - i]);
        i += 1;
    }
    proof {
        assert(r@ =~= cards@.reverse());
    }
    r
}

} // verus!

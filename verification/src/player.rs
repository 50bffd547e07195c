//! A player: an ordered hand used as a stack, an alive/dead status derived
//! from hand emptiness, and the most recently played card.

use vstd::prelude::*;

use crate::cards::{clone_cards, face_down, face_down_all, oriented, Card, Side};
use crate::deck::Deck;

verus! {

/// Whether a player can still play. The status is purely derived from hand
/// emptiness and is re-evaluated after every hand mutation.
#[derive(Debug, PartialEq, Eq, Structural, Clone, Copy)]
pub enum PlayerState {
    Alive,
    Dead,
}

/// A player: a named, ordered hand of cards with two logical ends (cards are
/// played from the back, captured cards enter as a block at the front, so
/// freshly won cards are not immediately replayable), an alive/dead status,
/// and the most recently played card.
#[derive(Debug, Clone)]
pub struct Player {
    pub player_name: String,
    pub player_deck: Vec<Card>,
    pub dead_or_alive: PlayerState,
    pub last_played_card: Option<Card>,
}

impl Player {
    /// A player's status matches their hand: dead exactly when it is empty.
    pub open spec fn wf(self) -> bool {
        self.dead_or_alive == PlayerState::Dead <==> self.player_deck@.len() == 0
    }

    /// A fresh player: empty hand, alive, nothing played yet.
    pub fn new(player_name: String) -> (p: Player)
        ensures
            p.player_name == player_name,
            p.player_deck@ == Seq::<Card>::empty(),
            p.dead_or_alive == PlayerState::Alive,
            p.last_played_card is None,
    {
        Player {
            player_name,
            player_deck: Vec::new(),
            dead_or_alive: PlayerState::Alive,
            last_played_card: None,
        }
    }

    /// Withdraw exactly 26 cards from the top of `deck`, one per draw,
    /// appending each to the play end of the hand in draw order. A deck with
    /// fewer than 26 cards is a setup error, ruled out by the precondition.
    pub fn initial_draw(&mut self, deck: &mut Deck)
        requires
            old(deck).deck@.len() >= 26,
        ensures
            final(deck).deck@ == old(deck).deck@.take(old(deck).deck@.len() - 26),
            final(self).player_deck@ == old(self).player_deck@ + old(deck).deck@.skip(
                old(deck).deck@.len() - 26,
            ).reverse(),
            final(self).player_deck@.len() == old(self).player_deck@.len() + 26,
            final(self).player_name == old(self).player_name,
            final(self).dead_or_alive == old(self).dead_or_alive,
            final(self).last_played_card == old(self).last_played_card,
    {
        let ghost deck0 = deck.deck@;
        let ghost hand0 = self.player_deck@;
        let ghost n: int = deck.deck@.len() as int;
        let mut i: usize = 0;
        while i < 26
            invariant
                i <= 26,
                n == deck0.len(),
                n >= 26,
                deck.deck@ == deck0.take(n - i),
                self.player_deck@ == hand0 + deck0.skip(n - i).reverse(),
                self.player_name == old(self).player_name,
                self.dead_or_alive == old(self).dead_or_alive,
                self.last_played_card == old(self).last_played_card,
            decreases 26 - i,
        {
            proof {
                assert(deck.deck@.len() == n - i);
            }
            let card = deck.draw().unwrap();
            self.player_deck.push(card);
            proof {
                assert(deck0.take(n - i).drop_last() =~= deck0.take(n - (i + 1)));
                assert(deck0.take(n - i).last() == deck0[n - i - 1]);
                assert(deck0.skip(n - (i + 1)).reverse() =~= deck0.skip(n - i).reverse().push(
                    deck0[n - i - 1],
                ));
                assert(hand0 + deck0.skip(n - (i + 1)).reverse() =~= (hand0 + deck0.skip(
                    n - i,
                ).reverse()).push(deck0[n - i - 1]));
            }
            i += 1;
        }
    }

    /// Remove one card from the play end of the hand, set its orientation
    /// according to `face_up`, record it as the last played card and return
    /// it. On an empty hand return `None` and change nothing: running out of
    /// cards is the normal losing signal, not an error. The status is
    /// re-evaluated after the removal.
    pub fn play_card(&mut self, face_up: bool) -> (c: Option<Card>)
        ensures
            old(self).player_deck@.len() == 0 ==> c is None
                && final(self).player_deck@ == old(self).player_deck@
                && final(self).player_name == old(self).player_name
                && final(self).dead_or_alive == old(self).dead_or_alive
                && final(self).last_played_card == old(self).last_played_card,
            old(self).player_deck@.len() > 0 ==> {
                let played = oriented(old(self).player_deck@.last(), face_up);
                &&& c == Some(played)
                &&& final(self).player_deck@ == old(self).player_deck@.drop_last()
                &&& final(self).last_played_card == Some(played)
                &&& final(self).dead_or_alive == (if old(self).player_deck@.len() == 1 {
                    PlayerState::Dead
                } else {
                    old(self).dead_or_alive
                })
                &&& final(self).player_name == old(self).player_name
            },
            old(self).wf() ==> final(self).wf(),
    {
        match self.player_deck.pop() {
            None => None,
            Some(card) => {
                let played = if face_up {
                    Card { side: Side::Front, ..card }
                } else {
                    Card { side: Side::Back, ..card }
                };
                self.last_played_card = Some(played);
                if self.player_deck.len() == 0 {
                    self.dead_or_alive = PlayerState::Dead;
                }
                Some(played)
            },
        }
    }

    /// Turn every incoming card face-down, then put the whole batch, order
    /// kept, at the receiving end (the front) of the hand. Captured cards
    /// always return to a hand face-down, whatever their orientation on the
    /// table. The status is re-evaluated afterwards, so a dead player who
    /// receives at least one card comes back alive.
    pub fn add_cards(&mut self, cards: Vec<Card>)
        ensures
            final(self).player_deck@ == face_down_all(cards@) + old(self).player_deck@,
            forall|i: int|
                0 <= i < cards@.len() ==> final(self).player_deck@[i].side == Side::Back,
            final(self).dead_or_alive == (if final(self).player_deck@.len() > 0 {
                PlayerState::Alive
            } else {
                old(self).dead_or_alive
            }),
            final(self).player_name == old(self).player_name,
            final(self).last_played_card == old(self).last_played_card,
            cards@.len() > 0 ==> final(self).wf(),
            old(self).wf() ==> final(self).wf(),
    {
        let mut incoming: Vec<Card> = Vec::new();
        let mut i: usize = 0;
        while i < cards.len()
            invariant
                i <= cards@.len(),
                incoming@ == face_down_all(cards@.take(i as int)),
            decreases cards@.len() - i,
        {
            let c = cards[i];
            incoming.push(Card { side: Side::Back, ..c });
            proof {
                assert(face_down_all(cards@.take(i + 1)) =~= face_down_all(
                    cards@.take(i as int),
                ).push(face_down(cards@[i as int])));
            }
            i += 1;
        }
        proof {
            assert(cards@.take(cards@.len() as int) =~= cards@);
        }
        incoming.append(&mut self.player_deck);
        self.player_deck = incoming;
        if self.player_deck.len() > 0 {
            self.dead_or_alive = PlayerState::Alive;
        }
    }

    /// The player's name.
    pub fn get_player_name(&self) -> (name: &str)
        ensures
            name@ == self.player_name@,
    {
        self.player_name.as_str()
    }

    /// A copy of the hand, receiving end first, play end last.
    pub fn get_player_deck(&self) -> (cards: Vec<Card>)
        ensures
            cards@ == self.player_deck@,
    {
        clone_cards(&self.player_deck)
    }

    /// The most recently played card, if any card was played yet.
    pub fn get_last_played_card(&self) -> (c: Option<Card>)
        ensures
            c == self.last_played_card,
    {
        self.last_played_card
    }

    /// An identical copy of this player, field for field.
    pub(crate) fn duplicate(&self) -> (p: Player)
        ensures
            p.player_name == self.player_name,
            p.player_deck@ == self.player_deck@,
            p.dead_or_alive == self.dead_or_alive,
            p.last_played_card == self.last_played_card,
    {
        Player {
            player_name: self.player_name.clone(),
            player_deck: clone_cards(&self.player_deck),
            dead_or_alive: self.dead_or_alive,
            last_played_card: self.last_played_card,
        }
    }
}

} // verus!

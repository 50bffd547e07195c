//! The game: a deck, two players and the table pile, driven by the
//! round/war resolution state machine.
//!
//! The functions `round_spec` and `war_spec` are the mathematical model of
//! one round: every observable effect of `play_round` is stated as equality
//! with a field of their result.

use vstd::prelude::*;
use vstd::seq_lib::lemma_multiset_commutative;

use vstd::multiset::Multiset;

use crate::cards::{
    clone_cards, face_down, face_down_all, face_up, rank, reversed_cards, Card, Side, Suit, Value,
};
use crate::deck::Deck;
use crate::player::{Player, PlayerState};

verus! {

/// The outcome of the most recently resolved round. `War` only marks a tie
/// round while it is being escalated; a completed round never leaves it
/// behind.
#[derive(Debug, PartialEq, Eq, Structural, Clone, Copy)]
pub enum Outcome {
    Player1Wins,
    Player2Wins,
    Tie,
    Running,
    War,
}

/// Which player captured the table pile, as recorded by the round model.
pub enum Who {
    PlayerOne,
    PlayerTwo,
}

/// The full effect of one resolved round on the observable game state:
/// the two hands, the table pile, each player's last played card, who
/// captured the pile (if anyone), and the resulting outcome.
pub struct RoundResult {
    pub hand1: Seq<Card>,
    pub hand2: Seq<Card>,
    pub table: Seq<Card>,
    pub last1: Option<Card>,
    pub last2: Option<Card>,
    pub winner: Option<Who>,
    pub outcome: Outcome,
}

/// The outcome dictated by the two hands: empty against empty is a tie,
/// exactly one empty hand makes the other side the winner, and two live
/// hands keep the game running.
pub open spec fn outcome_of(h1: Seq<Card>, h2: Seq<Card>) -> Outcome {
    if h1.len() == 0 && h2.len() == 0 {
        Outcome::Tie
    } else if h1.len() == 0 {
        Outcome::Player2Wins
    } else if h2.len() == 0 {
        Outcome::Player1Wins
    } else {
        Outcome::Running
    }
}

/// The round ends with `who` capturing the table pile: the whole pile
/// enters the winner's hand face-down as one block at the receiving end,
/// the table clears, and the outcome is re-evaluated on the new hands.
///
/// The rules of War leave the order of a captured block free, since it can
/// never decide a trick; it only shapes future draws. This design gives the
/// two players opposite orders: player 1 receives the pile as it
/// accumulated, player 2 receives it newest card first. One shared fixed
/// order would let the two hands chase each other through an endlessly
/// repeating sequence of rounds (simulation shows that happens in a large
/// share of shuffled games); the asymmetry breaks that lock-step, and with
/// it every simulated game finishes.
pub open spec fn capture(
    h1: Seq<Card>,
    h2: Seq<Card>,
    l1: Option<Card>,
    l2: Option<Card>,
    t: Seq<Card>,
    who: Who,
) -> RoundResult {
    let nh1 = if who == Who::PlayerOne {
        face_down_all(t) + h1
    } else {
        h1
    };
    let nh2 = if who == Who::PlayerTwo {
        face_down_all(t.reverse()) + h2
    } else {
        h2
    };
    RoundResult {
        hand1: nh1,
        hand2: nh2,
        table: Seq::empty(),
        last1: l1,
        last2: l2,
        winner: Some(who),
        outcome: outcome_of(nh1, nh2),
    }
}

/// The round ends with neither side able to play: nobody captures, the
/// table keeps whatever lies on it, and the game is a tie.
pub open spec fn tie_round(
    h1: Seq<Card>,
    h2: Seq<Card>,
    l1: Option<Card>,
    l2: Option<Card>,
    t: Seq<Card>,
) -> RoundResult {
    RoundResult {
        hand1: h1,
        hand2: h2,
        table: t,
        last1: l1,
        last2: l2,
        winner: None,
        outcome: Outcome::Tie,
    }
}

/// One war layer on hands `h1`, `h2`, last played cards `l1`, `l2` and
/// table pile `t`: each player antes one face-down card, then plays one
/// face-up card, all onto the pile. Unequal face-up ranks give the pile to
/// the higher card; equal ranks recurse into another layer. A side that
/// cannot produce a card at either step loses at once (a tie if neither
/// can), the side still holding a card capturing the pile.
pub open spec fn war_spec(
    h1: Seq<Card>,
    h2: Seq<Card>,
    l1: Option<Card>,
    l2: Option<Card>,
    t: Seq<Card>,
) -> RoundResult
    decreases h1.len() + h2.len(),
{
    if h1.len() == 0 && h2.len() == 0 {
        tie_round(h1, h2, l1, l2, t)
    } else if h2.len() == 0 {
        let d1 = face_down(h1.last());
        capture(h1.drop_last(), h2, Some(d1), l2, t.push(d1), Who::PlayerOne)
    } else if h1.len() == 0 {
        let d2 = face_down(h2.last());
        capture(h1, h2.drop_last(), l1, Some(d2), t.push(d2), Who::PlayerTwo)
    } else {
        let d1 = face_down(h1.last());
        let d2 = face_down(h2.last());
        let g1 = h1.drop_last();
        let g2 = h2.drop_last();
        let t1 = t.push(d1).push(d2);
        if g1.len() == 0 && g2.len() == 0 {
            tie_round(g1, g2, Some(d1), Some(d2), t1)
        } else if g2.len() == 0 {
            let u1 = face_up(g1.last());
            capture(g1.drop_last(), g2, Some(u1), Some(d2), t1.push(u1), Who::PlayerOne)
        } else if g1.len() == 0 {
            let u2 = face_up(g2.last());
            capture(g1, g2.drop_last(), Some(d1), Some(u2), t1.push(u2), Who::PlayerTwo)
        } else {
            let u1 = face_up(g1.last());
            let u2 = face_up(g2.last());
            let k1 = g1.drop_last();
            let k2 = g2.drop_last();
            let t2 = t1.push(u1).push(u2);
            if rank(u1.value) > rank(u2.value) {
                capture(k1, k2, Some(u1), Some(u2), t2, Who::PlayerOne)
            } else if rank(u1.value) < rank(u2.value) {
                capture(k1, k2, Some(u1), Some(u2), t2, Who::PlayerTwo)
            } else {
                war_spec(k1, k2, Some(u1), Some(u2), t2)
            }
        }
    }
}

/// One full round: each player plays one face-up card onto the table pile;
/// the higher rank captures the pile, equal ranks escalate into the war
/// procedure, and a side without a card loses at once (a tie if neither
/// side has one).
pub open spec fn round_spec(
    h1: Seq<Card>,
    h2: Seq<Card>,
    l1: Option<Card>,
    l2: Option<Card>,
    t: Seq<Card>,
) -> RoundResult {
    if h1.len() == 0 && h2.len() == 0 {
        tie_round(h1, h2, l1, l2, t)
    } else if h2.len() == 0 {
        let c1 = face_up(h1.last());
        capture(h1.drop_last(), h2, Some(c1), l2, t.push(c1), Who::PlayerOne)
    } else if h1.len() == 0 {
        let c2 = face_up(h2.last());
        capture(h1, h2.drop_last(), l1, Some(c2), t.push(c2), Who::PlayerTwo)
    } else {
        let c1 = face_up(h1.last());
        let c2 = face_up(h2.last());
        let n1 = h1.drop_last();
        let n2 = h2.drop_last();
        let t2 = t.push(c1).push(c2);
        if rank(c1.value) > rank(c2.value) {
            capture(n1, n2, Some(c1), Some(c2), t2, Who::PlayerOne)
        } else if rank(c1.value) < rank(c2.value) {
            capture(n1, n2, Some(c1), Some(c2), t2, Who::PlayerTwo)
        } else {
            war_spec(n1, n2, Some(c1), Some(c2), t2)
        }
    }
}

/// Card conservation and outcome consistency through a war: the two hands
/// and the table pile together keep exactly as many cards as they started
/// with, and the resulting outcome is the one the resulting hands dictate.
pub proof fn lemma_war_props(
    h1: Seq<Card>,
    h2: Seq<Card>,
    l1: Option<Card>,
    l2: Option<Card>,
    t: Seq<Card>,
)
    ensures
        ({
            let m = war_spec(h1, h2, l1, l2, t);
            &&& m.hand1.len() + m.hand2.len() + m.table.len() == h1.len() + h2.len() + t.len()
            &&& m.outcome == outcome_of(m.hand1, m.hand2)
        }),
    decreases h1.len() + h2.len(),
{
    if h1.len() == 0 && h2.len() == 0 {
    } else if h2.len() == 0 {
    } else if h1.len() == 0 {
    } else {
        let g1 = h1.drop_last();
        let g2 = h2.drop_last();
        if g1.len() == 0 && g2.len() == 0 {
        } else if g2.len() == 0 {
        } else if g1.len() == 0 {
        } else {
            let u1 = face_up(g1.last());
            let u2 = face_up(g2.last());
            if rank(u1.value) != rank(u2.value) {
            } else {
                let t2 = t.push(face_down(h1.last())).push(face_down(h2.last())).push(u1).push(
                    u2,
                );
                lemma_war_props(g1.drop_last(), g2.drop_last(), Some(u1), Some(u2), t2);
            }
        }
    }
}

/// Card conservation and outcome consistency through one full round,
/// however it resolves: hands and table together keep their card count,
/// and the outcome is the one the resulting hands dictate.
pub proof fn lemma_round_props(
    h1: Seq<Card>,
    h2: Seq<Card>,
    l1: Option<Card>,
    l2: Option<Card>,
    t: Seq<Card>,
)
    ensures
        ({
            let m = round_spec(h1, h2, l1, l2, t);
            &&& m.hand1.len() + m.hand2.len() + m.table.len() == h1.len() + h2.len() + t.len()
            &&& m.outcome == outcome_of(m.hand1, m.hand2)
        }),
{
    if h1.len() > 0 && h2.len() > 0 {
        let c1 = face_up(h1.last());
        let c2 = face_up(h2.last());
        if rank(c1.value) == rank(c2.value) {
            lemma_war_props(
                h1.drop_last(),
                h2.drop_last(),
                Some(c1),
                Some(c2),
                t.push(c1).push(c2),
            );
        }
    }
}

/// The identity of a card: its (suit, value) pair, without the orientation.
pub open spec fn card_id(c: Card) -> (Suit, Value) {
    (c.suit, c.value)
}

/// The identities of a pile of cards, in pile order.
pub open spec fn id_seq(s: Seq<Card>) -> Seq<(Suit, Value)> {
    Seq::new(s.len(), |i: int| card_id(s[i]))
}

/// The identities of a pile of cards, as a multiset: how many cards of
/// each (suit, value) pair the pile holds, wherever they face.
pub open spec fn ids(s: Seq<Card>) -> Multiset<(Suit, Value)> {
    id_seq(s).to_multiset()
}

/// Pushing a card onto a pile inserts its identity.
proof fn lemma_ids_push(s: Seq<Card>, c: Card)
    ensures
        ids(s.push(c)) == ids(s).insert(card_id(c)),
{
    broadcast use vstd::seq_lib::group_to_multiset_ensures;

    assert(id_seq(s.push(c)) =~= id_seq(s).push(card_id(c)));
}

/// Identities distribute over concatenation of piles.
proof fn lemma_ids_concat(a: Seq<Card>, b: Seq<Card>)
    ensures
        ids(a + b) == ids(a).add(ids(b)),
{
    assert(id_seq(a + b) =~= id_seq(a) + id_seq(b));
    lemma_multiset_commutative(id_seq(a), id_seq(b));
}

/// Turning a pile face-down changes no identity.
proof fn lemma_ids_face_down_all(s: Seq<Card>)
    ensures
        ids(face_down_all(s)) == ids(s),
{
    assert(id_seq(face_down_all(s)) =~= id_seq(s));
}

/// Reversing a pile changes no identity.
proof fn lemma_ids_reverse(s: Seq<Card>)
    ensures
        ids(s.reverse()) == ids(s),
{
    assert(id_seq(s.reverse()) =~= id_seq(s).reverse());
    id_seq(s).lemma_reverse_to_multiset();
}

/// The empty pile holds no identities.
proof fn lemma_ids_empty()
    ensures
        ids(Seq::<Card>::empty()) == Multiset::<(Suit, Value)>::empty(),
{
    broadcast use vstd::seq_lib::group_to_multiset_ensures;
    broadcast use vstd::multiset::group_multiset_axioms;

    assert(id_seq(Seq::<Card>::empty()).len() == 0);
    assert(ids(Seq::<Card>::empty()) =~= Multiset::<(Suit, Value)>::empty());
}

/// Moving the top of a hand onto the table pile, whichever way it then
/// faces, moves its identity and nothing else.
proof fn lemma_ids_move(h: Seq<Card>, c: Card, t: Seq<Card>)
    requires
        h.len() > 0,
        card_id(c) == card_id(h.last()),
    ensures
        ids(h.drop_last()).add(ids(t.push(c))) == ids(h).add(ids(t)),
{
    broadcast use vstd::multiset::group_multiset_axioms;

    lemma_ids_push(t, c);
    lemma_ids_push(h.drop_last(), h.last());
    assert(h.drop_last().push(h.last()) =~= h);
    assert(ids(h.drop_last()).add(ids(t).insert(card_id(c))) =~= ids(h.drop_last()).insert(
        card_id(h.last()),
    ).add(ids(t)));
}

/// A capture moves every identity on the table into the winner's hand.
proof fn lemma_ids_capture(
    h1: Seq<Card>,
    h2: Seq<Card>,
    l1: Option<Card>,
    l2: Option<Card>,
    t: Seq<Card>,
    who: Who,
)
    ensures
        ({
            let m = capture(h1, h2, l1, l2, t, who);
            ids(m.hand1).add(ids(m.hand2)).add(ids(m.table)) == ids(h1).add(ids(h2)).add(ids(t))
        }),
{
    broadcast use vstd::multiset::group_multiset_axioms;

    lemma_ids_empty();
    if who == Who::PlayerOne {
        lemma_ids_concat(face_down_all(t), h1);
        lemma_ids_face_down_all(t);
        assert(ids(t).add(ids(h1)).add(ids(h2)).add(Multiset::<(Suit, Value)>::empty()) =~= ids(
            h1,
        ).add(ids(h2)).add(ids(t)));
    } else {
        lemma_ids_concat(face_down_all(t.reverse()), h2);
        lemma_ids_face_down_all(t.reverse());
        lemma_ids_reverse(t);
        assert(ids(h1).add(ids(t).add(ids(h2))).add(Multiset::<(Suit, Value)>::empty()) =~= ids(
            h1,
        ).add(ids(h2)).add(ids(t)));
    }
}

/// No war creates or destroys a card: the identities in the two hands and
/// the table pile afterwards are exactly those before, orientation aside.
pub proof fn lemma_war_preserves_identities(
    h1: Seq<Card>,
    h2: Seq<Card>,
    l1: Option<Card>,
    l2: Option<Card>,
    t: Seq<Card>,
)
    ensures
        ({
            let m = war_spec(h1, h2, l1, l2, t);
            ids(m.hand1).add(ids(m.hand2)).add(ids(m.table)) == ids(h1).add(ids(h2)).add(ids(t))
        }),
    decreases h1.len() + h2.len(),
{
    broadcast use vstd::multiset::group_multiset_axioms;

    let total = ids(h1).add(ids(h2)).add(ids(t));
    if h1.len() == 0 && h2.len() == 0 {
    } else if h2.len() == 0 {
        let d1 = face_down(h1.last());
        lemma_ids_move(h1, d1, t);
        lemma_ids_capture(h1.drop_last(), h2, Some(d1), l2, t.push(d1), Who::PlayerOne);
        assert(ids(h1.drop_last()).add(ids(h2)).add(ids(t.push(d1))) =~= total) by {
            assert forall|v: (Suit, Value)|
                ids(h1.drop_last()).add(ids(h2)).add(ids(t.push(d1))).count(v) == total.count(
                    v,
                ) by {
                assert(ids(h1.drop_last()).add(ids(t.push(d1))).count(v) == ids(h1).add(
                    ids(t),
                ).count(v));
            }
        };
    } else if h1.len() == 0 {
        let d2 = face_down(h2.last());
        lemma_ids_move(h2, d2, t);
        lemma_ids_capture(h1, h2.drop_last(), l1, Some(d2), t.push(d2), Who::PlayerTwo);
        assert(ids(h1).add(ids(h2.drop_last())).add(ids(t.push(d2))) =~= total) by {
            assert forall|v: (Suit, Value)|
                ids(h1).add(ids(h2.drop_last())).add(ids(t.push(d2))).count(v) == total.count(
                    v,
                ) by {
                assert(ids(h2.drop_last()).add(ids(t.push(d2))).count(v) == ids(h2).add(
                    ids(t),
                ).count(v));
            }
        };
    } else {
        let d1 = face_down(h1.last());
        let d2 = face_down(h2.last());
        let g1 = h1.drop_last();
        let g2 = h2.drop_last();
        let t1 = t.push(d1).push(d2);
        lemma_ids_move(h1, d1, t);
        lemma_ids_move(h2, d2, t.push(d1));
        assert(ids(g1).add(ids(g2)).add(ids(t1)) =~= total) by {
            assert forall|v: (Suit, Value)| ids(g1).add(ids(g2)).add(ids(t1)).count(v)
                == total.count(v) by {
                assert(ids(g1).add(ids(t.push(d1))).count(v) == ids(h1).add(ids(t)).count(v));
                assert(ids(g2).add(ids(t1)).count(v) == ids(h2).add(ids(t.push(d1))).count(v));
            }
        };
        let mid = ids(g1).add(ids(g2)).add(ids(t1));
        if g1.len() == 0 && g2.len() == 0 {
        } else if g2.len() == 0 {
            let u1 = face_up(g1.last());
            lemma_ids_move(g1, u1, t1);
            lemma_ids_capture(g1.drop_last(), g2, Some(u1), Some(d2), t1.push(u1), Who::PlayerOne);
            assert(ids(g1.drop_last()).add(ids(g2)).add(ids(t1.push(u1))) =~= mid) by {
                assert forall|v: (Suit, Value)|
                    ids(g1.drop_last()).add(ids(g2)).add(ids(t1.push(u1))).count(v) == mid.count(
                        v,
                    ) by {
                    assert(ids(g1.drop_last()).add(ids(t1.push(u1))).count(v) == ids(g1).add(
                        ids(t1),
                    ).count(v));
                }
            };
        } else if g1.len() == 0 {
            let u2 = face_up(g2.last());
            lemma_ids_move(g2, u2, t1);
            lemma_ids_capture(g1, g2.drop_last(), Some(d1), Some(u2), t1.push(u2), Who::PlayerTwo);
            assert(ids(g1).add(ids(g2.drop_last())).add(ids(t1.push(u2))) =~= mid) by {
                assert forall|v: (Suit, Value)|
                    ids(g1).add(ids(g2.drop_last())).add(ids(t1.push(u2))).count(v) == mid.count(
                        v,
                    ) by {
                    assert(ids(g2.drop_last()).add(ids(t1.push(u2))).count(v) == ids(g2).add(
                        ids(t1),
                    ).count(v));
                }
            };
        } else {
            let u1 = face_up(g1.last());
            let u2 = face_up(g2.last());
            let k1 = g1.drop_last();
            let k2 = g2.drop_last();
            let t2 = t1.push(u1).push(u2);
            lemma_ids_move(g1, u1, t1);
            lemma_ids_move(g2, u2, t1.push(u1));
            assert(ids(k1).add(ids(k2)).add(ids(t2)) =~= mid) by {
                assert forall|v: (Suit, Value)| ids(k1).add(ids(k2)).add(ids(t2)).count(v)
                    == mid.count(v) by {
                    assert(ids(k1).add(ids(t1.push(u1))).count(v) == ids(g1).add(ids(t1)).count(
                        v,
                    ));
                    assert(ids(k2).add(ids(t2)).count(v) == ids(g2).add(ids(t1.push(u1))).count(
                        v,
                    ));
                }
            };
            if rank(u1.value) > rank(u2.value) {
                lemma_ids_capture(k1, k2, Some(u1), Some(u2), t2, Who::PlayerOne);
            } else if rank(u1.value) < rank(u2.value) {
                lemma_ids_capture(k1, k2, Some(u1), Some(u2), t2, Who::PlayerTwo);
            } else {
                lemma_war_preserves_identities(k1, k2, Some(u1), Some(u2), t2);
            }
        }
    }
}

/// No round creates or destroys a card: the identities in the two hands
/// and the table pile afterwards are exactly those before, orientation
/// aside. Together with `play_round`'s exact contract this says that the
/// game only ever relocates the 52 cards it was dealt.
pub proof fn lemma_round_preserves_identities(
    h1: Seq<Card>,
    h2: Seq<Card>,
    l1: Option<Card>,
    l2: Option<Card>,
    t: Seq<Card>,
)
    ensures
        ({
            let m = round_spec(h1, h2, l1, l2, t);
            ids(m.hand1).add(ids(m.hand2)).add(ids(m.table)) == ids(h1).add(ids(h2)).add(ids(t))
        }),
{
    broadcast use vstd::multiset::group_multiset_axioms;

    let total = ids(h1).add(ids(h2)).add(ids(t));
    if h1.len() == 0 && h2.len() == 0 {
    } else if h2.len() == 0 {
        let c1 = face_up(h1.last());
        lemma_ids_move(h1, c1, t);
        lemma_ids_capture(h1.drop_last(), h2, Some(c1), l2, t.push(c1), Who::PlayerOne);
        assert(ids(h1.drop_last()).add(ids(h2)).add(ids(t.push(c1))) =~= total) by {
            assert forall|v: (Suit, Value)|
                ids(h1.drop_last()).add(ids(h2)).add(ids(t.push(c1))).count(v) == total.count(
                    v,
                ) by {
                assert(ids(h1.drop_last()).add(ids(t.push(c1))).count(v) == ids(h1).add(
                    ids(t),
                ).count(v));
            }
        };
    } else if h1.len() == 0 {
        let c2 = face_up(h2.last());
        lemma_ids_move(h2, c2, t);
        lemma_ids_capture(h1, h2.drop_last(), l1, Some(c2), t.push(c2), Who::PlayerTwo);
        assert(ids(h1).add(ids(h2.drop_last())).add(ids(t.push(c2))) =~= total) by {
            assert forall|v: (Suit, Value)|
                ids(h1).add(ids(h2.drop_last())).add(ids(t.push(c2))).count(v) == total.count(
                    v,
                ) by {
                assert(ids(h2.drop_last()).add(ids(t.push(c2))).count(v) == ids(h2).add(
                    ids(t),
                ).count(v));
            }
        };
    } else {
        let c1 = face_up(h1.last());
        let c2 = face_up(h2.last());
        let n1 = h1.drop_last();
        let n2 = h2.drop_last();
        let t2 = t.push(c1).push(c2);
        lemma_ids_move(h1, c1, t);
        lemma_ids_move(h2, c2, t.push(c1));
        assert(ids(n1).add(ids(n2)).add(ids(t2)) =~= total) by {
            assert forall|v: (Suit, Value)| ids(n1).add(ids(n2)).add(ids(t2)).count(v)
                == total.count(v) by {
                assert(ids(n1).add(ids(t.push(c1))).count(v) == ids(h1).add(ids(t)).count(v));
                assert(ids(n2).add(ids(t2)).count(v) == ids(h2).add(ids(t.push(c1))).count(v));
            }
        };
        if rank(c1.value) > rank(c2.value) {
            lemma_ids_capture(n1, n2, Some(c1), Some(c2), t2, Who::PlayerOne);
        } else if rank(c1.value) < rank(c2.value) {
            lemma_ids_capture(n1, n2, Some(c1), Some(c2), t2, Who::PlayerTwo);
        } else {
            lemma_war_preserves_identities(n1, n2, Some(c1), Some(c2), t2);
        }
    }
}

/// The game is over within `k` more rounds: either it is already over, or
/// one round of `round_spec` leads to a state that is over within `k - 1`.
/// Every shuffled 52-card game observed in practice finishes, but the round
/// dynamics alone do not rule out an endlessly repeating sequence of hands,
/// so `finish_game` asks its caller for such a bound instead of claiming
/// one.
pub open spec fn finishes_in(
    game_over: bool,
    h1: Seq<Card>,
    h2: Seq<Card>,
    l1: Option<Card>,
    l2: Option<Card>,
    t: Seq<Card>,
    k: nat,
) -> bool
    decreases k,
{
    game_over || (k > 0 && {
        let m = round_spec(h1, h2, l1, l2, t);
        finishes_in(
            m.outcome != Outcome::Running,
            m.hand1,
            m.hand2,
            m.last1,
            m.last2,
            m.table,
            (k - 1) as nat,
        )
    })
}

/// Two players that agree field for field.
pub open spec fn same_player(a: Player, b: Player) -> bool {
    &&& a.player_name == b.player_name
    &&& a.player_deck@ == b.player_deck@
    &&& a.dead_or_alive == b.dead_or_alive
    &&& a.last_played_card == b.last_played_card
}

/// A game: a deck, two players, the shared table pile, and the state of the
/// round resolution machine.
#[derive(Debug, Clone)]
pub struct Game {
    pub player1: Player,
    pub player2: Player,
    pub deck: Deck,
    pub table_cards: Vec<Card>,
    pub game_over: bool,
    pub outcome: Outcome,
    pub last_round_winner: Option<Player>,
}

impl Game {
    /// Every card in play: the deck, both hands, and the table pile.
    pub open spec fn cards_in_play(self) -> nat {
        self.deck.deck@.len() + self.player1.player_deck@.len()
            + self.player2.player_deck@.len() + self.table_cards@.len()
    }

    /// The identities of every card in play, as one multiset over the
    /// deck, both hands and the table pile.
    pub open spec fn id_multiset(self) -> Multiset<(Suit, Value)> {
        ids(self.deck.deck@).add(ids(self.player1.player_deck@)).add(
            ids(self.player2.player_deck@),
        ).add(ids(self.table_cards@))
    }

    /// Well-formed game state: both players' statuses match their hands,
    /// and a finished game carries the terminal outcome its hands dictate.
    pub open spec fn wf(self) -> bool {
        &&& self.player1.wf()
        &&& self.player2.wf()
        &&& self.game_over ==> (self.outcome == outcome_of(
            self.player1.player_deck@,
            self.player2.player_deck@,
        ) && self.outcome != Outcome::Running)
    }

    /// A game over the given players and deck, not yet started: empty
    /// table, running, nobody has won a round.
    pub fn new(player1: Player, player2: Player, deck: Deck) -> (g: Game)
        ensures
            g.player1 == player1,
            g.player2 == player2,
            g.deck == deck,
            g.table_cards@ == Seq::<Card>::empty(),
            g.game_over == false,
            g.outcome == Outcome::Running,
            g.last_round_winner is None,
    {
        Game {
            player1,
            player2,
            deck,
            table_cards: Vec::new(),
            game_over: false,
            outcome: Outcome::Running,
            last_round_winner: None,
        }
    }

    /// Shuffle the deck, then deal 26 cards to each player. Must run
    /// exactly once, on a not-yet-started game whose deck can cover both
    /// deals; a smaller deck is a setup error, ruled out by the
    /// precondition. The deal conserves cards exactly: the two dealt
    /// blocks and the rest of the deck are precisely the old deck's cards.
    pub fn initialize_game(&mut self)
        requires
            old(self).deck.deck@.len() >= 52,
            old(self).player1.dead_or_alive == PlayerState::Alive,
            old(self).player2.dead_or_alive == PlayerState::Alive,
            old(self).game_over == false,
        ensures
            final(self).deck.deck@.len() == old(self).deck.deck@.len() - 52,
            final(self).player1.player_deck@.len() == old(self).player1.player_deck@.len() + 26,
            final(self).player2.player_deck@.len() == old(self).player2.player_deck@.len() + 26,
            final(self).cards_in_play() == old(self).cards_in_play(),
            final(self).wf(),
            final(self).deck.deck@.to_multiset().add(
                final(self).player1.player_deck@.skip(
                    old(self).player1.player_deck@.len() as int,
                ).to_multiset(),
            ).add(
                final(self).player2.player_deck@.skip(
                    old(self).player2.player_deck@.len() as int,
                ).to_multiset(),
            ) == old(self).deck.deck@.to_multiset(),
            final(self).player1.player_deck@.take(old(self).player1.player_deck@.len() as int)
                == old(self).player1.player_deck@,
            final(self).player2.player_deck@.take(old(self).player2.player_deck@.len() as int)
                == old(self).player2.player_deck@,
            final(self).game_over == false,
            final(self).outcome == old(self).outcome,
            final(self).table_cards == old(self).table_cards,
            final(self).last_round_winner == old(self).last_round_winner,
            final(self).player1.player_name == old(self).player1.player_name,
            final(self).player2.player_name == old(self).player2.player_name,
            final(self).player1.last_played_card == old(self).player1.last_played_card,
            final(self).player2.last_played_card == old(self).player2.last_played_card,
    {
        self.deck.shuffle();
        let ghost shuffled = self.deck.deck@;
        let ghost hand1_before = self.player1.player_deck@;
        let ghost hand2_before = self.player2.player_deck@;
        self.player1.initial_draw(&mut self.deck);
        let ghost after1 = self.deck.deck@;
        self.player2.initial_draw(&mut self.deck);
        proof {
            let n: int = shuffled.len() as int;
            assert(shuffled =~= shuffled.take(n - 26) + shuffled.skip(n - 26));
            lemma_multiset_commutative(shuffled.take(n - 26), shuffled.skip(n - 26));
            assert(after1 =~= after1.take(n - 52) + after1.skip(n - 52));
            lemma_multiset_commutative(after1.take(n - 52), after1.skip(n - 52));
            shuffled.skip(n - 26).lemma_reverse_to_multiset();
            after1.skip(n - 52).lemma_reverse_to_multiset();
            assert((hand1_before + shuffled.skip(n - 26).reverse()).skip(hand1_before.len() as int)
                =~= shuffled.skip(n - 26).reverse());
            assert((hand2_before + after1.skip(n - 52).reverse()).skip(hand2_before.len() as int)
                =~= after1.skip(n - 52).reverse());
            assert((hand1_before + shuffled.skip(n - 26).reverse()).take(hand1_before.len() as int)
                =~= hand1_before);
            assert((hand2_before + after1.skip(n - 52).reverse()).take(hand2_before.len() as int)
                =~= hand2_before);
            assert(after1.take(n - 52) =~= shuffled.take(n - 26).take(n - 52));
            assert(shuffled.take(n - 26).take(n - 52) =~= shuffled.take(n - 52));
        }
    }

    /// Play rounds until the game is over, and leave a well-formed final
    /// state: the outcome is the terminal one the final hands dictate, and
    /// every card stays in play. The caller vouches that the game finishes
    /// within some number of rounds (see `finishes_in`).
    pub fn finish_game(&mut self)
        requires
            old(self).wf(),
            exists|k: nat|
                finishes_in(
                    old(self).game_over,
                    old(self).player1.player_deck@,
                    old(self).player2.player_deck@,
                    old(self).player1.last_played_card,
                    old(self).player2.last_played_card,
                    old(self).table_cards@,
                    k,
                ),
        ensures
            final(self).wf(),
            final(self).game_over,
            final(self).outcome == outcome_of(
                final(self).player1.player_deck@,
                final(self).player2.player_deck@,
            ),
            final(self).outcome != Outcome::Running,
            final(self).outcome != Outcome::War,
            final(self).cards_in_play() == old(self).cards_in_play(),
            final(self).id_multiset() == old(self).id_multiset(),
            final(self).deck == old(self).deck,
            final(self).player1.player_name == old(self).player1.player_name,
            final(self).player2.player_name == old(self).player2.player_name,
    {
        let ghost mut fuel: nat = choose|k: nat|
            finishes_in(
                self.game_over,
                self.player1.player_deck@,
                self.player2.player_deck@,
                self.player1.last_played_card,
                self.player2.last_played_card,
                self.table_cards@,
                k,
            );
        while !self.game_over
            invariant
                self.wf(),
                self.cards_in_play() == old(self).cards_in_play(),
                self.id_multiset() == old(self).id_multiset(),
                self.deck == old(self).deck,
                self.player1.player_name == old(self).player1.player_name,
                self.player2.player_name == old(self).player2.player_name,
                finishes_in(
                    self.game_over,
                    self.player1.player_deck@,
                    self.player2.player_deck@,
                    self.player1.last_played_card,
                    self.player2.last_played_card,
                    self.table_cards@,
                    fuel,
                ),
            decreases fuel,
        {
            self.play_round();
            proof {
                fuel = (fuel - 1) as nat;
            }
        }
    }

    /// The outcome the current hands dictate; the game-over flag is raised
    /// when it is terminal. This runs after every capture, not only at the
    /// top level, so a war that empties a hand mid-recursion still produces
    /// a definitive result.
    pub fn evaluate_outcome(&mut self) -> (r: Outcome)
        ensures
            r == outcome_of(old(self).player1.player_deck@, old(self).player2.player_deck@),
            final(self).game_over == (old(self).game_over || r != Outcome::Running),
            final(self).player1 == old(self).player1,
            final(self).player2 == old(self).player2,
            final(self).deck == old(self).deck,
            final(self).table_cards == old(self).table_cards,
            final(self).outcome == old(self).outcome,
            final(self).last_round_winner == old(self).last_round_winner,
    {
        let p1_empty = self.player1.player_deck.len() == 0;
        let p2_empty = self.player2.player_deck.len() == 0;
        if p1_empty && p2_empty {
            self.game_over = true;
            Outcome::Tie
        } else if p1_empty {
            self.game_over = true;
            Outcome::Player2Wins
        } else if p2_empty {
            self.game_over = true;
            Outcome::Player1Wins
        } else {
            Outcome::Running
        }
    }

    /// Give the whole table pile to one player and re-evaluate the outcome:
    /// the capture step shared by `play_round` and the war procedure.
    fn capture_table(&mut self, by_one: bool) -> (r: Outcome)
        ensures
            ({
                let m = capture(
                    old(self).player1.player_deck@,
                    old(self).player2.player_deck@,
                    old(self).player1.last_played_card,
                    old(self).player2.last_played_card,
                    old(self).table_cards@,
                    if by_one {
                        Who::PlayerOne
                    } else {
                        Who::PlayerTwo
                    },
                );
                &&& final(self).player1.player_deck@ == m.hand1
                &&& final(self).player2.player_deck@ == m.hand2
                &&& final(self).table_cards@ == m.table
                &&& final(self).player1.last_played_card == m.last1
                &&& final(self).player2.last_played_card == m.last2
                &&& r == m.outcome
            }),
            final(self).game_over == (old(self).game_over || r != Outcome::Running),
            (by_one ==> (final(self).last_round_winner matches Some(w) && same_player(
                w,
                final(self).player1,
            ))),
            (!by_one ==> (final(self).last_round_winner matches Some(w) && same_player(
                w,
                final(self).player2,
            ))),
            final(self).deck == old(self).deck,
            final(self).outcome == old(self).outcome,
            final(self).player1.player_name == old(self).player1.player_name,
            final(self).player2.player_name == old(self).player2.player_name,
            old(self).player1.wf() ==> final(self).player1.wf(),
            old(self).player2.wf() ==> final(self).player2.wf(),
    {
        let pile = if by_one {
            clone_cards(&self.table_cards)
        } else {
            reversed_cards(&self.table_cards)
        };
        self.table_cards.clear();
        if by_one {
            self.player1.add_cards(pile);
            self.last_round_winner = Some(self.player1.duplicate());
        } else {
            self.player2.add_cards(pile);
            self.last_round_winner = Some(self.player2.duplicate());
        }
        self.evaluate_outcome()
    }

    /// The war procedure: each player antes a face-down card, then plays a
    /// face-up card, all onto the table pile; unequal ranks give the pile
    /// to the higher card, equal ranks recurse into another layer, and a
    /// side without a card loses at once. Terminates because every layer
    /// strictly shrinks the hands. Exactly the effect of `war_spec`.
    fn handle_war(&mut self) -> (r: Outcome)
        requires
            old(self).player1.wf(),
            old(self).player2.wf(),
        ensures
            ({
                let m = war_spec(
                    old(self).player1.player_deck@,
                    old(self).player2.player_deck@,
                    old(self).player1.last_played_card,
                    old(self).player2.last_played_card,
                    old(self).table_cards@,
                );
                &&& final(self).player1.player_deck@ == m.hand1
                &&& final(self).player2.player_deck@ == m.hand2
                &&& final(self).table_cards@ == m.table
                &&& final(self).player1.last_played_card == m.last1
                &&& final(self).player2.last_played_card == m.last2
                &&& r == m.outcome
                &&& (m.winner matches Some(Who::PlayerOne) ==> (final(self).last_round_winner
                    matches Some(w) && same_player(w, final(self).player1)))
                &&& (m.winner matches Some(Who::PlayerTwo) ==> (final(self).last_round_winner
                    matches Some(w) && same_player(w, final(self).player2)))
                &&& (m.winner is None ==> final(self).last_round_winner == old(
                    self,
                ).last_round_winner)
            }),
            final(self).outcome == Outcome::War,
            final(self).game_over == (old(self).game_over || r != Outcome::Running),
            final(self).deck == old(self).deck,
            final(self).player1.player_name == old(self).player1.player_name,
            final(self).player2.player_name == old(self).player2.player_name,
            final(self).player1.wf(),
            final(self).player2.wf(),
        decreases
                old(self).player1.player_deck@.len() + old(self).player2.player_deck@.len(),
    {
        self.outcome = Outcome::War;

        let facedown1 = self.player1.play_card(false);
        let facedown2 = self.player2.play_card(false);
        if let Some(card) = facedown1 {
            self.table_cards.push(card);
        }
        if let Some(card) = facedown2 {
            self.table_cards.push(card);
        }

        match (facedown1, facedown2) {
            (None, None) => self.evaluate_outcome(),
            (Some(_), None) => self.capture_table(true),
            (None, Some(_)) => self.capture_table(false),
            (Some(_), Some(_)) => {
                let faceup1 = self.player1.play_card(true);
                let faceup2 = self.player2.play_card(true);
                if let Some(card) = faceup1 {
                    self.table_cards.push(card);
                }
                if let Some(card) = faceup2 {
                    self.table_cards.push(card);
                }

                match (faceup1, faceup2) {
                    (None, None) => self.evaluate_outcome(),
                    (Some(_), None) => self.capture_table(true),
                    (None, Some(_)) => self.capture_table(false),
                    (Some(card1), Some(card2)) => {
                        if card1.value > card2.value {
                            self.capture_table(true)
                        } else if card1.value < card2.value {
                            self.capture_table(false)
                        } else {
                            self.handle_war()
                        }
                    },
                }
            },
        }
    }

    /// Play one full round: each player plays one face-up card onto the
    /// table pile; the higher rank captures the whole pile (their own card,
    /// the opponent's, and anything a war escalated), equal ranks enter the
    /// war procedure, and a side without a card loses at once (a tie if
    /// neither side has one). Exactly the effect of `round_spec` on the
    /// observable state; never returns `War`, and conserves the cards in
    /// play.
    pub fn play_round(&mut self) -> (r: Outcome)
        requires
            old(self).wf(),
        ensures
            ({
                let m = round_spec(
                    old(self).player1.player_deck@,
                    old(self).player2.player_deck@,
                    old(self).player1.last_played_card,
                    old(self).player2.last_played_card,
                    old(self).table_cards@,
                );
                &&& final(self).player1.player_deck@ == m.hand1
                &&& final(self).player2.player_deck@ == m.hand2
                &&& final(self).table_cards@ == m.table
                &&& final(self).player1.last_played_card == m.last1
                &&& final(self).player2.last_played_card == m.last2
                &&& r == m.outcome
                &&& (m.winner matches Some(Who::PlayerOne) ==> (final(self).last_round_winner
                    matches Some(w) && same_player(w, final(self).player1)))
                &&& (m.winner matches Some(Who::PlayerTwo) ==> (final(self).last_round_winner
                    matches Some(w) && same_player(w, final(self).player2)))
                &&& (m.winner is None ==> final(self).last_round_winner == old(
                    self,
                ).last_round_winner)
            }),
            final(self).outcome == r,
            r != Outcome::War,
            final(self).game_over == (old(self).game_over || r != Outcome::Running),
            final(self).wf(),
            final(self).cards_in_play() == old(self).cards_in_play(),
            final(self).id_multiset() == old(self).id_multiset(),
            final(self).deck == old(self).deck,
            final(self).player1.player_name == old(self).player1.player_name,
            final(self).player2.player_name == old(self).player2.player_name,
    {
        proof {
            lemma_round_props(
                old(self).player1.player_deck@,
                old(self).player2.player_deck@,
                old(self).player1.last_played_card,
                old(self).player2.last_played_card,
                old(self).table_cards@,
            );
        }
        let card1 = self.player1.play_card(true);
        let card2 = self.player2.play_card(true);
        if let Some(card) = card1 {
            self.table_cards.push(card);
        }
        if let Some(card) = card2 {
            self.table_cards.push(card);
        }

        let r = match (card1, card2) {
            (None, None) => self.evaluate_outcome(),
            (Some(_), None) => self.capture_table(true),
            (None, Some(_)) => self.capture_table(false),
            (Some(c1), Some(c2)) => {
                if c1.value > c2.value {
                    self.capture_table(true)
                } else if c1.value < c2.value {
                    self.capture_table(false)
                } else {
                    self.handle_war()
                }
            },
        };
        self.outcome = r;
        proof {
            broadcast use vstd::multiset::group_multiset_axioms;

            let m = round_spec(
                old(self).player1.player_deck@,
                old(self).player2.player_deck@,
                old(self).player1.last_played_card,
                old(self).player2.last_played_card,
                old(self).table_cards@,
            );
            lemma_round_preserves_identities(
                old(self).player1.player_deck@,
                old(self).player2.player_deck@,
                old(self).player1.last_played_card,
                old(self).player2.last_played_card,
                old(self).table_cards@,
            );
            assert(self.id_multiset() =~= old(self).id_multiset()) by {
                assert forall|v: (Suit, Value)| self.id_multiset().count(v) == old(
                    self,
                ).id_multiset().count(v) by {
                    assert(ids(m.hand1).add(ids(m.hand2)).add(ids(m.table)).count(v) == ids(
                        old(self).player1.player_deck@,
                    ).add(ids(old(self).player2.player_deck@)).add(
                        ids(old(self).table_cards@),
                    ).count(v));
                }
            };
        }
        r
    }

    /// A copy of the first player.
    pub fn player1(&self) -> (p: Player)
        ensures
            same_player(p, self.player1),
    {
        self.player1.duplicate()
    }

    /// A copy of the second player.
    pub fn player2(&self) -> (p: Player)
        ensures
            same_player(p, self.player2),
    {
        self.player2.duplicate()
    }

    /// A copy of the deck.
    pub fn deck(&self) -> (d: Deck)
        ensures
            d.deck@ == self.deck.deck@,
    {
        Deck { deck: clone_cards(&self.deck.deck) }
    }

    /// A copy of the table pile, in accumulation order.
    pub fn get_table_cards(&self) -> (cards: Vec<Card>)
        ensures
            cards@ == self.table_cards@,
    {
        clone_cards(&self.table_cards)
    }

    /// Each player's most recently played card.
    pub fn get_last_played_cards(&self) -> (cards: (Option<Card>, Option<Card>))
        ensures
            cards.0 == self.player1.last_played_card,
            cards.1 == self.player2.last_played_card,
    {
        (self.player1.get_last_played_card(), self.player2.get_last_played_card())
    }

    /// The most recent outcome.
    pub fn outcome(&self) -> (r: Outcome)
        ensures
            r == self.outcome,
    {
        self.outcome
    }

    /// A copy of the winner of the most recently captured round, if any
    /// round was captured yet.
    pub fn last_round_winner(&self) -> (w: Option<Player>)
        ensures
            w is Some <==> self.last_round_winner is Some,
            self.last_round_winner matches Some(p) ==> (w matches Some(c) && same_player(c, p)),
    {
        match &self.last_round_winner {
            Some(p) => Some(p.duplicate()),
            None => None,
        }
    }

    /// Whether the game has reached a terminal outcome.
    pub fn game_over(&self) -> (b: bool)
        ensures
            b == self.game_over,
    {
        self.game_over
    }
}

} // verus!

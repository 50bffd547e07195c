use game_of_war::cards::Side;
use game_of_war::deck::Deck;

#[test]
fn test_new_deck() {
    let test_deck = Deck::new();
    assert_eq!(test_deck.deck.len(), 52);
}

#[test]
fn test_shuffle_deck() {
    let mut test_deck = Deck::new();
    let cards_before = test_deck.deck.clone();
    test_deck.shuffle();
    assert_ne!(test_deck.deck, cards_before);
}

#[test]
fn test_draw_card() {
    let mut test_deck = Deck::new();
    let card = test_deck.draw();
    assert_eq!(test_deck.deck.len(), 51);
    assert_eq!(card.is_some(), true);
}

#[test]
fn test_fresh_deck_is_52_unique_face_down_cards() {
    let deck = Deck::new();
    let cards = deck.get_deck();
    assert_eq!(cards.len(), 52);
    for card in &cards {
        assert_eq!(card.side, Side::Back);
    }
    for i in 0..cards.len() {
        for j in 0..cards.len() {
            if i != j {
                let same_identity =
                    cards[i].suit == cards[j].suit && cards[i].value == cards[j].value;
                assert!(!same_identity);
            }
        }
    }
}

#[test]
fn test_shuffle_keeps_exactly_the_same_cards() {
    let mut deck = Deck::new();
    let before = deck.get_deck();
    deck.shuffle();
    let after = deck.get_deck();
    assert_eq!(after.len(), before.len());
    // every card of the fresh deck is still there exactly once
    for b in &before {
        let count = after
            .iter()
            .filter(|a| a.suit == b.suit && a.value == b.value)
            .count();
        assert_eq!(count, 1);
    }
}

#[test]
fn test_draw_from_empty_deck() {
    let mut deck = Deck::new();
    for _ in 0..52 {
        assert!(deck.draw().is_some());
    }
    assert_eq!(deck.len(), 0);
    assert!(deck.draw().is_none());
    assert_eq!(deck.len(), 0);
}

#[test]
fn test_push_and_len() {
    let mut deck = Deck::new();
    let top = deck.draw().unwrap();
    assert_eq!(deck.len(), 51);
    deck.push(top);
    assert_eq!(deck.len(), 52);
    let again = deck.draw().unwrap();
    assert_eq!(again.suit, top.suit);
    assert_eq!(again.value, top.value);
}

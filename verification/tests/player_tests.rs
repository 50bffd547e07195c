use game_of_war::cards::{Card, Side, Suit, Value};
use game_of_war::deck::Deck;
use game_of_war::player::{Player, PlayerState};

#[test]
fn test_new_player() {
    let test_player = Player::new("Test Player".to_string());
    assert_eq!(test_player.player_name, "Test Player");
    assert_eq!(test_player.player_deck.len(), 0);
    assert_eq!(test_player.dead_or_alive, PlayerState::Alive);
}

#[test]
fn test_initial_draw() {
    let mut test_player = Player::new("Test Player".to_string());
    let mut test_deck = Deck::new();
    test_player.initial_draw(&mut test_deck);
    assert_eq!(test_player.player_deck.len(), 26);
}

#[test]
fn test_play_card() {
    let mut test_player = Player::new("Test Player".to_string());
    let mut test_deck = Deck::new();
    test_player.initial_draw(&mut test_deck);
    let card = test_player.play_card(true);
    assert_eq!(test_player.player_deck.len(), 25);
    assert_eq!(card.is_some(), true);
}

#[test]
fn test_add_cards() {
    let mut test_player = Player::new("Test Player".to_string());
    let mut test_deck = Deck::new();
    test_player.initial_draw(&mut test_deck);
    let mut test_player2 = Player::new("Test Player 2".to_string());
    test_player2.initial_draw(&mut test_deck);
    let cards = test_player2.player_deck.clone();
    test_player.add_cards(cards);
    assert_eq!(test_player.player_deck.len(), 52);
}

#[test]
fn test_last_played_card() {
    let mut test_player = Player::new("Test Player".to_string());
    let mut test_deck = Deck::new();
    test_player.initial_draw(&mut test_deck);
    let card = test_player.play_card(true);
    assert_eq!(
        test_player.last_played_card.map(|c| (c.suit, c.value)),
        card.map(|c| (c.suit, c.value))
    );
}

#[test]
// dies after playing last card
fn test_dead_or_alive() {
    let mut test_player = Player::new("Test Player".to_string());
    let mut test_deck = Deck::new();
    test_player.initial_draw(&mut test_deck);
    assert_eq!(test_player.dead_or_alive, PlayerState::Alive);
    for _ in 0..26 {
        test_player.play_card(true);
    }
    assert_eq!(test_player.dead_or_alive, PlayerState::Dead);
}

#[test]
// revived after adding cards
fn test_dead_or_alive_revived() {
    let mut test_player1 = Player::new("Test Player 1".to_string());
    let mut test_deck = Deck::new();
    test_player1.initial_draw(&mut test_deck);
    for _ in 0..25 {
        test_player1.play_card(true);
    }
    test_player1.play_card(true);
    assert_eq!(test_player1.dead_or_alive, PlayerState::Dead);
    let cards = vec![
        Card::new(Suit::Hearts, Value::Ace, Side::Back),
        Card::new(Suit::Hearts, Value::Two, Side::Back),
    ];
    test_player1.add_cards(cards);
    assert_eq!(test_player1.dead_or_alive, PlayerState::Alive);
}

#[test]
fn test_added_cards_enter_face_down() {
    let mut player = Player::new("Test Player".to_string());
    let cards = vec![
        Card::new(Suit::Spades, Value::Five, Side::Front),
        Card::new(Suit::Clubs, Value::Nine, Side::Back),
        Card::new(Suit::Hearts, Value::Queen, Side::Front),
    ];
    player.add_cards(cards);
    assert_eq!(player.player_deck.len(), 3);
    for card in &player.player_deck {
        assert_eq!(card.side, Side::Back);
    }
    // order of the batch is kept
    assert_eq!(player.player_deck[0].value, Value::Five);
    assert_eq!(player.player_deck[1].value, Value::Nine);
    assert_eq!(player.player_deck[2].value, Value::Queen);
}

#[test]
fn test_captured_cards_go_to_the_bottom() {
    let mut player = Player::new("Test Player".to_string());
    player.add_cards(vec![Card::new(Suit::Spades, Value::King, Side::Back)]);
    player.add_cards(vec![Card::new(Suit::Hearts, Value::Three, Side::Back)]);
    // the king went in first, so it is still at the play end
    let played = player.play_card(true).unwrap();
    assert_eq!(played.value, Value::King);
    let next = player.play_card(true).unwrap();
    assert_eq!(next.value, Value::Three);
}

#[test]
fn test_play_card_from_empty_hand() {
    let mut player = Player::new("Test Player".to_string());
    let card = player.play_card(true);
    assert!(card.is_none());
    assert_eq!(player.player_deck.len(), 0);
    assert!(player.last_played_card.is_none());
}

#[test]
fn test_played_card_orientation() {
    let mut player = Player::new("Test Player".to_string());
    player.add_cards(vec![
        Card::new(Suit::Diamonds, Value::Four, Side::Back),
        Card::new(Suit::Clubs, Value::Jack, Side::Back),
    ]);
    let face_up = player.play_card(true).unwrap();
    assert_eq!(face_up.side, Side::Front);
    let face_down = player.play_card(false).unwrap();
    assert_eq!(face_down.side, Side::Back);
}

#[test]
fn test_revived_by_single_captured_card() {
    let mut player = Player::new("Test Player".to_string());
    player.add_cards(vec![Card::new(Suit::Spades, Value::Two, Side::Back)]);
    player.play_card(true);
    assert_eq!(player.dead_or_alive, PlayerState::Dead);
    player.add_cards(vec![Card::new(Suit::Hearts, Value::Seven, Side::Front)]);
    assert_eq!(player.dead_or_alive, PlayerState::Alive);
    assert_eq!(player.player_deck.len(), 1);
}

use game_of_war::cards::{Card, Side, Suit, Value};
use game_of_war::deck::Deck;
use game_of_war::game::{Game, Outcome};
use game_of_war::player::{Player, PlayerState};

fn fresh_game() -> Game {
    let player1 = Player::new("Player 1".to_string());
    let player2 = Player::new("Player 2".to_string());
    let deck = Deck::new();
    Game::new(player1, player2, deck)
}

fn cards_in_play(game: &Game) -> usize {
    game.deck.deck.len()
        + game.player1.player_deck.len()
        + game.player2.player_deck.len()
        + game.table_cards.len()
}

#[test]
fn test_new_game() {
    let player1 = Player::new("Player 1".to_string());
    let player2 = Player::new("Player 2".to_string());
    let deck = Deck::new();
    let game = Game::new(player1, player2, deck);
    assert_eq!(game.player1.get_player_name(), "Player 1");
    assert_eq!(game.player2.get_player_name(), "Player 2");
    assert_eq!(game.deck.get_deck().len(), 52);
    assert_eq!(game.table_cards.len(), 0);
    assert_eq!(game.game_over, false);
    assert_eq!(game.outcome, Outcome::Running);
}

#[test]
fn test_initialize_game() {
    let mut game = fresh_game();
    game.initialize_game();
    assert_eq!(game.player1.get_player_deck().len(), 26);
    assert_eq!(game.player2.get_player_deck().len(), 26);
}

#[test]
fn test_play_round() {
    let mut game = fresh_game();
    game.initialize_game();
    let outcome = game.play_round();
    assert_eq!(game.table_cards.len(), 0);
    assert_ne!(game.player1.get_player_deck().len(), 26);
    assert_ne!(game.player2.get_player_deck().len(), 26);
    assert_eq!(outcome, Outcome::Running);
}

#[test]
fn test_evaluate_outcome() {
    let mut game = fresh_game();
    game.initialize_game();
    let outcome = game.evaluate_outcome();
    assert_eq!(outcome, Outcome::Running);
}

#[test]
fn test_finish_game() {
    let mut game = fresh_game();
    game.initialize_game();
    game.finish_game();
    assert_eq!(game.game_over, true);
}

#[test]
fn test_initialize_deals_out_the_whole_deck() {
    let mut game = fresh_game();
    game.initialize_game();
    assert_eq!(game.deck.len(), 0);
    assert_eq!(game.player1.player_deck.len(), 26);
    assert_eq!(game.player2.player_deck.len(), 26);
    assert_eq!(game.table_cards.len(), 0);
}

#[test]
fn test_card_conservation_through_a_game() {
    let mut game = fresh_game();
    assert_eq!(cards_in_play(&game), 52);
    game.initialize_game();
    assert_eq!(cards_in_play(&game), 52);
    let mut rounds = 0;
    while !game.game_over() && rounds < 10000 {
        game.play_round();
        assert_eq!(cards_in_play(&game), 52);
        rounds += 1;
    }
    assert!(game.game_over());
}

#[test]
fn test_status_matches_hand_through_a_game() {
    let mut game = fresh_game();
    game.initialize_game();
    let mut rounds = 0;
    while !game.game_over() && rounds < 10000 {
        game.play_round();
        assert_eq!(
            game.player1.dead_or_alive == PlayerState::Dead,
            game.player1.player_deck.is_empty()
        );
        assert_eq!(
            game.player2.dead_or_alive == PlayerState::Dead,
            game.player2.player_deck.is_empty()
        );
        rounds += 1;
    }
    assert!(game.game_over());
}

#[test]
fn test_forced_high_card_captures_the_table() {
    let player1 = Player::new("Player 1".to_string());
    let player2 = Player::new("Player 2".to_string());
    let deck = Deck::new();
    let mut game = Game::new(player1, player2, deck);
    // next played card is the last of the hand, so stack each hand by hand
    game.player1.add_cards(vec![Card::new(Suit::Spades, Value::Ace, Side::Back)]);
    game.player1.add_cards(vec![Card::new(Suit::Spades, Value::King, Side::Back)]);
    game.player2.add_cards(vec![Card::new(Suit::Hearts, Value::Two, Side::Back)]);
    game.player2.add_cards(vec![Card::new(Suit::Hearts, Value::Queen, Side::Back)]);

    let outcome = game.play_round();

    // player 1's ace beats player 2's two: the capture moves both played
    // cards into player 1's hand and clears the table
    assert_eq!(outcome, Outcome::Running);
    assert_eq!(game.player1.player_deck.len(), 3);
    assert_eq!(game.player2.player_deck.len(), 1);
    assert_eq!(game.table_cards.len(), 0);
    let (last1, last2) = game.get_last_played_cards();
    assert_eq!(last1.map(|c| c.value), Some(Value::Ace));
    assert_eq!(last2.map(|c| c.value), Some(Value::Two));
    let winner = game.last_round_winner().unwrap();
    assert_eq!(winner.get_player_name(), "Player 1");
}

#[test]
fn test_war_with_too_few_cards_goes_to_the_side_with_a_card() {
    let player1 = Player::new("Player 1".to_string());
    let player2 = Player::new("Player 2".to_string());
    let deck = Deck::new();
    let mut game = Game::new(player1, player2, deck);
    // both next cards are sevens; after the tie, player 1 has no card left
    // to ante while player 2 still has one
    game.player1.add_cards(vec![Card::new(Suit::Spades, Value::Seven, Side::Back)]);
    game.player2.add_cards(vec![Card::new(Suit::Hearts, Value::Seven, Side::Back)]);
    game.player2.add_cards(vec![Card::new(Suit::Hearts, Value::Three, Side::Back)]);

    let outcome = game.play_round();

    assert_eq!(outcome, Outcome::Player2Wins);
    assert!(game.game_over());
    assert_eq!(game.player1.player_deck.len(), 0);
    // player 2 captured the whole pile: both sevens and their own ante
    assert_eq!(game.player2.player_deck.len(), 3);
    assert_eq!(game.table_cards.len(), 0);
}

#[test]
fn test_war_with_no_cards_on_either_side_is_a_tie() {
    let player1 = Player::new("Player 1".to_string());
    let player2 = Player::new("Player 2".to_string());
    let deck = Deck::new();
    let mut game = Game::new(player1, player2, deck);
    game.player1.add_cards(vec![Card::new(Suit::Spades, Value::Jack, Side::Back)]);
    game.player2.add_cards(vec![Card::new(Suit::Clubs, Value::Jack, Side::Back)]);

    let outcome = game.play_round();

    // the jacks tie, and neither side can ante a face-down card
    assert_eq!(outcome, Outcome::Tie);
    assert!(game.game_over());
    assert_eq!(game.player1.player_deck.len(), 0);
    assert_eq!(game.player2.player_deck.len(), 0);
    // the tied cards stay on the table: nobody was decided the winner
    assert_eq!(game.table_cards.len(), 2);
}

#[test]
fn test_round_on_two_empty_hands_is_a_tie() {
    let mut game = fresh_game();
    // nobody was dealt anything: both hands are already empty
    game.player1.play_card(true);
    game.player2.play_card(true);
    let outcome = game.play_round();
    assert_eq!(outcome, Outcome::Tie);
    assert!(game.game_over());
}

#[test]
fn test_round_against_an_empty_hand_wins() {
    let player1 = Player::new("Player 1".to_string());
    let player2 = Player::new("Player 2".to_string());
    let deck = Deck::new();
    let mut game = Game::new(player1, player2, deck);
    game.player1.add_cards(vec![Card::new(Suit::Spades, Value::Four, Side::Back)]);

    let outcome = game.play_round();

    assert_eq!(outcome, Outcome::Player1Wins);
    assert!(game.game_over());
    // the winner captured their own played card back
    assert_eq!(game.player1.player_deck.len(), 1);
    assert_eq!(game.table_cards.len(), 0);
}

#[test]
fn test_evaluate_outcome_variants() {
    let one_card = [Card::new(Suit::Spades, Value::Six, Side::Back)];

    let mut game = fresh_game();
    game.player1.add_cards(one_card.to_vec());
    assert_eq!(game.evaluate_outcome(), Outcome::Player1Wins);
    assert!(game.game_over());

    let mut game = fresh_game();
    game.player2.add_cards(one_card.to_vec());
    assert_eq!(game.evaluate_outcome(), Outcome::Player2Wins);
    assert!(game.game_over());

    let mut game = fresh_game();
    assert_eq!(game.evaluate_outcome(), Outcome::Tie);
    assert!(game.game_over());

    let mut game = fresh_game();
    game.player1.add_cards(one_card.to_vec());
    game.player2.add_cards(vec![Card::new(Suit::Hearts, Value::Six, Side::Back)]);
    assert_eq!(game.evaluate_outcome(), Outcome::Running);
    assert!(!game.game_over());
}

#[test]
fn test_finished_game_has_a_terminal_outcome() {
    let mut game = fresh_game();
    game.initialize_game();
    game.finish_game();
    assert!(game.game_over());
    let outcome = game.outcome();
    assert!(
        outcome == Outcome::Player1Wins
            || outcome == Outcome::Player2Wins
            || outcome == Outcome::Tie
    );
    // the terminal outcome matches the hands
    match outcome {
        Outcome::Player1Wins => {
            assert!(game.player2.player_deck.is_empty());
            assert!(!game.player1.player_deck.is_empty());
        }
        Outcome::Player2Wins => {
            assert!(game.player1.player_deck.is_empty());
            assert!(!game.player2.player_deck.is_empty());
        }
        _ => {
            assert!(game.player1.player_deck.is_empty());
            assert!(game.player2.player_deck.is_empty());
        }
    }
}

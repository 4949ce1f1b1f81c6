use number_game::game::{
    GameState, Outcome, CORRECT_GUESS, GAME_OVER_END, GAME_OVER_MAX_ATTEMPTS, GAME_OVER_WON,
    MAX_NUMBER_ATTEMPTS, MAX_PLAYER_LOBBY, MAX_SECRET, MIN_SECRET, TOO_HIGH, TOO_LOW,
    WAITING_MESSAGE,
};

#[test]
fn test_correct_guess() {
    let mut game_state = GameState::new(2, 42);
    let response = game_state.make_guess(0, 42);
    assert_eq!(response, CORRECT_GUESS);
    assert_eq!(game_state.winner, Some(0));
    assert!(!game_state.active);
}

#[test]
fn test_too_low_guess() {
    let mut game_state = GameState::new(2, 42);
    let response = game_state.make_guess(0, 40);
    assert_eq!(response, TOO_LOW);
    assert_eq!(game_state.winner, None);
    assert!(game_state.active);
}

#[test]
fn test_too_high_guess() {
    let mut game_state = GameState::new(2, 42);
    let response = game_state.make_guess(0, 50);
    assert_eq!(response, TOO_HIGH);
    assert_eq!(game_state.winner, None);
    assert!(game_state.active);
}

#[test]
fn test_game_over_message() {
    let game_state = GameState::new(2, 42);
    assert_eq!(game_state.get_winner_message(0), GAME_OVER_END);
}

#[test]
fn test_max_attempts_reached() {
    let mut game_state = GameState::new(2, 42);
    game_state.attempts[0] = MAX_NUMBER_ATTEMPTS - 1;
    let response = game_state.make_guess(0, 50);
    assert_eq!(response, GAME_OVER_MAX_ATTEMPTS);
    // The other player has guesses left, so the round goes on.
    assert!(!game_state.is_game_over());
    assert!(game_state.active);
    assert_eq!(game_state.get_winner_message(0), GAME_OVER_END);
}

#[test]
fn test_max_attempts_reached_by_everyone() {
    let mut game_state = GameState::new(2, 42);
    game_state.attempts[0] = MAX_NUMBER_ATTEMPTS;
    game_state.attempts[1] = MAX_NUMBER_ATTEMPTS - 1;
    let response = game_state.make_guess(1, 42);
    assert_eq!(response, GAME_OVER_MAX_ATTEMPTS);
    assert!(game_state.is_game_over());
    assert!(!game_state.active);
    assert_eq!(game_state.winner, None);
    assert_eq!(game_state.get_winner_message(1), GAME_OVER_END);
}

#[test]
fn new_round_starts_with_player_zero_and_no_guesses() {
    let game_state = GameState::new(3, -7);
    assert_eq!(game_state.secret_number, -7);
    assert_eq!(game_state.current_turn, 0);
    assert_eq!(game_state.attempts, vec![0, 0, 0]);
    assert!(game_state.active);
    assert_eq!(game_state.winner, None);
    assert!(!game_state.is_game_over());
}

#[test]
fn every_guess_is_counted_for_its_player_only() {
    let mut game_state = GameState::new(3, 42);
    game_state.make_guess(1, 10);
    assert_eq!(game_state.attempts, vec![0, 1, 0]);
    game_state.make_guess(1, 90);
    game_state.make_guess(2, 42);
    assert_eq!(game_state.attempts, vec![0, 2, 1]);
}

#[test]
fn guess_that_reaches_the_cap_is_not_compared_with_the_secret() {
    let mut game_state = GameState::new(2, 42);
    game_state.attempts[0] = MAX_NUMBER_ATTEMPTS - 1;
    let outcome = game_state.apply_guess(0, 42);
    assert_eq!(outcome, Outcome::MaxAttemptsReached);
    assert_eq!(game_state.attempts[0], MAX_NUMBER_ATTEMPTS);
    assert_eq!(game_state.winner, None);
    assert!(game_state.active);
}

#[test]
fn last_guess_before_the_cap_is_still_compared() {
    let mut game_state = GameState::new(2, 42);
    game_state.attempts[0] = MAX_NUMBER_ATTEMPTS - 2;
    assert_eq!(game_state.apply_guess(0, 42), Outcome::Correct);
    assert_eq!(game_state.winner, Some(0));
}

#[test]
fn apply_guess_classifies_like_make_guess() {
    let mut game_state = GameState::new(2, 42);
    assert_eq!(game_state.apply_guess(0, 41), Outcome::TooLow);
    assert_eq!(game_state.apply_guess(1, 43), Outcome::TooHigh);
    assert_eq!(game_state.apply_guess(0, i32::MIN), Outcome::TooLow);
    assert_eq!(game_state.apply_guess(1, i32::MAX), Outcome::TooHigh);
    assert_eq!(game_state.apply_guess(0, 42), Outcome::Correct);
    assert_eq!(game_state.attempts, vec![3, 2]);
}

#[test]
fn outcome_messages_are_the_four_lines() {
    assert_eq!(Outcome::TooLow.message(), "Too low!\n");
    assert_eq!(Outcome::TooHigh.message(), "Too high!\n");
    assert_eq!(Outcome::Correct.message(), "Correct! You guessed the number!\n");
    assert_eq!(
        Outcome::MaxAttemptsReached.message(),
        "Game Over: You've reached the maximum number of attempts.\n"
    );
}

#[test]
fn winner_is_set_once_and_round_stays_over() {
    let mut game_state = GameState::new(2, 42);
    assert_eq!(game_state.make_guess(0, 42), CORRECT_GUESS);
    assert!(game_state.is_game_over());
    assert_eq!(game_state.make_guess(1, 7), TOO_LOW);
    assert_eq!(game_state.winner, Some(0));
    assert!(!game_state.active);
    assert!(game_state.is_game_over());
}

#[test]
fn game_over_is_kept_by_further_guesses() {
    let mut game_state = GameState::new(2, 42);
    game_state.attempts[0] = MAX_NUMBER_ATTEMPTS;
    game_state.attempts[1] = MAX_NUMBER_ATTEMPTS;
    assert!(game_state.is_game_over());
    assert!(game_state.active);
    assert_eq!(game_state.make_guess(0, 42), GAME_OVER_MAX_ATTEMPTS);
    assert!(game_state.is_game_over());
    assert!(!game_state.active);
    assert_eq!(game_state.winner, None);
}

#[test]
fn winner_message_names_the_winner() {
    let mut game_state = GameState::new(3, 42);
    game_state.make_guess(2, 42);
    assert_eq!(game_state.get_winner_message(2), "Game Over: You won the game!\n");
    assert_eq!(game_state.get_winner_message(0), "Game Over: Player 2 won the game!\n");
    assert_eq!(game_state.get_winner_message(1), "Game Over: Player 2 won the game!\n");
}

#[test]
fn winner_message_writes_large_player_numbers() {
    let mut game_state = GameState::new(1, 42);
    game_state.active = false;
    game_state.winner = Some(1234567890);
    assert_eq!(game_state.get_winner_message(0), "Game Over: Player 1234567890 won the game!\n");
}

#[test]
fn winner_message_is_the_same_when_asked_again() {
    let mut game_state = GameState::new(2, 42);
    let before_first = game_state.get_winner_message(1);
    let before_second = game_state.get_winner_message(1);
    assert_eq!(before_first, before_second);
    game_state.make_guess(0, 42);
    let first = game_state.get_winner_message(1);
    let second = game_state.get_winner_message(1);
    assert_eq!(first, second);
    assert_eq!(first, "Game Over: Player 0 won the game!\n");
    assert_eq!(game_state.winner, Some(0));
}

#[test]
fn all_exhausted_needs_every_player_at_the_cap() {
    let mut game_state = GameState::new(2, 42);
    assert!(!game_state.all_exhausted());
    game_state.attempts[0] = MAX_NUMBER_ATTEMPTS;
    assert!(!game_state.all_exhausted());
    game_state.attempts[1] = MAX_NUMBER_ATTEMPTS + 1;
    assert!(game_state.all_exhausted());
    assert!(game_state.is_game_over());
}

#[test]
fn close_ends_the_round_for_everyone() {
    let mut game_state = GameState::new(3, 42);
    game_state.make_guess(0, 42);
    game_state.close();
    assert!(!game_state.active);
    assert_eq!(game_state.attempts, vec![MAX_NUMBER_ATTEMPTS; 3]);
    assert_eq!(game_state.winner, Some(0));
    assert_eq!(game_state.current_turn, 0);
    assert_eq!(game_state.secret_number, 42);
}

#[test]
fn advance_turn_goes_round() {
    let mut game_state = GameState::new(3, 42);
    game_state.advance_turn();
    assert_eq!(game_state.current_turn, 1);
    game_state.advance_turn();
    assert_eq!(game_state.current_turn, 2);
    game_state.advance_turn();
    assert_eq!(game_state.current_turn, 0);
    assert_eq!(game_state.attempts, vec![0, 0, 0]);
}

#[test]
fn constants_have_their_values() {
    assert_eq!(MAX_PLAYER_LOBBY, 2);
    assert_eq!(MIN_SECRET, 0);
    assert_eq!(MAX_SECRET, 100);
    assert_eq!(MAX_NUMBER_ATTEMPTS, 5);
    assert_eq!(WAITING_MESSAGE, "Waiting for another player to make a guess...\n");
    assert_eq!(GAME_OVER_WON, "Game Over: You won the game!\n");
    assert_eq!(GAME_OVER_END, "Game Over: The game has ended.\n");
}

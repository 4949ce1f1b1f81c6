use number_game::game::{
    GameState, Outcome, CORRECT_GUESS, GAME_OVER_END, GAME_OVER_MAX_ATTEMPTS, GAME_OVER_WON,
    MAX_NUMBER_ATTEMPTS, TOO_HIGH, TOO_LOW, WAITING_MESSAGE,
};
use number_game::handler::{Handler, TurnAction};

#[test]
fn new_handler_has_sent_no_waiting_notice() {
    let handler = Handler::new(3);
    assert_eq!(handler.player_id, 3);
    assert!(!handler.waiting_message_sent);
}

#[test]
fn player_to_move_is_prompted_with_remaining_attempts() {
    let mut game = GameState::new(2, 42);
    let mut handler = Handler::new(0);
    let step = handler.begin_turn(&mut game);
    assert_eq!(step.action, TurnAction::Prompt { remaining: 5 });
    assert_eq!(
        step.message,
        Some(String::from("It's your turn. Enter your guess: (Remaining attempts: 5) "))
    );
    assert!(game.active);
    assert_eq!(game.attempts, vec![0, 0]);
    assert!(!handler.waiting_message_sent);
}

#[test]
fn prompt_counts_down_the_attempts() {
    let mut game = GameState::new(1, 42);
    let mut handler = Handler::new(0);
    game.attempts[0] = 3;
    let step = handler.begin_turn(&mut game);
    assert_eq!(step.action, TurnAction::Prompt { remaining: 2 });
    assert_eq!(
        step.message,
        Some(String::from("It's your turn. Enter your guess: (Remaining attempts: 2) "))
    );
}

#[test]
fn waiting_notice_is_sent_once_per_wait() {
    let mut game = GameState::new(2, 42);
    let mut handler = Handler::new(1);
    let first = handler.begin_turn(&mut game);
    assert_eq!(first.action, TurnAction::Wait { notify: true });
    assert_eq!(first.message, Some(String::from(WAITING_MESSAGE)));
    assert!(handler.waiting_message_sent);
    let second = handler.begin_turn(&mut game);
    assert_eq!(second.action, TurnAction::Wait { notify: false });
    assert_eq!(second.message, None);
    let third = handler.begin_turn(&mut game);
    assert_eq!(third.action, TurnAction::Wait { notify: false });
    assert_eq!(third.message, None);
    assert!(game.active);
    assert_eq!(game.current_turn, 0);
}

#[test]
fn waiting_notice_is_due_again_after_a_turn_of_ones_own() {
    let mut game = GameState::new(2, 42);
    let mut handler = Handler::new(1);
    assert_eq!(handler.begin_turn(&mut game).action, TurnAction::Wait { notify: true });
    game.current_turn = 1;
    assert_eq!(handler.begin_turn(&mut game).action, TurnAction::Prompt { remaining: 5 });
    assert!(!handler.waiting_message_sent);
    game.current_turn = 0;
    assert_eq!(handler.begin_turn(&mut game).action, TurnAction::Wait { notify: true });
    assert_eq!(handler.begin_turn(&mut game).action, TurnAction::Wait { notify: false });
}

#[test]
fn ended_round_gives_the_closing_line() {
    let mut game = GameState::new(2, 42);
    game.make_guess(0, 42);
    let mut winner = Handler::new(0);
    let mut other = Handler::new(1);
    let step = winner.begin_turn(&mut game);
    assert_eq!(step.action, TurnAction::Finished);
    assert_eq!(step.message, Some(String::from(GAME_OVER_WON)));
    let step = other.begin_turn(&mut game);
    assert_eq!(step.action, TurnAction::Finished);
    assert_eq!(step.message, Some(String::from("Game Over: Player 0 won the game!\n")));
    assert_eq!(game.winner, Some(0));
}

#[test]
fn ended_round_without_winner_gives_the_plain_closing_line() {
    let mut game = GameState::new(2, 42);
    game.active = false;
    let mut handler = Handler::new(1);
    handler.waiting_message_sent = true;
    let step = handler.begin_turn(&mut game);
    assert_eq!(step.action, TurnAction::Finished);
    assert_eq!(step.message, Some(String::from(GAME_OVER_END)));
    assert!(handler.waiting_message_sent);
}

#[test]
fn player_out_of_attempts_ends_the_round() {
    let mut game = GameState::new(2, 42);
    game.attempts[0] = MAX_NUMBER_ATTEMPTS;
    let mut handler = Handler::new(0);
    let step = handler.begin_turn(&mut game);
    assert_eq!(step.action, TurnAction::Exhausted);
    assert_eq!(step.message, Some(String::from(GAME_OVER_MAX_ATTEMPTS)));
    assert!(!game.active);
    assert_eq!(game.attempts, vec![MAX_NUMBER_ATTEMPTS, 0]);
    assert_eq!(game.winner, None);
}

#[test]
fn missed_guess_passes_the_turn() {
    let mut game = GameState::new(2, 42);
    let handler = Handler::new(0);
    let step = handler.take_guess(&mut game, 40);
    assert_eq!(step.outcome, Outcome::TooLow);
    assert_eq!(step.reply, TOO_LOW);
    assert_eq!(step.closing, None);
    assert_eq!(game.current_turn, 1);
    assert_eq!(game.attempts, vec![1, 0]);
    assert!(game.active);
    let next = Handler::new(1);
    let step = next.take_guess(&mut game, 50);
    assert_eq!(step.outcome, Outcome::TooHigh);
    assert_eq!(step.reply, TOO_HIGH);
    assert_eq!(step.closing, None);
    assert_eq!(game.current_turn, 0);
    assert_eq!(game.attempts, vec![1, 1]);
}

#[test]
fn correct_guess_closes_the_round_for_everyone() {
    let mut game = GameState::new(3, 42);
    game.current_turn = 1;
    let handler = Handler::new(1);
    let step = handler.take_guess(&mut game, 42);
    assert_eq!(step.outcome, Outcome::Correct);
    assert_eq!(step.reply, CORRECT_GUESS);
    assert_eq!(step.closing, Some(String::from(GAME_OVER_WON)));
    assert!(!game.active);
    assert_eq!(game.winner, Some(1));
    assert_eq!(game.attempts, vec![MAX_NUMBER_ATTEMPTS; 3]);
    assert_eq!(game.current_turn, 1);
}

#[test]
fn reaching_the_cap_alone_passes_the_turn() {
    let mut game = GameState::new(2, 42);
    game.attempts[0] = MAX_NUMBER_ATTEMPTS - 1;
    let handler = Handler::new(0);
    let step = handler.take_guess(&mut game, 42);
    assert_eq!(step.outcome, Outcome::MaxAttemptsReached);
    assert_eq!(step.reply, GAME_OVER_MAX_ATTEMPTS);
    assert_eq!(step.closing, None);
    assert!(game.active);
    assert_eq!(game.current_turn, 1);
    assert_eq!(game.attempts, vec![MAX_NUMBER_ATTEMPTS, 0]);
}

#[test]
fn reaching_the_cap_last_closes_the_round() {
    let mut game = GameState::new(2, 42);
    game.attempts[0] = MAX_NUMBER_ATTEMPTS;
    game.attempts[1] = MAX_NUMBER_ATTEMPTS - 1;
    game.current_turn = 1;
    let handler = Handler::new(1);
    let step = handler.take_guess(&mut game, 1);
    assert_eq!(step.outcome, Outcome::MaxAttemptsReached);
    assert_eq!(step.closing, Some(String::from(GAME_OVER_END)));
    assert!(!game.active);
    assert_eq!(game.winner, None);
    assert_eq!(game.attempts, vec![MAX_NUMBER_ATTEMPTS, MAX_NUMBER_ATTEMPTS]);
}

#[test]
fn turns_go_round_until_everyone_is_out_of_attempts() {
    let players = 3;
    let mut game = GameState::new(players, 42);
    let mut handlers = vec![Handler::new(0), Handler::new(1), Handler::new(2)];
    let mut order: Vec<usize> = Vec::new();
    let mut ticks = 0;
    while game.active {
        ticks += 1;
        assert!(ticks < 1000);
        for handler in handlers.iter_mut() {
            let before = game.attempts.clone();
            let step = handler.begin_turn(&mut game);
            assert_ne!(step.action, TurnAction::Exhausted);
            if let TurnAction::Prompt { remaining } = step.action {
                assert_eq!(game.current_turn, handler.player_id);
                assert_eq!(remaining, MAX_NUMBER_ATTEMPTS - before[handler.player_id]);
                order.push(handler.player_id);
                let was_over = game.is_game_over();
                handler.take_guess(&mut game, 7);
                assert!(!was_over);
                for i in 0..players {
                    assert!(before[i] <= game.attempts[i]);
                    assert!(game.attempts[i] <= MAX_NUMBER_ATTEMPTS);
                }
            }
        }
    }
    assert_eq!(order.len(), players * MAX_NUMBER_ATTEMPTS);
    for (k, player) in order.iter().enumerate() {
        assert_eq!(*player, k % players);
    }
    assert!(game.is_game_over());
    assert_eq!(game.winner, None);
    assert_eq!(game.attempts, vec![MAX_NUMBER_ATTEMPTS; 3]);
    for handler in handlers.iter_mut() {
        let step = handler.begin_turn(&mut game);
        assert_eq!(step.action, TurnAction::Finished);
        assert_eq!(step.message, Some(String::from(GAME_OVER_END)));
    }
}

#[test]
fn a_round_has_one_correct_guess_and_one_winner() {
    let mut game = GameState::new(2, 42);
    let mut handlers = vec![Handler::new(0), Handler::new(1)];
    let guesses = [10, 90, 30, 42, 42, 42, 42];
    let mut taken = 0;
    let mut corrects = 0;
    let mut rounds = 0;
    while rounds < 20 {
        rounds += 1;
        for handler in handlers.iter_mut() {
            let step = handler.begin_turn(&mut game);
            if let TurnAction::Prompt { .. } = step.action {
                let outcome = handler.take_guess(&mut game, guesses[taken]).outcome;
                taken += 1;
                if outcome == Outcome::Correct {
                    corrects += 1;
                }
            }
        }
    }
    assert_eq!(taken, 4);
    assert_eq!(corrects, 1);
    assert_eq!(game.winner, Some(1));
    assert!(!game.active);
    assert!(game.is_game_over());
}

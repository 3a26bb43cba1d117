use tiktaktoe::board::BoardIndex;
use tiktaktoe::board::Shape;
use tiktaktoe::game::ActionSurface;
use tiktaktoe::game::Game;
use tiktaktoe::game::GameError;
use tiktaktoe::game::GameResult;
use tiktaktoe::game::GameState;
use tiktaktoe::game::MessageModel;
use tiktaktoe::game::Player;

fn player(id: u64, name: &str) -> Player {
    Player { id, name: name.to_string() }
}

fn tok(s: &str) -> Vec<u8> {
    s.as_bytes().to_vec()
}

fn send(game: &mut Game, from: &Player, token: &str) -> Result<(), GameError> {
    let t = tok(token);
    game.process_callback(from, Some(&t))
}

/// Both players join; X's turn begins on an empty board.
fn started_game(a: &Player, b: &Player) -> Game {
    let mut game = Game::default();
    assert_eq!(send(&mut game, a, "join"), Ok(()));
    assert_eq!(game.state, GameState::Waiting);
    assert_eq!(send(&mut game, b, "join"), Ok(()));
    assert_eq!(game.state, GameState::Turn(Shape::X));
    game
}

#[test]
fn fresh_session_waits() {
    let game = Game::default();
    assert_eq!(game.state, GameState::Waiting);
    assert!(game.score.is_empty());
}

#[test]
fn missing_payload_is_no_data() {
    let mut game = Game::default();
    let a = player(1, "Alice");
    assert_eq!(game.process_callback(&a, None), Err(GameError::NoData));
    assert_eq!(game.state, GameState::Waiting);
}

#[test]
fn waiting_rejects_other_commands() {
    let mut game = Game::default();
    let a = player(1, "Alice");
    assert_eq!(send(&mut game, &a, "restart"), Err(GameError::UnknownCommand));
    assert_eq!(send(&mut game, &a, "place:0:0"), Err(GameError::UnknownCommand));
    assert_eq!(send(&mut game, &a, "gibberish"), Err(GameError::UnknownCommand));
    assert_eq!(game.state, GameState::Waiting);
}

#[test]
fn join_twice_fails_with_permission() {
    let mut game = Game::default();
    let a = player(1, "Alice");
    assert_eq!(send(&mut game, &a, "join"), Ok(()));
    assert_eq!(send(&mut game, &a, "join"), Err(GameError::Permission));
    assert_eq!(game.state, GameState::Waiting);
    assert_eq!(game.score.len(), 1);
}

#[test]
fn third_join_after_two_seats_is_unknown_command() {
    let a = player(1, "Alice");
    let b = player(2, "Bob");
    let mut game = started_game(&a, &b);
    // The phase moved past Waiting, so a further join is not a command
    // the current phase knows.
    let c = player(3, "Carol");
    assert_eq!(send(&mut game, &c, "join"), Err(GameError::UnknownCommand));
    assert_eq!(game.state, GameState::Turn(Shape::X));
}

#[test]
fn add_user_fails_once_both_seats_are_taken() {
    let mut game = Game::default();
    assert_eq!(game.add_user(player(1, "Alice")), Ok(()));
    assert_eq!(game.add_user(player(2, "Bob")), Ok(()));
    assert_eq!(game.add_user(player(3, "Carol")), Err(GameError::IllegalState));
}

#[test]
fn wrong_actor_place_fails_and_leaves_board_unchanged() {
    let a = player(1, "Alice");
    let b = player(2, "Bob");
    let mut game = started_game(&a, &b);
    // It is X's (Alice's) turn; Bob may not place.
    assert_eq!(send(&mut game, &b, "place:0:0"), Err(GameError::Permission));
    assert_eq!(game.state, GameState::Turn(Shape::X));
    for x in 0..3 {
        for y in 0..3 {
            assert_eq!(game.get_board().get_ref(&BoardIndex(x, y)), None);
        }
    }
    // An outsider may not place either.
    let c = player(3, "Carol");
    assert_eq!(send(&mut game, &c, "place:0:0"), Err(GameError::Permission));
}

#[test]
fn out_of_bounds_place_is_rejected() {
    let a = player(1, "Alice");
    let b = player(2, "Bob");
    let mut game = started_game(&a, &b);
    assert_eq!(send(&mut game, &a, "place:3:0"), Err(GameError::OutOfBounds));
    assert_eq!(send(&mut game, &a, "place:0:9"), Err(GameError::OutOfBounds));
    assert_eq!(game.state, GameState::Turn(Shape::X));
}

#[test]
fn occupied_cell_is_rejected() {
    let a = player(1, "Alice");
    let b = player(2, "Bob");
    let mut game = started_game(&a, &b);
    assert_eq!(send(&mut game, &a, "place:1:1"), Ok(()));
    assert_eq!(game.state, GameState::Turn(Shape::O));
    assert_eq!(send(&mut game, &b, "place:1:1"), Err(GameError::AlreadyOccupied));
    assert_eq!(game.state, GameState::Turn(Shape::O));
}

#[test]
fn malformed_place_during_turn_is_unknown_command() {
    let a = player(1, "Alice");
    let b = player(2, "Bob");
    let mut game = started_game(&a, &b);
    assert_eq!(send(&mut game, &a, "place:zz:0"), Err(GameError::UnknownCommand));
    assert_eq!(send(&mut game, &a, "join"), Err(GameError::UnknownCommand));
    assert_eq!(send(&mut game, &a, "restart"), Err(GameError::UnknownCommand));
    assert_eq!(game.state, GameState::Turn(Shape::X));
}

#[test]
fn full_round_column_win_for_first_player() {
    let a = player(1, "Alice");
    let b = player(2, "Bob");
    let mut game = started_game(&a, &b);
    assert_eq!(send(&mut game, &a, "place:0:0"), Ok(()));
    assert_eq!(game.state, GameState::Turn(Shape::O));
    assert_eq!(send(&mut game, &b, "place:1:1"), Ok(()));
    assert_eq!(game.state, GameState::Turn(Shape::X));
    assert_eq!(send(&mut game, &a, "place:0:1"), Ok(()));
    assert_eq!(send(&mut game, &b, "place:1:0"), Ok(()));
    assert_eq!(send(&mut game, &a, "place:0:2"), Ok(()));
    // Three in the first column: X wins and Alice's score moves to 1.
    assert_eq!(
        game.state,
        GameState::Finished(GameResult::Victory { winner: Shape::X })
    );
    assert_eq!(game.score.len(), 2);
    assert_eq!(game.score[0].id, 1);
    assert_eq!(game.score[0].wins, 1);
    assert_eq!(game.score[1].id, 2);
    assert_eq!(game.score[1].wins, 0);
}

#[test]
fn restart_swaps_seats_and_wipes_the_board() {
    let a = player(1, "Alice");
    let b = player(2, "Bob");
    let mut game = started_game(&a, &b);
    assert_eq!(send(&mut game, &a, "place:0:0"), Ok(()));
    assert_eq!(send(&mut game, &b, "place:1:1"), Ok(()));
    assert_eq!(send(&mut game, &a, "place:0:1"), Ok(()));
    assert_eq!(send(&mut game, &b, "place:1:0"), Ok(()));
    assert_eq!(send(&mut game, &a, "place:0:2"), Ok(()));
    assert!(matches!(game.state, GameState::Finished(_)));

    // Before the restart Alice sat at X.
    assert_eq!(game.player_name(Shape::X), Some("Alice".to_string()));
    assert_eq!(game.player_name(Shape::O), Some("Bob".to_string()));

    // An outsider may not restart.
    let c = player(3, "Carol");
    assert_eq!(send(&mut game, &c, "restart"), Err(GameError::Permission));

    assert_eq!(send(&mut game, &b, "restart"), Ok(()));
    assert_eq!(game.state, GameState::Turn(Shape::X));
    for x in 0..3 {
        for y in 0..3 {
            assert_eq!(game.get_board().get_ref(&BoardIndex(x, y)), None);
        }
    }
    // The seats traded participants; the scores stayed with them.
    assert_eq!(game.player_name(Shape::X), Some("Bob".to_string()));
    assert_eq!(game.player_name(Shape::O), Some("Alice".to_string()));
    assert_eq!(game.score[0].id, 1);
    assert_eq!(game.score[0].wins, 1);
    assert_eq!(game.score[1].id, 2);
    assert_eq!(game.score[1].wins, 0);
}

#[test]
fn drawn_round_changes_no_score() {
    let a = player(1, "Alice");
    let b = player(2, "Bob");
    let mut game = started_game(&a, &b);
    // X O X / X O O / O X X — a full board, no uniform line.
    assert_eq!(send(&mut game, &a, "place:0:0"), Ok(()));
    assert_eq!(send(&mut game, &b, "place:1:0"), Ok(()));
    assert_eq!(send(&mut game, &a, "place:2:0"), Ok(()));
    assert_eq!(send(&mut game, &b, "place:1:1"), Ok(()));
    assert_eq!(send(&mut game, &a, "place:0:1"), Ok(()));
    assert_eq!(send(&mut game, &b, "place:2:1"), Ok(()));
    assert_eq!(send(&mut game, &a, "place:1:2"), Ok(()));
    assert_eq!(send(&mut game, &b, "place:0:2"), Ok(()));
    assert_eq!(send(&mut game, &a, "place:2:2"), Ok(()));
    assert_eq!(game.state, GameState::Finished(GameResult::Draw));
    assert_eq!(game.score[0].wins, 0);
    assert_eq!(game.score[1].wins, 0);
}

#[test]
fn winning_move_on_a_filling_board_reports_the_win() {
    let a = player(1, "Alice");
    let b = player(2, "Bob");
    let mut game = started_game(&a, &b);
    // X X X / O O X / O X O — the ninth move completes both the board and
    // the top row: the win must be reported, not the draw.
    assert_eq!(send(&mut game, &a, "place:0:0"), Ok(()));
    assert_eq!(send(&mut game, &b, "place:0:1"), Ok(()));
    assert_eq!(send(&mut game, &a, "place:1:0"), Ok(()));
    assert_eq!(send(&mut game, &b, "place:1:1"), Ok(()));
    assert_eq!(send(&mut game, &a, "place:2:1"), Ok(()));
    assert_eq!(send(&mut game, &b, "place:0:2"), Ok(()));
    assert_eq!(send(&mut game, &a, "place:1:2"), Ok(()));
    assert_eq!(send(&mut game, &b, "place:2:2"), Ok(()));
    assert_eq!(send(&mut game, &a, "place:2:0"), Ok(()));
    assert_eq!(
        game.state,
        GameState::Finished(GameResult::Victory { winner: Shape::X })
    );
}

#[test]
fn render_model_follows_the_phase() {
    let a = player(1, "Alice");
    let b = player(2, "Bob");
    let mut game = Game::default();

    let (message, actions) = game.as_message();
    assert!(matches!(message, MessageModel::WaitingForPlayers));
    assert!(matches!(actions, ActionSurface::Join));

    assert_eq!(send(&mut game, &a, "join"), Ok(()));
    let (message, _) = game.as_message();
    match message {
        MessageModel::WaitingForOpponent { host } => assert_eq!(host.name, "Alice"),
        _ => panic!("expected a waiting-for-opponent message"),
    }

    assert_eq!(send(&mut game, &b, "join"), Ok(()));
    let (message, actions) = game.as_message();
    match message {
        MessageModel::TurnOf { mark, player } => {
            assert_eq!(mark, Shape::X);
            assert_eq!(player.unwrap().name, "Alice");
        },
        _ => panic!("expected a turn message"),
    }
    match actions {
        ActionSurface::Place { cells } => assert_eq!(cells.len(), 9),
        _ => panic!("expected placeable cells"),
    }

    assert_eq!(send(&mut game, &a, "place:1:1"), Ok(()));
    let (_, actions) = game.as_message();
    match actions {
        ActionSurface::Place { cells } => {
            assert_eq!(cells.len(), 8);
            assert!(!cells.contains(&BoardIndex(1, 1)));
        },
        _ => panic!("expected placeable cells"),
    }
}

#[test]
fn finished_render_sorts_standings_by_wins() {
    let a = player(1, "Alice");
    let b = player(2, "Bob");
    let mut game = started_game(&a, &b);
    assert_eq!(send(&mut game, &a, "place:0:0"), Ok(()));
    assert_eq!(send(&mut game, &b, "place:1:1"), Ok(()));
    assert_eq!(send(&mut game, &a, "place:0:1"), Ok(()));
    assert_eq!(send(&mut game, &b, "place:1:0"), Ok(()));
    assert_eq!(send(&mut game, &a, "place:0:2"), Ok(()));

    // Alice (who joined first) won; standings lead with her either way.
    let (message, actions) = game.as_message();
    assert!(matches!(actions, ActionSurface::Restart));
    match message {
        MessageModel::Finished { result, winner, standings } => {
            assert_eq!(result, GameResult::Victory { winner: Shape::X });
            assert_eq!(winner.unwrap().name, "Alice");
            assert_eq!(standings.len(), 2);
            assert_eq!(standings[0].name, "Alice");
            assert_eq!(standings[0].wins, 1);
            assert_eq!(standings[1].name, "Bob");
            assert_eq!(standings[1].wins, 0);
        },
        _ => panic!("expected a finished message"),
    }

    // After a restart Bob sits at X; a second win by the X seat now
    // belongs to Bob, and the standings reorder accordingly.
    assert_eq!(send(&mut game, &a, "restart"), Ok(()));
    assert_eq!(send(&mut game, &b, "place:0:0"), Ok(()));
    assert_eq!(send(&mut game, &a, "place:1:1"), Ok(()));
    assert_eq!(send(&mut game, &b, "place:0:1"), Ok(()));
    assert_eq!(send(&mut game, &a, "place:1:0"), Ok(()));
    assert_eq!(send(&mut game, &b, "place:0:2"), Ok(()));
    assert_eq!(send(&mut game, &a, "restart"), Ok(()));
    assert_eq!(send(&mut game, &a, "place:0:0"), Ok(()));
    assert_eq!(send(&mut game, &b, "place:1:1"), Ok(()));
    assert_eq!(send(&mut game, &a, "place:0:1"), Ok(()));
    assert_eq!(send(&mut game, &b, "place:1:0"), Ok(()));
    assert_eq!(send(&mut game, &a, "place:0:2"), Ok(()));
    // Alice has 2 wins, Bob 1; Bob is the later entry, so a tie would have
    // kept Alice first anyway — here the order is by wins.
    let (message, _) = game.as_message();
    match message {
        MessageModel::Finished { standings, .. } => {
            assert_eq!(standings[0].name, "Alice");
            assert_eq!(standings[0].wins, 2);
            assert_eq!(standings[1].name, "Bob");
            assert_eq!(standings[1].wins, 1);
        },
        _ => panic!("expected a finished message"),
    }
}

#[test]
fn player_name_reads_the_seat() {
    let mut game = Game::default();
    assert_eq!(game.player_name(Shape::X), None);
    assert_eq!(game.add_user(player(7, "Alice")), Ok(()));
    assert_eq!(game.player_name(Shape::X), Some("Alice".to_string()));
    assert_eq!(game.player_name(Shape::O), None);
}

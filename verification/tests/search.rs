use tic_tac_toe::MiniMaxResult;
use tic_tac_toe::Player;
use tic_tac_toe::TicTacToe;

fn game_after(plays: &[(usize, usize)]) -> TicTacToe {
    let mut game = TicTacToe::new();
    for &play in plays {
        assert_eq!(game.apply_play(play), Ok(()));
    }
    game
}

#[test]
fn evaluate_scores_winner() {
    let x_won = game_after(&[(0, 0), (1, 0), (0, 1), (1, 1), (0, 2)]);
    assert_eq!(Player::X.evaluate(&x_won), Some(1));
    let o_won = game_after(&[(0, 0), (1, 0), (0, 1), (1, 1), (2, 2), (1, 2)]);
    assert_eq!(Player::O.evaluate(&o_won), Some(-1));
    let fresh = TicTacToe::new();
    assert_eq!(Player::X.evaluate(&fresh), Some(0));
}

#[test]
fn minimax_takes_the_immediate_win() {
    // X at (0,0) and (0,1), O at (1,0) and (1,1), X to move: completing the
    // top row at (0,2) wins at once.
    let game = game_after(&[(0, 0), (1, 0), (0, 1), (1, 1)]);
    let result = Player::X.minimax(&game, Player::X);
    assert_eq!(
        result,
        MiniMaxResult {
            play: Some((0, 2)),
            score: 1,
        }
    );
}

#[test]
fn minimax_blocks_the_opponents_row() {
    // X at (0,0) and (0,1), O at (1,0), O to move: O must answer at (0,2).
    let game = game_after(&[(0, 0), (1, 0), (0, 1)]);
    let result = Player::O.minimax(&game, Player::O);
    assert_eq!(result.play, Some((0, 2)));
}

#[test]
fn minimax_is_deterministic() {
    let game = game_after(&[(1, 1), (0, 0), (2, 0)]);
    let first = Player::O.minimax(&game, Player::O);
    let second = Player::O.minimax(&game, Player::O);
    assert_eq!(first, second);
}

#[test]
fn minimax_on_finished_game_returns_score_without_play() {
    let x_won = game_after(&[(0, 0), (1, 0), (0, 1), (1, 1), (0, 2)]);
    let result = Player::O.minimax(&x_won, Player::O);
    assert_eq!(result, MiniMaxResult { play: None, score: 1 });
    let drawn = game_after(&[
        (0, 0),
        (0, 1),
        (0, 2),
        (1, 1),
        (1, 0),
        (1, 2),
        (2, 1),
        (2, 0),
        (2, 2),
    ]);
    let result = Player::X.minimax(&drawn, Player::X);
    assert_eq!(result, MiniMaxResult { play: None, score: 0 });
}

#[test]
fn self_play_from_empty_board_ends_in_a_draw() {
    let mut game = TicTacToe::new();
    let mut plays: usize = 0;
    while !game.game_over() {
        let mover = game.current_player();
        let result = mover.minimax(&game, mover);
        let play = result.play.expect("a live game offers a play");
        assert_eq!(game.apply_play(play), Ok(()));
        plays += 1;
        assert!(plays <= 9);
    }
    assert_eq!(game.has_winner(), None);
    assert!(game.is_draw());
    assert_eq!(plays, 9);
}

use tic_tac_toe::IllegalMoveError;
use tic_tac_toe::Player;
use tic_tac_toe::TicTacToe;
use tic_tac_toe::empty_plays;
use tic_tac_toe::translate_to_coord;

fn apply_all(game: &mut TicTacToe, plays: &[(usize, usize)]) {
    for &play in plays {
        assert_eq!(game.apply_play(play), Ok(()));
    }
}

#[test]
fn new_game_is_empty_with_x_to_move() {
    let game = TicTacToe::new();
    assert_eq!(game.current_player(), Player::X);
    assert_eq!(game.empty_plays.len(), 9);
    for index in 1..=9usize {
        assert_eq!(game.ref_cell(index), None);
    }
    assert_eq!(game.has_winner(), None);
    assert!(!game.game_over());
    assert!(!game.is_draw());
}

#[test]
fn translate_to_coord_maps_one_to_nine() {
    assert_eq!(translate_to_coord(1), Some((0, 0)));
    assert_eq!(translate_to_coord(2), Some((0, 1)));
    assert_eq!(translate_to_coord(3), Some((0, 2)));
    assert_eq!(translate_to_coord(4), Some((1, 0)));
    assert_eq!(translate_to_coord(5), Some((1, 1)));
    assert_eq!(translate_to_coord(6), Some((1, 2)));
    assert_eq!(translate_to_coord(7), Some((2, 0)));
    assert_eq!(translate_to_coord(8), Some((2, 1)));
    assert_eq!(translate_to_coord(9), Some((2, 2)));
    assert_eq!(translate_to_coord(0), None);
    assert_eq!(translate_to_coord(10), None);
}

#[test]
fn cell_index_inverts_translate_to_coord() {
    let game = TicTacToe::new();
    for index in 1..=9usize {
        let coord = translate_to_coord(index).unwrap();
        assert_eq!(game.cell_index(coord), Some(index));
    }
}

#[test]
fn cell_index_rejects_out_of_range_plays() {
    let game = TicTacToe::new();
    assert_eq!(game.cell_index((3, 0)), None);
    assert_eq!(game.cell_index((0, 3)), None);
    assert_eq!(game.cell_index((9, 9)), None);
}

#[test]
fn apply_play_marks_cell_and_switches_player() {
    let mut game = TicTacToe::new();
    assert_eq!(game.apply_play((0, 0)), Ok(()));
    assert_eq!(game.ref_cell(1), Some(Player::X));
    assert_eq!(game.current_player(), Player::O);
    assert_eq!(game.empty_plays.len(), 8);
    assert!(!game.empty_plays.contains(&(0, 0)));
}

#[test]
fn legal_play_count_drops_by_one_per_play() {
    let mut game = TicTacToe::new();
    let plays = [(0, 0), (1, 1), (0, 1), (1, 0), (2, 2)];
    for (n, &play) in plays.iter().enumerate() {
        assert_eq!(game.empty_plays.len(), 9 - n);
        assert_eq!(game.apply_play(play), Ok(()));
    }
    assert_eq!(game.empty_plays.len(), 4);
    for i in 0..plays.len() {
        for j in (i + 1)..plays.len() {
            assert_ne!(plays[i], plays[j]);
        }
    }
}

#[test]
fn apply_play_on_occupied_cell_fails_and_changes_nothing() {
    let mut game = TicTacToe::new();
    assert_eq!(game.apply_play((1, 1)), Ok(()));
    let before = game.clone();
    assert_eq!(game.apply_play((1, 1)), Err(IllegalMoveError));
    assert_eq!(game, before);
}

#[test]
fn apply_play_out_of_range_fails_and_changes_nothing() {
    let mut game = TicTacToe::new();
    let before = game.clone();
    assert_eq!(game.apply_play((0, 3)), Err(IllegalMoveError));
    assert_eq!(game, before);
    assert_eq!(game.apply_play((3, 0)), Err(IllegalMoveError));
    assert_eq!(game, before);
}

#[test]
fn empty_plays_lists_empty_cells_in_row_major_order() {
    let mut game = TicTacToe::new();
    apply_all(&mut game, &[(0, 1), (1, 1)]);
    let remaining = empty_plays(&game.board);
    assert_eq!(
        remaining,
        vec![(0, 0), (0, 2), (1, 0), (1, 2), (2, 0), (2, 1), (2, 2)]
    );
    assert_eq!(remaining, game.empty_plays);
}

#[test]
fn winner_on_completed_row() {
    let mut game = TicTacToe::new();
    apply_all(&mut game, &[(0, 0), (1, 0), (0, 1), (1, 1), (0, 2)]);
    assert_eq!(game.has_winner(), Some(Player::X));
    assert!(game.game_over());
    assert!(!game.is_draw());
}

#[test]
fn winner_on_completed_column() {
    let mut game = TicTacToe::new();
    apply_all(&mut game, &[(0, 0), (0, 1), (1, 0), (1, 1), (2, 2), (2, 1)]);
    assert_eq!(game.has_winner(), Some(Player::O));
    assert!(game.game_over());
}

#[test]
fn winner_on_completed_diagonal() {
    let mut game = TicTacToe::new();
    apply_all(&mut game, &[(0, 0), (0, 1), (1, 1), (0, 2), (2, 2)]);
    assert_eq!(game.has_winner(), Some(Player::X));
    assert!(game.game_over());
}

#[test]
fn no_winner_after_four_plays() {
    let mut game = TicTacToe::new();
    apply_all(&mut game, &[(0, 0), (1, 0), (0, 1), (1, 1)]);
    assert_eq!(game.has_winner(), None);
    assert!(!game.game_over());
}

#[test]
fn full_board_without_line_is_a_draw() {
    let mut game = TicTacToe::new();
    apply_all(
        &mut game,
        &[
            (0, 0),
            (0, 1),
            (0, 2),
            (1, 1),
            (1, 0),
            (1, 2),
            (2, 1),
            (2, 0),
            (2, 2),
        ],
    );
    assert_eq!(game.has_winner(), None);
    assert!(game.is_draw());
    assert!(game.game_over());
    assert_eq!(game.empty_plays.len(), 0);
}

#[test]
fn player_to_char_and_other_player() {
    assert_eq!(Player::X.to_char(), 'X');
    assert_eq!(Player::O.to_char(), 'O');
    assert_eq!(Player::X.other_player(), Player::O);
    assert_eq!(Player::O.other_player(), Player::X);
    let mut player = Player::X;
    player.switch_player();
    assert_eq!(player, Player::O);
}

#[test]
fn repr_cell_renders_mark_or_placeholder() {
    let game = TicTacToe::new();
    assert_eq!(game.repr_cell(Some(Player::X), '1'), 'X');
    assert_eq!(game.repr_cell(Some(Player::O), '5'), 'O');
    assert_eq!(game.repr_cell(None, '7'), '7');
}

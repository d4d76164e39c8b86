use tictactoe::tac::State;
use tictactoe::tac::TicTacToe;

fn play(board: &mut TicTacToe, moves: &[(usize, usize)]) {
    for &(x, y) in moves {
        assert!(x < board.width() && y < board.height());
        board.next(x, y);
    }
}

#[test]
fn new_board_is_empty_with_x_to_move() {
    let board = TicTacToe::new(3, 3);
    assert_eq!(board.width(), 3);
    assert_eq!(board.height(), 3);
    assert_eq!(board.turn(), State::X);
    for y in 0..3 {
        for x in 0..3 {
            assert!(board.is_cell_empty(x, y));
            assert_eq!(*board.get_cell(x, y), State::Empty);
        }
    }
}

#[test]
fn place_writes_mark_and_flips_turn() {
    let mut board = TicTacToe::new(3, 3);
    board.next(1, 1);
    assert_eq!(*board.get_cell(1, 1), State::X);
    assert_eq!(board.turn(), State::O);
    board.next(0, 0);
    assert_eq!(*board.get_cell(0, 0), State::O);
    assert_eq!(board.turn(), State::X);
}

#[test]
fn place_on_occupied_cell_is_a_noop() {
    let mut board = TicTacToe::new(3, 3);
    board.next(1, 1);
    let before = board.clone();
    board.next(1, 1);
    assert_eq!(board, before);
    assert_eq!(board.turn(), State::O);
    assert_eq!(*board.get_cell(1, 1), State::X);
}

#[test]
fn reset_equals_freshly_constructed_board() {
    let mut board = TicTacToe::new(3, 3);
    // A full game with no winner.
    play(
        &mut board,
        &[(0, 0), (0, 1), (1, 0), (1, 1), (2, 1), (2, 0), (0, 2), (1, 2), (2, 2)],
    );
    assert!(board.is_full());
    board.reset();
    assert_eq!(board, TicTacToe::new(3, 3));
    assert_eq!(board.turn(), State::X);
}

#[test]
fn winner_in_horizontal_line() {
    let mut board = TicTacToe::new(3, 3);
    play(&mut board, &[(0, 0), (0, 1), (1, 0), (1, 1), (2, 0)]);
    assert_eq!(board.check_winner(), State::X);
}

#[test]
fn winner_in_vertical_line() {
    let mut board = TicTacToe::new(3, 3);
    play(&mut board, &[(0, 0), (1, 0), (0, 1), (1, 1), (0, 2)]);
    assert_eq!(board.check_winner(), State::X);
}

#[test]
fn winner_in_down_right_diagonal() {
    let mut board = TicTacToe::new(3, 3);
    play(&mut board, &[(0, 0), (1, 0), (1, 1), (2, 0), (2, 2)]);
    assert_eq!(board.check_winner(), State::X);
}

#[test]
fn winner_in_down_left_diagonal() {
    let mut board = TicTacToe::new(3, 3);
    play(&mut board, &[(2, 0), (0, 0), (1, 1), (1, 0), (0, 2)]);
    assert_eq!(board.check_winner(), State::X);
}

#[test]
fn winner_can_be_o() {
    let mut board = TicTacToe::new(3, 3);
    play(&mut board, &[(0, 0), (0, 1), (1, 0), (1, 1), (2, 2), (2, 1)]);
    assert_eq!(board.check_winner(), State::O);
}

#[test]
fn no_winner_on_partial_or_drawn_board() {
    let mut board = TicTacToe::new(3, 3);
    assert_eq!(board.check_winner(), State::Empty);
    play(&mut board, &[(0, 0), (1, 1)]);
    assert_eq!(board.check_winner(), State::Empty);
    assert!(!board.is_full());

    let mut drawn = TicTacToe::new(3, 3);
    play(
        &mut drawn,
        &[(0, 0), (0, 1), (1, 0), (1, 1), (2, 1), (2, 0), (0, 2), (1, 2), (2, 2)],
    );
    assert!(drawn.is_full());
    assert_eq!(drawn.check_winner(), State::Empty);
}

#[test]
fn winner_on_rectangular_board() {
    let mut board = TicTacToe::new(4, 3);
    // X takes (1,0), (2,0), (3,0): a line of three inside a wider row.
    play(&mut board, &[(1, 0), (0, 1), (2, 0), (1, 1), (3, 0)]);
    assert_eq!(board.check_winner(), State::X);
}

#[test]
fn equality_is_structural_across_move_orders() {
    let mut a = TicTacToe::new(3, 3);
    play(&mut a, &[(0, 0), (1, 1), (2, 2)]);
    let mut b = TicTacToe::new(3, 3);
    play(&mut b, &[(2, 2), (1, 1), (0, 0)]);
    assert_eq!(a, b);

    let mut c = TicTacToe::new(3, 3);
    play(&mut c, &[(0, 0), (1, 1), (2, 0)]);
    assert_ne!(a, c);
}

#[test]
fn duplicate_is_independent() {
    let mut board = TicTacToe::new(3, 3);
    board.next(0, 0);
    let copy = board.duplicate();
    assert_eq!(copy, board);
    board.next(1, 1);
    assert_ne!(copy, board);
    assert!(copy.is_cell_empty(1, 1));
}

#[test]
fn marks_render_as_single_characters() {
    assert_eq!(State::Empty.symbol(), ' ');
    assert_eq!(State::X.symbol(), 'X');
    assert_eq!(State::O.symbol(), 'O');
}

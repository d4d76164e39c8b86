use tictactoe::ai::TicTacToeAi;
use tictactoe::tac::State;
use tictactoe::tac::TicTacToe;

fn play(board: &mut TicTacToe, moves: &[(usize, usize)]) {
    for &(x, y) in moves {
        assert!(x < board.width() && y < board.height());
        board.next(x, y);
    }
}

#[test]
fn terminal_positions_are_scored_directly() {
    let mut ai = TicTacToeAi::new();

    let mut x_won = TicTacToe::new(3, 3);
    play(&mut x_won, &[(0, 0), (0, 1), (1, 0), (1, 1), (2, 0)]);
    assert_eq!(x_won.check_winner(), State::X);
    assert_eq!(ai.minimax(x_won), 1);

    let mut o_won = TicTacToe::new(3, 3);
    play(&mut o_won, &[(0, 0), (0, 1), (1, 0), (1, 1), (2, 2), (2, 1)]);
    assert_eq!(o_won.check_winner(), State::O);
    assert_eq!(ai.minimax(o_won), -1);

    let mut drawn = TicTacToe::new(3, 3);
    play(
        &mut drawn,
        &[(0, 0), (0, 1), (1, 0), (1, 1), (2, 1), (2, 0), (0, 2), (1, 2), (2, 2)],
    );
    assert_eq!(drawn.check_winner(), State::Empty);
    assert!(drawn.is_full());
    assert_eq!(ai.minimax(drawn), 0);

    // Terminal positions are decided without expansion, so nothing is cached.
    assert_eq!(ai.cache_size(), 0);
}

#[test]
fn forced_wins_are_scored_exactly() {
    let mut ai = TicTacToeAi::new();

    // X to move with two in a row and the third cell open: a forced win.
    let mut x_wins_next = TicTacToe::new(3, 3);
    play(&mut x_wins_next, &[(0, 0), (0, 1), (1, 0), (1, 1)]);
    assert_eq!(x_wins_next.turn(), State::X);
    assert_eq!(ai.minimax(x_wins_next), 1);

    // O to move, completing its own row before X can complete the first one.
    let mut o_wins_next = TicTacToe::new(3, 3);
    play(&mut o_wins_next, &[(0, 0), (0, 1), (1, 0), (1, 1), (2, 2)]);
    assert_eq!(o_wins_next.turn(), State::O);
    assert_eq!(ai.minimax(o_wins_next), -1);
}

#[test]
fn evaluate_is_equal_on_structurally_identical_boards() {
    let mut ai = TicTacToeAi::new();
    let mut a = TicTacToe::new(3, 3);
    play(&mut a, &[(0, 0), (1, 1), (2, 2)]);
    // The same position, built independently and by a different move order.
    let mut b = TicTacToe::new(3, 3);
    play(&mut b, &[(2, 2), (1, 1), (0, 0)]);
    assert_eq!(a, b);
    let score_a = ai.minimax(a.duplicate());
    let score_b = ai.minimax(b);
    assert_eq!(score_a, score_b);
    assert_eq!(ai.minimax(a), score_a);
}

#[test]
fn evaluate_is_idempotent_and_second_call_hits_the_cache() {
    let mut ai = TicTacToeAi::new();
    let mut board = TicTacToe::new(3, 3);
    play(&mut board, &[(1, 1), (0, 0)]);

    let first = ai.minimax(board.duplicate());
    let size_after_first = ai.cache_size();
    assert!(size_after_first > 0);

    let second = ai.minimax(board);
    let size_after_second = ai.cache_size();

    assert_eq!(first, second);
    // A pure cache hit: the cache did not grow between the two calls.
    assert_eq!(size_after_first, size_after_second);
}

#[test]
fn engine_reports_no_move_when_the_game_is_over() {
    let mut ai = TicTacToeAi::new();

    let mut x_won = TicTacToe::new(3, 3);
    play(&mut x_won, &[(0, 0), (0, 1), (1, 0), (1, 1), (2, 0)]);
    assert_eq!(ai.next_move(&x_won), None);

    let mut drawn = TicTacToe::new(3, 3);
    play(
        &mut drawn,
        &[(0, 0), (0, 1), (1, 0), (1, 1), (2, 1), (2, 0), (0, 2), (1, 2), (2, 2)],
    );
    assert_eq!(ai.next_move(&drawn), None);
}

#[test]
fn first_move_from_empty_board_is_corner_or_center() {
    let mut ai = TicTacToeAi::new();
    let board = TicTacToe::new(3, 3);
    let mv = ai.next_move(&board).expect("the empty board is not terminal");
    let corners_and_center = [(0, 0), (2, 0), (0, 2), (2, 2), (1, 1)];
    assert!(corners_and_center.contains(&mv));
}

#[test]
fn optimal_self_play_always_ends_in_a_draw() {
    let mut ai = TicTacToeAi::new();
    let mut board = TicTacToe::new(3, 3);
    let mut moves_made = 0;
    while let Some((x, y)) = ai.next_move(&board) {
        assert!(board.is_cell_empty(x, y));
        board.next(x, y);
        moves_made += 1;
        assert!(moves_made <= 9);
    }
    // Plain minimax guarantees the optimal outcome (here, a draw), though
    // not the fastest possible win along the way.
    assert_eq!(moves_made, 9);
    assert!(board.is_full());
    assert_eq!(board.check_winner(), State::Empty);
    assert_eq!(ai.minimax(board), 0);
}

#[test]
fn chosen_reply_never_allows_a_forced_loss() {
    let mut ai = TicTacToeAi::new();
    let mut board = TicTacToe::new(3, 3);
    board.next(1, 1); // X takes the center.
    board.next(0, 0); // O takes a corner.
    assert_eq!(board.turn(), State::X);
    let (x, y) = ai.next_move(&board).expect("position is not terminal");
    let mut after = board.duplicate();
    after.next(x, y);
    // X's chosen move must not hand O a forced win.
    assert!(ai.minimax(after) >= 0);
}

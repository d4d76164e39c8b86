//! The perfect-play search engine: exhaustive minimax over all legal
//! continuations, memoized by exact board position.

use crate::tac::lemma_place_num_empty;
use crate::tac::num_empty;
use crate::tac::place_view;
use crate::tac::winner;
use crate::tac::BoardView;
use crate::tac::State;
use crate::tac::TicTacToe;
use vstd::prelude::*;

verus! {

/// The initial score of the side to move: the worst imaginable outcome, which
/// any real continuation improves on. Actual scores stay within `-1 ..= 1`.
pub open spec fn sentinel(turn: State) -> int {
    if turn == State::X {
        i32::MIN as int
    } else {
        i32::MAX as int
    }
}

/// Fold one continuation's score into the best seen so far: `X` maximizes,
/// `O` minimizes. Only a strict improvement replaces the accumulator.
pub open spec fn combine(turn: State, acc: int, v: int) -> int {
    if turn == State::X {
        if v > acc {
            v
        } else {
            acc
        }
    } else {
        if v < acc {
            v
        } else {
            acc
        }
    }
}

/// A position at which the game is over: someone has won, or the board is
/// full with no winner (a draw).
pub open spec fn is_terminal(b: BoardView) -> bool {
    winner(b) != State::Empty || b.full()
}

/// The scores of all continuations of `b` from cell `(x, y)` on (row-major
/// order), folded into `acc` by `combine`.
pub open spec fn fold_scores(b: BoardView, y: int, x: int, acc: int) -> int
    decreases num_empty(b.cells), b.height - y, b.width - x,
    via fold_scores_decreases
{
    if !b.wf() || y < 0 || x < 0 || y >= b.height {
        acc
    } else if x >= b.width {
        fold_scores(b, y + 1, 0, acc)
    } else {
        let acc2 = if b.cell(x, y) == State::Empty {
            combine(b.turn, acc, value(place_view(b, x, y)))
        } else {
            acc
        };
        fold_scores(b, y, x + 1, acc2)
    }
}

#[via_fn]
proof fn fold_scores_decreases(b: BoardView, y: int, x: int, acc: int) {
    if b.wf() && 0 <= y < b.height && 0 <= x < b.width && b.cell(x, y) == State::Empty {
        lemma_place_num_empty(b, x, y);
    }
}

/// The exact game-theoretic value of `b` under optimal play by both sides:
/// `1` if `X` can force a win, `-1` if `O` can, `0` for a draw. A position
/// with a winner (or a full board) is decided directly; otherwise every
/// empty cell is tried and the side to move picks its best continuation.
pub open spec fn value(b: BoardView) -> int
    decreases num_empty(b.cells), b.height + 1, 0int,
{
    if winner(b) == State::X {
        1
    } else if winner(b) == State::O {
        -1
    } else if b.full() {
        0
    } else if !b.wf() {
        0
    } else {
        fold_scores(b, 0, 0, sentinel(b.turn))
    }
}

/// The search engine. It owns a cache from board positions to their exact
/// minimax scores that grows monotonically over the engine's lifetime.
pub struct TicTacToeAi {
    cache: Vec<(TicTacToe, i32)>,
}

impl TicTacToeAi {
    /// An engine with an empty cache.
    pub fn new() -> (r: Self)
        ensures
            r.inv(),
            r.cache_len() == 0,
    {
        TicTacToeAi { cache: Vec::new() }
    }

    /// Every cached entry is a well-formed board with its exact minimax score.
    pub closed spec fn inv(&self) -> bool {
        forall|i: int|
            0 <= i < self.cache@.len() ==> (#[trigger] self.cache@[i]).0@.wf() && self.cache@[i].1
                as int == value(self.cache@[i].0@)
    }

    /// How many positions the cache holds.
    pub closed spec fn cache_len(&self) -> nat {
        self.cache@.len()
    }

    /// Whether the cache holds the position `b`.
    pub closed spec fn contains_board(&self, b: BoardView) -> bool {
        exists|i: int| 0 <= i < self.cache@.len() && (#[trigger] self.cache@[i]).0@ == b
    }

    /// The number of cached positions, the observable by which a caller can
    /// see that a repeated evaluation was answered from the cache alone.
    pub fn cache_size(&self) -> (r: usize)
        ensures
            r == self.cache_len(),
    {
        self.cache.len()
    }

    /// The cached score of `board`'s position, if that position was ever
    /// evaluated before; positions compare structurally, so a transposition
    /// reached by a different move order is still a hit.
    fn lookup(&self, board: &TicTacToe) -> (r: Option<i32>)
        requires
            self.inv(),
        ensures
            match r {
                Some(v) => self.contains_board(board@) && v as int == value(board@),
                None => !self.contains_board(board@),
            },
    {
        let mut i: usize = 0;
        while i < self.cache.len()
            invariant
                self.inv(),
                i <= self.cache@.len(),
                forall|j: int| 0 <= j < i ==> (#[trigger] self.cache@[j]).0@ != board@,
            decreases self.cache@.len() - i,
        {
            if self.cache[i].0 == *board {
                return Some(self.cache[i].1);
            }
            i += 1;
        }
        None
    }

    /// The exact minimax score of `tic_tac_toe`: `1`, `-1` or `0`. A cache
    /// hit answers without touching the board; a terminal position is decided
    /// directly (and not cached); anything else is expanded over every empty
    /// cell in row-major order and the result is cached for the position.
    pub fn minimax(&mut self, tic_tac_toe: TicTacToe) -> (r: i32)
        requires
            old(self).inv(),
            tic_tac_toe@.wf(),
        ensures
            final(self).inv(),
            r as int == value(tic_tac_toe@),
            -1 <= r <= 1,
            forall|bb: BoardView|
                old(self).contains_board(bb) ==> final(self).contains_board(bb),
            old(self).contains_board(tic_tac_toe@) || is_terminal(tic_tac_toe@) ==> *final(self)
                == *old(self),
            !is_terminal(tic_tac_toe@) ==> final(self).contains_board(tic_tac_toe@),
        decreases num_empty(tic_tac_toe@.cells),
    {
        proof {
            lemma_value_range(tic_tac_toe@);
        }
        if let Some(v) = self.lookup(&tic_tac_toe) {
            return v;
        }
        let ghost b = tic_tac_toe@;
        let ghost cache0 = self.cache@;

        let w = tic_tac_toe.check_winner();
        if w == State::X {
            return 1;
        }
        if w == State::O {
            return -1;
        }
        if tic_tac_toe.is_full() {
            return 0;
        }

        let is_x = tic_tac_toe.turn() == State::X;
        let mut best_score: i32 = if is_x {
            i32::MIN
        } else {
            i32::MAX
        };
        let ghost total = fold_scores(b, 0, 0, sentinel(b.turn));

        let board_width = tic_tac_toe.width();
        let board_height = tic_tac_toe.height();
        let mut y: usize = 0;
        while y < board_height
            invariant
                self.inv(),
                b == tic_tac_toe@,
                b.wf(),
                winner(b) == State::Empty,
                !b.full(),
                is_x == (b.turn == State::X),
                board_width == b.width,
                board_height == b.height,
                y <= b.height,
                fold_scores(b, y as int, 0, best_score as int) == total,
                forall|bb: BoardView|
                    seq_contains(cache0, bb) ==> self.contains_board(bb),
            decreases b.height - y,
        {
            let mut x: usize = 0;
            while x < board_width
                invariant
                    board_width == b.width,
                    self.inv(),
                    b == tic_tac_toe@,
                    b.wf(),
                    is_x == (b.turn == State::X),
                    y < b.height,
                    x <= b.width,
                    fold_scores(b, y as int, x as int, best_score as int) == total,
                    forall|bb: BoardView|
                        seq_contains(cache0, bb) ==> self.contains_board(bb),
                decreases b.width - x,
            {
                let ghost acc0 = best_score as int;
                if tic_tac_toe.is_cell_empty(x, y) {
                    let mut hypothetical = tic_tac_toe.duplicate();
                    hypothetical.next(x, y);
                    proof {
                        lemma_place_num_empty(b, x as int, y as int);
                    }
                    let ghost pre = *self;
                    let score = self.minimax(hypothetical);
                    proof {
                        assert forall|bb: BoardView|
                            seq_contains(cache0, bb) implies self.contains_board(
                            bb,
                        ) by {
                            assert(pre.contains_board(bb));
                        }
                    }
                    if is_x {
                        if score > best_score {
                            best_score = score;
                        }
                    } else {
                        if score < best_score {
                            best_score = score;
                        }
                    }
                }
                proof {
                    assert(fold_scores(b, y as int, x as int, acc0) == fold_scores(
                        b,
                        y as int,
                        x as int + 1,
                        best_score as int,
                    ));
                }
                x += 1;
            }
            proof {
                assert(fold_scores(b, y as int, b.width, best_score as int) == fold_scores(
                    b,
                    y as int + 1,
                    0,
                    best_score as int,
                ));
            }
            y += 1;
        }
        proof {
            assert(fold_scores(b, b.height, 0, best_score as int) == best_score as int);
            assert(best_score as int == value(b));
        }
        let ghost pre_push = *self;
        let ghost before_push = self.cache@;
        self.cache.push((tic_tac_toe, best_score));
        proof {
            assert forall|i: int| 0 <= i < self.cache@.len() implies (
            #[trigger] self.cache@[i]).0@.wf() && self.cache@[i].1 as int == value(
                self.cache@[i].0@,
            ) by {
                if i < before_push.len() {
                    assert(self.cache@[i] == before_push[i]);
                }
            }
            assert((self.cache@[before_push.len() as int]).0@ == b);
            assert(self.contains_board(b));
            assert forall|bb: BoardView|
                seq_contains(cache0, bb) implies self.contains_board(bb) by {
                assert(pre_push.contains_board(bb));
                let j = choose|j: int|
                    0 <= j < pre_push.cache@.len() && (#[trigger] pre_push.cache@[j]).0@ == bb;
                assert(self.cache@[j] == before_push[j]);
            }
            assert forall|bb: BoardView|
                old(self).contains_board(bb) implies self.contains_board(bb) by {
                assert(seq_contains(cache0, bb));
            }
        }
        best_score
    }

    /// The locally optimal next move for the side to act, or `None` when the
    /// game is over (a winner exists or the board is full). Empty cells are
    /// scanned in row-major order; only a strictly better continuation
    /// replaces the best seen, so the first among equally good moves wins.
    /// The reported move never gives the game value away.
    pub fn next_move(&mut self, tic_tac_toe: &TicTacToe) -> (r: Option<(usize, usize)>)
        requires
            old(self).inv(),
            tic_tac_toe@.wf(),
        ensures
            final(self).inv(),
            forall|bb: BoardView|
                old(self).contains_board(bb) ==> final(self).contains_board(bb),
            r is Some <==> !is_terminal(tic_tac_toe@),
            is_terminal(tic_tac_toe@) ==> *final(self) == *old(self),
            r matches Some(mv) ==> {
                &&& (mv.0 as int, mv.1 as int) == best_choice(tic_tac_toe@).1
                &&& tic_tac_toe@.in_bounds(mv.0 as int, mv.1 as int)
                &&& tic_tac_toe@.cell(mv.0 as int, mv.1 as int) == State::Empty
                &&& value(place_view(tic_tac_toe@, mv.0 as int, mv.1 as int)) == value(
                    tic_tac_toe@,
                )
            },
    {
        let w = tic_tac_toe.check_winner();
        if w == State::X || w == State::O {
            return None;
        }
        if tic_tac_toe.is_full() {
            return None;
        }
        let ghost b = tic_tac_toe@;
        let ghost cache0 = self.cache@;

        let is_x = tic_tac_toe.turn() == State::X;
        let mut best_score: i32 = if is_x {
            i32::MIN
        } else {
            i32::MAX
        };
        let mut best_mv: (usize, usize) = (0, 0);

        let board_width = tic_tac_toe.width();
        let board_height = tic_tac_toe.height();
        let mut y: usize = 0;
        while y < board_height
            invariant
                self.inv(),
                b == tic_tac_toe@,
                b.wf(),
                is_x == (b.turn == State::X),
                board_width == b.width,
                board_height == b.height,
                y <= b.height,
                choice_from(b, y as int, 0, (best_score as int, (best_mv.0 as int, best_mv.1
                    as int))) == best_choice(b),
                forall|bb: BoardView|
                    seq_contains(cache0, bb) ==> self.contains_board(bb),
            decreases b.height - y,
        {
            let mut x: usize = 0;
            while x < board_width
                invariant
                    self.inv(),
                    b == tic_tac_toe@,
                    b.wf(),
                    is_x == (b.turn == State::X),
                    board_width == b.width,
                    y < b.height,
                    x <= b.width,
                    choice_from(b, y as int, x as int, (best_score as int, (best_mv.0 as int,
                        best_mv.1 as int))) == best_choice(b),
                    forall|bb: BoardView|
                        seq_contains(cache0, bb) ==> self.contains_board(bb),
                decreases b.width - x,
            {
                let ghost acc0: (int, (int, int)) = (
                    best_score as int,
                    (best_mv.0 as int, best_mv.1 as int),
                );
                if tic_tac_toe.is_cell_empty(x, y) {
                    let mut hypothetical = tic_tac_toe.duplicate();
                    hypothetical.next(x, y);
                    let ghost pre = *self;
                    let score = self.minimax(hypothetical);
                    proof {
                        assert forall|bb: BoardView|
                            seq_contains(cache0, bb) implies self.contains_board(
                            bb,
                        ) by {
                            assert(pre.contains_board(bb));
                        }
                    }
                    if is_x {
                        if score > best_score {
                            best_score = score;
                            best_mv = (x, y);
                        }
                    } else {
                        if score < best_score {
                            best_score = score;
                            best_mv = (x, y);
                        }
                    }
                }
                proof {
                    assert(choice_step(b, x as int, y as int, acc0) == (best_score as int, (
                    best_mv.0 as int,
                    best_mv.1 as int,
                    )));
                    assert(choice_from(b, y as int, x as int, acc0) == choice_from(
                        b,
                        y as int,
                        x as int + 1,
                        choice_step(b, x as int, y as int, acc0),
                    ));
                }
                x += 1;
            }
            proof {
                assert(choice_from(b, y as int, b.width, (best_score as int, (best_mv.0 as int,
                    best_mv.1 as int))) == choice_from(
                    b,
                    y as int + 1,
                    0,
                    (best_score as int, (best_mv.0 as int, best_mv.1 as int)),
                ));
            }
            y += 1;
        }
        proof {
            assert(choice_from(b, b.height, 0, (best_score as int, (best_mv.0 as int, best_mv.1
                as int))) == (best_score as int, (best_mv.0 as int, best_mv.1 as int)));
            lemma_best_choice_optimal(b);
            assert forall|bb: BoardView|
                old(self).contains_board(bb) implies self.contains_board(bb) by {
                assert(seq_contains(cache0, bb));
            }
        }
        Some(best_mv)
    }
}

/// Whether some entry of `s` holds the position `b`.
spec fn seq_contains(s: Seq<(TicTacToe, i32)>, b: BoardView) -> bool {
    exists|i: int| 0 <= i < s.len() && (#[trigger] s[i]).0@ == b
}

/// Some empty cell lies at `(x, y)` or later in row-major scan order.
spec fn empty_after(b: BoardView, y: int, x: int) -> bool {
    exists|xx: int, yy: int|
        b.in_bounds(xx, yy) && (yy > y || (yy == y && xx >= x)) && #[trigger] b.cell(xx, yy)
            == State::Empty
}

/// Folded scores never leave the set of real game outcomes `{-1, 0, 1}`,
/// provided some continuation exists to replace the sentinel.
proof fn lemma_fold_range(b: BoardView, y: int, x: int, acc: int)
    requires
        b.wf(),
        0 <= y,
        0 <= x,
        (-1 <= acc <= 1) || (acc == sentinel(b.turn) && empty_after(b, y, x)),
    ensures
        -1 <= fold_scores(b, y, x, acc) <= 1,
    decreases num_empty(b.cells), b.height - y, b.width - x,
{
    if y >= b.height {
        if !(-1 <= acc <= 1) {
            let (xx, yy) = choose|xx: int, yy: int|
                b.in_bounds(xx, yy) && (yy > y || (yy == y && xx >= x)) && #[trigger] b.cell(
                    xx,
                    yy,
                ) == State::Empty;
            assert(false);
        }
    } else if x >= b.width {
        if !(-1 <= acc <= 1) {
            let (xx, yy) = choose|xx: int, yy: int|
                b.in_bounds(xx, yy) && (yy > y || (yy == y && xx >= x)) && #[trigger] b.cell(
                    xx,
                    yy,
                ) == State::Empty;
            assert(yy > y || (yy == y && xx >= x));
            assert(empty_after(b, y + 1, 0));
        }
        lemma_fold_range(b, y + 1, 0, acc);
    } else {
        if b.cell(x, y) == State::Empty {
            lemma_place_num_empty(b, x, y);
            lemma_value_range(place_view(b, x, y));
            lemma_fold_range(b, y, x + 1, combine(b.turn, acc, value(place_view(b, x, y))));
        } else {
            if !(-1 <= acc <= 1) {
                let (xx, yy) = choose|xx: int, yy: int|
                    b.in_bounds(xx, yy) && (yy > y || (yy == y && xx >= x)) && #[trigger] b.cell(
                        xx,
                        yy,
                    ) == State::Empty;
                assert(empty_after(b, y, x + 1));
            }
            lemma_fold_range(b, y, x + 1, acc);
        }
    }
}

/// Scores are exactly the three real game outcomes: `1` (win for `X`),
/// `-1` (win for `O`) or `0` (draw); the sentinels never escape.
pub proof fn lemma_value_range(b: BoardView)
    requires
        b.wf(),
    ensures
        -1 <= value(b) <= 1,
    decreases num_empty(b.cells), b.height + 1, 0int,
{
    if winner(b) == State::X || winner(b) == State::O || b.full() {
    } else {
        let (x0, y0) = choose|x0: int, y0: int|
            b.in_bounds(x0, y0) && #[trigger] b.cell(x0, y0) == State::Empty;
        assert(empty_after(b, 0, 0));
        lemma_fold_range(b, 0, 0, sentinel(b.turn));
    }
}

/// One step of the move scan: an empty cell whose continuation scores
/// strictly better for the side to move replaces the best seen so far, so
/// among equally good moves the first in scan order is kept.
pub open spec fn choice_step(b: BoardView, x: int, y: int, acc: (int, (int, int))) -> (
    int,
    (int, int),
) {
    if b.cell(x, y) == State::Empty {
        let v = value(place_view(b, x, y));
        if (b.turn == State::X && v > acc.0) || (b.turn != State::X && v < acc.0) {
            (v, (x, y))
        } else {
            acc
        }
    } else {
        acc
    }
}

/// The move scan from cell `(x, y)` on, in row-major order, starting from
/// the accumulated best `acc` (score, move).
pub open spec fn choice_from(b: BoardView, y: int, x: int, acc: (int, (int, int))) -> (
    int,
    (int, int),
)
    decreases b.height - y, b.width - x,
{
    if !b.wf() || y < 0 || x < 0 || y >= b.height {
        acc
    } else if x >= b.width {
        choice_from(b, y + 1, 0, acc)
    } else {
        choice_from(b, y, x + 1, choice_step(b, x, y, acc))
    }
}

/// The (score, move) pair `next_move` reports for a non-terminal board.
pub open spec fn best_choice(b: BoardView) -> (int, (int, int)) {
    choice_from(b, 0, 0, (sentinel(b.turn), (0, 0)))
}

/// Either the scan has not yet found a move (the score is still the
/// sentinel), or the accumulated move is a legal empty cell whose
/// continuation scores exactly the accumulated score.
spec fn choice_ok(b: BoardView, acc: (int, (int, int))) -> bool {
    acc.0 == sentinel(b.turn) || {
        &&& b.in_bounds(acc.1.0, acc.1.1)
        &&& b.cell(acc.1.0, acc.1.1) == State::Empty
        &&& value(place_view(b, acc.1.0, acc.1.1)) == acc.0
    }
}

/// The move scan tracks the score fold exactly, and its result is either
/// still the sentinel or a legal move achieving the folded score.
proof fn lemma_choice_tracks(b: BoardView, y: int, x: int, acc: (int, (int, int)))
    requires
        b.wf(),
        0 <= y,
        0 <= x,
        choice_ok(b, acc),
    ensures
        choice_from(b, y, x, acc).0 == fold_scores(b, y, x, acc.0),
        choice_ok(b, choice_from(b, y, x, acc)),
    decreases b.height - y, b.width - x,
{
    if y >= b.height {
    } else if x >= b.width {
        lemma_choice_tracks(b, y + 1, 0, acc);
    } else {
        let acc2 = choice_step(b, x, y, acc);
        if b.cell(x, y) == State::Empty {
            lemma_place_num_empty(b, x, y);
            assert(acc2.0 == combine(b.turn, acc.0, value(place_view(b, x, y))));
        }
        lemma_choice_tracks(b, y, x + 1, acc2);
    }
}

/// For a non-terminal position the reported move is a legal empty cell and
/// is optimal: playing it preserves the exact game value — the engine never
/// gives anything away, though among equally good outcomes it has no
/// preference for faster wins.
pub proof fn lemma_best_choice_optimal(b: BoardView)
    requires
        b.wf(),
        !is_terminal(b),
    ensures
        b.in_bounds(best_choice(b).1.0, best_choice(b).1.1),
        b.cell(best_choice(b).1.0, best_choice(b).1.1) == State::Empty,
        best_choice(b).0 == value(b),
        value(place_view(b, best_choice(b).1.0, best_choice(b).1.1)) == value(b),
{
    lemma_choice_tracks(b, 0, 0, (sentinel(b.turn), (0, 0)));
    let (x0, y0) = choose|x0: int, y0: int|
        b.in_bounds(x0, y0) && #[trigger] b.cell(x0, y0) == State::Empty;
    assert(empty_after(b, 0, 0));
    lemma_fold_range(b, 0, 0, sentinel(b.turn));
}

/// A terminal position is scored directly from its outcome, with no
/// expansion: `1` when `X` has the winning line, `-1` when `O` has it, and
/// `0` for a full board with no winner.
pub proof fn lemma_terminal_value(b: BoardView)
    requires
        is_terminal(b),
    ensures
        winner(b) == State::X ==> value(b) == 1,
        winner(b) == State::O ==> value(b) == -1,
        winner(b) == State::Empty ==> value(b) == 0,
{
}

/// Memoization is sound because evaluation depends on the board's
/// mathematical content alone: structurally identical boards, however
/// reached and however independently constructed, have identical values.
pub proof fn lemma_value_respects_structure(a: TicTacToe, c: TicTacToe)
    requires
        a@ == c@,
    ensures
        value(a@) == value(c@),
{
}

} // verus!

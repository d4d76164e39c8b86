//! The game board: dimensions, per-cell occupancy, whose turn it is, and the
//! queries the search engine needs (winner check, fullness, cell emptiness).

use vstd::prelude::*;

verus! {

/// The content of one board cell: empty, or one of the two players' marks.
/// `X` moves first and is the maximizing side; `O` is the minimizing side.
#[derive(Debug, Clone, Copy, PartialEq, Eq, Hash, Structural)]
pub enum State {
    Empty,
    X,
    O,
}

impl State {
    /// The canonical one-character rendering of a mark: `' '`, `'X'` or `'O'`.
    pub fn symbol(&self) -> (r: char)
        ensures
            r == (match self {
                State::Empty => ' ',
                State::X => 'X',
                State::O => 'O',
            }),
    {
        match self {
            State::Empty => ' ',
            State::X => 'X',
            State::O => 'O',
        }
    }
}

/// The mathematical content of a board: dimensions, row-major cell contents,
/// and the mark of the side to move. Two boards are the same position exactly
/// when their `BoardView`s are equal.
#[verifier::ext_equal]
pub ghost struct BoardView {
    pub width: int,
    pub height: int,
    pub cells: Seq<State>,
    pub turn: State,
}

impl BoardView {
    /// Every board built or mutated through `TicTacToe`'s methods satisfies
    /// this shape: positive dimensions, a cell per coordinate, and a turn that
    /// is always a player's mark, never `Empty`.
    pub open spec fn wf(self) -> bool {
        &&& 1 <= self.width
        &&& 1 <= self.height
        &&& self.cells.len() == self.width * self.height
        &&& (self.turn == State::X || self.turn == State::O)
    }

    pub open spec fn in_bounds(self, x: int, y: int) -> bool {
        0 <= x < self.width && 0 <= y < self.height
    }

    /// The mark at column `x` of row `y` (row-major storage).
    pub open spec fn cell(self, x: int, y: int) -> State {
        self.cells[y * self.width + x]
    }

    /// No `Empty` cell remains.
    pub open spec fn full(self) -> bool {
        forall|x: int, y: int| self.in_bounds(x, y) ==> #[trigger] self.cell(x, y) != State::Empty
    }
}

/// The board every game starts from: all cells empty, `X` to move.
pub open spec fn empty_view(width: int, height: int) -> BoardView {
    BoardView {
        width,
        height,
        cells: Seq::new((width * height) as nat, |i: int| State::Empty),
        turn: State::X,
    }
}

/// The mark that a placement writes: the side to move. On a well-formed board
/// this is exactly `turn`; it is defaulted to `X` so that it is never `Empty`.
pub open spec fn mover(b: BoardView) -> State {
    if b.turn == State::O {
        State::O
    } else {
        State::X
    }
}

/// The other player's mark.
pub open spec fn flip(t: State) -> State {
    if t == State::X {
        State::O
    } else {
        State::X
    }
}

/// The board after attempting to mark `(x, y)`: if the cell is empty, the
/// current side's mark is written there and the turn flips; an occupied cell
/// (or an out-of-range coordinate) leaves the board unchanged.
pub open spec fn place_view(b: BoardView, x: int, y: int) -> BoardView {
    if b.in_bounds(x, y) && b.cell(x, y) == State::Empty {
        BoardView { cells: b.cells.update(y * b.width + x, mover(b)), turn: flip(mover(b)), ..b }
    } else {
        b
    }
}

/// A winning run of length three starting at `(x, y)` and extending in
/// direction `(dx, dy)`: all three cells in bounds and holding the same
/// non-empty mark.
pub open spec fn line3(b: BoardView, x: int, y: int, dx: int, dy: int) -> bool {
    &&& b.in_bounds(x, y)
    &&& b.in_bounds(x + dx, y + dy)
    &&& b.in_bounds(x + 2 * dx, y + 2 * dy)
    &&& b.cell(x, y) != State::Empty
    &&& b.cell(x + dx, y + dy) == b.cell(x, y)
    &&& b.cell(x + 2 * dx, y + 2 * dy) == b.cell(x, y)
}

/// The four directions a line is looked for in: horizontal, vertical, the
/// down-right diagonal, and the down-left diagonal.
pub open spec fn is_direction(dx: int, dy: int) -> bool {
    ||| (dx == 1 && dy == 0)
    ||| (dx == 0 && dy == 1)
    ||| (dx == 1 && dy == 1)
    ||| (dx == -1 && dy == 1)
}

/// Player `p` has a run of three somewhere on the board.
pub open spec fn has_line(b: BoardView, p: State) -> bool {
    exists|x: int, y: int, dx: int, dy: int|
        is_direction(dx, dy) && #[trigger] line3(b, x, y, dx, dy) && b.cell(x, y) == p
}

/// The mark whose line starts at `(x, y)` in one of the four directions, or
/// `Empty` if none does.
pub open spec fn winner_at(b: BoardView, x: int, y: int) -> State {
    if line3(b, x, y, 1, 0) || line3(b, x, y, 0, 1) || line3(b, x, y, 1, 1) || line3(
        b,
        x,
        y,
        -1,
        1,
    ) {
        b.cell(x, y)
    } else {
        State::Empty
    }
}

/// The winner found by scanning rows top to bottom and cells left to right,
/// starting at `(x, y)`: the first cell at which a line starts decides.
pub open spec fn winner_from(b: BoardView, y: int, x: int) -> State
    decreases b.height - y, b.width - x,
{
    if y < 0 || x < 0 || y >= b.height {
        State::Empty
    } else if x >= b.width {
        winner_from(b, y + 1, 0)
    } else if winner_at(b, x, y) != State::Empty {
        winner_at(b, x, y)
    } else {
        winner_from(b, y, x + 1)
    }
}

/// The board's winner: `X`, `O`, or `Empty` when no line of three exists.
/// Should more than one line exist, the fixed scan order decides
/// deterministically, so the result is pinned down exactly.
pub open spec fn winner(b: BoardView) -> State {
    winner_from(b, 0, 0)
}

proof fn lemma_winner_from_sound(b: BoardView, y: int, x: int)
    ensures
        winner_from(b, y, x) != State::Empty ==> has_line(b, winner_from(b, y, x)),
    decreases b.height - y, b.width - x,
{
    if y < 0 || x < 0 || y >= b.height {
    } else if x >= b.width {
        lemma_winner_from_sound(b, y + 1, 0);
    } else if winner_at(b, x, y) != State::Empty {
        if line3(b, x, y, 1, 0) {
            assert(is_direction(1, 0) && line3(b, x, y, 1, 0) && b.cell(x, y) == winner_at(b, x, y));
        } else if line3(b, x, y, 0, 1) {
            assert(is_direction(0, 1) && line3(b, x, y, 0, 1) && b.cell(x, y) == winner_at(b, x, y));
        } else if line3(b, x, y, 1, 1) {
            assert(is_direction(1, 1) && line3(b, x, y, 1, 1) && b.cell(x, y) == winner_at(b, x, y));
        } else {
            assert(is_direction(-1, 1) && line3(b, x, y, -1, 1) && b.cell(x, y) == winner_at(
                b,
                x,
                y,
            ));
        }
    } else {
        lemma_winner_from_sound(b, y, x + 1);
    }
}

proof fn lemma_winner_from_complete(b: BoardView, y: int, x: int)
    requires
        0 <= y,
        0 <= x,
        winner_from(b, y, x) == State::Empty,
    ensures
        forall|xx: int, yy: int|
            b.in_bounds(xx, yy) && (yy > y || (yy == y && xx >= x)) ==> #[trigger] winner_at(
                b,
                xx,
                yy,
            ) == State::Empty,
    decreases b.height - y, b.width - x,
{
    if y >= b.height {
    } else if x >= b.width {
        lemma_winner_from_complete(b, y + 1, 0);
    } else {
        lemma_winner_from_complete(b, y, x + 1);
    }
}

/// What the winner scan means: a non-empty result is a real line for that
/// player, and an empty result rules a line out for both players, in every
/// direction.
pub proof fn lemma_winner_characterized(b: BoardView)
    ensures
        winner(b) != State::Empty ==> has_line(b, winner(b)),
        winner(b) == State::Empty ==> !has_line(b, State::X) && !has_line(b, State::O),
{
    lemma_winner_from_sound(b, 0, 0);
    if winner(b) == State::Empty {
        lemma_winner_from_complete(b, 0, 0);
        assert forall|p: State| !(#[trigger] has_line(b, p) && p != State::Empty) by {
            if has_line(b, p) && p != State::Empty {
                let (x, y, dx, dy) = choose|x: int, y: int, dx: int, dy: int|
                    is_direction(dx, dy) && #[trigger] line3(b, x, y, dx, dy) && b.cell(x, y) == p;
                assert(winner_at(b, x, y) == State::Empty);
                assert(line3(b, x, y, 1, 0) || line3(b, x, y, 0, 1) || line3(b, x, y, 1, 1)
                    || line3(b, x, y, -1, 1));
            }
        }
    }
}

/// How many cells of `s` are `Empty`; the measure that every placement
/// strictly decreases, which bounds the game tree.
pub open spec fn num_empty(s: Seq<State>) -> nat
    decreases s.len(),
{
    if s.len() == 0 {
        0
    } else {
        num_empty(s.drop_last()) + (if s.last() == State::Empty {
            1nat
        } else {
            0nat
        })
    }
}

pub(crate) proof fn lemma_row_major_index(w: int, h: int, x: int, y: int)
    requires
        0 <= x < w,
        0 <= y < h,
    ensures
        0 <= y * w + x < w * h,
{
    assert(0 <= y * w + x < w * h) by (nonlinear_arith)
        requires
            0 <= x < w,
            0 <= y < h,
    ;
}

pub(crate) proof fn lemma_num_empty_update(s: Seq<State>, i: int, v: State)
    requires
        0 <= i < s.len(),
        s[i] == State::Empty,
        v != State::Empty,
    ensures
        num_empty(s.update(i, v)) + 1 == num_empty(s),
    decreases s.len(),
{
    let t = s.update(i, v);
    if i == s.len() - 1 {
        assert(t.drop_last() =~= s.drop_last());
    } else {
        assert(t.drop_last() =~= s.drop_last().update(i, v));
        lemma_num_empty_update(s.drop_last(), i, v);
    }
}

/// Marking an empty in-range cell removes exactly one empty cell.
pub(crate) proof fn lemma_place_num_empty(b: BoardView, x: int, y: int)
    requires
        b.wf(),
        b.in_bounds(x, y),
        b.cell(x, y) == State::Empty,
    ensures
        num_empty(place_view(b, x, y).cells) + 1 == num_empty(b.cells),
        place_view(b, x, y).wf(),
        place_view(b, x, y).turn == flip(b.turn),
{
    lemma_row_major_index(b.width, b.height, x, y);
    lemma_num_empty_update(b.cells, y * b.width + x, mover(b));
}

/// One game in progress. Equality is structural over dimensions, cells and
/// turn, so positions reached by different move orders compare equal; the
/// search engine's memoization depends on that.
#[derive(Debug, Clone, Eq, Hash)]
pub struct TicTacToe {
    width: usize,
    height: usize,
    cells: Vec<State>,
    turn: State,
}

impl View for TicTacToe {
    type V = BoardView;

    closed spec fn view(&self) -> BoardView {
        BoardView {
            width: self.width as int,
            height: self.height as int,
            cells: self.cells@,
            turn: self.turn,
        }
    }
}

impl PartialEq for TicTacToe {
    fn eq(&self, other: &Self) -> (r: bool) {
        if self.width != other.width || self.height != other.height || self.turn != other.turn {
            return false;
        }
        if self.cells.len() != other.cells.len() {
            return false;
        }
        let mut i: usize = 0;
        while i < self.cells.len()
            invariant
                i <= self.cells.len(),
                self.cells.len() == other.cells.len(),
                forall|j: int| 0 <= j < i ==> self.cells@[j] == other.cells@[j],
            decreases self.cells.len() - i,
        {
            if self.cells[i] != other.cells[i] {
                return false;
            }
            i += 1;
        }
        proof {
            assert(self.cells@ =~= other.cells@);
            assert(self@ =~= other@);
        }
        true
    }
}

impl vstd::std_specs::cmp::PartialEqSpecImpl for TicTacToe {
    open spec fn obeys_eq_spec() -> bool {
        true
    }

    open spec fn eq_spec(&self, other: &Self) -> bool {
        self@ == other@
    }
}

impl TicTacToe {
    pub fn width(&self) -> (r: usize)
        ensures
            r == self@.width,
    {
        self.width
    }

    pub fn height(&self) -> (r: usize)
        ensures
            r == self@.height,
    {
        self.height
    }

    pub fn turn(&self) -> (r: State)
        ensures
            r == self@.turn,
    {
        self.turn
    }

    /// A board of the given dimensions with every cell empty and `X` to move.
    pub fn new(width: usize, height: usize) -> (r: Self)
        requires
            1 <= width,
            1 <= height,
            width * height <= usize::MAX,
        ensures
            r@ == empty_view(width as int, height as int),
            r@.wf(),
    {
        let n: usize = width * height;
        let mut cells: Vec<State> = Vec::new();
        let mut i: usize = 0;
        while i < n
            invariant
                i <= n,
                cells@.len() == i,
                forall|j: int| 0 <= j < i ==> cells@[j] == State::Empty,
            decreases n - i,
        {
            cells.push(State::Empty);
            i += 1;
        }
        let r = TicTacToe { width, height, cells, turn: State::X };
        proof {
            assert(r@ =~= empty_view(width as int, height as int));
        }
        r
    }

    /// The row-major position of `(x, y)` in the cell vector.
    fn index_of(&self, x: usize, y: usize) -> (r: usize)
        requires
            self@.wf(),
            x < self@.width,
            y < self@.height,
        ensures
            r == y * self@.width + x,
            r < self@.cells.len(),
    {
        proof {
            lemma_row_major_index(self@.width, self@.height, x as int, y as int);
        }
        let n: usize = self.cells.len();
        proof {
            assert(y * self@.width + x < n);
        }
        y * self.width + x
    }

    /// The mark at `(x, y)`. Out-of-range coordinates are a contract
    /// violation, so they are excluded up front.
    pub fn get_cell(&self, x: usize, y: usize) -> (r: &State)
        requires
            self@.wf(),
            x < self@.width,
            y < self@.height,
        ensures
            *r == self@.cell(x as int, y as int),
    {
        let idx = self.index_of(x, y);
        &self.cells[idx]
    }

    /// Attempt to mark `(x, y)` for the side to move. An occupied cell is a
    /// harmless no-op: nothing changes, not even the turn. An empty cell
    /// receives the current side's mark and the turn flips.
    pub fn next(&mut self, x: usize, y: usize)
        requires
            old(self)@.wf(),
            x < old(self)@.width,
            y < old(self)@.height,
        ensures
            final(self)@ == place_view(old(self)@, x as int, y as int),
            final(self)@.wf(),
            old(self)@.cell(x as int, y as int) != State::Empty ==> final(self)@ == old(self)@,
            old(self)@.cell(x as int, y as int) == State::Empty ==> final(self)@.turn == flip(
                old(self)@.turn,
            ) && final(self)@.cell(x as int, y as int) == old(self)@.turn,
    {
        let idx: usize = self.index_of(x, y);
        if self.cells[idx] == State::Empty {
            let t = self.turn;
            self.cells.set(idx, t);
            self.turn = if t == State::X {
                State::O
            } else {
                State::X
            };
            proof {
                assert(self@ =~= place_view(old(self)@, x as int, y as int));
            }
        } else {
            proof {
                assert(self@ =~= place_view(old(self)@, x as int, y as int));
            }
        }
    }

    /// Whether `(x, y)` is unoccupied. Out-of-range coordinates are a
    /// contract violation, so they are excluded up front.
    pub fn is_cell_empty(&self, x: usize, y: usize) -> (r: bool)
        requires
            self@.wf(),
            x < self@.width,
            y < self@.height,
        ensures
            r <==> self@.cell(x as int, y as int) == State::Empty,
    {
        let idx = self.index_of(x, y);
        self.cells[idx] == State::Empty
    }

    /// An independent copy: the search engine copies the board before trying
    /// a hypothetical move, so exploration never disturbs the original.
    pub fn duplicate(&self) -> (r: Self)
        ensures
            r@ == self@,
    {
        let mut cells: Vec<State> = Vec::new();
        let mut i: usize = 0;
        while i < self.cells.len()
            invariant
                i <= self.cells.len(),
                cells@.len() == i,
                forall|j: int| 0 <= j < i ==> cells@[j] == self.cells@[j],
            decreases self.cells.len() - i,
        {
            cells.push(self.cells[i]);
            i += 1;
        }
        let r = TicTacToe { width: self.width, height: self.height, cells, turn: self.turn };
        proof {
            assert(r@ =~= self@);
        }
        r
    }

    /// The winner so far: for every non-empty cell, the three-cell runs
    /// extending right, down, down-right and down-left are tested; the first
    /// run found (scanning rows top to bottom, cells left to right) decides.
    /// `Empty` means no winner yet.
    pub fn check_winner(&self) -> (r: State)
        requires
            self@.wf(),
        ensures
            r == winner(self@),
            r != State::Empty ==> has_line(self@, r),
            r == State::Empty ==> !has_line(self@, State::X) && !has_line(self@, State::O),
    {
        proof {
            lemma_winner_characterized(self@);
        }
        let ghost b = self@;
        let mut y: usize = 0;
        while y < self.height
            invariant
                self@.wf(),
                b == self@,
                y <= b.height,
                winner_from(b, y as int, 0) == winner(b),
            decreases b.height - y,
        {
            let mut x: usize = 0;
            while x < self.width
                invariant
                    self@.wf(),
                    b == self@,
                    y < b.height,
                    x <= b.width,
                    winner_from(b, y as int, x as int) == winner(b),
                decreases b.width - x,
            {
                let state = *self.get_cell(x, y);
                if state != State::Empty {
                    if self.width - x > 2 {
                        if *self.get_cell(x + 1, y) == state && *self.get_cell(x + 2, y) == state {
                            proof {
                                assert(line3(b, x as int, y as int, 1, 0));
                            }
                            return state;
                        }
                    }
                    if self.height - y > 2 {
                        if *self.get_cell(x, y + 1) == state && *self.get_cell(x, y + 2) == state {
                            proof {
                                assert(line3(b, x as int, y as int, 0, 1));
                            }
                            return state;
                        }
                    }
                    if self.width - x > 2 && self.height - y > 2 {
                        if *self.get_cell(x + 1, y + 1) == state && *self.get_cell(x + 2, y + 2)
                            == state {
                            proof {
                                assert(line3(b, x as int, y as int, 1, 1));
                            }
                            return state;
                        }
                    }
                    if x >= 2 && self.height - y > 2 {
                        if *self.get_cell(x - 1, y + 1) == state && *self.get_cell(x - 2, y + 2)
                            == state {
                            proof {
                                assert(line3(b, x as int, y as int, -1, 1));
                            }
                            return state;
                        }
                    }
                }
                proof {
                    assert(winner_at(b, x as int, y as int) == State::Empty);
                }
                x += 1;
            }
            y += 1;
        }
        State::Empty
    }

    /// Whether no empty cell remains.
    pub fn is_full(&self) -> (r: bool)
        requires
            self@.wf(),
        ensures
            r == self@.full(),
    {
        let mut y: usize = 0;
        while y < self.height
            invariant
                self@.wf(),
                y <= self@.height,
                forall|xx: int, yy: int|
                    0 <= xx < self@.width && 0 <= yy < y ==> #[trigger] self@.cell(xx, yy)
                        != State::Empty,
            decreases self@.height - y,
        {
            let mut x: usize = 0;
            while x < self.width
                invariant
                    self@.wf(),
                    y < self@.height,
                    x <= self@.width,
                    forall|xx: int, yy: int|
                        0 <= xx < self@.width && 0 <= yy < y ==> #[trigger] self@.cell(xx, yy)
                            != State::Empty,
                    forall|xx: int|
                        0 <= xx < x ==> #[trigger] self@.cell(xx, y as int) != State::Empty,
                decreases self@.width - x,
            {
                if self.is_cell_empty(x, y) {
                    return false;
                }
                x += 1;
            }
            y += 1;
        }
        true
    }

    /// Restore the starting position in place: every cell empty, `X` to move.
    /// The dimensions are kept, so the result equals a freshly constructed
    /// board of the same size.
    pub fn reset(&mut self)
        requires
            old(self)@.wf(),
        ensures
            final(self)@ == empty_view(old(self)@.width, old(self)@.height),
            final(self)@.wf(),
            final(self)@.turn == State::X,
            forall|x: int, y: int|
                final(self)@.in_bounds(x, y) ==> #[trigger] final(self)@.cell(x, y) == State::Empty,
    {
        self.turn = State::X;
        let n: usize = self.cells.len();
        let mut i: usize = 0;
        while i < n
            invariant
                i <= n,
                n == self.cells@.len(),
                self.width == old(self).width,
                self.height == old(self).height,
                self.turn == State::X,
                forall|j: int| 0 <= j < i ==> self.cells@[j] == State::Empty,
            decreases n - i,
        {
            self.cells.set(i, State::Empty);
            i += 1;
        }
        proof {
            assert(self@ =~= empty_view(old(self)@.width, old(self)@.height));
            assert forall|x: int, y: int| self@.in_bounds(x, y) implies #[trigger] self@.cell(x, y)
                == State::Empty by {
                lemma_row_major_index(self@.width, self@.height, x, y);
            }
        }
    }
}

} // verus!

//! Board representation and rules: cells, seats, move application,
//! win and draw detection.

use vstd::prelude::*;

verus! {

/// One cell of the 3x3 grid.
#[derive(Clone, Copy, PartialEq, Eq, Structural, Debug)]
pub enum Cell {
    Empty,
    X,
    O,
}

/// One of the two players.
#[derive(Clone, Copy, PartialEq, Eq, Structural, Debug)]
pub enum Seat {
    X,
    O,
}

impl Seat {
    /// The mark this seat writes on the board.
    pub open spec fn spec_cell(self) -> Cell {
        match self {
            Seat::X => Cell::X,
            Seat::O => Cell::O,
        }
    }

    /// The opposing seat.
    pub open spec fn spec_other(self) -> Seat {
        match self {
            Seat::X => Seat::O,
            Seat::O => Seat::X,
        }
    }

    pub fn cell(self) -> (c: Cell)
        ensures
            c == self.spec_cell(),
    {
        match self {
            Seat::X => Cell::X,
            Seat::O => Cell::O,
        }
    }

    pub fn other(self) -> (s: Seat)
        ensures
            s == self.spec_other(),
    {
        match self {
            Seat::X => Seat::O,
            Seat::O => Seat::X,
        }
    }
}

/// Static configuration of one seat: whether an AI plays it, how deep that
/// AI searches (`-1` = unlimited, `>= 1` = ply limit), and its two
/// randomization knobs. A knob value `N > 0` means probability `1/(N+1)`;
/// `0` disables the knob.
#[derive(Clone, Copy, PartialEq, Eq, Structural, Debug)]
pub struct SeatConfig {
    pub is_ai: bool,
    pub search_depth: i8,
    pub tie_randomness: u8,
    pub blunder_rate: u8,
}

/// A search depth is valid when it is `-1` (unlimited) or at least one ply.
pub fn valid_search_depth(d: i8) -> (ok: bool)
    ensures
        ok == (d == -1 || d >= 1),
{
    d == -1 || d >= 1
}

/// Number of `Empty` cells among the first `n` cells of `b`.
pub open spec fn empties_upto(b: Seq<Cell>, n: int) -> int
    decreases n,
{
    if n <= 0 {
        0
    } else {
        empties_upto(b, n - 1) + if b[n - 1] is Empty {
            1int
        } else {
            0int
        }
    }
}

/// Number of `Empty` cells on the whole board.
pub open spec fn count_empty(b: Seq<Cell>) -> int {
    empties_upto(b, b.len() as int)
}

pub proof fn lemma_empties_upto_bounds(b: Seq<Cell>, n: int)
    requires
        n >= 0,
    ensures
        0 <= empties_upto(b, n) <= n,
    decreases n,
{
    if n > 0 {
        lemma_empties_upto_bounds(b, n - 1);
    }
}

/// Two boards that agree below `n` have the same count up to `n`.
pub proof fn lemma_empties_upto_agree(b1: Seq<Cell>, b2: Seq<Cell>, n: int)
    requires
        forall|j: int| 0 <= j < n ==> b1[j] == b2[j],
    ensures
        empties_upto(b1, n) == empties_upto(b2, n),
    decreases n,
{
    if n > 0 {
        lemma_empties_upto_agree(b1, b2, n - 1);
    }
}

/// Every cell below `n` empty means the count up to `n` is `n`.
pub proof fn lemma_empties_upto_full(b: Seq<Cell>, n: int)
    requires
        n >= 0,
        forall|j: int| 0 <= j < n ==> b[j] is Empty,
    ensures
        empties_upto(b, n) == n,
    decreases n,
{
    if n > 0 {
        lemma_empties_upto_full(b, n - 1);
    }
}

pub proof fn lemma_empties_upto_update(b: Seq<Cell>, i: int, v: Cell, n: int)
    requires
        0 <= i < n,
        n <= b.len(),
    ensures
        empties_upto(b.update(i, v), n) == empties_upto(b, n) - (if b[i] is Empty {
            1int
        } else {
            0int
        }) + (if v is Empty {
            1int
        } else {
            0int
        }),
    decreases n,
{
    if i < n - 1 {
        lemma_empties_upto_update(b, i, v, n - 1);
    } else {
        lemma_empties_upto_agree(b.update(i, v), b, n - 1);
    }
}

/// A zero count up to `n` means no cell below `n` is empty.
pub proof fn lemma_empties_upto_zero(b: Seq<Cell>, n: int)
    requires
        empties_upto(b, n) == 0,
    ensures
        forall|i: int| 0 <= i < n ==> !(b[i] is Empty),
    decreases n,
{
    if n > 0 {
        lemma_empties_upto_bounds(b, n - 1);
        lemma_empties_upto_zero(b, n - 1);
    }
}

/// The three cells at indices `i`, `j`, `k` hold one identical non-empty mark.
pub open spec fn line_won(b: Seq<Cell>, i: int, j: int, k: int) -> bool {
    &&& !(b[i] is Empty)
    &&& b[i] == b[j]
    &&& b[i] == b[k]
}

/// Some one of the 8 winning lines (3 rows, 3 columns, 2 diagonals) is
/// fully occupied by one mark.
pub open spec fn spec_has_winner(b: Seq<Cell>) -> bool {
    ||| line_won(b, 0, 1, 2)
    ||| line_won(b, 3, 4, 5)
    ||| line_won(b, 6, 7, 8)
    ||| line_won(b, 0, 3, 6)
    ||| line_won(b, 1, 4, 7)
    ||| line_won(b, 2, 5, 8)
    ||| line_won(b, 0, 4, 8)
    ||| line_won(b, 2, 4, 6)
}

/// One live game: the 3x3 board (row-major, index = row * 3 + col), whose
/// turn it is, and both seats' configuration.
pub struct GameState {
    pub board: Vec<Cell>,
    pub turn: Seat,
    pub x_cfg: SeatConfig,
    pub o_cfg: SeatConfig,
}

impl GameState {
    /// Well-formedness: the board has exactly 9 cells.
    pub open spec fn wf(self) -> bool {
        self.board@.len() == 9
    }

    /// The configuration of the given seat.
    pub open spec fn spec_cfg(self, s: Seat) -> SeatConfig {
        match s {
            Seat::X => self.x_cfg,
            Seat::O => self.o_cfg,
        }
    }

    /// Fresh game: all cells empty, X to move.
    pub fn new_game(x_cfg: SeatConfig, o_cfg: SeatConfig) -> (g: GameState)
        ensures
            g.wf(),
            g.turn == Seat::X,
            g.x_cfg == x_cfg,
            g.o_cfg == o_cfg,
            forall|i: int| 0 <= i < 9 ==> g.board@[i] is Empty,
            count_empty(g.board@) == 9,
    {
        let mut board: Vec<Cell> = Vec::new();
        let mut i: usize = 0;
        while i < 9
            invariant
                i <= 9,
                board@.len() == i,
                forall|j: int| 0 <= j < i ==> board@[j] is Empty,
            decreases 9 - i,
        {
            board.push(Cell::Empty);
            i = i + 1;
        }
        proof {
            lemma_empties_upto_full(board@, 9);
        }
        GameState { board, turn: Seat::X, x_cfg, o_cfg }
    }

    /// Read one cell.
    pub fn cell_at(&self, i: usize) -> (c: Cell)
        requires
            self.wf(),
            i < 9,
        ensures
            c == self.board@[i as int],
    {
        self.board[i]
    }

    /// An identical copy of `src` (search branches on private copies).
    pub fn new_from(src: &GameState) -> (g: GameState)
        requires
            src.wf(),
        ensures
            g.wf(),
            g.board@ == src.board@,
            g.turn == src.turn,
            g.x_cfg == src.x_cfg,
            g.o_cfg == src.o_cfg,
    {
        let mut board: Vec<Cell> = Vec::new();
        let mut i: usize = 0;
        while i < 9
            invariant
                src.wf(),
                i <= 9,
                board@.len() == i,
                forall|j: int| 0 <= j < i ==> board@[j] == src.board@[j],
            decreases 9 - i,
        {
            board.push(src.board[i]);
            i = i + 1;
        }
        proof {
            assert(board@ =~= src.board@);
        }
        GameState { board, turn: src.turn, x_cfg: src.x_cfg, o_cfg: src.o_cfg }
    }

    /// Hand the turn to the other seat.
    pub fn next_turn(&mut self)
        ensures
            final(self).turn == old(self).turn.spec_other(),
            final(self).board@ == old(self).board@,
            final(self).x_cfg == old(self).x_cfg,
            final(self).o_cfg == old(self).o_cfg,
    {
        self.turn = self.turn.other();
    }

    /// Apply the mover's mark at column `x`, row `y`. Fails (returns false,
    /// mutating nothing) on an off-board coordinate or an occupied cell;
    /// otherwise writes the mark and advances the turn.
    pub fn apply_move(&mut self, x: u8, y: u8) -> (ok: bool)
        requires
            old(self).wf(),
        ensures
            final(self).wf(),
            ok == (x <= 2 && y <= 2 && old(self).board@[y as int * 3 + x as int] is Empty),
            ok ==> final(self).board@ == old(self).board@.update(
                y as int * 3 + x as int,
                old(self).turn.spec_cell(),
            ) && final(self).turn == old(self).turn.spec_other(),
            !ok ==> *final(self) == *old(self),
            final(self).x_cfg == old(self).x_cfg,
            final(self).o_cfg == old(self).o_cfg,
    {
        if x > 2 || y > 2 {
            return false;
        }
        let id: usize = (y as usize) * 3 + (x as usize);
        if self.board[id] != Cell::Empty {
            return false;
        }
        let mark = self.turn.cell();
        self.board.set(id, mark);
        self.next_turn();
        true
    }

    /// The hypothetical state after the mover takes `spot`: a private copy
    /// of `self` with the mark written and the turn advanced. `self` is
    /// untouched.
    pub fn move_and_new_state(&self, spot: usize) -> (g: GameState)
        requires
            self.wf(),
            spot < 9,
        ensures
            g.wf(),
            g.board@ == self.board@.update(spot as int, self.turn.spec_cell()),
            g.turn == self.turn.spec_other(),
            g.x_cfg == self.x_cfg,
            g.o_cfg == self.o_cfg,
    {
        let mut g = GameState::new_from(self);
        let mark = g.turn.cell();
        g.board.set(spot, mark);
        g.next_turn();
        g
    }

    /// All empty cell indices, in ascending order.
    pub fn legal_moves(&self) -> (mv: Vec<usize>)
        requires
            self.wf(),
        ensures
            forall|j: int| 0 <= j < mv@.len() ==> #[trigger] mv@[j] < 9,
            forall|j: int| 0 <= j < mv@.len() ==> self.board@[#[trigger] mv@[j] as int] is Empty,
            forall|i: int|
                0 <= i < 9 && self.board@[i] is Empty ==> #[trigger] mv@.contains(i as usize),
            forall|j: int, k: int| 0 <= j < k < mv@.len() ==> mv@[j] < mv@[k],
            forall|j: int|
                0 <= j < mv@.len() ==> empties_upto(self.board@, #[trigger] mv@[j] as int) == j,
            mv@.len() == count_empty(self.board@),
    {
        let mut mv: Vec<usize> = Vec::new();
        let mut i: usize = 0;
        while i < 9
            invariant
                self.wf(),
                i <= 9,
                forall|j: int| 0 <= j < mv@.len() ==> #[trigger] mv@[j] < i,
                forall|j: int| 0 <= j < mv@.len() ==> self.board@[#[trigger] mv@[j] as int] is Empty,
                forall|c: int|
                    0 <= c < i && self.board@[c] is Empty ==> #[trigger] mv@.contains(c as usize),
                forall|j: int, k: int| 0 <= j < k < mv@.len() ==> mv@[j] < mv@[k],
                forall|j: int|
                    0 <= j < mv@.len() ==> empties_upto(self.board@, #[trigger] mv@[j] as int) == j,
                mv@.len() == empties_upto(self.board@, i as int),
            decreases 9 - i,
        {
            proof {
                lemma_empties_upto_bounds(self.board@, i as int);
            }
            if self.board[i] == Cell::Empty {
                let ghost m0 = mv@;
                mv.push(i);
                proof {
                    assert(mv@ == m0.push(i));
                    assert(mv@[mv@.len() - 1] == i);
                    assert forall|c: int|
                        0 <= c < i + 1 && self.board@[c] is Empty implies #[trigger] mv@.contains(
                        c as usize,
                    ) by {
                        if c < i {
                            assert(m0.contains(c as usize));
                            let j = choose|j: int| 0 <= j < m0.len() && m0[j] == c as usize;
                            assert(mv@[j] == c as usize);
                        } else {
                            assert(mv@[mv@.len() - 1] == i);
                        }
                    }
                }
            }
            i = i + 1;
        }
        mv
    }

    /// Whether some winning line is complete.
    pub fn has_winner(&self) -> (w: bool)
        requires
            self.wf(),
        ensures
            w == spec_has_winner(self.board@),
    {
        let b = &self.board;
        let row0 = b[0] != Cell::Empty && b[0] == b[1] && b[0] == b[2];
        let row1 = b[3] != Cell::Empty && b[3] == b[4] && b[3] == b[5];
        let row2 = b[6] != Cell::Empty && b[6] == b[7] && b[6] == b[8];
        let col0 = b[0] != Cell::Empty && b[0] == b[3] && b[0] == b[6];
        let col1 = b[1] != Cell::Empty && b[1] == b[4] && b[1] == b[7];
        let col2 = b[2] != Cell::Empty && b[2] == b[5] && b[2] == b[8];
        let diag = b[0] != Cell::Empty && b[0] == b[4] && b[0] == b[8];
        let anti = b[2] != Cell::Empty && b[2] == b[4] && b[2] == b[6];
        row0 || row1 || row2 || col0 || col1 || col2 || diag || anti
    }

    /// Whether the game is drawn: no winner and no legal move left.
    pub fn is_draw(&self) -> (d: bool)
        requires
            self.wf(),
        ensures
            d == (!spec_has_winner(self.board@) && count_empty(self.board@) == 0),
            d ==> forall|i: int| 0 <= i < 9 ==> !(self.board@[i] is Empty),
    {
        if self.has_winner() {
            return false;
        }
        let mv = self.legal_moves();
        let d = mv.len() == 0;
        proof {
            if d {
                lemma_empties_upto_zero(self.board@, 9);
            }
        }
        d
    }
}

/// The cell indices of winning line `n`: rows, then columns, then the two
/// diagonals.
pub open spec fn spec_line(n: int) -> (int, int, int) {
    if n == 0 {
        (0, 1, 2)
    } else if n == 1 {
        (3, 4, 5)
    } else if n == 2 {
        (6, 7, 8)
    } else if n == 3 {
        (0, 3, 6)
    } else if n == 4 {
        (1, 4, 7)
    } else if n == 5 {
        (2, 5, 8)
    } else if n == 6 {
        (0, 4, 8)
    } else {
        (2, 4, 6)
    }
}

/// Win detection, as a law: a board has a winner exactly when some one of
/// the 8 winning lines is fully occupied by one identical non-empty mark,
/// however the other cells are filled.
pub proof fn lemma_winner_iff_filled_line(b: Seq<Cell>)
    ensures
        spec_has_winner(b) <==> exists|n: int|
            0 <= n < 8 && line_won(b, spec_line(n).0, spec_line(n).1, spec_line(n).2),
{
    if spec_has_winner(b) {
        if line_won(b, 0, 1, 2) {
            assert(line_won(b, spec_line(0).0, spec_line(0).1, spec_line(0).2));
        } else if line_won(b, 3, 4, 5) {
            assert(line_won(b, spec_line(1).0, spec_line(1).1, spec_line(1).2));
        } else if line_won(b, 6, 7, 8) {
            assert(line_won(b, spec_line(2).0, spec_line(2).1, spec_line(2).2));
        } else if line_won(b, 0, 3, 6) {
            assert(line_won(b, spec_line(3).0, spec_line(3).1, spec_line(3).2));
        } else if line_won(b, 1, 4, 7) {
            assert(line_won(b, spec_line(4).0, spec_line(4).1, spec_line(4).2));
        } else if line_won(b, 2, 5, 8) {
            assert(line_won(b, spec_line(5).0, spec_line(5).1, spec_line(5).2));
        } else if line_won(b, 0, 4, 8) {
            assert(line_won(b, spec_line(6).0, spec_line(6).1, spec_line(6).2));
        } else {
            assert(line_won(b, spec_line(7).0, spec_line(7).1, spec_line(7).2));
        }
    }
    if exists|n: int| 0 <= n < 8 && line_won(b, spec_line(n).0, spec_line(n).1, spec_line(n).2) {
        let n = choose|n: int|
            0 <= n < 8 && line_won(b, spec_line(n).0, spec_line(n).1, spec_line(n).2);
        assert(spec_has_winner(b));
    }
}

/// Whether `c` is an ASCII decimal digit.
pub open spec fn spec_is_digit(c: u8) -> bool {
    48 <= c <= 57
}

/// Parse one console move line of the form `x,y` followed by a newline:
/// exactly 4 bytes, a digit first and third. Returns `(x, y)`, else `None`.
/// (The byte between the digits is never inspected: any separator passes.)
pub fn parse_move(line: &Vec<u8>) -> (r: Option<(u8, u8)>)
    ensures
        (r is Some) == (line@.len() == 4 && spec_is_digit(line@[0]) && spec_is_digit(line@[2])),
        r matches Some(p) ==> p.0 == line@[0] - 48 && p.1 == line@[2] - 48,
{
    if line.len() != 4 {
        return None;
    }
    let c0 = line[0];
    let c2 = line[2];
    if c0 >= 48 && c0 <= 57 && c2 >= 48 && c2 <= 57 {
        Some((c0 - 48, c2 - 48))
    } else {
        None
    }
}

} // verus!

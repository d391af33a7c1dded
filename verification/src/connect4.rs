//! A four-in-a-row board: chips fall down a column, and four of one colour in
//! a line win.

use vstd::prelude::*;

verus! {

/// The colour of a chip.
#[derive(Clone, Copy, PartialEq, Eq, Structural, Debug)]
pub enum Chip {
    Red,
    Blue,
}

/// The content of the board, row by row; row 0 is the top.
pub type Cells = Seq<Seq<Option<Chip>>>;

/// True when `cells` is a rectangle of more than four rows and four columns.
pub open spec fn playable(cells: Cells) -> bool {
    &&& cells.len() > 4
    &&& cells[0].len() > 4
    &&& forall|r: int| 0 <= r < cells.len() ==> (#[trigger] cells[r]).len() == cells[0].len()
}

/// The chip at (`r`, `c`); nothing outside the board.
pub open spec fn cell(cells: Cells, r: int, c: int) -> Option<Chip> {
    if 0 <= r < cells.len() && 0 <= c < cells[r].len() {
        cells[r][c]
    } else {
        None
    }
}

/// The board of `rows` by `cols` empty cells.
pub open spec fn empty_cells(rows: nat, cols: nat) -> Cells {
    Seq::new(rows, |r: int| Seq::new(cols, |c: int| None))
}

/// The lowest empty cell of column `col` among the rows above `below`: the
/// greatest such row, or -1 if there is none.
pub open spec fn lowest_free(cells: Cells, col: int, below: int) -> int
    decreases below,
{
    if below <= 0 {
        -1
    } else if cells[below - 1][col] is None {
        below - 1
    } else {
        lowest_free(cells, col, below - 1)
    }
}

/// `cells` after a chip was dropped into column `col`.
pub open spec fn dropped(cells: Cells, col: int, chip: Chip) -> Cells {
    let r = lowest_free(cells, col, cells.len() as int);
    cells.update(r, cells[r].update(col, Some(chip)))
}

/// The four directions in which a line is looked for, as steps in row and
/// column: to the right, down, down to the right, up to the right.
pub open spec fn step(d: int) -> (int, int) {
    if d == 0 {
        (0, 1)
    } else if d == 1 {
        (1, 0)
    } else if d == 2 {
        (1, 1)
    } else {
        (-1, 1)
    }
}

/// The colour of the four cells that start at (`r`, `c`) and go on in
/// direction `d`, if they hold four chips of one colour.
pub open spec fn line_owner(cells: Cells, r: int, c: int, d: int) -> Option<Chip> {
    let (dr, dc) = step(d);
    let first = cell(cells, r, c);
    if first is Some && cell(cells, r + dr, c + dc) == first && cell(
        cells,
        r + 2 * dr,
        c + 2 * dc,
    ) == first && cell(cells, r + 3 * dr, c + 3 * dc) == first {
        first
    } else {
        None
    }
}

/// True when (`r`, `c`, `d`) names a cell of the board and a direction.
pub open spec fn on_board(cells: Cells, r: int, c: int, d: int) -> bool {
    0 <= r < cells.len() && 0 <= c < cells[0].len() && 0 <= d < 4
}

/// The order in which lines are looked at: row by row, in a row cell by cell,
/// at a cell direction by direction.
pub open spec fn earlier(r1: int, c1: int, d1: int, r2: int, c2: int, d2: int) -> bool {
    r1 < r2 || (r1 == r2 && (c1 < c2 || (c1 == c2 && d1 < d2)))
}

/// True when no line that is looked at before (`r`, `c`, `d`) is won.
pub open spec fn none_before(cells: Cells, r: int, c: int, d: int) -> bool {
    forall|r1: int, c1: int, d1: int|
        on_board(cells, r1, c1, d1) && earlier(r1, c1, d1, r, c, d) ==> #[trigger] line_owner(
            cells,
            r1,
            c1,
            d1,
        ) is None
}

/// The winner: the colour of the first won line in the order of looking, if
/// there is one.
pub open spec fn winner_is(cells: Cells, won: Option<Chip>) -> bool {
    match won {
        Some(chip) => exists|r: int, c: int, d: int|
            on_board(cells, r, c, d) && #[trigger] line_owner(cells, r, c, d) == Some(chip)
                && none_before(cells, r, c, d),
        None => forall|r: int, c: int, d: int|
            on_board(cells, r, c, d) ==> #[trigger] line_owner(cells, r, c, d) is None,
    }
}

/// The board.
pub struct Board {
    rows: usize,
    cols: usize,
    chips: Vec<Vec<Option<Chip>>>,
}

impl View for Board {
    type V = Cells;

    closed spec fn view(&self) -> Cells {
        Seq::new(self.chips@.len(), |r: int| self.chips@[r]@)
    }
}

impl Board {
    /// The invariant of every board: it is a rectangle of more than four rows
    /// and four columns.
    pub closed spec fn wf(&self) -> bool {
        &&& playable(self@)
        &&& self.rows == self.chips@.len()
        &&& self.cols == self.chips@[0]@.len()
    }

    /// A board is a rectangle of more than four rows and four columns.
    pub proof fn lemma_wf(&self)
        requires
            self.wf(),
        ensures
            playable(self@),
    {
    }

    /// What the view is, row by row.
    proof fn row_view(&self, r: int)
        requires
            0 <= r < self.chips@.len(),
        ensures
            self@.len() == self.chips@.len(),
            self@[r] == self.chips@[r]@,
    {
    }

    /// An empty board of `rows` by `cols` cells.
    pub fn new(rows: usize, cols: usize) -> (board: Board)
        requires
            rows > 4,
            cols > 4,
        ensures
            board.wf(),
            board@ == empty_cells(rows as nat, cols as nat),
    {
        let mut chips: Vec<Vec<Option<Chip>>> = Vec::new();
        let mut r: usize = 0;
        while r < rows
            invariant
                r <= rows,
                chips@.len() == r,
                forall|i: int|
                    0 <= i < r ==> (#[trigger] chips@[i])@ == Seq::new(
                        cols as nat,
                        |c: int| None::<Chip>,
                    ),
            decreases rows - r,
        {
            let mut line: Vec<Option<Chip>> = Vec::new();
            let mut c: usize = 0;
            while c < cols
                invariant
                    c <= cols,
                    line@ == Seq::new(c as nat, |c: int| None::<Chip>),
                decreases cols - c,
            {
                line.push(None);
                c += 1;
                assert(line@ =~= Seq::new(c as nat, |c: int| None::<Chip>));
            }
            chips.push(line);
            r += 1;
        }
        let board = Board { rows, cols, chips };
        assert(board@ =~= empty_cells(rows as nat, cols as nat));
        board
    }

    /// The chip at (`row`, `col`), or nothing where the cell is empty or lies
    /// outside the board.
    pub fn get(&self, row: i8, col: i8) -> (got: Option<Chip>)
        requires
            self.wf(),
        ensures
            got == cell(self@, row as int, col as int),
    {
        if row < 0 || col < 0 {
            return None;
        }
        let r = row as usize;
        let c = col as usize;
        if r >= self.rows || c >= self.cols {
            return None;
        }
        proof {
            self.row_view(r as int);
        }
        self.chips[r][c]
    }

    /// Drops `pl` into column `col`: it comes to rest in the lowest empty cell
    /// of that column, and nothing else changes.
    pub fn add(&mut self, col: usize, pl: Chip)
        requires
            old(self).wf(),
            col < old(self)@[0].len(),
            old(self)@[0][col as int] is None,
        ensures
            final(self).wf(),
            final(self)@ == dropped(old(self)@, col as int, pl),
    {
        proof {
            self.row_view(0);
        }
        let mut r: usize = self.rows;
        while r > 0
            invariant
                self.wf(),
                *self == *old(self),
                1 <= r <= self.rows,
                col < self.cols,
                self@[0][col as int] is None,
                lowest_free(self@, col as int, self.rows as int) == lowest_free(
                    self@,
                    col as int,
                    r as int,
                ),
            decreases r,
        {
            proof {
                self.row_view(r - 1);
            }
            if self.chips[r - 1][col].is_none() {
                self.chips[r - 1][col] = Some(pl);
                assert(self@ =~= dropped(old(self)@, col as int, pl));
                return ;
            }
            r -= 1;
        }
    }

    /// The chip that stands `f` steps from (`i`, `j`) in the direction
    /// (`dr`, `dc`), or nothing where that place is empty or outside the board.
    fn probe(&self, i: usize, j: usize, dr: i8, dc: i8, f: usize) -> (got: Option<Chip>)
        requires
            self.wf(),
            i < self@.len(),
            j < self@[0].len(),
            -1 <= dr <= 1,
            0 <= dc <= 1,
            f < 4,
        ensures
            got == cell(self@, i + dr * f, j + dc * f),
    {
        proof {
            self.row_view(0);
            assert(dr * f == if dr < 0 {
                -(f as int)
            } else if dr == 0 {
                0
            } else {
                f as int
            }) by (nonlinear_arith)
                requires
                    -1 <= dr <= 1,
            ;
            assert(dc * f == if dc == 0 {
                0
            } else {
                f as int
            }) by (nonlinear_arith)
                requires
                    0 <= dc <= 1,
            ;
        }
        let r = if dr < 0 {
            if i < f {
                return None;
            }
            i - f
        } else if dr == 0 {
            i
        } else {
            if f >= self.rows - i {
                return None;
            }
            i + f
        };
        let c = if dc == 0 {
            j
        } else {
            if f >= self.cols - j {
                return None;
            }
            j + f
        };
        proof {
            self.row_view(r as int);
        }
        self.chips[r][c]
    }

    /// The colour of the four cells from (`i`, `j`) on in direction `d`, if
    /// they hold four chips of one colour.
    fn line(&self, i: usize, j: usize, d: usize) -> (got: Option<Chip>)
        requires
            self.wf(),
            i < self@.len(),
            j < self@[0].len(),
            d < 4,
        ensures
            got == line_owner(self@, i as int, j as int, d as int),
    {
        let (dr, dc): (i8, i8) = if d == 0 {
            (0, 1)
        } else if d == 1 {
            (1, 0)
        } else if d == 2 {
            (1, 1)
        } else {
            (-1, 1)
        };
        let first = self.probe(i, j, dr, dc, 0);
        let second = self.probe(i, j, dr, dc, 1);
        let third = self.probe(i, j, dr, dc, 2);
        let fourth = self.probe(i, j, dr, dc, 3);
        match (first, second, third, fourth) {
            (Some(a), Some(b), Some(c), Some(d)) => {
                if a == b && a == c && a == d {
                    first
                } else {
                    None
                }
            },
            _ => None,
        }
    }

    /// The colour that has won, if one has: lines are looked at row by row
    /// from the top, and the first line of four chips of one colour decides.
    pub fn check(&self) -> (won: Option<Chip>)
        requires
            self.wf(),
        ensures
            winner_is(self@, won),
    {
        proof {
            self.row_view(0);
        }
        let mut i: usize = 0;
        while i < self.rows
            invariant
                self.wf(),
                self.rows == self@.len(),
                self.cols == self@[0].len(),
                i <= self.rows,
                none_before(self@, i as int, 0, 0),
            decreases self.rows - i,
        {
            let mut j: usize = 0;
            while j < self.cols
                invariant
                    self.wf(),
                    self.rows == self@.len(),
                    self.cols == self@[0].len(),
                    i < self.rows,
                    j <= self.cols,
                    none_before(self@, i as int, j as int, 0),
                decreases self.cols - j,
            {
                let mut d: usize = 0;
                while d < 4
                    invariant
                        self.wf(),
                        self.rows == self@.len(),
                        self.cols == self@[0].len(),
                        i < self.rows,
                        j < self.cols,
                        d <= 4,
                        none_before(self@, i as int, j as int, d as int),
                    decreases 4 - d,
                {
                    let found = self.line(i, j, d);
                    if found.is_some() {
                        return found;
                    }
                    d += 1;
                }
                j += 1;
            }
            i += 1;
        }
        None
    }
}

/// Where a column has an empty cell above `below`, `lowest_free` names the
/// lowest of them: that cell is empty and every cell under it holds a chip.
pub proof fn lemma_lowest_free(cells: Cells, col: int, below: int, free: int)
    requires
        0 <= free < below <= cells.len(),
        cells[free][col] is None,
    ensures
        free <= lowest_free(cells, col, below) < below,
        cells[lowest_free(cells, col, below)][col] is None,
        forall|r: int| lowest_free(cells, col, below) < r < below ==> (#[trigger] cells[r])[col] is Some,
    decreases below,
{
    if cells[below - 1][col] is Some {
        lemma_lowest_free(cells, col, below - 1, free);
    }
}

/// Of two lines that are looked at, one comes before the other or they are
/// the same.
pub proof fn lemma_order_total(r1: int, c1: int, d1: int, r2: int, c2: int, d2: int)
    ensures
        earlier(r1, c1, d1, r2, c2, d2) || earlier(r2, c2, d2, r1, c1, d1) || (r1 == r2 && c1 == c2
            && d1 == d2),
{
}

/// A board has one winner at most: what `winner_is` holds of is one value.
pub proof fn lemma_winner_unique(cells: Cells, a: Option<Chip>, b: Option<Chip>)
    requires
        winner_is(cells, a),
        winner_is(cells, b),
    ensures
        a == b,
{
    match (a, b) {
        (Some(x), Some(y)) => {
            let (r1, c1, d1) = choose|r: int, c: int, d: int|
                on_board(cells, r, c, d) && #[trigger] line_owner(cells, r, c, d) == Some(x)
                    && none_before(cells, r, c, d);
            let (r2, c2, d2) = choose|r: int, c: int, d: int|
                on_board(cells, r, c, d) && #[trigger] line_owner(cells, r, c, d) == Some(y)
                    && none_before(cells, r, c, d);
            lemma_order_total(r1, c1, d1, r2, c2, d2);
            if earlier(r1, c1, d1, r2, c2, d2) {
                assert(line_owner(cells, r1, c1, d1) is None);
            } else if earlier(r2, c2, d2, r1, c1, d1) {
                assert(line_owner(cells, r2, c2, d2) is None);
            }
        },
        (Some(x), None) => {
            let (r1, c1, d1) = choose|r: int, c: int, d: int|
                on_board(cells, r, c, d) && #[trigger] line_owner(cells, r, c, d) == Some(x)
                    && none_before(cells, r, c, d);
            assert(line_owner(cells, r1, c1, d1) is None);
        },
        (None, Some(y)) => {
            let (r2, c2, d2) = choose|r: int, c: int, d: int|
                on_board(cells, r, c, d) && #[trigger] line_owner(cells, r, c, d) == Some(y)
                    && none_before(cells, r, c, d);
            assert(line_owner(cells, r2, c2, d2) is None);
        },
        (None, None) => {},
    }
}

/// An empty board has no winner.
pub proof fn lemma_empty_no_winner(rows: nat, cols: nat)
    ensures
        winner_is(empty_cells(rows, cols), None),
{
}

} // verus!

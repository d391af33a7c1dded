//! A life-like cellular automaton on a rectangular grid whose edges wrap around.

use vstd::prelude::*;
use crate::ring::{lemma_wrap, wrap};

verus! {

/// Why a grid was not built, or a cell not reached.
#[derive(Debug, Clone, Copy, PartialEq, Eq, Structural)]
pub enum GridError {
    /// Fewer than four rows or fewer than four columns were asked for.
    InvalidDimensions,
    /// The rows differ in length, or a character is neither `'0'` nor `'1'`.
    MalformedGrid,
    /// A cell was asked for that the grid does not have.
    ContractViolation,
}

/// True when every row of `cells` is as long as the first.
pub open spec fn equal_rows(cells: Seq<Seq<bool>>) -> bool {
    forall|r: int| 0 <= r < cells.len() ==> (#[trigger] cells[r]).len() == cells[0].len()
}

/// True when `cells` has at least four rows and its first row at least four cells.
pub open spec fn big_enough(cells: Seq<Seq<bool>>) -> bool {
    cells.len() >= 4 && cells[0].len() >= 4
}

/// True when `cells` is a rectangle of at least four rows and four columns.
pub open spec fn rectangular(cells: Seq<Seq<bool>>) -> bool {
    equal_rows(cells) && big_enough(cells)
}

/// The cell at (`r`, `c`) of a grid whose edges are joined to the opposite edges.
pub open spec fn cell_at(cells: Seq<Seq<bool>>, r: int, c: int) -> bool {
    cells[wrap(r, cells.len() as int)][wrap(c, cells[0].len() as int)]
}

/// 1 if the cell at (`r`, `c`) is alive, 0 if it is dead.
pub open spec fn alive(cells: Seq<Seq<bool>>, r: int, c: int) -> int {
    if cell_at(cells, r, c) {
        1
    } else {
        0
    }
}

/// How many of the eight cells around (`r`, `c`) are alive.
pub open spec fn live_neighbors(cells: Seq<Seq<bool>>, r: int, c: int) -> int {
    alive(cells, r - 1, c - 1) + alive(cells, r - 1, c) + alive(cells, r - 1, c + 1)
        + alive(cells, r, c - 1) + alive(cells, r, c + 1)
        + alive(cells, r + 1, c - 1) + alive(cells, r + 1, c) + alive(cells, r + 1, c + 1)
}

/// The state of the cell at (`r`, `c`) one generation later: alive with three
/// live neighbours, unchanged with two, dead otherwise.
pub open spec fn next_cell(cells: Seq<Seq<bool>>, r: int, c: int) -> bool {
    let n = live_neighbors(cells, r, c);
    n == 3 || (n == 2 && cells[r][c])
}

/// The whole grid one generation later.
pub open spec fn next_generation(cells: Seq<Seq<bool>>) -> Seq<Seq<bool>> {
    Seq::new(cells.len(), |r: int| Seq::new(cells[0].len(), |c: int| next_cell(cells, r, c)))
}

/// The grid `n` generations later.
pub open spec fn generations(cells: Seq<Seq<bool>>, n: nat) -> Seq<Seq<bool>>
    decreases n,
{
    if n == 0 {
        cells
    } else {
        next_generation(generations(cells, (n - 1) as nat))
    }
}

/// True when no cell of `cells` is alive.
pub open spec fn all_dead(cells: Seq<Seq<bool>>) -> bool {
    forall|r: int, c: int|
        0 <= r < cells.len() && 0 <= c < cells[r].len() ==> !(#[trigger] cells[r][c])
}

/// The grid of `rows` by `cols` dead cells.
pub open spec fn blank(rows: nat, cols: nat) -> Seq<Seq<bool>> {
    Seq::new(rows, |r: int| Seq::new(cols, |c: int| false))
}

/// `cells` with the cell at (`r`, `c`) flipped.
pub open spec fn toggled(cells: Seq<Seq<bool>>, r: int, c: int) -> Seq<Seq<bool>> {
    cells.update(r, cells[r].update(c, !cells[r][c]))
}

/// The rows of a vector of vectors, each as a sequence.
pub open spec fn rows_of(cells: Seq<Vec<bool>>) -> Seq<Seq<bool>> {
    Seq::new(cells.len(), |r: int| cells[r]@)
}

/// One generation of the automaton.
#[derive(Debug)]
pub struct GameOfLife {
    cells: Vec<Vec<bool>>,
}

impl View for GameOfLife {
    type V = Seq<Seq<bool>>;

    closed spec fn view(&self) -> Seq<Seq<bool>> {
        rows_of(self.cells@)
    }
}

impl GameOfLife {
    /// The invariant of every grid: it is a rectangle, at least four by four.
    pub open spec fn wf(&self) -> bool {
        rectangular(self@)
    }

    /// A grid of `rows` by `cols` dead cells, or `InvalidDimensions` when either
    /// is less than four.
    pub fn new(rows: usize, cols: usize) -> (made: Result<GameOfLife, GridError>)
        ensures
            rows > 3 && cols > 3 <==> made is Ok,
            made matches Ok(g) ==> g.wf() && g@ == blank(rows as nat, cols as nat) && all_dead(g@),
            made matches Err(e) ==> e == GridError::InvalidDimensions,
    {
        if rows <= 3 || cols <= 3 {
            return Err(GridError::InvalidDimensions);
        }
        let mut cells: Vec<Vec<bool>> = Vec::new();
        let mut r: usize = 0;
        while r < rows
            invariant
                r <= rows,
                cells@.len() == r,
                forall|i: int| 0 <= i < r ==> (#[trigger] cells@[i])@ == Seq::new(cols as nat, |c: int| false),
            decreases rows - r,
        {
            let mut line: Vec<bool> = Vec::new();
            let mut c: usize = 0;
            while c < cols
                invariant
                    c <= cols,
                    line@ == Seq::new(c as nat, |c: int| false),
                decreases cols - c,
            {
                line.push(false);
                c += 1;
                assert(line@ =~= Seq::new(c as nat, |c: int| false));
            }
            cells.push(line);
            r += 1;
        }
        let g = GameOfLife { cells };
        assert(g@ =~= blank(rows as nat, cols as nat));
        Ok(g)
    }

    /// Adopts `cells` as a grid. Rows of unequal length are refused as
    /// `MalformedGrid`; a rectangle of fewer than four rows or columns as
    /// `InvalidDimensions`.
    pub fn from(cells: Vec<Vec<bool>>) -> (made: Result<GameOfLife, GridError>)
        ensures
            match made {
                Ok(g) => rectangular(rows_of(cells@)) && g.wf() && g@ == rows_of(cells@),
                Err(GridError::MalformedGrid) => !equal_rows(rows_of(cells@)),
                Err(GridError::InvalidDimensions) => equal_rows(rows_of(cells@)) && !big_enough(
                    rows_of(cells@),
                ),
                Err(GridError::ContractViolation) => false,
            },
    {
        let rows = cells.len();
        let ghost grid = rows_of(cells@);
        let mut r: usize = 1;
        while r < rows
            invariant
                1 <= r,
                rows == cells@.len(),
                grid == rows_of(cells@),
                forall|i: int| 0 <= i < r && i < rows ==> (#[trigger] grid[i]).len() == grid[0].len(),
            decreases rows - r,
        {
            if cells[r].len() != cells[0].len() {
                assert(grid[r as int].len() != grid[0].len());
                return Err(GridError::MalformedGrid);
            }
            r += 1;
        }
        if rows <= 3 || cells[0].len() <= 3 {
            return Err(GridError::InvalidDimensions);
        }
        Ok(GameOfLife { cells })
    }

    /// How many of the eight cells around (`row`, `col`) are alive, where the
    /// grid's edges are joined to the opposite edges.
    pub fn count_live_neighbors(&self, row: usize, col: usize) -> (n: u8)
        requires
            self.wf(),
            row < self@.len(),
            col < self@[0].len(),
        ensures
            n == live_neighbors(self@, row as int, col as int),
            n <= 8,
    {
        let rows = self.cells.len();
        let cols = self.cells[0].len();
        let up = if row == 0 { rows - 1 } else { row - 1 };
        let down = if row == rows - 1 { 0 } else { row + 1 };
        let left = if col == 0 { cols - 1 } else { col - 1 };
        let right = if col == cols - 1 { 0 } else { col + 1 };
        proof {
            lemma_wrap(row - 1, rows as int);
            lemma_wrap(row as int, rows as int);
            lemma_wrap(row + 1, rows as int);
            lemma_wrap(col - 1, cols as int);
            lemma_wrap(col as int, cols as int);
            lemma_wrap(col + 1, cols as int);
        }
        let mut n: u8 = 0;
        if self.get(up, left) { n += 1; }
        if self.get(up, col) { n += 1; }
        if self.get(up, right) { n += 1; }
        if self.get(row, left) { n += 1; }
        if self.get(row, right) { n += 1; }
        if self.get(down, left) { n += 1; }
        if self.get(down, col) { n += 1; }
        if self.get(down, right) { n += 1; }
        n
    }

    /// The state of the cell at (`row`, `col`) in the next generation.
    pub fn check_surroundings(&self, row: usize, col: usize) -> (alive: bool)
        requires
            self.wf(),
            row < self@.len(),
            col < self@[0].len(),
        ensures
            alive == next_cell(self@, row as int, col as int),
    {
        let n = self.count_live_neighbors(row, col);
        if n == 3 {
            true
        } else if n == 2 {
            self.get(row, col)
        } else {
            false
        }
    }

    /// The next generation: every cell is computed from this generation alone.
    pub fn next(self) -> (after: GameOfLife)
        requires
            self.wf(),
        ensures
            after.wf(),
            after@ == next_generation(self@),
    {
        let rows = self.cells.len();
        let cols = self.cells[0].len();
        let mut cells: Vec<Vec<bool>> = Vec::new();
        let mut r: usize = 0;
        while r < rows
            invariant
                self.wf(),
                rows == self@.len(),
                cols == self@[0].len(),
                r <= rows,
                cells@.len() == r,
                forall|i: int| 0 <= i < r ==> (#[trigger] cells@[i])@ == next_generation(self@)[i],
            decreases rows - r,
        {
            let mut line: Vec<bool> = Vec::new();
            let mut c: usize = 0;
            while c < cols
                invariant
                    self.wf(),
                    rows == self@.len(),
                    cols == self@[0].len(),
                    r < rows,
                    c <= cols,
                    line@.len() == c,
                    forall|j: int| 0 <= j < c ==> #[trigger] line@[j] == next_cell(self@, r as int, j),
                decreases cols - c,
            {
                let state = self.check_surroundings(r, c);
                line.push(state);
                c += 1;
            }
            assert(line@ =~= next_generation(self@)[r as int]);
            cells.push(line);
            r += 1;
        }
        let after = GameOfLife { cells };
        assert(after@ =~= next_generation(self@));
        after
    }

    /// Number of rows.
    pub fn rows(&self) -> (n: usize)
        ensures
            n == self@.len(),
    {
        self.cells.len()
    }

    /// Number of columns.
    pub fn cols(&self) -> (n: usize)
        requires
            self.wf(),
        ensures
            n == self@[0].len(),
    {
        self.cells[0].len()
    }

    /// The state of the cell at (`row`, `col`).
    pub fn get(&self, row: usize, col: usize) -> (alive: bool)
        requires
            self.wf(),
            row < self@.len(),
            col < self@[0].len(),
        ensures
            alive == self@[row as int][col as int],
    {
        proof {
            self.row_view(row as int);
        }
        self.cells[row][col]
    }

    /// Flips the cell at (`row`, `col`) and leaves every other cell as it was.
    pub fn set(&mut self, row: usize, col: usize)
        requires
            old(self).wf(),
            row < old(self)@.len(),
            col < old(self)@[0].len(),
        ensures
            final(self).wf(),
            final(self)@ == toggled(old(self)@, row as int, col as int),
    {
        proof {
            self.row_view(row as int);
        }
        let v = !self.cells[row][col];
        self.cells[row][col] = v;
        assert(self@ =~= toggled(old(self)@, row as int, col as int));
    }

    /// The state of the cell at (`row`, `col`), or `ContractViolation` where
    /// the grid has no such cell.
    pub fn try_get(&self, row: usize, col: usize) -> (found: Result<bool, GridError>)
        requires
            self.wf(),
        ensures
            row < self@.len() && col < self@[0].len() <==> found is Ok,
            found matches Ok(alive) ==> alive == self@[row as int][col as int],
            found matches Err(e) ==> e == GridError::ContractViolation,
    {
        if row < self.rows() && col < self.cols() {
            Ok(self.get(row, col))
        } else {
            Err(GridError::ContractViolation)
        }
    }

    /// Flips the cell at (`row`, `col`); where the grid has no such cell, it
    /// stays as it is and `ContractViolation` is returned.
    pub fn try_set(&mut self, row: usize, col: usize) -> (done: Result<(), GridError>)
        requires
            old(self).wf(),
        ensures
            final(self).wf(),
            row < old(self)@.len() && col < old(self)@[0].len() <==> done is Ok,
            done is Ok ==> final(self)@ == toggled(old(self)@, row as int, col as int),
            done is Err ==> *final(self) == *old(self),
            done matches Err(e) ==> e == GridError::ContractViolation,
    {
        if row < self.rows() && col < self.cols() {
            self.set(row, col);
            Ok(())
        } else {
            Err(GridError::ContractViolation)
        }
    }

    /// What the view is, row by row.
    proof fn row_view(&self, r: int)
        requires
            0 <= r < self.cells@.len(),
        ensures
            self@.len() == self.cells@.len(),
            self@[r] == self.cells@[r]@,
    {
    }
}

/// Flipping a cell twice gives the grid back.
pub proof fn lemma_toggle_twice(cells: Seq<Seq<bool>>, r: int, c: int)
    requires
        0 <= r < cells.len(),
        0 <= c < cells[r].len(),
    ensures
        toggled(toggled(cells, r, c), r, c) == cells,
{
    let once = toggled(cells, r, c);
    assert(toggled(once, r, c)[r] =~= cells[r]);
    assert(toggled(once, r, c) =~= cells);
}

/// Around a cell of a rectangular grid, every neighbour's place lies in the grid.
pub proof fn lemma_neighbors_in_grid(cells: Seq<Seq<bool>>, r: int, c: int)
    requires
        rectangular(cells),
        0 <= r < cells.len(),
        0 <= c < cells[0].len(),
    ensures
        forall|dr: int, dc: int|
            -1 <= dr <= 1 && -1 <= dc <= 1 ==> {
                &&& 0 <= #[trigger] wrap(r + dr, cells.len() as int) < cells.len()
                &&& 0 <= #[trigger] wrap(c + dc, cells[0].len() as int) < cells[0].len()
            },
        0 <= live_neighbors(cells, r, c) <= 8,
{
    assert forall|dr: int, dc: int| -1 <= dr <= 1 && -1 <= dc <= 1 implies {
        &&& 0 <= #[trigger] wrap(r + dr, cells.len() as int) < cells.len()
        &&& 0 <= #[trigger] wrap(c + dc, cells[0].len() as int) < cells[0].len()
    } by {
        lemma_wrap(r + dr, cells.len() as int);
        lemma_wrap(c + dc, cells[0].len() as int);
    }
}

/// A grid without a live cell has none in the next generation either.
pub proof fn lemma_dead_next(cells: Seq<Seq<bool>>)
    requires
        rectangular(cells),
        all_dead(cells),
    ensures
        next_generation(cells) == cells,
{
    let after = next_generation(cells);
    assert forall|r: int| 0 <= r < cells.len() implies #[trigger] after[r] =~= cells[r] by {
        assert(cells[r].len() == cells[0].len());
        assert forall|c: int| 0 <= c < cells[0].len() implies after[r][c] == cells[r][c] by {
            lemma_neighbors_in_grid(cells, r, c);
            let up = wrap(r - 1, cells.len() as int);
            let mid = wrap(r + 0, cells.len() as int);
            let down = wrap(r + 1, cells.len() as int);
            let left = wrap(c - 1, cells[0].len() as int);
            let centre = wrap(c + 0, cells[0].len() as int);
            let right = wrap(c + 1, cells[0].len() as int);
            assert(cells[up].len() == cells[0].len());
            assert(cells[mid].len() == cells[0].len());
            assert(cells[down].len() == cells[0].len());
            assert(!cells[up][left] && !cells[up][centre] && !cells[up][right]);
            assert(!cells[mid][left] && !cells[mid][right]);
            assert(!cells[down][left] && !cells[down][centre] && !cells[down][right]);
            assert(live_neighbors(cells, r, c) == 0);
            assert(!cells[r][c]);
        }
    }
    assert(after =~= cells);
}

/// A grid without a live cell stays as it is, however many generations pass.
pub proof fn lemma_dead_stays_dead(cells: Seq<Seq<bool>>, n: nat)
    requires
        rectangular(cells),
        all_dead(cells),
    ensures
        generations(cells, n) == cells,
        all_dead(generations(cells, n)),
    decreases n,
{
    if n > 0 {
        lemma_dead_stays_dead(cells, (n - 1) as nat);
        lemma_dead_next(cells);
    }
}

/// The next generation of a rectangular grid is a rectangle of the same size.
pub proof fn lemma_next_keeps_shape(cells: Seq<Seq<bool>>)
    requires
        rectangular(cells),
    ensures
        rectangular(next_generation(cells)),
        next_generation(cells).len() == cells.len(),
        next_generation(cells)[0].len() == cells[0].len(),
{
}

} // verus!

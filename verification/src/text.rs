//! The saved form of a grid: one line of `'0'` and `'1'` per row.

use vstd::prelude::*;
use crate::life::{big_enough, equal_rows, rectangular, rows_of, GameOfLife, GridError};

verus! {

/// The byte that stands for a dead cell.
pub const DEAD: u8 = 0x30;

/// The byte that stands for a live cell.
pub const ALIVE: u8 = 0x31;

/// The byte that ends a line.
pub const NEWLINE: u8 = 0x0a;

/// The byte that may stand before the one that ends a line.
pub const CARRIAGE_RETURN: u8 = 0x0d;

/// The byte that stands for a cell.
pub open spec fn token(alive: bool) -> u8 {
    if alive {
        ALIVE
    } else {
        DEAD
    }
}

/// True when `b` stands for a cell.
pub open spec fn is_token(b: u8) -> bool {
    b == DEAD || b == ALIVE
}

/// The bytes of one row, without the end of the line.
pub open spec fn row_tokens(row: Seq<bool>) -> Seq<u8> {
    Seq::new(row.len(), |c: int| token(row[c]))
}

/// The saved form of `cells`: each row's bytes and a newline, row after row.
pub open spec fn encode(cells: Seq<Seq<bool>>) -> Seq<u8>
    decreases cells.len(),
{
    if cells.len() == 0 {
        Seq::empty()
    } else {
        row_tokens(cells.first()).push(NEWLINE) + encode(cells.drop_first())
    }
}

/// Where the first line of `s` ends: the place of its first newline, or the
/// length of `s` if it holds none.
pub open spec fn line_end(s: Seq<u8>) -> int
    decreases s.len(),
{
    if s.len() == 0 || s.first() == NEWLINE {
        0
    } else {
        1 + line_end(s.drop_first())
    }
}

/// The first line of `s` ends within `s`, and holds no newline.
pub proof fn lemma_line_end(s: Seq<u8>)
    ensures
        0 <= line_end(s) <= s.len(),
        forall|i: int| 0 <= i < line_end(s) ==> s[i] != NEWLINE,
        line_end(s) < s.len() ==> s[line_end(s)] == NEWLINE,
    decreases s.len(),
{
    if s.len() == 0 || s.first() == NEWLINE {
    } else {
        let t = s.drop_first();
        lemma_line_end(t);
        assert forall|i: int| 0 <= i < line_end(s) implies s[i] != NEWLINE by {
            if i > 0 {
                assert(s[i] == t[i - 1]);
            }
        }
        if line_end(s) < s.len() {
            assert(s[line_end(s)] == t[line_end(t)]);
        }
    }
}

/// `line` without the carriage return at its end, if it has one.
pub open spec fn without_cr(line: Seq<u8>) -> Seq<u8> {
    if line.len() > 0 && line.last() == CARRIAGE_RETURN {
        line.drop_last()
    } else {
        line
    }
}

/// The lines of `s`. A line ends with a newline, or with a carriage return and
/// a newline; neither belongs to the line. What follows the last newline is a
/// line too, unless it is empty.
pub open spec fn lines(s: Seq<u8>) -> Seq<Seq<u8>>
    decreases s.len(),
{
    if s.len() == 0 {
        Seq::empty()
    } else {
        let k = line_end(s);
        proof {
            lemma_line_end(s);
        }
        if k >= s.len() {
            seq![s]
        } else {
            seq![without_cr(s.take(k))] + lines(s.skip(k + 1))
        }
    }
}

/// True when every byte of every line stands for a cell.
pub open spec fn only_tokens(ls: Seq<Seq<u8>>) -> bool {
    forall|r: int, c: int| 0 <= r < ls.len() && 0 <= c < ls[r].len() ==> is_token(#[trigger] ls[r][c])
}

/// The cells that the lines stand for: a cell is alive where the byte is `'1'`.
pub open spec fn cells_of(ls: Seq<Seq<u8>>) -> Seq<Seq<bool>> {
    Seq::new(ls.len(), |r: int| Seq::new(ls[r].len(), |c: int| ls[r][c] == ALIVE))
}

/// What a text stands for: `MalformedGrid` where a byte of a line is neither
/// `'0'` nor `'1'` or two lines differ in length; else `InvalidDimensions`
/// where there are fewer than four lines or fewer than four cells in a line;
/// else the grid.
pub open spec fn decode(s: Seq<u8>) -> Result<Seq<Seq<bool>>, GridError> {
    let ls = lines(s);
    let cells = cells_of(ls);
    if !only_tokens(ls) || !equal_rows(cells) {
        Err(GridError::MalformedGrid)
    } else if !big_enough(cells) {
        Err(GridError::InvalidDimensions)
    } else {
        Ok(cells)
    }
}

/// The first line of `s` ends at `k` when no newline stands before `k` and
/// one stands at `k`, or `s` ends there.
pub proof fn lemma_line_end_at(s: Seq<u8>, k: int)
    requires
        0 <= k <= s.len(),
        forall|i: int| 0 <= i < k ==> s[i] != NEWLINE,
        k < s.len() ==> s[k] == NEWLINE,
    ensures
        line_end(s) == k,
{
    lemma_line_end(s);
}

/// Saving one more row appends that row's bytes and a newline.
pub proof fn lemma_encode_push(cells: Seq<Seq<bool>>, row: Seq<bool>)
    ensures
        encode(cells.push(row)) == encode(cells) + row_tokens(row).push(NEWLINE),
    decreases cells.len(),
{
    let more = cells.push(row);
    if cells.len() == 0 {
        assert(more.drop_first() =~= Seq::<Seq<bool>>::empty());
        assert(encode(more.drop_first()) =~= Seq::<u8>::empty());
        assert(encode(more) =~= encode(cells) + row_tokens(row).push(NEWLINE));
    } else {
        lemma_encode_push(cells.drop_first(), row);
        assert(more.drop_first() =~= cells.drop_first().push(row));
        assert(more.first() == cells.first());
        assert(encode(more) =~= encode(cells) + row_tokens(row).push(NEWLINE));
    }
}

/// The lines of a saved grid are the rows' bytes.
pub proof fn lemma_lines_of_encode(cells: Seq<Seq<bool>>)
    ensures
        lines(encode(cells)) == Seq::new(cells.len(), |r: int| row_tokens(cells[r])),
    decreases cells.len(),
{
    let s = encode(cells);
    let want = Seq::new(cells.len(), |r: int| row_tokens(cells[r]));
    if cells.len() == 0 {
        assert(lines(s) =~= want);
    } else {
        let head = row_tokens(cells.first());
        let rest = cells.drop_first();
        let k = head.len() as int;
        assert(s == head.push(NEWLINE) + encode(rest));
        assert forall|i: int| 0 <= i < k implies s[i] != NEWLINE by {
            assert(s[i] == head[i]);
        }
        assert(s[k] == NEWLINE);
        lemma_line_end_at(s, k);
        assert(s.take(k) =~= head);
        assert(without_cr(head) == head) by {
            if head.len() > 0 {
                assert(is_token(head.last()));
            }
        }
        assert(s.skip(k + 1) =~= encode(rest));
        lemma_lines_of_encode(rest);
        assert(lines(s) =~= want);
    }
}

/// Saving a grid and reading the text back gives the grid, cell for cell.
pub proof fn lemma_round_trip(cells: Seq<Seq<bool>>)
    requires
        rectangular(cells),
    ensures
        decode(encode(cells)) == Ok::<Seq<Seq<bool>>, GridError>(cells),
{
    lemma_lines_of_encode(cells);
    let ls = lines(encode(cells));
    assert(only_tokens(ls)) by {
        assert forall|r: int, c: int| 0 <= r < ls.len() && 0 <= c < ls[r].len() implies is_token(
            #[trigger] ls[r][c],
        ) by {
            assert(ls[r][c] == token(cells[r][c]));
        }
    }
    assert(cells_of(ls) =~= cells) by {
        assert forall|r: int| 0 <= r < cells.len() implies #[trigger] cells_of(ls)[r] =~= cells[r] by {
            assert(ls[r] == row_tokens(cells[r]));
        }
    }
}

/// A text with two lines of different lengths is refused as malformed.
pub proof fn lemma_unequal_lines_refused(s: Seq<u8>, a: int, b: int)
    requires
        0 <= a < lines(s).len(),
        0 <= b < lines(s).len(),
        lines(s)[a].len() != lines(s)[b].len(),
    ensures
        decode(s) == Err::<Seq<Seq<bool>>, GridError>(GridError::MalformedGrid),
{
    let cells = cells_of(lines(s));
    assert(cells[a].len() == lines(s)[a].len());
    assert(cells[b].len() == lines(s)[b].len());
    assert(cells[0].len() == lines(s)[0].len());
}

impl GameOfLife {
    /// The saved form of the grid: for each row a line of `'0'` and `'1'`.
    pub fn serialize(&self) -> (out: Vec<u8>)
        requires
            self.wf(),
        ensures
            out@ == encode(self@),
    {
        let rows = self.rows();
        let cols = self.cols();
        let mut out: Vec<u8> = Vec::new();
        let mut r: usize = 0;
        assert(self@.take(0) =~= Seq::<Seq<bool>>::empty());
        while r < rows
            invariant
                self.wf(),
                rows == self@.len(),
                cols == self@[0].len(),
                r <= rows,
                out@ == encode(self@.take(r as int)),
            decreases rows - r,
        {
            let ghost before = out@;
            let mut c: usize = 0;
            while c < cols
                invariant
                    self.wf(),
                    rows == self@.len(),
                    cols == self@[0].len(),
                    r < rows,
                    c <= cols,
                    out@ == before + row_tokens(self@[r as int]).take(c as int),
                decreases cols - c,
            {
                let b = if self.get(r, c) { ALIVE } else { DEAD };
                out.push(b);
                c += 1;
                assert(out@ =~= before + row_tokens(self@[r as int]).take(c as int));
            }
            out.push(NEWLINE);
            proof {
                let row = self@[r as int];
                assert(row_tokens(row).take(cols as int) =~= row_tokens(row));
                lemma_encode_push(self@.take(r as int), row);
                assert(self@.take(r as int).push(row) =~= self@.take(r + 1));
                assert(out@ =~= encode(self@.take(r as int)) + row_tokens(row).push(NEWLINE));
            }
            r += 1;
        }
        assert(self@.take(rows as int) =~= self@);
        out
    }

    /// Reads a saved grid.
    pub fn deserialize(bytes: &[u8]) -> (read: Result<GameOfLife, GridError>)
        ensures
            match read {
                Ok(g) => g.wf() && decode(bytes@) == Ok::<Seq<Seq<bool>>, GridError>(g@),
                Err(e) => decode(bytes@) == Err::<Seq<Seq<bool>>, GridError>(e),
            },
    {
        let n = bytes.len();
        let mut cells: Vec<Vec<bool>> = Vec::new();
        let ghost mut done: Seq<Seq<u8>> = Seq::empty();
        let mut pos: usize = 0;
        assert(bytes@.skip(0) =~= bytes@);
        while pos < n
            invariant
                n == bytes@.len(),
                pos <= n,
                lines(bytes@) == done + lines(bytes@.skip(pos as int)),
                only_tokens(done),
                cells@.len() == done.len(),
                rows_of(cells@) == cells_of(done),
            decreases n - pos,
        {
            let ghost rest = bytes@.skip(pos as int);
            let mut end: usize = pos;
            while end < n && bytes[end] != NEWLINE
                invariant
                    n == bytes@.len(),
                    pos <= end <= n,
                    forall|i: int| pos <= i < end ==> bytes@[i] != NEWLINE,
                decreases n - end,
            {
                end += 1;
            }
            let stop = if end < n && end > pos && bytes[end - 1] == CARRIAGE_RETURN {
                end - 1
            } else {
                end
            };
            let ghost line = bytes@.subrange(pos as int, stop as int);
            proof {
                let k = end - pos;
                assert forall|i: int| 0 <= i < k implies rest[i] != NEWLINE by {
                    assert(rest[i] == bytes@[pos + i]);
                }
                lemma_line_end_at(rest, k);
                if end < n {
                    assert(rest.take(k) =~= bytes@.subrange(pos as int, end as int));
                    assert(without_cr(rest.take(k)) =~= line);
                    assert(rest.skip(k + 1) =~= bytes@.skip(end + 1));
                    assert(lines(rest) == seq![line] + lines(bytes@.skip(end + 1)));
                } else {
                    assert(rest =~= line);
                    assert(bytes@.skip(n as int) =~= Seq::<u8>::empty());
                    assert(lines(rest) =~= seq![line] + lines(bytes@.skip(n as int)));
                }
                assert(lines(bytes@)[done.len() as int] == line);
            }
            let mut row: Vec<bool> = Vec::new();
            let mut j: usize = pos;
            while j < stop
                invariant
                    n == bytes@.len(),
                    pos <= j <= stop <= n,
                    line == bytes@.subrange(pos as int, stop as int),
                    row@.len() == j - pos,
                    forall|i: int| 0 <= i < j - pos ==> is_token(#[trigger] line[i]),
                    forall|i: int| 0 <= i < j - pos ==> #[trigger] row@[i] == (line[i] == ALIVE),
                    0 <= done.len() < lines(bytes@).len(),
                    lines(bytes@)[done.len() as int] == line,
                decreases stop - j,
            {
                let b = bytes[j];
                if b != ALIVE && b != DEAD {
                    proof {
                        assert(line[j - pos] == b);
                        assert(!is_token(lines(bytes@)[done.len() as int][j - pos]));
                    }
                    return Err(GridError::MalformedGrid);
                }
                row.push(b == ALIVE);
                j += 1;
            }
            proof {
                let more = done.push(line);
                assert(more + lines(bytes@.skip(if end < n { end + 1 } else { n as int }))
                    =~= done + (seq![line] + lines(bytes@.skip(if end < n { end + 1 } else { n as int }))));
                assert(rows_of(cells@.push(row)) =~= cells_of(more)) by {
                    assert forall|r: int| 0 <= r < more.len() implies #[trigger] rows_of(cells@.push(row))[r]
                        =~= cells_of(more)[r] by {
                        if r < done.len() {
                            assert(rows_of(cells@)[r] == cells_of(done)[r]);
                        } else {
                            assert(more[r] == line);
                            assert(cells@.push(row)[r] == row);
                        }
                    }
                }
                assert(only_tokens(more)) by {
                    assert forall|r: int, c: int| 0 <= r < more.len() && 0 <= c < more[r].len() implies is_token(
                        #[trigger] more[r][c],
                    ) by {
                        if r < done.len() {
                            assert(more[r] == done[r]);
                        }
                    }
                }
                done = more;
            }
            cells.push(row);
            pos = if end < n { end + 1 } else { n };
        }
        proof {
            assert(bytes@.skip(n as int) =~= Seq::<u8>::empty());
            assert(lines(bytes@) =~= done);
        }
        GameOfLife::from(cells)
    }

    /// Replaces the grid by the one that `bytes` stand for. Where the text is
    /// refused, the grid stays as it was.
    pub fn load(&mut self, bytes: &[u8]) -> (done: Result<(), GridError>)
        ensures
            match done {
                Ok(()) => final(self).wf() && decode(bytes@) == Ok::<Seq<Seq<bool>>, GridError>(
                    final(self)@,
                ),
                Err(e) => decode(bytes@) == Err::<Seq<Seq<bool>>, GridError>(e) && *final(self) == *old(
                    self,
                ),
            },
    {
        match GameOfLife::deserialize(bytes) {
            Ok(g) => {
                *self = g;
                Ok(())
            },
            Err(e) => Err(e),
        }
    }
}

} // verus!

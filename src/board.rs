use vstd::prelude::*;

verus! {

/// A chess board for placing queens row by row. Each cell is ' ' (free),
/// 'Q' (a queen) or 'r' (attacked by a queen of an earlier row).
#[derive(Debug, Clone)]
pub struct Board {
    board: Vec<char>,
    row: u32,
    pub size: u32,
}

/// Whether a queen at (`qy`, `qx`) attacks the cell (`y`, `x`) of a later row.
pub open spec fn attacks(qy: int, qx: int, y: int, x: int) -> bool {
    y > qy && (x == qx || x == qx - (y - qy) || x == qx + (y - qy))
}

/// The cell at index `idx` after a queen is set at (`qy`, `qx`) on `cells`.
pub open spec fn after_queen(cells: Seq<char>, n: int, qy: int, qx: int, idx: int) -> char {
    if idx == qy * n + qx {
        'Q'
    } else if attacks(qy, qx, idx / n, idx % n) {
        'r'
    } else {
        cells[idx]
    }
}

/// The cell at index `idx` while a queen at (`qy`, `qx`) is being set: the
/// left diagonal is marked on rows below `ly`, the right one below `ry`, the
/// column below `vy`.
pub open spec fn marking(
    cells: Seq<char>,
    n: int,
    qy: int,
    qx: int,
    idx: int,
    ly: int,
    ry: int,
    vy: int,
) -> char {
    let y = idx / n;
    let x = idx % n;
    if idx == qy * n + qx {
        'Q'
    } else if qy < y && ((y < ly && x == qx - (y - qy)) || (y < ry && x == qx + (y - qy)) || (y
        < vy && x == qx)) {
        'r'
    } else {
        cells[idx]
    }
}

impl Board {
    pub closed spec fn cells(&self) -> Seq<char> {
        self.board@
    }

    /// The number of rows, and of columns.
    pub closed spec fn side(&self) -> int {
        self.size as int
    }

    /// The number of rows that hold a queen.
    pub closed spec fn current_row(&self) -> int {
        self.row as int
    }

    pub closed spec fn wf(&self) -> bool {
        &&& self.size * self.size <= u32::MAX
        &&& self.board@.len() == self.size * self.size
        &&& self.row <= self.size
    }

    pub fn new(size: u32) -> (r: Board)
        requires
            size * size <= u32::MAX,
        ensures
            r.wf(),
            r.side() == size,
            r.current_row() == 0,
            r.cells() == Seq::new((size * size) as nat, |i: int| ' '),
    {
        let n: usize = (size * size) as usize;
        let board = vec![' '; n];
        let r = Board { board, row: 0, size };
        assert(r.cells() =~= Seq::new((size * size) as nat, |i: int| ' '));
        r
    }

    /// The size of the board.
    pub fn get_size(&mut self) -> (r: u32)
        ensures
            r == old(self).side(),
            *final(self) == *old(self),
    {
        self.size
    }

    /// Whether a queen can go in `column` of the current row.
    pub fn is_safe(&mut self, column: u32) -> (r: bool)
        requires
            old(self).wf(),
            column < old(self).side(),
        ensures
            r == (old(self).current_row() < old(self).side() && old(self).cells()[old(
                self,
            ).current_row() * old(self).side() + column] == ' '),
            *final(self) == *old(self),
    {
        if self.row < self.size {
            proof {
                lemma_cell_in_bounds(self.row as int, column as int, self.size as int);
            }
            self.board[(self.row * self.size + column) as usize] == ' '
        } else {
            false
        }
    }

    /// Whether every row holds a queen.
    pub fn is_end_row(&mut self) -> (r: bool)
        ensures
            r == (old(self).current_row() == old(self).side()),
            *final(self) == *old(self),
    {
        self.row == self.size
    }

    /// Sets a queen in `column` of the current row, moves to the next row,
    /// and marks every cell of the later rows that the queen attacks.
    pub fn set_queen(&mut self, column: u32)
        requires
            old(self).wf(),
            old(self).current_row() < old(self).side(),
            column < old(self).side(),
        ensures
            final(self).wf(),
            final(self).side() == old(self).side(),
            final(self).current_row() == old(self).current_row() + 1,
            final(self).cells().len() == old(self).cells().len(),
            forall|idx: int|
                0 <= idx < old(self).cells().len() ==> #[trigger] final(self).cells()[idx]
                    == after_queen(
                    old(self).cells(),
                    old(self).side(),
                    old(self).current_row(),
                    column as int,
                    idx,
                ),
    {
        let n = self.size;
        let r0 = self.row;
        let ghost c0 = self.board@;
        let ghost qy = r0 as int;
        let ghost qx = column as int;
        let ghost nn = n as int;
        proof {
            lemma_cell_in_bounds(qy, qx, nn);
            if nn >= 65536 {
                assert(nn * nn >= 65536 * 65536) by (nonlinear_arith)
                    requires
                        nn >= 65536,
                ;
            }
        }
        self.board.set((n * r0 + column) as usize, 'Q');
        self.row = r0 + 1;
        let r1 = r0 + 1;
        assert forall|idx: int| 0 <= idx < c0.len() implies #[trigger] self.board@[idx] == marking(
            c0,
            nn,
            qy,
            qx,
            idx,
            qy + 1,
            qy + 1,
            qy + 1,
        ) by {
            lemma_index_split(idx, nn);
        }
        // diagonal left
        let mut x: i32 = column as i32;
        let mut y: u32 = r1;
        while y < n
            invariant_except_break
                x == qx - (y - r1),
                0 <= x,
                forall|idx: int|
                    0 <= idx < c0.len() ==> #[trigger] self.board@[idx] == marking(
                        c0,
                        nn,
                        qy,
                        qx,
                        idx,
                        y as int,
                        qy + 1,
                        qy + 1,
                    ),
            invariant
                self.board@.len() == c0.len(),
                c0.len() == nn * nn,
                nn == n,
                nn * nn <= u32::MAX,
                nn < 65536,
                self.row == r1,
                self.size == n,
                r1 == qy + 1,
                0 <= qy < nn,
                0 <= qx < nn,
                r1 <= y <= n,
            ensures
                self.board@.len() == c0.len(),
                forall|idx: int|
                    0 <= idx < c0.len() ==> #[trigger] self.board@[idx] == marking(
                        c0,
                        nn,
                        qy,
                        qx,
                        idx,
                        nn,
                        qy + 1,
                        qy + 1,
                    ),
            decreases n - y,
        {
            x = x - 1;
            if x < 0 {
                assert forall|idx: int| 0 <= idx < c0.len() implies #[trigger] self.board@[idx]
                    == marking(c0, nn, qy, qx, idx, nn, qy + 1, qy + 1) by {
                    lemma_index_split(idx, nn);
                }
                break;
            }
            let ghost before = self.board@;
            proof {
                lemma_cell_in_bounds(y as int, x as int, nn);
            }
            self.board.set((n * y + x as u32) as usize, 'r');
            assert forall|idx: int| 0 <= idx < c0.len() implies #[trigger] self.board@[idx]
                == marking(c0, nn, qy, qx, idx, y + 1, qy + 1, qy + 1) by {
                lemma_index_split(idx, nn);
                lemma_cell_in_bounds(qy, qx, nn);
                if idx != y * nn + x {
                    assert(self.board@[idx] == before[idx]);
                }
                assert(before[idx] == marking(c0, nn, qy, qx, idx, y as int, qy + 1, qy + 1));
            }
            y = y + 1;
        }
        // diagonal right
        let mut x: i32 = column as i32;
        let mut y: u32 = r1;
        while y < n
            invariant_except_break
                x == qx + (y - r1),
                0 <= x < nn,
                forall|idx: int|
                    0 <= idx < c0.len() ==> #[trigger] self.board@[idx] == marking(
                        c0,
                        nn,
                        qy,
                        qx,
                        idx,
                        nn,
                        y as int,
                        qy + 1,
                    ),
            invariant
                self.board@.len() == c0.len(),
                c0.len() == nn * nn,
                nn == n,
                nn * nn <= u32::MAX,
                nn < 65536,
                self.row == r1,
                self.size == n,
                r1 == qy + 1,
                0 <= qy < nn,
                0 <= qx < nn,
                r1 <= y <= n,
            ensures
                self.board@.len() == c0.len(),
                forall|idx: int|
                    0 <= idx < c0.len() ==> #[trigger] self.board@[idx] == marking(
                        c0,
                        nn,
                        qy,
                        qx,
                        idx,
                        nn,
                        nn,
                        qy + 1,
                    ),
            decreases n - y,
        {
            x = x + 1;
            if x as u32 == n {
                assert forall|idx: int| 0 <= idx < c0.len() implies #[trigger] self.board@[idx]
                    == marking(c0, nn, qy, qx, idx, nn, nn, qy + 1) by {
                    lemma_index_split(idx, nn);
                }
                break;
            }
            let ghost before = self.board@;
            proof {
                lemma_cell_in_bounds(y as int, x as int, nn);
            }
            self.board.set((n * y + x as u32) as usize, 'r');
            assert forall|idx: int| 0 <= idx < c0.len() implies #[trigger] self.board@[idx]
                == marking(c0, nn, qy, qx, idx, nn, y + 1, qy + 1) by {
                lemma_index_split(idx, nn);
                lemma_cell_in_bounds(qy, qx, nn);
                if idx != y * nn + x {
                    assert(self.board@[idx] == before[idx]);
                }
                assert(before[idx] == marking(c0, nn, qy, qx, idx, nn, y as int, qy + 1));
            }
            y = y + 1;
        }
        // vertical
        let mut y: u32 = r1;
        while y < n
            invariant
                self.board@.len() == c0.len(),
                c0.len() == nn * nn,
                nn == n,
                nn * nn <= u32::MAX,
                nn < 65536,
                self.row == r1,
                self.size == n,
                r1 == qy + 1,
                0 <= qy < nn,
                0 <= qx < nn,
                qx == column,
                r1 <= y <= n,
                forall|idx: int|
                    0 <= idx < c0.len() ==> #[trigger] self.board@[idx] == marking(
                        c0,
                        nn,
                        qy,
                        qx,
                        idx,
                        nn,
                        nn,
                        y as int,
                    ),
            decreases n - y,
        {
            let ghost before = self.board@;
            proof {
                lemma_cell_in_bounds(y as int, qx, nn);
            }
            self.board.set((n * y + column) as usize, 'r');
            assert forall|idx: int| 0 <= idx < c0.len() implies #[trigger] self.board@[idx]
                == marking(c0, nn, qy, qx, idx, nn, nn, y + 1) by {
                lemma_index_split(idx, nn);
                lemma_cell_in_bounds(qy, qx, nn);
                if idx != y * nn + qx {
                    assert(self.board@[idx] == before[idx]);
                }
                assert(before[idx] == marking(c0, nn, qy, qx, idx, nn, nn, y as int));
            }
            y = y + 1;
        }
        assert forall|idx: int| 0 <= idx < c0.len() implies #[trigger] self.board@[idx]
            == after_queen(c0, nn, qy, qx, idx) by {
            lemma_index_split(idx, nn);
        }
    }
}

/// A well-formed board has one cell per row and column, and its current row
/// is at most the number of rows.
pub proof fn lemma_board_shape(b: Board)
    ensures
        b.wf() ==> b.cells().len() == b.side() * b.side() && 0 <= b.current_row() <= b.side()
            && b.side() * b.side() <= u32::MAX,
{
}

proof fn lemma_index_split(idx: int, n: int)
    requires
        0 <= idx < n * n,
        n > 0,
    ensures
        0 <= idx / n < n,
        0 <= idx % n < n,
        idx == (idx / n) * n + idx % n,
{
    vstd::arithmetic::div_mod::lemma_fundamental_div_mod(idx, n);
    vstd::arithmetic::div_mod::lemma_mod_bound(idx, n);
    let q = idx / n;
    let r = idx % n;
    assert(0 <= q < n) by (nonlinear_arith)
        requires
            idx == n * q + r,
            0 <= r < n,
            0 <= idx < n * n,
            n > 0,
    ;
    assert(n * q == q * n) by (nonlinear_arith);
}

proof fn lemma_cell_in_bounds(y: int, x: int, n: int)
    requires
        0 <= y < n,
        0 <= x < n,
    ensures
        0 <= y * n + x < n * n,
        n * y == y * n,
        (y * n + x) / n == y,
        (y * n + x) % n == x,
{
    assert(y * n + x < n * n) by (nonlinear_arith)
        requires
            0 <= y < n,
            0 <= x < n,
    ;
    assert(0 <= y * n) by (nonlinear_arith)
        requires
            0 <= y,
            0 <= n,
    ;
    assert(n * y == y * n) by (nonlinear_arith);
    vstd::arithmetic::div_mod::lemma_fundamental_div_mod_converse(y * n + x, n, y, x);
}

} // verus!

//! The mathematical model of a board: its cells as a grid of values, the
//! geometry of neighbourhoods, and the counts and selections that the
//! board's operations are specified by.
use vstd::prelude::*;
use crate::cell::CellData;

verus! {

/// The abstract state of a board. `cells[x][y]` is the cell in column `x`
/// and row `y`.
pub struct BoardView {
    pub width: nat,
    pub height: nat,
    pub mine_count: nat,
    pub cells: Seq<Seq<CellData>>,
    pub first_click: bool,
    pub flags_placed: nat,
    pub exploded: Option<(usize, usize)>,
}

/// `(a, b)` is one of the (up to) eight cells around `(x, y)`.
pub open spec fn adjacent(x: int, y: int, a: int, b: int) -> bool {
    &&& !(a == x && b == y)
    &&& x - 1 <= a <= x + 1
    &&& y - 1 <= b <= y + 1
}

/// Column offset of the `k`-th position of the 3x3 block around a cell,
/// scanned column by column.
pub open spec fn offset_x(k: int) -> int {
    k / 3 - 1
}

/// Row offset of the `k`-th position of the 3x3 block around a cell.
pub open spec fn offset_y(k: int) -> int {
    k % 3 - 1
}

/// The in-bounds neighbours of `(x, y)` among the first `k` positions of the
/// 3x3 block, in scan order (the centre, position 4, is skipped).
pub open spec fn neighbors_upto(w: int, h: int, x: int, y: int, k: nat) -> Seq<(usize, usize)>
    decreases k,
{
    if k == 0 {
        seq![]
    } else {
        let prev = neighbors_upto(w, h, x, y, (k - 1) as nat);
        let j = k - 1;
        let nx = x + offset_x(j);
        let ny = y + offset_y(j);
        if j != 4 && 0 <= nx < w && 0 <= ny < h {
            prev.push((nx as usize, ny as usize))
        } else {
            prev
        }
    }
}

/// All in-bounds neighbours of `(x, y)` on a `w` by `h` board, in the order
/// left column top to bottom, middle column, right column.
pub open spec fn neighbor_seq(w: int, h: int, x: int, y: int) -> Seq<(usize, usize)> {
    neighbors_upto(w, h, x, y, 9)
}

/// The 3x3 zone around the first click, in which no mine is placed.
pub open spec fn in_safe_zone(x: int, y: int, sx: u16, sy: u16) -> bool {
    sx - 1 <= x <= sx + 1 && sy - 1 <= y <= sy + 1
}


/// Position of `p` in the scan of the 3x3 block around `(x, y)`.
pub open spec fn scan_index(x: int, y: int, p: (usize, usize)) -> int {
    (p.0 - x + 1) * 3 + (p.1 - y + 1)
}

proof fn lemma_neighbors_upto(w: int, h: int, x: int, y: int, k: nat)
    requires
        k <= 9,
        0 <= w <= u16::MAX,
        0 <= h <= u16::MAX,
    ensures
        neighbors_upto(w, h, x, y, k).len() <= if k > 4 { k - 1 } else { k as int },
        forall|i: int|
            0 <= i < neighbors_upto(w, h, x, y, k).len() ==> {
                let p = #[trigger] neighbors_upto(w, h, x, y, k)[i];
                &&& 0 <= p.0 < w
                &&& 0 <= p.1 < h
                &&& adjacent(x, y, p.0 as int, p.1 as int)
                &&& 0 <= scan_index(x, y, p) < k
            },
        forall|i: int, j: int|
            0 <= i < j < neighbors_upto(w, h, x, y, k).len() ==> scan_index(
                x,
                y,
                #[trigger] neighbors_upto(w, h, x, y, k)[i],
            ) < scan_index(x, y, #[trigger] neighbors_upto(w, h, x, y, k)[j]),
        forall|j: int|
            #![trigger offset_x(j), offset_y(j)]
            0 <= j < k && j != 4 && 0 <= x + offset_x(j) < w && 0 <= y + offset_y(j) < h
                ==> neighbors_upto(w, h, x, y, k).contains(
                ((x + offset_x(j)) as usize, (y + offset_y(j)) as usize),
            ),
    decreases k,
{
    if k > 0 {
        let j = k - 1;
        lemma_neighbors_upto(w, h, x, y, (k - 1) as nat);
        let prev = neighbors_upto(w, h, x, y, (k - 1) as nat);
        let s = neighbors_upto(w, h, x, y, k);
        assert(0 <= j / 3 <= 2 && 0 <= j % 3 <= 2 && (j / 3) * 3 + j % 3 == j);
        assert(j == 4 <==> (j / 3 == 1 && j % 3 == 1));
        assert forall|jj: int|
            #![trigger offset_x(jj), offset_y(jj)]
            0 <= jj < k && jj != 4 && 0 <= x + offset_x(jj) < w && 0 <= y + offset_y(jj) < h
                implies s.contains(((x + offset_x(jj)) as usize, (y + offset_y(jj)) as usize)) by {
            if jj < j {
                let q = ((x + offset_x(jj)) as usize, (y + offset_y(jj)) as usize);
                let i = choose|i: int| 0 <= i < prev.len() && prev[i] == q;
                assert(s[i] == q);
            } else {
                assert(s[s.len() - 1] == ((x + offset_x(jj)) as usize, (y + offset_y(jj)) as usize));
            }
        }
    }
}

/// The neighbour sequence lists exactly the in-bounds cells adjacent to
/// `(x, y)`, each once, and so at most eight of them.
pub proof fn lemma_neighbor_seq(w: int, h: int, x: int, y: int)
    requires
        0 <= w <= u16::MAX,
        0 <= h <= u16::MAX,
    ensures
        neighbor_seq(w, h, x, y).len() <= 8,
        neighbor_seq(w, h, x, y).no_duplicates(),
        forall|i: int|
            0 <= i < neighbor_seq(w, h, x, y).len() ==> {
                let p = #[trigger] neighbor_seq(w, h, x, y)[i];
                &&& 0 <= p.0 < w
                &&& 0 <= p.1 < h
                &&& adjacent(x, y, p.0 as int, p.1 as int)
            },
        forall|a: int, b: int|
            0 <= a < w && 0 <= b < h && adjacent(x, y, a, b) ==> neighbor_seq(w, h, x, y).contains(
                (a as usize, b as usize),
            ),
{
    lemma_neighbors_upto(w, h, x, y, 9);
    let s = neighbor_seq(w, h, x, y);
    assert forall|i: int, j: int| 0 <= i < s.len() && 0 <= j < s.len() && i != j implies s[i] != s[j] by {
        if i < j {
            assert(scan_index(x, y, s[i]) < scan_index(x, y, s[j]));
        } else {
            assert(scan_index(x, y, s[j]) < scan_index(x, y, s[i]));
        }
    }
    assert forall|a: int, b: int|
        0 <= a < w && 0 <= b < h && adjacent(x, y, a, b) implies s.contains((a as usize, b as usize)) by {
        let k = (a - x + 1) * 3 + (b - y + 1);
        assert(k / 3 == a - x + 1 && k % 3 == b - y + 1);
        assert(offset_x(k) == a - x && offset_y(k) == b - y);
    }
}

/// Number of unrevealed cells of one column.
pub open spec fn column_hidden(c: Seq<CellData>) -> nat
    decreases c.len(),
{
    if c.len() == 0 {
        0
    } else {
        column_hidden(c.drop_last()) + if c.last().revealed {
            0nat
        } else {
            1nat
        }
    }
}

/// Number of unrevealed cells of a grid.
pub open spec fn grid_hidden(g: Seq<Seq<CellData>>) -> nat
    decreases g.len(),
{
    if g.len() == 0 {
        0
    } else {
        grid_hidden(g.drop_last()) + column_hidden(g.last())
    }
}

/// Revealing cells of a column never raises its hidden count, and revealing
/// one lowers it.
pub proof fn lemma_column_hidden_mono(a: Seq<CellData>, b: Seq<CellData>)
    requires
        a.len() == b.len(),
        forall|i: int| 0 <= i < a.len() && #[trigger] a[i].revealed ==> b[i].revealed,
    ensures
        column_hidden(b) <= column_hidden(a),
        (exists|i: int| 0 <= i < a.len() && !a[i].revealed && #[trigger] b[i].revealed) ==> column_hidden(b)
            < column_hidden(a),
    decreases a.len(),
{
    if a.len() > 0 {
        let a0 = a.drop_last();
        let b0 = b.drop_last();
        assert forall|i: int| 0 <= i < a0.len() && #[trigger] a0[i].revealed implies b0[i].revealed by {
            assert(a[i].revealed);
        }
        lemma_column_hidden_mono(a0, b0);
        if exists|i: int| 0 <= i < a.len() && !a[i].revealed && #[trigger] b[i].revealed {
            let i = choose|i: int| 0 <= i < a.len() && !a[i].revealed && #[trigger] b[i].revealed;
            if i < a.len() - 1 {
                assert(!a0[i].revealed && b0[i].revealed);
            }
        }
    }
}

/// The grid version of `lemma_column_hidden_mono`.
pub proof fn lemma_grid_hidden_mono(a: Seq<Seq<CellData>>, b: Seq<Seq<CellData>>)
    requires
        a.len() == b.len(),
        forall|i: int| 0 <= i < a.len() ==> (#[trigger] a[i]).len() == b[i].len(),
        forall|i: int, j: int|
            0 <= i < a.len() && 0 <= j < a[i].len() && (#[trigger] a[i][j]).revealed ==> b[i][j].revealed,
    ensures
        grid_hidden(b) <= grid_hidden(a),
        (exists|i: int, j: int|
            0 <= i < a.len() && 0 <= j < a[i].len() && !a[i][j].revealed && (#[trigger] b[i][j]).revealed)
            ==> grid_hidden(b) < grid_hidden(a),
    decreases a.len(),
{
    if a.len() > 0 {
        let n = a.len() - 1;
        let a0 = a.drop_last();
        let b0 = b.drop_last();
        assert forall|i: int, j: int|
            0 <= i < a0.len() && 0 <= j < a0[i].len() && (#[trigger] a0[i][j]).revealed implies b0[i][j].revealed by {
            assert(a[i][j].revealed);
        }
        lemma_grid_hidden_mono(a0, b0);
        assert forall|j: int| 0 <= j < a[n].len() && #[trigger] a[n][j].revealed implies b[n][j].revealed by {
            assert(a[n][j].revealed);
        }
        lemma_column_hidden_mono(a[n], b[n]);
        if exists|i: int, j: int|
            0 <= i < a.len() && 0 <= j < a[i].len() && !a[i][j].revealed && (#[trigger] b[i][j]).revealed {
            let (i, j) = choose|i: int, j: int|
                0 <= i < a.len() && 0 <= j < a[i].len() && !a[i][j].revealed && (#[trigger] b[i][j]).revealed;
            if i < n {
                assert(!a0[i][j].revealed && b0[i][j].revealed);
            } else {
                assert(!a[n][j].revealed && b[n][j].revealed);
            }
        }
    }
}

/// Revealing cells never raises the number of hidden cells; revealing the
/// cell `(x, y)` lowers it.
pub proof fn lemma_hidden_count_mono(a: BoardView, b: BoardView, x: int, y: int)
    requires
        a.wf(),
        b.wf(),
        a.width == b.width,
        a.height == b.height,
        a.only_reveals(b),
    ensures
        b.hidden_count() <= a.hidden_count(),
        a.in_bounds(x, y) && !a.cell(x, y).revealed && b.cell(x, y).revealed ==> b.hidden_count()
            < a.hidden_count(),
{
    assert forall|i: int| 0 <= i < a.cells.len() implies (#[trigger] a.cells[i]).len() == b.cells[i].len() by {
        assert(a.cells[i].len() == a.height);
        assert(b.cells[i].len() == b.height);
    }
    assert forall|i: int, j: int|
        0 <= i < a.cells.len() && 0 <= j < a.cells[i].len() && (#[trigger] a.cells[i][j]).revealed
            implies b.cells[i][j].revealed by {
        assert(a.cells[i].len() == a.height);
        assert(a.in_bounds(i, j));
        let _ = b.cell(i, j);
    }
    if a.in_bounds(x, y) && !a.cell(x, y).revealed && b.cell(x, y).revealed {
        assert(a.cells[x].len() == a.height);
        assert(!a.cells[x][y].revealed && b.cells[x][y].revealed);
    }
    lemma_grid_hidden_mono(a.cells, b.cells);
}

/// Number of flagged cells of one column.
pub open spec fn column_flags(c: Seq<CellData>) -> nat
    decreases c.len(),
{
    if c.len() == 0 {
        0
    } else {
        column_flags(c.drop_last()) + if c.last().flagged {
            1nat
        } else {
            0nat
        }
    }
}

/// Number of flagged cells of a grid.
pub open spec fn grid_flags(g: Seq<Seq<CellData>>) -> nat
    decreases g.len(),
{
    if g.len() == 0 {
        0
    } else {
        grid_flags(g.drop_last()) + column_flags(g.last())
    }
}

/// Two columns whose flags agree except perhaps at `j` have flag counts
/// that differ by the flags at `j`.
proof fn lemma_column_flags_diff(a: Seq<CellData>, b: Seq<CellData>, j: int)
    requires
        a.len() == b.len(),
        forall|i: int| 0 <= i < a.len() && i != j ==> (#[trigger] a[i]).flagged == b[i].flagged,
    ensures
        column_flags(b) + (if 0 <= j < a.len() && a[j].flagged { 1int } else { 0int }) == column_flags(a) + (if 0
            <= j < a.len() && b[j].flagged {
            1int
        } else {
            0int
        }),
    decreases a.len(),
{
    if a.len() > 0 {
        let a0 = a.drop_last();
        let b0 = b.drop_last();
        assert forall|i: int| 0 <= i < a0.len() && i != j implies (#[trigger] a0[i]).flagged == b0[i].flagged by {
            assert(a0[i] == a[i] && b0[i] == b[i]);
        }
        lemma_column_flags_diff(a0, b0, j);
        if 0 <= j < a0.len() {
            assert(a0[j] == a[j] && b0[j] == b[j]);
        }
    }
}

/// The grid version of `lemma_column_flags_diff`, for the cell `(x, y)`.
proof fn lemma_grid_flags_diff(a: Seq<Seq<CellData>>, b: Seq<Seq<CellData>>, x: int, y: int)
    requires
        a.len() == b.len(),
        forall|i: int| 0 <= i < a.len() ==> (#[trigger] a[i]).len() == b[i].len(),
        forall|i: int, j: int|
            0 <= i < a.len() && 0 <= j < a[i].len() && !(i == x && j == y) ==> (#[trigger] a[i][j]).flagged
                == b[i][j].flagged,
    ensures
        grid_flags(b) + (if 0 <= x < a.len() && 0 <= y < a[x].len() && a[x][y].flagged { 1int } else { 0int })
            == grid_flags(a) + (if 0 <= x < a.len() && 0 <= y < a[x].len() && b[x][y].flagged {
            1int
        } else {
            0int
        }),
    decreases a.len(),
{
    if a.len() > 0 {
        let n = a.len() - 1;
        let a0 = a.drop_last();
        let b0 = b.drop_last();
        assert forall|i: int| 0 <= i < a0.len() implies (#[trigger] a0[i]).len() == b0[i].len() by {
            assert(a0[i] == a[i] && b0[i] == b[i]);
        }
        assert forall|i: int, j: int|
            0 <= i < a0.len() && 0 <= j < a0[i].len() && !(i == x && j == y) implies (#[trigger] a0[i][j]).flagged
                == b0[i][j].flagged by {
            assert(a0[i] == a[i] && b0[i] == b[i]);
        }
        lemma_grid_flags_diff(a0, b0, x, y);
        if 0 <= x < a0.len() {
            assert(a0[x] == a[x] && b0[x] == b[x]);
        }
        let j = if x == n { y } else { -1 };
        assert forall|i: int| 0 <= i < a[n].len() && i != j implies (#[trigger] a[n][i]).flagged == b[n][i].flagged by {
            assert(a[n][i].flagged == b[n][i].flagged);
        }
        lemma_column_flags_diff(a[n], b[n], j);
    }
}

/// A grid without flags counts none.
proof fn lemma_grid_flags_none(g: Seq<Seq<CellData>>)
    requires
        forall|i: int, j: int| 0 <= i < g.len() && 0 <= j < g[i].len() ==> !(#[trigger] g[i][j]).flagged,
    ensures
        grid_flags(g) == 0,
    decreases g.len(),
{
    if g.len() > 0 {
        let n = g.len() - 1;
        let g0 = g.drop_last();
        assert forall|i: int, j: int| 0 <= i < g0.len() && 0 <= j < g0[i].len() implies !(#[trigger] g0[i][j]).flagged by {
            assert(g0[i] == g[i]);
        }
        lemma_grid_flags_none(g0);
        lemma_column_flags_none(g[n]);
    }
}

proof fn lemma_column_flags_none(c: Seq<CellData>)
    requires
        forall|j: int| 0 <= j < c.len() ==> !(#[trigger] c[j]).flagged,
    ensures
        column_flags(c) == 0,
    decreases c.len(),
{
    if c.len() > 0 {
        let c0 = c.drop_last();
        assert forall|j: int| 0 <= j < c0.len() implies !(#[trigger] c0[j]).flagged by {
            assert(c0[j] == c[j]);
        }
        lemma_column_flags_none(c0);
    }
}

/// Boards whose flags agree except perhaps at `(x, y)` have flag totals
/// that differ by the flags at `(x, y)`.
pub proof fn lemma_flag_total_diff(a: BoardView, b: BoardView, x: int, y: int)
    requires
        a.wf(),
        b.wf(),
        a.width == b.width,
        a.height == b.height,
        forall|i: int, j: int|
            a.in_bounds(i, j) && !(i == x && j == y) ==> (#[trigger] b.cell(i, j)).flagged == a.cell(i, j).flagged,
    ensures
        b.flag_total() + (if a.in_bounds(x, y) && a.cell(x, y).flagged { 1int } else { 0int }) == a.flag_total() + (
        if a.in_bounds(x, y) && b.cell(x, y).flagged {
            1int
        } else {
            0int
        }),
{
    assert forall|i: int| 0 <= i < a.cells.len() implies (#[trigger] a.cells[i]).len() == b.cells[i].len() by {
        assert(a.cells[i].len() == a.height && b.cells[i].len() == b.height);
    }
    assert forall|i: int, j: int|
        0 <= i < a.cells.len() && 0 <= j < a.cells[i].len() && !(i == x && j == y) implies (#[trigger] a.cells[i][j]).flagged
            == b.cells[i][j].flagged by {
        assert(a.cells[i].len() == a.height);
        assert(a.in_bounds(i, j));
        let _ = b.cell(i, j);
    }
    lemma_grid_flags_diff(a.cells, b.cells, x, y);
    if 0 <= x < a.cells.len() {
        assert(a.cells[x].len() == a.height);
    }
}

/// A board without flags counts none.
pub proof fn lemma_flag_total_none(v: BoardView)
    requires
        v.wf(),
        forall|x: int, y: int| v.in_bounds(x, y) ==> !(#[trigger] v.cell(x, y)).flagged,
    ensures
        v.flag_total() == 0,
{
    assert forall|i: int, j: int| 0 <= i < v.cells.len() && 0 <= j < v.cells[i].len() implies !(#[trigger] v.cells[i][j]).flagged by {
        assert(v.cells[i].len() == v.height);
        assert(v.in_bounds(i, j));
        assert(!v.cell(i, j).flagged);
    }
    lemma_grid_flags_none(v.cells);
}

/// `only_reveals` composes.
pub proof fn lemma_only_reveals_trans(a: BoardView, b: BoardView, c: BoardView)
    requires
        a.width == b.width,
        a.height == b.height,
        a.only_reveals(b),
        b.only_reveals(c),
    ensures
        a.only_reveals(c),
{
    assert forall|x: int, y: int| a.in_bounds(x, y) implies {
        &&& (#[trigger] c.cell(x, y)).mine == a.cell(x, y).mine
        &&& c.cell(x, y).flagged == a.cell(x, y).flagged
        &&& c.cell(x, y).questioned == a.cell(x, y).questioned
        &&& c.cell(x, y).neighbor_mines == a.cell(x, y).neighbor_mines
        &&& a.cell(x, y).revealed ==> c.cell(x, y).revealed
    } by {
        let _ = b.cell(x, y);
    }
}

impl BoardView {

    /// Number of flagged cells.
    pub open spec fn flag_total(self) -> nat {
        grid_flags(self.cells)
    }

    pub open spec fn hidden_count(self) -> nat {
        grid_hidden(self.cells)
    }

    /// Same dimensions, mine count, first-click state, flag count and exploded cell.
    pub open spec fn same_settings(self, other: BoardView) -> bool {
        &&& self.width == other.width
        &&& self.height == other.height
        &&& self.mine_count == other.mine_count
        &&& self.first_click == other.first_click
        &&& self.flags_placed == other.flags_placed
        &&& self.exploded == other.exploded
    }

    /// `other` differs from `self` at most by revealing more cells.
    pub open spec fn only_reveals(self, other: BoardView) -> bool {
        forall|x: int, y: int|
            self.in_bounds(x, y) ==> {
                &&& (#[trigger] other.cell(x, y)).mine == self.cell(x, y).mine
                &&& other.cell(x, y).flagged == self.cell(x, y).flagged
                &&& other.cell(x, y).questioned == self.cell(x, y).questioned
                &&& other.cell(x, y).neighbor_mines == self.cell(x, y).neighbor_mines
                &&& self.cell(x, y).revealed ==> other.cell(x, y).revealed
            }
    }
    pub open spec fn in_bounds(self, x: int, y: int) -> bool {
        0 <= x < self.width && 0 <= y < self.height
    }

    pub open spec fn cell(self, x: int, y: int) -> CellData {
        self.cells[x][y]
    }

    /// The grid has `width` columns of `height` cells each, and both fit in `u16`.
    pub open spec fn wf(self) -> bool {
        &&& self.width <= u16::MAX
        &&& self.height <= u16::MAX
        &&& self.cells.len() == self.width
        &&& forall|i: int| 0 <= i < self.width ==> #[trigger] self.cells[i].len() == self.height
    }

    pub open spec fn neighbors(self, x: int, y: int) -> Seq<(usize, usize)> {
        neighbor_seq(self.width as int, self.height as int, x, y)
    }

    /// Number of positions of `s` that hold a mine.
    pub open spec fn mines_among(self, s: Seq<(usize, usize)>) -> nat
        decreases s.len(),
    {
        if s.len() == 0 {
            0
        } else {
            self.mines_among(s.drop_last()) + if self.cell(s.last().0 as int, s.last().1 as int).mine {
                1nat
            } else {
                0nat
            }
        }
    }

    /// Number of positions of `s` that carry a flag.
    pub open spec fn flags_among(self, s: Seq<(usize, usize)>) -> nat
        decreases s.len(),
    {
        if s.len() == 0 {
            0
        } else {
            self.flags_among(s.drop_last()) + if self.cell(s.last().0 as int, s.last().1 as int).flagged {
                1nat
            } else {
                0nat
            }
        }
    }

    /// The positions of `s` that are neither revealed nor flagged, in order.
    pub open spec fn hidden_unflagged_among(self, s: Seq<(usize, usize)>) -> Seq<(usize, usize)>
        decreases s.len(),
    {
        if s.len() == 0 {
            seq![]
        } else {
            let prev = self.hidden_unflagged_among(s.drop_last());
            let c = self.cell(s.last().0 as int, s.last().1 as int);
            if !c.revealed && !c.flagged {
                prev.push(s.last())
            } else {
                prev
            }
        }
    }

    /// Number of mines around `(x, y)`.
    pub open spec fn mine_neighbors(self, x: int, y: int) -> nat {
        self.mines_among(self.neighbors(x, y))
    }

    /// Number of flags around `(x, y)`.
    pub open spec fn flag_neighbors(self, x: int, y: int) -> nat {
        self.flags_among(self.neighbors(x, y))
    }

    /// The neighbours of `(x, y)` that are neither revealed nor flagged.
    pub open spec fn hidden_unflagged_neighbors(self, x: int, y: int) -> Seq<(usize, usize)> {
        self.hidden_unflagged_among(self.neighbors(x, y))
    }

    /// The selected positions are the positions of `s` that are neither
    /// revealed nor flagged.
    pub proof fn lemma_hidden_unflagged_among(self, s: Seq<(usize, usize)>)
        ensures
            self.hidden_unflagged_among(s).len() <= s.len(),
            forall|i: int|
                0 <= i < self.hidden_unflagged_among(s).len() ==> {
                    let p = #[trigger] self.hidden_unflagged_among(s)[i];
                    &&& s.contains(p)
                    &&& !self.cell(p.0 as int, p.1 as int).revealed
                    &&& !self.cell(p.0 as int, p.1 as int).flagged
                },
            forall|p: (usize, usize)|
                s.contains(p) && !self.cell(p.0 as int, p.1 as int).revealed && !self.cell(
                    p.0 as int,
                    p.1 as int,
                ).flagged ==> #[trigger] self.hidden_unflagged_among(s).contains(p),
        decreases s.len(),
    {
        if s.len() > 0 {
            let s0 = s.drop_last();
            self.lemma_hidden_unflagged_among(s0);
            let r0 = self.hidden_unflagged_among(s0);
            let r = self.hidden_unflagged_among(s);
            assert forall|i: int| 0 <= i < r.len() implies {
                let p = #[trigger] r[i];
                &&& s.contains(p)
                &&& !self.cell(p.0 as int, p.1 as int).revealed
                &&& !self.cell(p.0 as int, p.1 as int).flagged
            } by {
                if i < r0.len() {
                    assert(r[i] == r0[i]);
                    let k = choose|k: int| 0 <= k < s0.len() && s0[k] == r0[i];
                    assert(s[k] == r0[i]);
                } else {
                    assert(s[s.len() - 1] == r[i]);
                }
            }
            assert forall|p: (usize, usize)|
                s.contains(p) && !self.cell(p.0 as int, p.1 as int).revealed && !self.cell(
                    p.0 as int,
                    p.1 as int,
                ).flagged implies #[trigger] r.contains(p) by {
                let k = choose|k: int| 0 <= k < s.len() && s[k] == p;
                if k < s.len() - 1 {
                    assert(s0[k] == p);
                    assert(r0.contains(p));
                    let j = choose|j: int| 0 <= j < r0.len() && r0[j] == p;
                    assert(r[j] == p);
                } else {
                    assert(r[r.len() - 1] == p);
                }
            }
        }
    }


    /// The mine count of `s` only depends on where the mines of `s` are.
    pub proof fn lemma_mines_among_same(self, other: BoardView, s: Seq<(usize, usize)>)
        requires
            forall|i: int|
                0 <= i < s.len() ==> self.cell((#[trigger] s[i]).0 as int, s[i].1 as int).mine == other.cell(
                    s[i].0 as int,
                    s[i].1 as int,
                ).mine,
        ensures
            self.mines_among(s) == other.mines_among(s),
        decreases s.len(),
    {
        if s.len() > 0 {
            let s0 = s.drop_last();
            assert forall|i: int| 0 <= i < s0.len() implies self.cell((#[trigger] s0[i]).0 as int, s0[i].1 as int).mine
                == other.cell(s0[i].0 as int, s0[i].1 as int).mine by {
                assert(s0[i] == s[i]);
            }
            self.lemma_mines_among_same(other, s0);
            assert(s.last() == s[s.len() - 1]);
        }
    }


    /// `s` holds at most as many mines as positions.
    pub proof fn lemma_mines_among_bound(self, s: Seq<(usize, usize)>)
        ensures
            self.mines_among(s) <= s.len(),
        decreases s.len(),
    {
        if s.len() > 0 {
            self.lemma_mines_among_bound(s.drop_last());
        }
    }


    /// A sequence without mines holds a mine at none of its positions.
    pub proof fn lemma_no_mines_among(self, s: Seq<(usize, usize)>)
        requires
            self.mines_among(s) == 0,
        ensures
            forall|i: int| 0 <= i < s.len() ==> !self.cell((#[trigger] s[i]).0 as int, s[i].1 as int).mine,
        decreases s.len(),
    {
        if s.len() > 0 {
            let s0 = s.drop_last();
            self.lemma_no_mines_among(s0);
            assert forall|i: int| 0 <= i < s.len() implies !self.cell((#[trigger] s[i]).0 as int, s[i].1 as int).mine by {
                if i < s.len() - 1 {
                    assert(s[i] == s0[i]);
                }
            }
        }
    }

}

} // verus!

//! The minesweeper board: mine placement, revealing with flood fill, flags,
//! chording and the win check.
use vstd::prelude::*;
use crate::cell::{CellData, CellSnapshot, CellState, RevealOutcome};
use crate::rules::{
    placed_by_picks,
    mines_from_picks, picks_fit, sites_left, sites_picked,
    column_sites, site_seq, sites_before,
    all_safe_revealed, chord_candidates, chord_hints, fill_path, fill_reaches, fill_settled,
    flood_post, lemma_reveal_keeps_shape, mine_site, mines_revealed, placement_post,
    reveal_all_post, reveal_at_post, reveal_post, reveal_run, room_for_mines, site_list,
    snapshot_state, toggle_post, win_post,
};
use crate::random::{gen_below, thread_rng};
use crate::view::{
    adjacent, in_safe_zone, lemma_hidden_count_mono, lemma_neighbor_seq, lemma_only_reveals_trans,
    neighbors_upto, offset_x, offset_y, BoardView,
};

verus! {

/// A minesweeper board. Mines are placed at the first reveal, away from the
/// clicked cell; its abstract state is `BoardView`.
pub struct MinesweeperBoard {
    width: u16,
    height: u16,
    mine_count: usize,
    cells: Vec<Vec<CellData>>,  // [x][y]
    first_click: bool,
    flags_placed: usize,
    exploded_mine: Option<(usize, usize)>,
}

impl View for MinesweeperBoard {
    type V = BoardView;

    closed spec fn view(&self) -> BoardView {
        BoardView {
            width: self.width as nat,
            height: self.height as nat,
            mine_count: self.mine_count as nat,
            cells: self.cells@.map_values(|col: Vec<CellData>| col@),
            first_click: self.first_click,
            flags_placed: self.flags_placed as nat,
            exploded: self.exploded_mine,
        }
    }
}

impl MinesweeperBoard {
    /// The board's grid has the declared dimensions.
    pub open spec fn wf(&self) -> bool {
        self@.wf()
    }

    /// The shape of the grid, stated on the vectors themselves.
    closed spec fn shape_ok(&self) -> bool {
        &&& self.cells@.len() == self.width
        &&& forall|i: int| 0 <= i < self.width ==> (#[trigger] self.cells@[i]).len() == self.height
    }

    proof fn lemma_shape(&self)
        ensures
            self.wf() <==> self.shape_ok(),
            self@.width == self.width,
            self@.height == self.height,
            forall|i: int, j: int|
                0 <= i < self.cells@.len() && 0 <= j < self.cells@[i].len() ==> #[trigger] self@.cell(i, j)
                    == self.cells@[i]@[j],
    {
        if self.wf() {
            assert forall|i: int| 0 <= i < self.width implies (#[trigger] self.cells@[i]).len() == self.height by {
                assert(self@.cells[i].len() == self.height);
            }
        }
        if self.shape_ok() {
            assert forall|i: int| 0 <= i < self@.width implies #[trigger] self@.cells[i].len() == self@.height by {
                assert(self.cells@[i].len() == self.height);
            }
        }
    }

    /// A fresh board: every cell hidden, no mines yet, waiting for the first click.
    pub fn new(width: u16, height: u16, mine_count: usize) -> (b: Self)
        ensures
            b.wf(),
            b@.width == width,
            b@.height == height,
            b@.mine_count == mine_count,
            b@.first_click,
            b@.flags_placed == 0,
            b@.exploded is None,
            forall|x: int, y: int| b@.in_bounds(x, y) ==> b@.cell(x, y) == CellData::spec_hidden(),
    {
        let mut cells: Vec<Vec<CellData>> = Vec::with_capacity(width as usize);
        let mut x: u16 = 0;
        while x < width
            invariant
                x <= width,
                cells@.len() == x,
                forall|i: int| 0 <= i < x ==> #[trigger] cells@[i]@.len() == height,
                forall|i: int, j: int|
                    0 <= i < x && 0 <= j < height ==> #[trigger] cells@[i]@[j] == CellData::spec_hidden(),
            decreases width - x,
        {
            let mut column: Vec<CellData> = Vec::with_capacity(height as usize);
            let mut y: u16 = 0;
            while y < height
                invariant
                    y <= height,
                    column@.len() == y,
                    forall|j: int| 0 <= j < y ==> #[trigger] column@[j] == CellData::spec_hidden(),
                decreases height - y,
            {
                column.push(CellData::hidden());
                y = y + 1;
            }
            cells.push(column);
            x = x + 1;
        }
        let b = MinesweeperBoard {
            width,
            height,
            mine_count,
            cells,
            first_click: true,
            flags_placed: 0,
            exploded_mine: None,
        };
        assert forall|x: int, y: int| b@.in_bounds(x, y) implies b@.cell(x, y) == CellData::spec_hidden() by {
            assert(b.cells@[x]@[y] == CellData::spec_hidden());
        }
        b
    }

    pub fn width(&self) -> (w: usize)
        ensures
            w == self@.width,
    {
        self.width as usize
    }

    pub fn height(&self) -> (h: usize)
        ensures
            h == self@.height,
    {
        self.height as usize
    }

    pub fn mine_count(&self) -> (n: usize)
        ensures
            n == self@.mine_count,
    {
        self.mine_count
    }

    pub fn flags_placed(&self) -> (n: usize)
        ensures
            n == self@.flags_placed,
    {
        self.flags_placed
    }

    pub fn is_revealed(&self, x: usize, y: usize) -> (r: bool)
        requires
            self.wf(),
            self@.in_bounds(x as int, y as int),
        ensures
            r == self@.cell(x as int, y as int).revealed,
    {
        proof {
            self.lemma_shape();
        }
        self.cells[x][y].revealed
    }

    pub fn is_flagged(&self, x: usize, y: usize) -> (r: bool)
        requires
            self.wf(),
            self@.in_bounds(x as int, y as int),
        ensures
            r == self@.cell(x as int, y as int).flagged,
    {
        proof {
            self.lemma_shape();
        }
        self.cells[x][y].flagged
    }

    /// Everything the board records about the cell at `(x, y)`.
    pub fn cell(&self, x: usize, y: usize) -> (c: CellData)
        requires
            self.wf(),
            self@.in_bounds(x as int, y as int),
        ensures
            c == self@.cell(x as int, y as int),
    {
        proof {
            self.lemma_shape();
        }
        self.cells[x][y]
    }

    /// Overwrites what the board records about the cell at `(x, y)`.
    pub fn set_cell(&mut self, x: usize, y: usize, c: CellData)
        requires
            old(self).wf(),
            old(self)@.in_bounds(x as int, y as int),
        ensures
            final(self).wf(),
            old(self)@.same_settings(final(self)@),
            forall|a: int, b: int|
                old(self)@.in_bounds(a, b) ==> #[trigger] final(self)@.cell(a, b) == if a == x && b == y {
                    c
                } else {
                    old(self)@.cell(a, b)
                },
    {
        proof {
            self.lemma_shape();
        }
        self.cells[x][y] = c;
        proof {
            self.lemma_shape();
        }
    }

    /// Whether mines are still to be placed at the next reveal.
    pub fn first_click(&self) -> (r: bool)
        ensures
            r == self@.first_click,
    {
        self.first_click
    }

    pub fn set_first_click(&mut self, first_click: bool)
        requires
            old(self).wf(),
        ensures
            final(self).wf(),
            final(self)@ == (BoardView { first_click, ..old(self)@ }),
    {
        self.first_click = first_click;
    }

    pub fn set_flags_placed(&mut self, flags_placed: usize)
        requires
            old(self).wf(),
        ensures
            final(self).wf(),
            final(self)@ == (BoardView { flags_placed: flags_placed as nat, ..old(self)@ }),
    {
        self.flags_placed = flags_placed;
    }

    /// Reveals `(x, y)` and, from every revealed cell with no mine around
    /// it, its neighbours in turn; flagged and already revealed cells stop
    /// the fill.
    pub fn flood_fill(&mut self, x: usize, y: usize)
        requires
            old(self).wf(),
            old(self)@.in_bounds(x as int, y as int),
        ensures
            final(self).wf(),
            flood_post(old(self)@, final(self)@, x as int, y as int),
    {
        let ghost orig = self@;
        proof {
            let p = seq![(x as int, y as int)];
            if !orig.cell(x as int, y as int).revealed && !orig.cell(x as int, y as int).flagged {
                assert(fill_path(orig, p));
            }
        }
        self.fill_from(x, y, Ghost(orig), Ghost(x as int), Ghost(y as int));
        proof {
            let post = self@;
            assert forall|a: int, b: int| orig.in_bounds(a, b) implies #[trigger] post.cell(a, b) == (CellData {
                revealed: orig.cell(a, b).revealed || fill_reaches(orig, x as int, y as int, a, b),
                ..orig.cell(a, b)
            }) by {
                if fill_reaches(orig, x as int, y as int, a, b) {
                    let p = choose|p: Seq<(int, int)>|
                        #[trigger] fill_path(orig, p) && p[0] == (x as int, y as int) && p.last() == (a, b);
                    lemma_fill_path_revealed(orig, post, p, p.len() - 1);
                }
            }
        }
    }

    /// One step of the flood fill that started on `orig` at `(sx, sy)`.
    fn fill_from(
        &mut self,
        x: usize,
        y: usize,
        Ghost(orig): Ghost<BoardView>,
        Ghost(sx): Ghost<int>,
        Ghost(sy): Ghost<int>,
    )
        requires
            old(self).wf(),
            orig.wf(),
            orig.same_settings(old(self)@),
            orig.only_reveals(old(self)@),
            forall|a: int, b: int|
                orig.in_bounds(a, b) && (#[trigger] old(self)@.cell(a, b)).revealed && !orig.cell(
                    a,
                    b,
                ).revealed ==> fill_reaches(orig, sx, sy, a, b),
            old(self)@.in_bounds(x as int, y as int),
            !old(self)@.cell(x as int, y as int).revealed && !old(self)@.cell(x as int, y as int).flagged
                ==> fill_reaches(orig, sx, sy, x as int, y as int),
        ensures
            final(self).wf(),
            old(self)@.same_settings(final(self)@),
            old(self)@.only_reveals(final(self)@),
            forall|a: int, b: int|
                orig.in_bounds(a, b) && (#[trigger] final(self)@.cell(a, b)).revealed && !orig.cell(
                    a,
                    b,
                ).revealed ==> fill_reaches(orig, sx, sy, a, b),
            final(self)@.cell(x as int, y as int).revealed || final(self)@.cell(x as int, y as int).flagged,
            forall|a: int, b: int|
                orig.in_bounds(a, b) && fill_settled(orig, old(self)@, a, b) ==> #[trigger] fill_settled(
                    orig,
                    final(self)@,
                    a,
                    b,
                ),
        decreases old(self)@.hidden_count(),
    {
        proof {
            self.lemma_shape();
        }
        if self.cells[x][y].revealed || self.cells[x][y].flagged {
            return;
        }
        let ghost start = self@;
        self.cells[x][y].revealed = true;
        let ghost s1 = self@;
        proof {
            self.lemma_shape();
            assert(start.only_reveals(s1));
            lemma_hidden_count_mono(start, s1, x as int, y as int);
            assert forall|a: int, b: int|
                orig.in_bounds(a, b) && (#[trigger] s1.cell(a, b)).revealed && !orig.cell(a, b).revealed
                    implies fill_reaches(orig, sx, sy, a, b) by {
                if !(a == x && b == y) {
                    let _ = start.cell(a, b);
                }
            }
            assert forall|a: int, b: int|
                orig.in_bounds(a, b) && fill_settled(orig, start, a, b) && !(a == x && b == y)
                    implies #[trigger] fill_settled(orig, s1, a, b) by {
                lemma_settled_grows(orig, start, s1, a, b);
            }
        }
        if self.cells[x][y].neighbor_mines == 0 {
            let neighbors = self.neighbor_positions(x, y);
            proof {
                lemma_neighbor_seq(s1.width as int, s1.height as int, x as int, y as int);
            }
            let mut i: usize = 0;
            while i < neighbors.len()
                invariant
                    0 <= i <= neighbors@.len(),
                    neighbors@ == s1.neighbors(x as int, y as int),
                    self.wf(),
                    orig.wf(),
                    start.same_settings(self@),
                    s1.same_settings(self@),
                    start.same_settings(s1),
                    orig.same_settings(start),
                    orig.only_reveals(start),
                    start.only_reveals(s1),
                    s1.only_reveals(self@),
                    s1.wf(),
                    start.wf(),
                    s1.cell(x as int, y as int).revealed,
                    s1.cell(x as int, y as int).neighbor_mines == 0,
                    !start.cell(x as int, y as int).revealed,
                    !start.cell(x as int, y as int).flagged,
                    start.in_bounds(x as int, y as int),
                    fill_reaches(orig, sx, sy, x as int, y as int),
                    self@.hidden_count() < start.hidden_count(),
                    start == old(self)@,
                    forall|a: int, b: int|
                        orig.in_bounds(a, b) && (#[trigger] self@.cell(a, b)).revealed && !orig.cell(
                            a,
                            b,
                        ).revealed ==> fill_reaches(orig, sx, sy, a, b),
                    forall|a: int, b: int|
                        orig.in_bounds(a, b) && fill_settled(orig, start, a, b) && !(a == x && b == y)
                            ==> #[trigger] fill_settled(orig, self@, a, b),
                    forall|k: int|
                        0 <= k < i ==> (#[trigger] self@.cell(neighbors@[k].0 as int, neighbors@[k].1 as int)).revealed
                            || self@.cell(neighbors@[k].0 as int, neighbors@[k].1 as int).flagged,
                    forall|k: int|
                        0 <= k < neighbors@.len() ==> {
                            let p = #[trigger] neighbors@[k];
                            &&& 0 <= p.0 < s1.width
                            &&& 0 <= p.1 < s1.height
                            &&& adjacent(x as int, y as int, p.0 as int, p.1 as int)
                        },
                decreases neighbors@.len() - i,
            {
                let (nx, ny) = neighbors[i];
                let ghost cur = self@;
                proof {
                    assert(neighbors@[i as int] == (nx, ny));
                    if !cur.cell(nx as int, ny as int).revealed && !cur.cell(nx as int, ny as int).flagged {
                        let p = choose|p: Seq<(int, int)>|
                            #[trigger] fill_path(orig, p) && p[0] == (sx, sy) && p.last() == (x as int, y as int);
                        let q = p.push((nx as int, ny as int));
                        assert(orig.only_reveals(cur)) by {
                            lemma_only_reveals_trans(orig, start, s1);
                            lemma_only_reveals_trans(orig, s1, cur);
                        }
                        assert(fill_path(orig, q)) by {
                            assert forall|j: int| 0 <= j < q.len() implies {
                                &&& orig.in_bounds((#[trigger] q[j]).0, q[j].1)
                                &&& !orig.cell(q[j].0, q[j].1).revealed
                                &&& !orig.cell(q[j].0, q[j].1).flagged
                            } by {
                                if j < p.len() {
                                    assert(q[j] == p[j]);
                                }
                            }
                            assert forall|j: int| 0 <= j < q.len() - 1 implies {
                                &&& orig.cell((#[trigger] q[j]).0, q[j].1).neighbor_mines == 0
                                &&& adjacent(q[j].0, q[j].1, q[j + 1].0, q[j + 1].1)
                            } by {
                                assert(q[j] == p[j]);
                                if j < p.len() - 1 {
                                    assert(q[j + 1] == p[j + 1]);
                                }
                            }
                        }
                        assert(q[0] == (sx, sy));
                    }
                    lemma_only_reveals_trans(start, s1, cur);
                    assert(cur.hidden_count() < old(self)@.hidden_count());
                }
                self.fill_from(nx, ny, Ghost(orig), Ghost(sx), Ghost(sy));
                proof {
                    let after = self@;
                    lemma_only_reveals_trans(s1, cur, after);
                    lemma_hidden_count_mono(cur, after, 0, 0);
                    assert forall|k: int|
                        0 <= k <= i implies (#[trigger] after.cell(neighbors@[k].0 as int, neighbors@[k].1 as int)).revealed
                            || after.cell(neighbors@[k].0 as int, neighbors@[k].1 as int).flagged by {
                        let p = neighbors@[k];
                        assert(cur.in_bounds(p.0 as int, p.1 as int));
                    }
                }
                i = i + 1;
            }
            proof {
                let fin = self@;
                assert forall|a: int, b: int|
                    fin.in_bounds(a, b) && adjacent(x as int, y as int, a, b) implies (#[trigger] fin.cell(
                        a,
                        b,
                    )).revealed || fin.cell(a, b).flagged by {
                    assert(neighbors@.contains((a as usize, b as usize)));
                    let k = choose|k: int| 0 <= k < neighbors@.len() && neighbors@[k] == (a as usize, b as usize);
                    assert(fin.cell(neighbors@[k].0 as int, neighbors@[k].1 as int).revealed
                        || fin.cell(neighbors@[k].0 as int, neighbors@[k].1 as int).flagged);
                }
                assert(fill_settled(orig, fin, x as int, y as int));
                lemma_only_reveals_trans(start, s1, fin);
            }
        } else {
            proof {
                assert(fill_settled(orig, s1, x as int, y as int));
            }
        }
    }

    /// What the player sees on `(x, y)`.
    pub fn cell_snapshot(&self, x: usize, y: usize) -> (s: CellSnapshot)
        requires
            self.wf(),
            self@.in_bounds(x as int, y as int),
        ensures
            s.state == snapshot_state(self@, x as int, y as int),
    {
        proof {
            self.lemma_shape();
        }
        let cell = self.cells[x][y];
        let exploded_here = match self.exploded_mine {
            Some((ex, ey)) => ex == x && ey == y,
            None => false,
        };
        let state = if exploded_here {
            CellState::ExplodedMine
        } else if cell.flagged && !cell.revealed {
            CellState::Flagged
        } else if cell.questioned && !cell.revealed {
            CellState::Questioned
        } else if cell.revealed && cell.mine {
            CellState::RevealedMine
        } else if cell.revealed && cell.neighbor_mines > 0 {
            CellState::RevealedNumber(cell.neighbor_mines)
        } else if cell.revealed {
            CellState::RevealedEmpty
        } else {
            CellState::Hidden
        };
        CellSnapshot { state }
    }

    /// Number of mines around `(x, y)`.
    pub fn count_mine_neighbors(&self, x: u16, y: u16) -> (n: u8)
        requires
            self.wf(),
        ensures
            n == self@.mine_neighbors(x as int, y as int),
    {
        proof {
            self.lemma_shape();
        }
        let neighbors = self.neighbor_positions(x as usize, y as usize);
        proof {
            lemma_neighbor_seq(self@.width as int, self@.height as int, x as int, y as int);
        }
        let mut count: u8 = 0;
        let mut i: usize = 0;
        while i < neighbors.len()
            invariant
                self.wf(),
                self.shape_ok(),
                i <= neighbors@.len(),
                neighbors@ == self@.neighbors(x as int, y as int),
                neighbors@.len() <= 8,
                count <= i,
                count == self@.mines_among(neighbors@.take(i as int)),
                forall|k: int|
                    0 <= k < neighbors@.len() ==> self@.in_bounds(
                        (#[trigger] neighbors@[k]).0 as int,
                        neighbors@[k].1 as int,
                    ),
            decreases neighbors@.len() - i,
        {
            let (nx, ny) = neighbors[i];
            proof {
                self.lemma_shape();
                assert(neighbors@.take(i + 1).drop_last() =~= neighbors@.take(i as int));
                assert(neighbors@.take(i + 1).last() == neighbors@[i as int]);
                assert(self@.in_bounds(nx as int, ny as int));
            }
            if self.cells[nx][ny].mine {
                count = count + 1;
            }
            i = i + 1;
        }
        proof {
            assert(neighbors@.take(neighbors@.len() as int) =~= neighbors@);
        }
        count
    }

    /// Number of flags around `(x, y)`.
    pub fn adjacent_flag_count(&self, x: usize, y: usize) -> (n: u8)
        requires
            self.wf(),
            x < i32::MAX,
            y < i32::MAX,
        ensures
            n == self@.flag_neighbors(x as int, y as int),
    {
        proof {
            self.lemma_shape();
        }
        let neighbors = self.neighbor_positions(x, y);
        proof {
            lemma_neighbor_seq(self@.width as int, self@.height as int, x as int, y as int);
        }
        let mut count: u8 = 0;
        let mut i: usize = 0;
        while i < neighbors.len()
            invariant
                self.wf(),
                self.shape_ok(),
                i <= neighbors@.len(),
                neighbors@ == self@.neighbors(x as int, y as int),
                neighbors@.len() <= 8,
                count <= i,
                count == self@.flags_among(neighbors@.take(i as int)),
                forall|k: int|
                    0 <= k < neighbors@.len() ==> self@.in_bounds(
                        (#[trigger] neighbors@[k]).0 as int,
                        neighbors@[k].1 as int,
                    ),
            decreases neighbors@.len() - i,
        {
            let (nx, ny) = neighbors[i];
            proof {
                self.lemma_shape();
                assert(neighbors@.take(i + 1).drop_last() =~= neighbors@.take(i as int));
                assert(neighbors@.take(i + 1).last() == neighbors@[i as int]);
                assert(self@.in_bounds(nx as int, ny as int));
            }
            if self.cells[nx][ny].flagged {
                count = count + 1;
            }
            i = i + 1;
        }
        proof {
            assert(neighbors@.take(neighbors@.len() as int) =~= neighbors@);
        }
        count
    }

    /// The neighbours of `(x, y)` that are neither revealed nor flagged, in
    /// the order of `neighbor_positions`.
    pub fn hidden_unflagged_neighbors(&self, x: usize, y: usize) -> (cells: Vec<(usize, usize)>)
        requires
            self.wf(),
            x < i32::MAX,
            y < i32::MAX,
        ensures
            cells@ == self@.hidden_unflagged_neighbors(x as int, y as int),
    {
        proof {
            self.lemma_shape();
        }
        let neighbors = self.neighbor_positions(x, y);
        proof {
            lemma_neighbor_seq(self@.width as int, self@.height as int, x as int, y as int);
        }
        let mut cells: Vec<(usize, usize)> = Vec::new();
        let mut i: usize = 0;
        while i < neighbors.len()
            invariant
                self.wf(),
                self.shape_ok(),
                i <= neighbors@.len(),
                neighbors@ == self@.neighbors(x as int, y as int),
                cells@ == self@.hidden_unflagged_among(neighbors@.take(i as int)),
                forall|k: int|
                    0 <= k < neighbors@.len() ==> self@.in_bounds(
                        (#[trigger] neighbors@[k]).0 as int,
                        neighbors@[k].1 as int,
                    ),
            decreases neighbors@.len() - i,
        {
            let (nx, ny) = neighbors[i];
            proof {
                self.lemma_shape();
                assert(neighbors@.take(i + 1).drop_last() =~= neighbors@.take(i as int));
                assert(neighbors@.take(i + 1).last() == neighbors@[i as int]);
                assert(self@.in_bounds(nx as int, ny as int));
            }
            if !self.cells[nx][ny].revealed && !self.cells[nx][ny].flagged {
                cells.push((nx, ny));
            }
            i = i + 1;
        }
        proof {
            assert(neighbors@.take(neighbors@.len() as int) =~= neighbors@);
        }
        cells
    }

    /// The hidden unflagged neighbours of a revealed number, which a chord
    /// there would reveal; nothing for any other cell.
    pub fn chord_hint_cells(&self, x: usize, y: usize) -> (cells: Vec<(usize, usize)>)
        requires
            self.wf(),
            self@.in_bounds(x as int, y as int),
        ensures
            cells@ == chord_hints(self@, x as int, y as int),
    {
        proof {
            self.lemma_shape();
        }
        let cell = self.cells[x][y];
        if !cell.revealed || cell.mine || cell.neighbor_mines == 0 {
            return Vec::new();
        }
        self.hidden_unflagged_neighbors(x, y)
    }

    /// The cells a chord on `(x, y)` reveals: the hint cells, once the number
    /// of flags around the cell equals its number.
    pub fn chord_reveal_candidates(&self, x: usize, y: usize) -> (cells: Vec<(usize, usize)>)
        requires
            self.wf(),
            self@.in_bounds(x as int, y as int),
        ensures
            cells@ == chord_candidates(self@, x as int, y as int),
    {
        proof {
            self.lemma_shape();
        }
        let cell = self.cells[x][y];
        if !cell.revealed || cell.mine || cell.neighbor_mines == 0 {
            return Vec::new();
        }
        if self.adjacent_flag_count(x, y) != cell.neighbor_mines {
            return Vec::new();
        }
        self.hidden_unflagged_neighbors(x, y)
    }

    /// Shows every mine.
    pub fn reveal_all_mines(&mut self)
        requires
            old(self).wf(),
        ensures
            final(self).wf(),
            mines_revealed(old(self)@, final(self)@),
    {
        proof {
            self.lemma_shape();
        }
        let ghost pre = self@;
        let w = self.width as usize;
        let h = self.height as usize;
        let mut x: usize = 0;
        while x < w
            invariant
                w == pre.width,
                h == pre.height,
                x <= w,
                self.wf(),
                self.shape_ok(),
                pre.same_settings(self@),
                forall|a: int, b: int|
                    pre.in_bounds(a, b) ==> #[trigger] self@.cell(a, b) == if a < x {
                        CellData { revealed: pre.cell(a, b).revealed || pre.cell(a, b).mine, ..pre.cell(a, b) }
                    } else {
                        pre.cell(a, b)
                    },
            decreases w - x,
        {
            let mut y: usize = 0;
            while y < h
                invariant
                    w == pre.width,
                    h == pre.height,
                    x < w,
                    y <= h,
                    self.wf(),
                    self.shape_ok(),
                    pre.same_settings(self@),
                    forall|a: int, b: int|
                        pre.in_bounds(a, b) ==> #[trigger] self@.cell(a, b) == if a < x || (a == x && b < y) {
                            CellData { revealed: pre.cell(a, b).revealed || pre.cell(a, b).mine, ..pre.cell(a, b) }
                        } else {
                            pre.cell(a, b)
                        },
                decreases h - y,
            {
                proof {
                    self.lemma_shape();
                }
                let ghost before = self@;
                let cell = self.cells[x][y];
                if cell.mine {
                    self.set_cell(x, y, CellData { revealed: true, ..cell });
                }
                proof {
                    self.lemma_shape();
                    assert forall|a: int, b: int| pre.in_bounds(a, b) implies #[trigger] self@.cell(a, b) == if a < x
                        || (a == x && b < y + 1) {
                        CellData { revealed: pre.cell(a, b).revealed || pre.cell(a, b).mine, ..pre.cell(a, b) }
                    } else {
                        pre.cell(a, b)
                    } by {
                        let _ = before.cell(a, b);
                        if a == x && b == y {
                            assert(cell == pre.cell(a, b));
                        }
                    }
                }
                y = y + 1;
            }
            x = x + 1;
        }
    }

    /// Reveals `(x, y)`: a flagged or already revealed cell is left alone, a
    /// mine explodes and shows every mine, any other cell starts a flood
    /// fill. Returns whether a mine was hit.
    pub fn reveal_cell(&mut self, x: usize, y: usize) -> (hit: bool)
        requires
            old(self).wf(),
            old(self)@.in_bounds(x as int, y as int),
        ensures
            final(self).wf(),
            reveal_post(old(self)@, final(self)@, x as int, y as int, hit),
    {
        proof {
            self.lemma_shape();
        }
        if self.cells[x][y].flagged || self.cells[x][y].revealed {
            return false;
        }
        if self.cells[x][y].mine {
            self.exploded_mine = Some((x, y));
            self.reveal_all_mines();
            return true;
        }
        self.flood_fill(x, y);
        false
    }

    /// Cycles the mark on a hidden cell: none, flag, question mark, none.
    /// Revealed cells keep no mark.
    pub fn toggle_flag(&mut self, x: usize, y: usize)
        requires
            old(self).wf(),
            old(self)@.in_bounds(x as int, y as int),
            !old(self)@.cell(x as int, y as int).revealed && !old(self)@.cell(x as int, y as int).flagged
                && !old(self)@.cell(x as int, y as int).questioned ==> old(self)@.flags_placed < usize::MAX,
        ensures
            final(self).wf(),
            toggle_post(old(self)@, final(self)@, x as int, y as int),
    {
        proof {
            self.lemma_shape();
        }
        if self.cells[x][y].revealed {
            return;
        }
        if self.cells[x][y].flagged {
            self.cells[x][y].flagged = false;
            self.cells[x][y].questioned = true;
            self.flags_placed = self.flags_placed.saturating_sub(1);
        } else if self.cells[x][y].questioned {
            self.cells[x][y].questioned = false;
        } else {
            self.cells[x][y].flagged = true;
            self.cells[x][y].questioned = false;
            self.flags_placed = self.flags_placed + 1;
        }
        proof {
            self.lemma_shape();
        }
    }

    /// Whether every cell without a mine has been revealed.
    pub fn check_win(&self) -> (won: bool)
        requires
            self.wf(),
        ensures
            won == all_safe_revealed(self@),
    {
        proof {
            self.lemma_shape();
        }
        let w = self.width as usize;
        let h = self.height as usize;
        let mut x: usize = 0;
        while x < w
            invariant
                self.wf(),
                self.shape_ok(),
                w == self@.width,
                h == self@.height,
                x <= w,
                forall|a: int, b: int|
                    0 <= a < x && 0 <= b < h && !(#[trigger] self@.cell(a, b)).mine ==> self@.cell(a, b).revealed,
            decreases w - x,
        {
            let mut y: usize = 0;
            while y < h
                invariant
                    self.wf(),
                    self.shape_ok(),
                    w == self@.width,
                    h == self@.height,
                    x < w,
                    y <= h,
                    forall|a: int, b: int|
                        (0 <= a < x && 0 <= b < h || a == x && 0 <= b < y) && !(#[trigger] self@.cell(a, b)).mine
                            ==> self@.cell(a, b).revealed,
                decreases h - y,
            {
                proof {
                    self.lemma_shape();
                }
                if !self.cells[x][y].mine && !self.cells[x][y].revealed {
                    proof {
                        assert(!self@.cell(x as int, y as int).mine && !self@.cell(x as int, y as int).revealed);
                    }
                    return false;
                }
                y = y + 1;
            }
            x = x + 1;
        }
        true
    }

    /// Marks the end of a won game: every mine gets a flag and loses any
    /// question mark, and the flag counter shows the number of mines.
    pub fn finalize_win(&mut self)
        requires
            old(self).wf(),
        ensures
            final(self).wf(),
            win_post(old(self)@, final(self)@),
    {
        proof {
            self.lemma_shape();
        }
        let ghost pre = self@;
        let w = self.width as usize;
        let h = self.height as usize;
        let mut x: usize = 0;
        while x < w
            invariant
                w == pre.width,
                h == pre.height,
                x <= w,
                self.wf(),
                self.shape_ok(),
                pre.same_settings(self@),
                forall|a: int, b: int|
                    pre.in_bounds(a, b) ==> #[trigger] self@.cell(a, b) == if a < x && pre.cell(a, b).mine {
                        CellData { flagged: true, questioned: false, ..pre.cell(a, b) }
                    } else {
                        pre.cell(a, b)
                    },
            decreases w - x,
        {
            let mut y: usize = 0;
            while y < h
                invariant
                    w == pre.width,
                    h == pre.height,
                    x < w,
                    y <= h,
                    self.wf(),
                    self.shape_ok(),
                    pre.same_settings(self@),
                    forall|a: int, b: int|
                        pre.in_bounds(a, b) ==> #[trigger] self@.cell(a, b) == if (a < x || (a == x && b < y))
                            && pre.cell(a, b).mine {
                            CellData { flagged: true, questioned: false, ..pre.cell(a, b) }
                        } else {
                            pre.cell(a, b)
                        },
                decreases h - y,
            {
                proof {
                    self.lemma_shape();
                }
                let ghost before = self@;
                let cell = self.cells[x][y];
                if cell.mine {
                    self.set_cell(x, y, CellData { flagged: true, questioned: false, ..cell });
                }
                proof {
                    self.lemma_shape();
                    assert forall|a: int, b: int| pre.in_bounds(a, b) implies #[trigger] self@.cell(a, b) == if (a
                        < x || (a == x && b < y + 1)) && pre.cell(a, b).mine {
                        CellData { flagged: true, questioned: false, ..pre.cell(a, b) }
                    } else {
                        pre.cell(a, b)
                    } by {
                        let _ = before.cell(a, b);
                        if a == x && b == y {
                            assert(cell == pre.cell(a, b));
                        }
                    }
                }
                y = y + 1;
            }
            x = x + 1;
        }
        let ghost before = self@;
        self.flags_placed = self.mine_count;
        proof {
            self.lemma_shape();
            assert(self@.cells == before.cells);
            assert forall|a: int, b: int| pre.in_bounds(a, b) implies #[trigger] self@.cell(a, b) == if pre.cell(
                a,
                b,
            ).mine {
                CellData { flagged: true, questioned: false, ..pre.cell(a, b) }
            } else {
                pre.cell(a, b)
            } by {
                let _ = before.cell(a, b);
            }
        }
    }

    /// Chords on `(x, y)`: reveals, one after another, the cells of
    /// `chord_reveal_candidates`. Returns whether any of them hit a mine.
    pub fn chord(&mut self, x: usize, y: usize) -> (hit: bool)
        requires
            old(self).wf(),
            old(self)@.in_bounds(x as int, y as int),
        ensures
            final(self).wf(),
            reveal_all_post(old(self)@, final(self)@, chord_candidates(old(self)@, x as int, y as int), hit),
    {
        let ghost pre = self@;
        let candidates = self.chord_reveal_candidates(x, y);
        proof {
            lemma_neighbor_seq(pre.width as int, pre.height as int, x as int, y as int);
            pre.lemma_hidden_unflagged_among(pre.neighbors(x as int, y as int));
            assert forall|k: int| 0 <= k < candidates@.len() implies pre.in_bounds(
                (#[trigger] candidates@[k]).0 as int,
                candidates@[k].1 as int,
            ) by {
                let p = candidates@[k];
                let j = choose|j: int|
                    0 <= j < pre.neighbors(x as int, y as int).len() && pre.neighbors(x as int, y as int)[j] == p;
            }
        }
        let mut hit_mine = false;
        let ghost mut states: Seq<BoardView> = seq![pre];
        let ghost mut hits: Seq<bool> = seq![];
        let mut i: usize = 0;
        while i < candidates.len()
            invariant
                i <= candidates@.len(),
                candidates@ == chord_candidates(pre, x as int, y as int),
                forall|k: int|
                    0 <= k < candidates@.len() ==> pre.in_bounds(
                        (#[trigger] candidates@[k]).0 as int,
                        candidates@[k].1 as int,
                    ),
                self.wf(),
                self@.width == pre.width,
                self@.height == pre.height,
                reveal_run(states, hits, candidates@.take(i as int)),
                states[0] == pre,
                states.last() == self@,
                hit_mine == hits.contains(true),
            decreases candidates@.len() - i,
        {
            let (nx, ny) = candidates[i];
            let ghost before = self@;
            proof {
                assert(candidates@[i as int] == (nx, ny));
            }
            let r = self.reveal_cell(nx, ny);
            if r {
                hit_mine = true;
            }
            proof {
                lemma_reveal_keeps_shape(before, self@, nx as int, ny as int, r);
                let old_states = states;
                let old_hits = hits;
                states = states.push(self@);
                hits = hits.push(r);
                let cells = candidates@.take(i + 1);
                assert forall|j: int| 0 <= j < cells.len() implies reveal_post(
                    #[trigger] states[j],
                    states[j + 1],
                    cells[j].0 as int,
                    cells[j].1 as int,
                    hits[j],
                ) by {
                    if j < i {
                        assert(cells[j] == candidates@.take(i as int)[j]);
                        assert(states[j] == old_states[j] && states[j + 1] == old_states[j + 1]);
                        assert(reveal_post(
                            old_states[j],
                            old_states[j + 1],
                            candidates@.take(i as int)[j].0 as int,
                            candidates@.take(i as int)[j].1 as int,
                            old_hits[j],
                        ));
                    } else {
                        assert(states[j] == before);
                    }
                }
                assert(reveal_run(states, hits, cells));
                if r {
                    assert(hits[hits.len() - 1]);
                } else {
                    assert(hits =~= old_hits.push(false));
                    if hits.contains(true) {
                        let k = choose|k: int| 0 <= k < hits.len() && hits[k] == true;
                        assert(old_hits[k] == true);
                    }
                }
                if old_hits.contains(true) {
                    let k = choose|k: int| 0 <= k < old_hits.len() && old_hits[k] == true;
                    assert(hits[k] == true);
                }
            }
            i = i + 1;
        }
        proof {
            assert(candidates@.take(candidates@.len() as int) =~= candidates@);
        }
        hit_mine
    }

    /// Every cell where a mine may go when the first click is on `(sx, sy)`,
    /// column by column.
    fn mine_sites(&self, sx: u16, sy: u16) -> (sites: Vec<(usize, usize)>)
        requires
            self.wf(),
        ensures
            sites@ == site_seq(self@, sx, sy),
            site_list(self@, sites@, sx, sy),
            forall|a: int, b: int| mine_site(self@, a, b, sx, sy) ==> sites@.contains((a as usize, b as usize)),
    {
        proof {
            self.lemma_shape();
        }
        let w = self.width as usize;
        let h = self.height as usize;
        let mut sites: Vec<(usize, usize)> = Vec::new();
        let mut x: usize = 0;
        while x < w
            invariant
                self.wf(),
                self.shape_ok(),
                w == self@.width,
                h == self@.height,
                x <= w,
                sites@ == sites_before(self@, sx, sy, x as nat),
                site_list(self@, sites@, sx, sy),
                forall|i: int| 0 <= i < sites@.len() ==> (#[trigger] sites@[i]).0 < x,
                forall|a: int, b: int|
                    0 <= a < x && mine_site(self@, a, b, sx, sy) ==> sites@.contains((a as usize, b as usize)),
            decreases w - x,
        {
            let mut y: usize = 0;
            while y < h
                invariant
                    self.wf(),
                    self.shape_ok(),
                    w == self@.width,
                    h == self@.height,
                    x < w,
                    y <= h,
                    sites@ == sites_before(self@, sx, sy, x as nat) + column_sites(self@, sx, sy, x as int, y as nat),
                    site_list(self@, sites@, sx, sy),
                    forall|i: int|
                        0 <= i < sites@.len() ==> (#[trigger] sites@[i]).0 < x || (sites@[i].0 == x && sites@[i].1
                            < y),
                    forall|a: int, b: int|
                        (0 <= a < x || (a == x && b < y)) && mine_site(self@, a, b, sx, sy) ==> sites@.contains(
                            (a as usize, b as usize),
                        ),
                decreases h - y,
            {
                let xs = x as u32;
                let ys = y as u32;
                let near = xs + 1 >= sx as u32 && xs <= sx as u32 + 1 && ys + 1 >= sy as u32 && ys <= sy as u32 + 1;
                let ghost before_col = column_sites(self@, sx, sy, x as int, y as nat);
                if !self.cells[x][y].mine && !near {
                    let ghost old_sites = sites@;
                    sites.push((x, y));
                    proof {
                        assert(sites@ =~= sites_before(self@, sx, sy, x as nat) + before_col.push((x, y)));
                        assert forall|i: int, j: int|
                            0 <= i < sites@.len() && 0 <= j < sites@.len() && i != j implies sites@[i] != sites@[j] by {
                            if i < old_sites.len() && j < old_sites.len() {
                                assert(old_sites[i] != old_sites[j]);
                            } else if i < old_sites.len() {
                                assert(old_sites[i].0 < x || old_sites[i].1 < y);
                            } else {
                                assert(old_sites[j].0 < x || old_sites[j].1 < y);
                            }
                        }
                        assert forall|a: int, b: int|
                            (0 <= a < x || (a == x && b < y + 1)) && mine_site(self@, a, b, sx, sy) implies sites@.contains(
                                (a as usize, b as usize),
                            ) by {
                            if a == x && b == y {
                                assert(sites@[sites@.len() - 1] == (a as usize, b as usize));
                            } else {
                                let k = choose|k: int| 0 <= k < old_sites.len() && old_sites[k] == (a as usize, b as usize);
                                assert(sites@[k] == old_sites[k]);
                            }
                        }
                    }
                }
                y = y + 1;
            }
            proof {
                assert(sites_before(self@, sx, sy, (x + 1) as nat) == sites_before(self@, sx, sy, x as nat)
                    + column_sites(self@, sx, sy, x as int, h as nat));
            }
            x = x + 1;
        }
        sites
    }

    /// The largest number of mines that `place_mines` can place around a
    /// first click on `(safe_x, safe_y)`: the number of mine sites.
    pub fn mine_capacity(&self, safe_x: usize, safe_y: usize) -> (n: usize)
        requires
            self.wf(),
        ensures
            n == site_seq(self@, safe_x as u16, safe_y as u16).len(),
            room_for_mines(self@, safe_x as u16, safe_y as u16, n as nat),
            forall|s: Seq<(usize, usize)>| #[trigger] site_list(self@, s, safe_x as u16, safe_y as u16) ==> s.len() <= n,
    {
        let sites = self.mine_sites(safe_x as u16, safe_y as u16);
        proof {
            assert forall|s: Seq<(usize, usize)>| #[trigger] site_list(self@, s, safe_x as u16, safe_y as u16)
                implies s.len() <= sites@.len() by {
                lemma_sites_bound(self@, s, sites@, safe_x as u16, safe_y as u16);
            }
        }
        sites.len()
    }

    /// Sets the count of every cell without a mine to the number of mines
    /// around it.
    fn fill_neighbor_counts(&mut self)
        requires
            old(self).wf(),
        ensures
            final(self).wf(),
            old(self)@.same_settings(final(self)@),
            forall|x: int, y: int|
                old(self)@.in_bounds(x, y) ==> #[trigger] final(self)@.cell(x, y) == if old(self)@.cell(x, y).mine {
                    old(self)@.cell(x, y)
                } else {
                    CellData { neighbor_mines: old(self)@.mine_neighbors(x, y) as u8, ..old(self)@.cell(x, y) }
                },
            forall|x: int, y: int| old(self)@.in_bounds(x, y) ==> old(self)@.mine_neighbors(x, y) <= 8,
    {
        proof {
            self.lemma_shape();
        }
        let ghost pre = self@;
        let w = self.width;
        let h = self.height;
        let mut x: u16 = 0;
        while x < w
            invariant
                w == pre.width,
                h == pre.height,
                x <= w,
                pre.wf(),
                self.wf(),
                self.shape_ok(),
                pre.same_settings(self@),
                forall|a: int, b: int|
                    pre.in_bounds(a, b) ==> #[trigger] self@.cell(a, b) == if a < x && !pre.cell(a, b).mine {
                        CellData { neighbor_mines: pre.mine_neighbors(a, b) as u8, ..pre.cell(a, b) }
                    } else {
                        pre.cell(a, b)
                    },
            decreases w - x,
        {
            let mut y: u16 = 0;
            while y < h
                invariant
                    w == pre.width,
                    h == pre.height,
                    x < w,
                    y <= h,
                    pre.wf(),
                    self.wf(),
                    self.shape_ok(),
                    pre.same_settings(self@),
                    forall|a: int, b: int|
                        pre.in_bounds(a, b) ==> #[trigger] self@.cell(a, b) == if (a < x || (a == x && b < y))
                            && !pre.cell(a, b).mine {
                            CellData { neighbor_mines: pre.mine_neighbors(a, b) as u8, ..pre.cell(a, b) }
                        } else {
                            pre.cell(a, b)
                        },
                decreases h - y,
            {
                proof {
                    self.lemma_shape();
                }
                let ghost before = self@;
                let cell = self.cells[x as usize][y as usize];
                if !cell.mine {
                    let n = self.count_mine_neighbors(x, y);
                    proof {
                        lemma_neighbor_seq(pre.width as int, pre.height as int, x as int, y as int);
                        let s = pre.neighbors(x as int, y as int);
                        assert forall|i: int| 0 <= i < s.len() implies before.cell((#[trigger] s[i]).0 as int, s[i].1 as int).mine
                            == pre.cell(s[i].0 as int, s[i].1 as int).mine by {
                            let _ = before.cell(s[i].0 as int, s[i].1 as int);
                        }
                        before.lemma_mines_among_same(pre, s);
                    }
                    self.set_cell(x as usize, y as usize, CellData { neighbor_mines: n, ..cell });
                }
                proof {
                    self.lemma_shape();
                    assert forall|a: int, b: int| pre.in_bounds(a, b) implies #[trigger] self@.cell(a, b) == if (a
                        < x || (a == x && b < y + 1)) && !pre.cell(a, b).mine {
                        CellData { neighbor_mines: pre.mine_neighbors(a, b) as u8, ..pre.cell(a, b) }
                    } else {
                        pre.cell(a, b)
                    } by {
                        let _ = before.cell(a, b);
                        if a == x && b == y {
                            assert(cell == pre.cell(a, b));
                        }
                    }
                }
                y = y + 1;
            }
            x = x + 1;
        }
        proof {
            assert forall|a: int, b: int| pre.in_bounds(a, b) implies pre.mine_neighbors(a, b) <= 8 by {
                lemma_neighbor_seq(pre.width as int, pre.height as int, a, b);
                pre.lemma_mines_among_bound(pre.neighbors(a, b));
            }
        }
    }

    /// Places a mine on each site that `picks` chooses: the mine sites around
    /// a first click on `(safe_x, safe_y)` are listed column by column, and
    /// each pick in turn takes the site at its index out of the list, the
    /// last site taking its place. Then every cell without a mine gets the
    /// number of mines around it.
    pub fn place_mines_from(&mut self, safe_x: usize, safe_y: usize, picks: &Vec<usize>)
        requires
            old(self).wf(),
            picks@.len() == old(self)@.mine_count,
            picks_fit(site_seq(old(self)@, safe_x as u16, safe_y as u16).len(), picks@),
        ensures
            final(self).wf(),
            placement_post(old(self)@, final(self)@, safe_x as u16, safe_y as u16),
            mines_from_picks(old(self)@, final(self)@, safe_x as u16, safe_y as u16, picks@),
    {
        let ghost pre = self@;
        let sx = safe_x as u16;
        let sy = safe_y as u16;
        let mut sites = self.mine_sites(sx, sy);
        let ghost s0 = sites@;
        let mut placed: usize = 0;
        let ghost mut chosen: Seq<(usize, usize)> = seq![];
        while placed < self.mine_count
            invariant
                pre.wf(),
                self.wf(),
                pre.same_settings(self@),
                self.mine_count == pre.mine_count,
                placed <= pre.mine_count,
                chosen.len() == placed,
                chosen.no_duplicates(),
                picks@.len() == pre.mine_count,
                s0 == site_seq(pre, sx, sy),
                picks_fit(s0.len(), picks@),
                sites@ == sites_left(s0, picks@, placed as nat),
                chosen == sites_picked(s0, picks@, placed as nat),
                sites@.len() == s0.len() - placed,
                site_list(self@, sites@, sx, sy),
                forall|i: int|
                    0 <= i < chosen.len() ==> {
                        let p = #[trigger] chosen[i];
                        &&& pre.in_bounds(p.0 as int, p.1 as int)
                        &&& !pre.cell(p.0 as int, p.1 as int).mine
                        &&& !in_safe_zone(p.0 as int, p.1 as int, sx, sy)
                    },
                forall|a: int, b: int|
                    pre.in_bounds(a, b) ==> #[trigger] self@.cell(a, b) == (CellData {
                        mine: pre.cell(a, b).mine || chosen.contains((a as usize, b as usize)),
                        ..pre.cell(a, b)
                    }),
            decreases pre.mine_count - placed,
        {
            let ghost before = self@;
            let ghost old_sites = sites@;
            let k = picks[placed];
            proof {
                assert(picks@[placed as int] < s0.len() - placed);
            }
            let (x, y) = sites.swap_remove(k);
            proof {
                self.lemma_shape();
                assert(mine_site(before, x as int, y as int, sx, sy));
            }
            let cell = self.cells[x][y];
            self.set_cell(x, y, CellData { mine: true, ..cell });
            proof {
                let old_chosen = chosen;
                chosen = chosen.push((x, y));
                assert(!old_chosen.contains((x, y))) by {
                    if old_chosen.contains((x, y)) {
                        let i = choose|i: int| 0 <= i < old_chosen.len() && old_chosen[i] == (x, y);
                        let _ = before.cell(x as int, y as int);
                    }
                }
                assert forall|i: int, j: int|
                    0 <= i < chosen.len() && 0 <= j < chosen.len() && i != j implies chosen[i] != chosen[j] by {
                    if i < old_chosen.len() && j < old_chosen.len() {
                        assert(old_chosen[i] != old_chosen[j]);
                    } else if i < old_chosen.len() {
                        assert(old_chosen.contains(chosen[i]));
                    } else {
                        assert(old_chosen.contains(chosen[j]));
                    }
                }
                assert forall|i: int| 0 <= i < chosen.len() implies {
                    let p = #[trigger] chosen[i];
                    &&& pre.in_bounds(p.0 as int, p.1 as int)
                    &&& !pre.cell(p.0 as int, p.1 as int).mine
                    &&& !in_safe_zone(p.0 as int, p.1 as int, sx, sy)
                } by {
                    if i < old_chosen.len() {
                        assert(chosen[i] == old_chosen[i]);
                    } else {
                        let _ = before.cell(x as int, y as int);
                    }
                }
                assert forall|a: int, b: int| pre.in_bounds(a, b) implies #[trigger] self@.cell(a, b) == (CellData {
                    mine: pre.cell(a, b).mine || chosen.contains((a as usize, b as usize)),
                    ..pre.cell(a, b)
                }) by {
                    let _ = before.cell(a, b);
                    if a == x && b == y {
                        assert(chosen[chosen.len() - 1] == (x, y));
                    } else {
                        if chosen.contains((a as usize, b as usize)) {
                            let i = choose|i: int| 0 <= i < chosen.len() && chosen[i] == (a as usize, b as usize);
                            assert(old_chosen[i] == chosen[i]);
                        }
                        if old_chosen.contains((a as usize, b as usize)) {
                            let i = choose|i: int| 0 <= i < old_chosen.len() && old_chosen[i] == (a as usize, b as usize);
                            assert(chosen[i] == old_chosen[i]);
                        }
                    }
                }
                assert forall|i: int, j: int|
                    0 <= i < sites@.len() && 0 <= j < sites@.len() && i != j implies sites@[i] != sites@[j] by {
                    let oi = if i == k { old_sites.len() - 1 } else { i };
                    let oj = if j == k { old_sites.len() - 1 } else { j };
                    assert(sites@[i] == old_sites[oi] && sites@[j] == old_sites[oj]);
                }
                assert forall|i: int| 0 <= i < sites@.len() implies mine_site(
                    self@,
                    (#[trigger] sites@[i]).0 as int,
                    sites@[i].1 as int,
                    sx,
                    sy,
                ) by {
                    let oi = if i == k { old_sites.len() - 1 } else { i };
                    assert(sites@[i] == old_sites[oi]);
                    assert(oi != k);
                    assert(old_sites[oi] != old_sites[k as int]);
                    let p = sites@[i];
                    assert(mine_site(before, p.0 as int, p.1 as int, sx, sy));
                    let _ = before.cell(p.0 as int, p.1 as int);
                    let _ = self@.cell(p.0 as int, p.1 as int);
                }
            }
            proof {
                assert(sites@ == sites_left(s0, picks@, (placed + 1) as nat));
                assert(chosen == sites_picked(s0, picks@, (placed + 1) as nat));
            }
            placed = placed + 1;
        }
        let ghost mid = self@;
        self.fill_neighbor_counts();
        proof {
            let post = self@;
            assert forall|a: int, b: int| pre.in_bounds(a, b) implies (#[trigger] post.cell(a, b)).mine == mid.cell(a, b).mine by {
                let _ = mid.cell(a, b);
            }
            assert forall|a: int, b: int| pre.in_bounds(a, b) implies {
                let c0 = pre.cell(a, b);
                let c1 = #[trigger] post.cell(a, b);
                &&& c1.revealed == c0.revealed
                &&& c1.flagged == c0.flagged
                &&& c1.questioned == c0.questioned
                &&& c0.mine ==> c1.mine
                &&& c1.mine && !c0.mine ==> !in_safe_zone(a, b, sx, sy)
                &&& c1.mine ==> c1.neighbor_mines == c0.neighbor_mines
                &&& !c1.mine ==> c1.neighbor_mines == post.mine_neighbors(a, b)
            } by {
                let _ = mid.cell(a, b);
                if post.cell(a, b).mine && !pre.cell(a, b).mine {
                    let i = choose|i: int| 0 <= i < chosen.len() && chosen[i] == (a as usize, b as usize);
                    let _ = chosen[i];
                }
                lemma_neighbor_seq(pre.width as int, pre.height as int, a, b);
                let s = pre.neighbors(a, b);
                assert forall|i: int| 0 <= i < s.len() implies mid.cell((#[trigger] s[i]).0 as int, s[i].1 as int).mine
                    == post.cell(s[i].0 as int, s[i].1 as int).mine by {
                    let _ = post.cell(s[i].0 as int, s[i].1 as int);
                }
                mid.lemma_mines_among_same(post, s);
                mid.lemma_mines_among_bound(s);
                assert(post.cell(a, b).mine ==> post.cell(a, b).neighbor_mines == pre.cell(a, b).neighbor_mines);
                assert(!post.cell(a, b).mine ==> post.cell(a, b).neighbor_mines == post.mine_neighbors(a, b));
                assert(post.cell(a, b).mine && !pre.cell(a, b).mine ==> !in_safe_zone(a, b, sx, sy));
            }
            assert forall|a: int, b: int| pre.in_bounds(a, b) implies ((#[trigger] post.cell(a, b)).mine
                && !pre.cell(a, b).mine <==> chosen.contains((a as usize, b as usize))) by {
                let _ = mid.cell(a, b);
                if chosen.contains((a as usize, b as usize)) {
                    let i = choose|i: int| 0 <= i < chosen.len() && chosen[i] == (a as usize, b as usize);
                    let _ = chosen[i];
                }
            }
            assert forall|i: int| 0 <= i < chosen.len() implies pre.in_bounds(
                (#[trigger] chosen[i]).0 as int,
                chosen[i].1 as int,
            ) by {
            }
            assert(chosen == sites_picked(site_seq(pre, sx, sy), picks@, picks@.len()));
        }
    }

    /// Places `mine_count` mines at random outside the 3x3 block around
    /// `(safe_x, safe_y)`, then gives every cell without a mine the number of
    /// mines around it. The picks are drawn uniformly, each from the sites
    /// still free at its turn.
    pub fn place_mines(&mut self, safe_x: usize, safe_y: usize)
        requires
            old(self).wf(),
            room_for_mines(old(self)@, safe_x as u16, safe_y as u16, old(self)@.mine_count),
        ensures
            final(self).wf(),
            placed_by_picks(old(self)@, final(self)@, safe_x as u16, safe_y as u16),
    {
        let ghost pre = self@;
        let n = self.mine_capacity(safe_x, safe_y);
        proof {
            let s = choose|s: Seq<(usize, usize)>|
                #[trigger] site_list(pre, s, safe_x as u16, safe_y as u16) && s.len() >= pre.mine_count;
        }
        let mut rng = thread_rng();
        let mut picks: Vec<usize> = Vec::with_capacity(self.mine_count);
        let mut i: usize = 0;
        while i < self.mine_count
            invariant
                self@ == pre,
                n == site_seq(pre, safe_x as u16, safe_y as u16).len(),
                n >= pre.mine_count,
                self.mine_count == pre.mine_count,
                i <= pre.mine_count,
                picks@.len() == i,
                picks_fit(n as nat, picks@),
            decreases pre.mine_count - i,
        {
            let k = gen_below(&mut rng, n - i);
            let ghost old_picks = picks@;
            picks.push(k);
            proof {
                assert forall|j: int| 0 <= j < picks@.len() implies #[trigger] picks@[j] < n - j by {
                    if j < i {
                        assert(picks@[j] == old_picks[j]);
                    }
                }
            }
            i = i + 1;
        }
        self.place_mines_from(safe_x, safe_y, &picks);
        proof {
            assert(mines_from_picks(pre, self@, safe_x as u16, safe_y as u16, picks@));
        }
    }

    /// A click on `(x, y)`: ignored on a flagged or revealed cell; the first
    /// click places the mines away from it; then the cell is revealed.
    pub fn reveal_at(&mut self, x: usize, y: usize) -> (outcome: RevealOutcome)
        requires
            old(self).wf(),
            old(self)@.in_bounds(x as int, y as int),
            old(self)@.first_click && !old(self)@.cell(x as int, y as int).flagged && !old(self)@.cell(
                x as int,
                y as int,
            ).revealed ==> room_for_mines(old(self)@, x as u16, y as u16, old(self)@.mine_count),
        ensures
            final(self).wf(),
            reveal_at_post(old(self)@, final(self)@, x as int, y as int, outcome),
    {
        let ghost pre = self@;
        if self.is_flagged(x, y) || self.is_revealed(x, y) {
            return RevealOutcome::Ignored;
        }
        let ghost mut mid = self@;
        if self.first_click {
            self.first_click = false;
            proof {
                assert(self@.cells == pre.cells);
                let s = choose|s: Seq<(usize, usize)>| #[trigger] site_list(pre, s, x as u16, y as u16) && s.len() >= pre.mine_count;
                assert(site_list(self@, s, x as u16, y as u16));
            }
            self.place_mines(x, y);
            proof {
                mid = self@;
                let _ = mid.cell(x as int, y as int);
                assert(in_safe_zone(x as int, y as int, x as u16, y as u16));
            }
        }
        let hit = self.reveal_cell(x, y);
        proof {
            if pre.first_click {
                assert(reveal_post(mid, self@, x as int, y as int, pre.cell(x as int, y as int).mine));
            }
        }
        if hit {
            RevealOutcome::HitMine
        } else {
            RevealOutcome::Safe
        }
    }

    /// The in-bounds neighbours of `(x, y)`, column by column.
    pub fn neighbor_positions(&self, x: usize, y: usize) -> (neighbors: Vec<(usize, usize)>)
        requires
            self.wf(),
            x < i32::MAX,
            y < i32::MAX,
        ensures
            neighbors@ == self@.neighbors(x as int, y as int),
    {
        let mut neighbors: Vec<(usize, usize)> = Vec::with_capacity(8);
        let w = self.width();
        let h = self.height();
        let mut dx: i32 = -1;
        while dx <= 1
            invariant
                -1 <= dx <= 2,
                x < i32::MAX,
                y < i32::MAX,
                w == self@.width,
                h == self@.height,
                self@.wf(),
                neighbors@ == neighbors_upto(w as int, h as int, x as int, y as int, ((dx + 1) * 3) as nat),
            decreases 2 - dx,
        {
            let mut dy: i32 = -1;
            while dy <= 1
                invariant
                    -1 <= dx <= 1,
                    -1 <= dy <= 2,
                    x < i32::MAX,
                    y < i32::MAX,
                    w == self@.width,
                    h == self@.height,
                    self@.wf(),
                    neighbors@ == neighbors_upto(
                        w as int,
                        h as int,
                        x as int,
                        y as int,
                        ((dx + 1) * 3 + dy + 1) as nat,
                    ),
                decreases 2 - dy,
            {
                let ghost k: int = (dx + 1) * 3 + dy + 1;
                assert(offset_x(k) == dx && offset_y(k) == dy);
                if !(dx == 0 && dy == 0) {
                    let nx = x as i32 + dx;
                    let ny = y as i32 + dy;
                    if nx >= 0 && ny >= 0 && (nx as usize) < w && (ny as usize) < h {
                        neighbors.push((nx as usize, ny as usize));
                    }
                }
                dy = dy + 1;
            }
            dx = dx + 1;
        }
        neighbors
    }
}

/// A list of distinct mine sites is no longer than the list of all of them.
proof fn lemma_sites_bound(v: BoardView, s: Seq<(usize, usize)>, all: Seq<(usize, usize)>, sx: u16, sy: u16)
    requires
        site_list(v, s, sx, sy),
        all.no_duplicates(),
        forall|a: int, b: int| mine_site(v, a, b, sx, sy) ==> all.contains((a as usize, b as usize)),
    ensures
        s.len() <= all.len(),
{
    s.unique_seq_to_set();
    all.unique_seq_to_set();
    assert forall|p: (usize, usize)| s.to_set().contains(p) implies all.to_set().contains(p) by {
        let i = choose|i: int| 0 <= i < s.len() && s[i] == p;
        assert(mine_site(v, s[i].0 as int, s[i].1 as int, sx, sy));
        assert(all.contains((s[i].0 as int as usize, s[i].1 as int as usize)));
    }
    vstd::set_lib::lemma_len_subset(s.to_set(), all.to_set());
}

/// A settled cell stays settled while the fill only reveals other cells.
proof fn lemma_settled_grows(orig: BoardView, a: BoardView, b: BoardView, x: int, y: int)
    requires
        a.same_settings(b),
        a.only_reveals(b),
        a.in_bounds(x, y),
        b.cell(x, y).revealed == a.cell(x, y).revealed,
        fill_settled(orig, a, x, y),
    ensures
        fill_settled(orig, b, x, y),
{
    if b.cell(x, y).revealed && !orig.cell(x, y).revealed && b.cell(x, y).neighbor_mines == 0 {
        assert forall|p: int, q: int| b.in_bounds(p, q) && adjacent(x, y, p, q) implies (#[trigger] b.cell(
            p,
            q,
        )).revealed || b.cell(p, q).flagged by {
            assert(a.in_bounds(p, q));
            let _ = a.cell(p, q);
        }
    }
}

/// Every cell of a fill path from the start is revealed once the fill is
/// over: the start is, and each settled cell passes it on.
proof fn lemma_fill_path_revealed(orig: BoardView, post: BoardView, p: Seq<(int, int)>, i: int)
    requires
        orig.wf(),
        orig.same_settings(post),
        orig.only_reveals(post),
        fill_path(orig, p),
        0 <= i < p.len(),
        post.cell(p[0].0, p[0].1).revealed || post.cell(p[0].0, p[0].1).flagged,
        forall|a: int, b: int| orig.in_bounds(a, b) ==> #[trigger] fill_settled(orig, post, a, b),
    ensures
        post.cell(p[i].0, p[i].1).revealed,
    decreases i,
{
    let _ = p[i];
    if i > 0 {
        lemma_fill_path_revealed(orig, post, p, i - 1);
        let c = p[i - 1];
        let _ = p[i];
        assert(fill_settled(orig, post, c.0, c.1));
        let _ = post.cell(c.0, c.1);
        let _ = post.cell(p[i].0, p[i].1);
    } else {
        let _ = post.cell(p[0].0, p[0].1);
    }
}

} // verus!

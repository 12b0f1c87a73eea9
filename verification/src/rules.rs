//! What each operation of the board does, stated as relations between the
//! board's state before and after it.
use vstd::prelude::*;
use crate::cell::{CellData, CellState, RevealOutcome};
use crate::view::{adjacent, in_safe_zone, BoardView};

verus! {

/// `p` is a path that flood fill may follow on `v`: each step goes to an
/// adjacent cell, every cell on it is in bounds, hidden and unflagged, and
/// every cell it leaves has no mine around it.
pub open spec fn fill_path(v: BoardView, p: Seq<(int, int)>) -> bool {
    &&& p.len() > 0
    &&& forall|i: int|
        0 <= i < p.len() ==> {
            &&& v.in_bounds((#[trigger] p[i]).0, p[i].1)
            &&& !v.cell(p[i].0, p[i].1).revealed
            &&& !v.cell(p[i].0, p[i].1).flagged
        }
    &&& forall|i: int|
        0 <= i < p.len() - 1 ==> {
            &&& v.cell((#[trigger] p[i]).0, p[i].1).neighbor_mines == 0
            &&& adjacent(p[i].0, p[i].1, p[i + 1].0, p[i + 1].1)
        }
}

/// Flood fill started at `(sx, sy)` on `v` reaches `(x, y)`.
pub open spec fn fill_reaches(v: BoardView, sx: int, sy: int, x: int, y: int) -> bool {
    exists|p: Seq<(int, int)>| #[trigger] fill_path(v, p) && p[0] == (sx, sy) && p.last() == (x, y)
}

/// `post` is `pre` after a flood fill from `(sx, sy)`: exactly the cells the
/// fill reaches are revealed in addition, and nothing else changes.
pub open spec fn flood_post(pre: BoardView, post: BoardView, sx: int, sy: int) -> bool {
    &&& post.wf()
    &&& pre.same_settings(post)
    &&& forall|x: int, y: int|
        pre.in_bounds(x, y) ==> #[trigger] post.cell(x, y) == (CellData {
            revealed: pre.cell(x, y).revealed || fill_reaches(pre, sx, sy, x, y),
            ..pre.cell(x, y)
        })
}

/// A cell that the current fill (started on `orig`) has revealed, and that
/// has no mine around it, has no hidden unflagged neighbour left in `v`.
pub open spec fn fill_settled(orig: BoardView, v: BoardView, x: int, y: int) -> bool {
    (v.cell(x, y).revealed && !orig.cell(x, y).revealed && v.cell(x, y).neighbor_mines == 0) ==> forall|
        a: int,
        b: int,
    |
        v.in_bounds(a, b) && adjacent(x, y, a, b) ==> (#[trigger] v.cell(a, b)).revealed || v.cell(
            a,
            b,
        ).flagged
}


/// Every cell of `post` equals the same cell of `pre`.
pub open spec fn same_cells(pre: BoardView, post: BoardView) -> bool {
    forall|x: int, y: int| pre.in_bounds(x, y) ==> #[trigger] post.cell(x, y) == pre.cell(x, y)
}

/// Nothing changed.
pub open spec fn unchanged(pre: BoardView, post: BoardView) -> bool {
    &&& post.wf()
    &&& pre.same_settings(post)
    &&& same_cells(pre, post)
}

/// Every cell other than `(x, y)` is as it was.
pub open spec fn same_cells_except(pre: BoardView, post: BoardView, x: int, y: int) -> bool {
    forall|a: int, b: int|
        pre.in_bounds(a, b) && !(a == x && b == y) ==> #[trigger] post.cell(a, b) == pre.cell(a, b)
}

/// `post` is `pre` with every mine revealed.
pub open spec fn mines_revealed(pre: BoardView, post: BoardView) -> bool {
    &&& post.wf()
    &&& pre.same_settings(post)
    &&& forall|x: int, y: int|
        pre.in_bounds(x, y) ==> #[trigger] post.cell(x, y) == (CellData {
            revealed: pre.cell(x, y).revealed || pre.cell(x, y).mine,
            ..pre.cell(x, y)
        })
}

/// What revealing `(x, y)` does: a flagged or already revealed cell is left
/// alone; a mine explodes and every mine is shown; any other cell starts a
/// flood fill. `hit` tells whether a mine was hit.
pub open spec fn reveal_post(pre: BoardView, post: BoardView, x: int, y: int, hit: bool) -> bool {
    let c = pre.cell(x, y);
    if c.flagged || c.revealed {
        !hit && unchanged(pre, post)
    } else if c.mine {
        hit && mines_revealed(BoardView { exploded: Some((x as usize, y as usize)), ..pre }, post)
    } else {
        !hit && flood_post(pre, post, x, y)
    }
}

/// What the player sees on the cell at `(x, y)`.
pub open spec fn snapshot_state(v: BoardView, x: int, y: int) -> CellState {
    let c = v.cell(x, y);
    if v.exploded == Some((x as usize, y as usize)) {
        CellState::ExplodedMine
    } else if c.flagged && !c.revealed {
        CellState::Flagged
    } else if c.questioned && !c.revealed {
        CellState::Questioned
    } else if c.revealed && c.mine {
        CellState::RevealedMine
    } else if c.revealed && c.neighbor_mines > 0 {
        CellState::RevealedNumber(c.neighbor_mines)
    } else if c.revealed {
        CellState::RevealedEmpty
    } else {
        CellState::Hidden
    }
}

/// The next mark of a hidden cell: none, then a flag, then a question mark,
/// then none again.
pub open spec fn toggled(c: CellData) -> CellData {
    if c.flagged {
        CellData { flagged: false, questioned: true, ..c }
    } else if c.questioned {
        CellData { questioned: false, ..c }
    } else {
        CellData { flagged: true, questioned: false, ..c }
    }
}

/// The flag counter after toggling a cell whose state was `c`.
pub open spec fn toggled_flag_count(c: CellData, flags: nat) -> nat {
    if c.flagged {
        if flags > 0 {
            (flags - 1) as nat
        } else {
            0
        }
    } else if c.questioned {
        flags
    } else {
        flags + 1
    }
}

/// What toggling the mark on `(x, y)` does; a revealed cell is left alone.
pub open spec fn toggle_post(pre: BoardView, post: BoardView, x: int, y: int) -> bool {
    let c = pre.cell(x, y);
    if c.revealed {
        unchanged(pre, post)
    } else {
        &&& post.wf()
        &&& BoardView { flags_placed: toggled_flag_count(c, pre.flags_placed), ..pre }.same_settings(post)
        &&& post.cell(x, y) == toggled(c)
        &&& same_cells_except(pre, post, x, y)
    }
}

/// Every cell without a mine is revealed.
pub open spec fn all_safe_revealed(v: BoardView) -> bool {
    forall|x: int, y: int| v.in_bounds(x, y) && !(#[trigger] v.cell(x, y)).mine ==> v.cell(x, y).revealed
}

/// After a win every mine carries a flag and no question mark, and the flag
/// counter equals the number of mines.
pub open spec fn win_post(pre: BoardView, post: BoardView) -> bool {
    &&& post.wf()
    &&& BoardView { flags_placed: pre.mine_count, ..pre }.same_settings(post)
    &&& forall|x: int, y: int|
        pre.in_bounds(x, y) ==> #[trigger] post.cell(x, y) == if pre.cell(x, y).mine {
            CellData { flagged: true, questioned: false, ..pre.cell(x, y) }
        } else {
            pre.cell(x, y)
        }
}

/// `(x, y)` is a revealed number, the only kind of cell a chord starts from.
pub open spec fn chord_anchor(v: BoardView, x: int, y: int) -> bool {
    let c = v.cell(x, y);
    c.revealed && !c.mine && c.neighbor_mines != 0
}

/// The cells a chord on `(x, y)` would reveal, shown as a hint.
pub open spec fn chord_hints(v: BoardView, x: int, y: int) -> Seq<(usize, usize)> {
    if chord_anchor(v, x, y) {
        v.hidden_unflagged_neighbors(x, y)
    } else {
        seq![]
    }
}

/// The cells a chord on `(x, y)` reveals: the hints, once as many flags as
/// the number on the cell lie around it.
pub open spec fn chord_candidates(v: BoardView, x: int, y: int) -> Seq<(usize, usize)> {
    if chord_anchor(v, x, y) && v.flag_neighbors(x, y) == v.cell(x, y).neighbor_mines {
        v.hidden_unflagged_neighbors(x, y)
    } else {
        seq![]
    }
}

/// `states` runs through revealing `cells` one after another, with
/// `hits[i]` the outcome of the `i`-th reveal.
pub open spec fn reveal_run(states: Seq<BoardView>, hits: Seq<bool>, cells: Seq<(usize, usize)>) -> bool {
    &&& states.len() == cells.len() + 1
    &&& hits.len() == cells.len()
    &&& forall|i: int|
        0 <= i < cells.len() ==> reveal_post(
            #[trigger] states[i],
            states[i + 1],
            cells[i].0 as int,
            cells[i].1 as int,
            hits[i],
        )
}

/// `post` is `pre` after revealing `cells` in order; `hit` tells whether any
/// of those reveals hit a mine.
pub open spec fn reveal_all_post(pre: BoardView, post: BoardView, cells: Seq<(usize, usize)>, hit: bool) -> bool {
    exists|states: Seq<BoardView>, hits: Seq<bool>|
        #[trigger] reveal_run(states, hits, cells) && states[0] == pre && states.last() == post && hit
            == hits.contains(true)
}

/// `(x, y)` may receive a mine when the first click was on `(sx, sy)`: it is
/// on the board, holds no mine yet and lies outside the safe zone.
pub open spec fn mine_site(v: BoardView, x: int, y: int, sx: u16, sy: u16) -> bool {
    &&& v.in_bounds(x, y)
    &&& !v.cell(x, y).mine
    &&& !in_safe_zone(x, y, sx, sy)
}

/// `s` lists distinct mine sites.
pub open spec fn site_list(v: BoardView, s: Seq<(usize, usize)>, sx: u16, sy: u16) -> bool {
    &&& s.no_duplicates()
    &&& forall|i: int| 0 <= i < s.len() ==> mine_site(v, (#[trigger] s[i]).0 as int, s[i].1 as int, sx, sy)
}

/// The mine sites of column `x` among its first `n` rows, top to bottom.
pub open spec fn column_sites(v: BoardView, sx: u16, sy: u16, x: int, n: nat) -> Seq<(usize, usize)>
    decreases n,
{
    if n == 0 {
        seq![]
    } else {
        let prev = column_sites(v, sx, sy, x, (n - 1) as nat);
        if mine_site(v, x, n - 1, sx, sy) {
            prev.push((x as usize, (n - 1) as usize))
        } else {
            prev
        }
    }
}

/// The mine sites of the first `m` columns, column by column.
pub open spec fn sites_before(v: BoardView, sx: u16, sy: u16, m: nat) -> Seq<(usize, usize)>
    decreases m,
{
    if m == 0 {
        seq![]
    } else {
        sites_before(v, sx, sy, (m - 1) as nat) + column_sites(v, sx, sy, m - 1, v.height)
    }
}

/// Every mine site of the board, column by column.
pub open spec fn site_seq(v: BoardView, sx: u16, sy: u16) -> Seq<(usize, usize)> {
    sites_before(v, sx, sy, v.width)
}

/// `s` with its `k`-th element taken out and the last put in its place.
pub open spec fn swap_removed<A>(s: Seq<A>, k: int) -> Seq<A> {
    s.update(k, s.last()).drop_last()
}

/// The sites left after the first `i` picks, each pick taking out the site
/// at that index.
pub open spec fn sites_left(s: Seq<(usize, usize)>, picks: Seq<usize>, i: nat) -> Seq<(usize, usize)>
    decreases i,
{
    if i == 0 {
        s
    } else {
        swap_removed(sites_left(s, picks, (i - 1) as nat), picks[i - 1] as int)
    }
}

/// The sites chosen by the first `i` picks, in order.
pub open spec fn sites_picked(s: Seq<(usize, usize)>, picks: Seq<usize>, i: nat) -> Seq<(usize, usize)>
    decreases i,
{
    if i == 0 {
        seq![]
    } else {
        sites_picked(s, picks, (i - 1) as nat).push(sites_left(s, picks, (i - 1) as nat)[picks[i - 1] as int])
    }
}

/// Each pick indexes the list of sites left at its turn.
pub open spec fn picks_fit(n: nat, picks: Seq<usize>) -> bool {
    forall|i: int| 0 <= i < picks.len() ==> #[trigger] picks[i] < n - i
}

/// The new mines of `post` are exactly the sites that `picks` chooses from
/// the mine sites of `pre`.
pub open spec fn mines_from_picks(pre: BoardView, post: BoardView, sx: u16, sy: u16, picks: Seq<usize>) -> bool {
    forall|x: int, y: int|
        pre.in_bounds(x, y) ==> ((#[trigger] post.cell(x, y)).mine && !pre.cell(x, y).mine <==> sites_picked(
            site_seq(pre, sx, sy),
            picks,
            picks.len(),
        ).contains((x as usize, y as usize)))
}

/// There are at least `n` distinct mine sites.
pub open spec fn room_for_mines(v: BoardView, sx: u16, sy: u16, n: nat) -> bool {
    exists|s: Seq<(usize, usize)>| #[trigger] site_list(v, s, sx, sy) && s.len() >= n
}

/// `post` is `pre` with `pre.mine_count` new mines, all outside the safe
/// zone around `(sx, sy)`, and every cell without a mine showing the number
/// of mines around it. Marks and revealed cells are untouched, and so is the
/// count of a cell that holds a mine.
pub open spec fn placement_post(pre: BoardView, post: BoardView, sx: u16, sy: u16) -> bool {
    &&& post.wf()
    &&& pre.same_settings(post)
    &&& forall|x: int, y: int|
        pre.in_bounds(x, y) ==> {
            let a = pre.cell(x, y);
            let b = #[trigger] post.cell(x, y);
            &&& b.revealed == a.revealed
            &&& b.flagged == a.flagged
            &&& b.questioned == a.questioned
            &&& a.mine ==> b.mine
            &&& b.mine && !a.mine ==> !in_safe_zone(x, y, sx, sy)
            &&& b.mine ==> b.neighbor_mines == a.neighbor_mines
            &&& !b.mine ==> b.neighbor_mines == post.mine_neighbors(x, y)
        }
    &&& exists|placed: Seq<(usize, usize)>|
        {
            &&& placed.len() == pre.mine_count
            &&& placed.no_duplicates()
            &&& forall|i: int| 0 <= i < placed.len() ==> pre.in_bounds((#[trigger] placed[i]).0 as int, placed[i].1 as int)
            &&& forall|x: int, y: int|
                pre.in_bounds(x, y) ==> ((#[trigger] post.cell(x, y)).mine && !pre.cell(x, y).mine
                    <==> placed.contains((x as usize, y as usize)))
        }
}

/// `post` is `pre` after placing its mines from some picks that fit the
/// mine sites around `(sx, sy)`.
pub open spec fn placed_by_picks(pre: BoardView, post: BoardView, sx: u16, sy: u16) -> bool {
    &&& placement_post(pre, post, sx, sy)
    &&& exists|picks: Seq<usize>|
        #[trigger] mines_from_picks(pre, post, sx, sy, picks) && picks.len() == pre.mine_count && picks_fit(
            site_seq(pre, sx, sy).len(),
            picks,
        )
}

/// What a click on `(x, y)` does: a flagged or revealed cell ignores it;
/// otherwise the first click places the mines, keeping the 3x3 block around
/// `(x, y)` free of new ones, and then the cell is revealed.
pub open spec fn reveal_at_post(pre: BoardView, post: BoardView, x: int, y: int, outcome: RevealOutcome) -> bool {
    let c = pre.cell(x, y);
    if c.flagged || c.revealed {
        outcome == RevealOutcome::Ignored && unchanged(pre, post)
    } else {
        &&& outcome == if c.mine {
            RevealOutcome::HitMine
        } else {
            RevealOutcome::Safe
        }
        &&& post.first_click == false
        &&& if pre.first_click {
            exists|mid: BoardView|
                placed_by_picks(BoardView { first_click: false, ..pre }, mid, x as u16, y as u16) && #[trigger] reveal_post(
                    mid,
                    post,
                    x,
                    y,
                    c.mine,
                )
        } else {
            reveal_post(pre, post, x, y, c.mine)
        }
    }
}

/// The flag counter equals the number of flagged cells, and no cell is
/// both flagged and questioned.
pub open spec fn marks_consistent(v: BoardView) -> bool {
    &&& v.flags_placed == v.flag_total()
    &&& forall|x: int, y: int|
        v.in_bounds(x, y) ==> !((#[trigger] v.cell(x, y)).flagged && v.cell(x, y).questioned)
}

/// A reveal keeps the board's shape and its settings other than the
/// exploded cell.
pub proof fn lemma_reveal_keeps_shape(pre: BoardView, post: BoardView, x: int, y: int, hit: bool)
    requires
        pre.wf(),
        reveal_post(pre, post, x, y, hit),
    ensures
        post.wf(),
        post.width == pre.width,
        post.height == pre.height,
        post.mine_count == pre.mine_count,
        post.first_click == pre.first_click,
        post.flags_placed == pre.flags_placed,
{
}

/// Every cell without a mine shows the number of mines around it.
pub open spec fn counts_consistent(v: BoardView) -> bool {
    forall|x: int, y: int|
        v.in_bounds(x, y) && !(#[trigger] v.cell(x, y)).mine ==> v.cell(x, y).neighbor_mines == v.mine_neighbors(x, y)
}

/// A reveal changes no mine, mark or count; it only reveals cells and may
/// set the exploded cell.
pub proof fn lemma_reveal_keeps_cells(pre: BoardView, post: BoardView, x: int, y: int, hit: bool)
    requires
        pre.wf(),
        reveal_post(pre, post, x, y, hit),
    ensures
        pre.only_reveals(post),
{
    assert forall|a: int, b: int| pre.in_bounds(a, b) implies {
        &&& (#[trigger] post.cell(a, b)).mine == pre.cell(a, b).mine
        &&& post.cell(a, b).flagged == pre.cell(a, b).flagged
        &&& post.cell(a, b).questioned == pre.cell(a, b).questioned
        &&& post.cell(a, b).neighbor_mines == pre.cell(a, b).neighbor_mines
        &&& pre.cell(a, b).revealed ==> post.cell(a, b).revealed
    } by {
        let c = pre.cell(x, y);
        if c.flagged || c.revealed {
        } else if c.mine {
            let pre2 = BoardView { exploded: Some((x as usize, y as usize)), ..pre };
            assert(pre2.in_bounds(a, b));
            assert(pre2.cell(a, b) == pre.cell(a, b));
        } else {
        }
    }
}

} // verus!

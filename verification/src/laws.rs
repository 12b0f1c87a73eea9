//! Properties of the game that span several operations or hold of every
//! board state, proved from the operations' specifications.
use vstd::prelude::*;
use crate::cell::{CellState, RevealOutcome};
use crate::rules::{
    chord_hints, win_post,
    all_safe_revealed, snapshot_state,
    chord_candidates, counts_consistent, marks_consistent, fill_path, fill_reaches, flood_post, lemma_reveal_keeps_cells, placed_by_picks, lemma_reveal_keeps_shape, placement_post,
    reveal_all_post, reveal_at_post, reveal_post, reveal_run, toggle_post, unchanged,
};
use crate::view::{
    adjacent, in_safe_zone, lemma_flag_total_diff, lemma_flag_total_none, lemma_neighbor_seq,
    lemma_only_reveals_trans, BoardView,
};

verus! {

/// The fill started on a hidden, unflagged cell reaches that cell.
proof fn lemma_fill_reaches_start(v: BoardView, x: int, y: int)
    requires
        v.in_bounds(x, y),
        !v.cell(x, y).revealed,
        !v.cell(x, y).flagged,
    ensures
        fill_reaches(v, x, y, x, y),
{
    let p = seq![(x, y)];
    assert(fill_path(v, p));
}

/// Revealing a cell that carries no flag leaves it revealed.
pub proof fn lemma_reveal_reveals(pre: BoardView, post: BoardView, x: int, y: int, hit: bool)
    requires
        pre.wf(),
        pre.in_bounds(x, y),
        !pre.cell(x, y).flagged,
        reveal_post(pre, post, x, y, hit),
    ensures
        post.cell(x, y).revealed,
{
    let c = pre.cell(x, y);
    if c.revealed {
    } else if c.mine {
        let pre2 = BoardView { exploded: Some((x as usize, y as usize)), ..pre };
        assert(pre2.in_bounds(x, y));
    } else {
        lemma_fill_reaches_start(pre, x, y);
    }
}

/// Revealing the same cell twice does nothing the second time: the second
/// reveal hits no mine and leaves the board as the first one left it.
pub proof fn lemma_reveal_twice(
    pre: BoardView,
    mid: BoardView,
    post: BoardView,
    x: int,
    y: int,
    hit1: bool,
    hit2: bool,
)
    requires
        pre.wf(),
        pre.in_bounds(x, y),
        reveal_post(pre, mid, x, y, hit1),
        reveal_post(mid, post, x, y, hit2),
    ensures
        !hit2,
        unchanged(mid, post),
{
    lemma_reveal_keeps_cells(pre, mid, x, y, hit1);
    if !pre.cell(x, y).flagged {
        lemma_reveal_reveals(pre, mid, x, y, hit1);
    }
    let _ = mid.cell(x, y);
}

/// A first click on a cell without a mine, on a board with no mine within
/// one cell of it, is safe: the cell is revealed, it holds no mine, and no
/// mine lies next to it.
pub proof fn lemma_first_click_is_safe(pre: BoardView, post: BoardView, x: int, y: int, outcome: RevealOutcome)
    requires
        pre.wf(),
        pre.in_bounds(x, y),
        pre.first_click,
        !pre.cell(x, y).flagged,
        !pre.cell(x, y).revealed,
        forall|a: int, b: int|
            pre.in_bounds(a, b) && (a == x && b == y || adjacent(x, y, a, b)) ==> !(#[trigger] pre.cell(a, b)).mine,
        reveal_at_post(pre, post, x, y, outcome),
    ensures
        outcome == RevealOutcome::Safe,
        post.cell(x, y).revealed,
        !post.cell(x, y).mine,
        forall|a: int, b: int| post.in_bounds(a, b) && adjacent(x, y, a, b) ==> !(#[trigger] post.cell(a, b)).mine,
{
    let pre1 = BoardView { first_click: false, ..pre };
    let mid = choose|mid: BoardView|
        placed_by_picks(pre1, mid, x as u16, y as u16) && #[trigger] reveal_post(mid, post, x, y, pre.cell(x, y).mine);
    assert(pre1.in_bounds(x, y) && pre1.cell(x, y) == pre.cell(x, y));
    let _ = mid.cell(x, y);
    assert(in_safe_zone(x, y, x as u16, y as u16));
    assert(!mid.cell(x, y).mine);
    lemma_reveal_keeps_cells(mid, post, x, y, false);
    lemma_reveal_reveals(mid, post, x, y, false);
    assert forall|a: int, b: int| post.in_bounds(a, b) && adjacent(x, y, a, b) implies !(#[trigger] post.cell(
        a,
        b,
    )).mine by {
        assert(pre1.in_bounds(a, b) && pre1.cell(a, b) == pre.cell(a, b));
        let _ = mid.cell(a, b);
        assert(in_safe_zone(a, b, x as u16, y as u16));
    }
}

/// On a board without mines, placing mines puts exactly `mine_count` of
/// them on the board, none in the 3x3 block around the first click, and
/// every number is right afterwards.
pub proof fn lemma_placement_on_empty_board(pre: BoardView, post: BoardView, sx: u16, sy: u16)
    requires
        pre.wf(),
        forall|x: int, y: int| pre.in_bounds(x, y) ==> !(#[trigger] pre.cell(x, y)).mine,
        placement_post(pre, post, sx, sy),
    ensures
        exists|mines: Seq<(usize, usize)>|
            {
                &&& mines.len() == pre.mine_count
                &&& mines.no_duplicates()
                &&& forall|x: int, y: int|
                    post.in_bounds(x, y) ==> ((#[trigger] post.cell(x, y)).mine <==> mines.contains(
                        (x as usize, y as usize),
                    ))
            },
        forall|x: int, y: int| post.in_bounds(x, y) && in_safe_zone(x, y, sx, sy) ==> !(#[trigger] post.cell(x, y)).mine,
        counts_consistent(post),
{
    let mines = choose|placed: Seq<(usize, usize)>|
        {
            &&& placed.len() == pre.mine_count
            &&& placed.no_duplicates()
            &&& forall|i: int| 0 <= i < placed.len() ==> pre.in_bounds((#[trigger] placed[i]).0 as int, placed[i].1 as int)
            &&& forall|x: int, y: int|
                pre.in_bounds(x, y) ==> ((#[trigger] post.cell(x, y)).mine && !pre.cell(x, y).mine
                    <==> placed.contains((x as usize, y as usize)))
        };
    assert forall|x: int, y: int| post.in_bounds(x, y) implies ((#[trigger] post.cell(x, y)).mine <==> mines.contains(
        (x as usize, y as usize),
    )) by {
        let _ = pre.cell(x, y);
    }
    assert forall|x: int, y: int| post.in_bounds(x, y) && in_safe_zone(x, y, sx, sy) implies !(#[trigger] post.cell(
        x,
        y,
    )).mine by {
        let _ = pre.cell(x, y);
    }
}

/// Toggling the mark of a hidden, unmarked cell three times flags it, then
/// questions it, then restores the board, flag counter included.
pub proof fn lemma_toggle_cycle(
    s0: BoardView,
    s1: BoardView,
    s2: BoardView,
    s3: BoardView,
    x: int,
    y: int,
)
    requires
        s0.wf(),
        s0.in_bounds(x, y),
        !s0.cell(x, y).revealed,
        !s0.cell(x, y).flagged,
        !s0.cell(x, y).questioned,
        toggle_post(s0, s1, x, y),
        toggle_post(s1, s2, x, y),
        toggle_post(s2, s3, x, y),
    ensures
        s1.cell(x, y).flagged && !s1.cell(x, y).questioned,
        s1.flags_placed == s0.flags_placed + 1,
        !s2.cell(x, y).flagged && s2.cell(x, y).questioned,
        s2.flags_placed == s0.flags_placed,
        unchanged(s0, s3),
{
    assert forall|a: int, b: int| s0.in_bounds(a, b) implies #[trigger] s3.cell(a, b) == s0.cell(a, b) by {
        if !(a == x && b == y) {
            let _ = s1.cell(a, b);
            let _ = s2.cell(a, b);
        }
    }
}

/// Flood fill never reveals a flagged cell.
pub proof fn lemma_flood_skips_flags(pre: BoardView, post: BoardView, sx: int, sy: int)
    requires
        flood_post(pre, post, sx, sy),
    ensures
        forall|x: int, y: int|
            pre.in_bounds(x, y) && pre.cell(x, y).flagged ==> (#[trigger] post.cell(x, y)).revealed == pre.cell(
                x,
                y,
            ).revealed,
{
    assert forall|x: int, y: int| pre.in_bounds(x, y) && pre.cell(x, y).flagged implies (#[trigger] post.cell(
        x,
        y,
    )).revealed == pre.cell(x, y).revealed by {
        if fill_reaches(pre, sx, sy, x, y) {
            let p = choose|p: Seq<(int, int)>| #[trigger] fill_path(pre, p) && p[0] == (sx, sy) && p.last() == (x, y);
            let _ = p[p.len() - 1];
        }
    }
}

/// Flood fill opens whole empty regions: every cell it reveals that has no
/// mine around it ends with all its unflagged neighbours revealed.
pub proof fn lemma_flood_opens_region(pre: BoardView, post: BoardView, sx: int, sy: int)
    requires
        pre.wf(),
        flood_post(pre, post, sx, sy),
    ensures
        forall|x: int, y: int, a: int, b: int|
            pre.in_bounds(x, y) && (#[trigger] post.cell(x, y)).revealed && !pre.cell(x, y).revealed
                && pre.cell(x, y).neighbor_mines == 0 && pre.in_bounds(a, b) && adjacent(x, y, a, b)
                && !(#[trigger] pre.cell(a, b)).flagged ==> post.cell(a, b).revealed,
{
    assert forall|x: int, y: int, a: int, b: int|
        pre.in_bounds(x, y) && (#[trigger] post.cell(x, y)).revealed && !pre.cell(x, y).revealed
            && pre.cell(x, y).neighbor_mines == 0 && pre.in_bounds(a, b) && adjacent(x, y, a, b)
            && !(#[trigger] pre.cell(a, b)).flagged implies post.cell(a, b).revealed by {
        let _ = post.cell(a, b);
        if !pre.cell(a, b).revealed {
            let p = choose|p: Seq<(int, int)>| #[trigger] fill_path(pre, p) && p[0] == (sx, sy) && p.last() == (x, y);
            let q = p.push((a, b));
            assert forall|i: int| 0 <= i < q.len() implies {
                &&& pre.in_bounds((#[trigger] q[i]).0, q[i].1)
                &&& !pre.cell(q[i].0, q[i].1).revealed
                &&& !pre.cell(q[i].0, q[i].1).flagged
            } by {
                if i < p.len() {
                    assert(q[i] == p[i]);
                }
            }
            assert forall|i: int| 0 <= i < q.len() - 1 implies {
                &&& pre.cell((#[trigger] q[i]).0, q[i].1).neighbor_mines == 0
                &&& adjacent(q[i].0, q[i].1, q[i + 1].0, q[i + 1].1)
            } by {
                assert(q[i] == p[i]);
                if i < p.len() - 1 {
                    assert(q[i + 1] == p[i + 1]);
                }
            }
            assert(fill_path(pre, q));
            assert(q[0] == (sx, sy) && q.last() == (a, b));
        }
    }
}

/// On a board whose numbers are right, every cell of a fill path from a
/// cell without a mine is without a mine.
proof fn lemma_fill_path_has_no_mine(v: BoardView, p: Seq<(int, int)>, i: int)
    requires
        v.wf(),
        counts_consistent(v),
        fill_path(v, p),
        !v.cell(p[0].0, p[0].1).mine,
        0 <= i < p.len(),
    ensures
        !v.cell(p[i].0, p[i].1).mine,
    decreases i,
{
    if i > 0 {
        lemma_fill_path_has_no_mine(v, p, i - 1);
        let c = p[i - 1];
        let d = p[i];
        assert(v.in_bounds(c.0, c.1) && v.in_bounds(d.0, d.1));
        let _ = v.cell(c.0, c.1);
        assert(v.mine_neighbors(c.0, c.1) == 0);
        lemma_neighbor_seq(v.width as int, v.height as int, c.0, c.1);
        v.lemma_no_mines_among(v.neighbors(c.0, c.1));
        assert(v.neighbors(c.0, c.1).contains((d.0 as usize, d.1 as usize)));
    }
}

/// On a board whose numbers are right, a flood fill from a cell without a
/// mine reveals no mine.
pub proof fn lemma_flood_reveals_no_mine(pre: BoardView, post: BoardView, sx: int, sy: int)
    requires
        pre.wf(),
        counts_consistent(pre),
        pre.in_bounds(sx, sy),
        !pre.cell(sx, sy).mine,
        flood_post(pre, post, sx, sy),
    ensures
        forall|x: int, y: int|
            pre.in_bounds(x, y) && (#[trigger] post.cell(x, y)).revealed && !pre.cell(x, y).revealed
                ==> !pre.cell(x, y).mine,
{
    assert forall|x: int, y: int|
        pre.in_bounds(x, y) && (#[trigger] post.cell(x, y)).revealed && !pre.cell(x, y).revealed
            implies !pre.cell(x, y).mine by {
        let p = choose|p: Seq<(int, int)>| #[trigger] fill_path(pre, p) && p[0] == (sx, sy) && p.last() == (x, y);
        lemma_fill_path_has_no_mine(pre, p, p.len() - 1);
    }
}

/// The numbers of a board depend only on its mines and counts.
proof fn lemma_consistency_kept(a: BoardView, b: BoardView)
    requires
        a.wf(),
        b.wf(),
        a.width == b.width,
        a.height == b.height,
        a.only_reveals(b),
        counts_consistent(a),
    ensures
        counts_consistent(b),
{
    assert forall|x: int, y: int| b.in_bounds(x, y) && !(#[trigger] b.cell(x, y)).mine implies b.cell(
        x,
        y,
    ).neighbor_mines == b.mine_neighbors(x, y) by {
        let _ = a.cell(x, y);
        lemma_neighbor_seq(a.width as int, a.height as int, x, y);
        let s = a.neighbors(x, y);
        assert forall|i: int| 0 <= i < s.len() implies a.cell((#[trigger] s[i]).0 as int, s[i].1 as int).mine
            == b.cell(s[i].0 as int, s[i].1 as int).mine by {
            let _ = b.cell(s[i].0 as int, s[i].1 as int);
        }
        a.lemma_mines_among_same(b, s);
    }
}

/// One reveal of a run, on a board whose numbers are right: it keeps the
/// numbers right, changes no mine, and uncovers no mine unless it hits one.
proof fn lemma_run_step(pre: BoardView, post: BoardView, x: int, y: int, hit: bool)
    requires
        pre.wf(),
        counts_consistent(pre),
        pre.in_bounds(x, y),
        reveal_post(pre, post, x, y, hit),
    ensures
        post.wf(),
        post.width == pre.width,
        post.height == pre.height,
        pre.only_reveals(post),
        counts_consistent(post),
        hit <==> pre.cell(x, y).mine && !pre.cell(x, y).revealed && !pre.cell(x, y).flagged,
        !hit ==> forall|a: int, b: int|
            pre.in_bounds(a, b) && (#[trigger] post.cell(a, b)).revealed && !pre.cell(a, b).revealed
                ==> !pre.cell(a, b).mine,
{
    lemma_reveal_keeps_cells(pre, post, x, y, hit);
    lemma_consistency_kept(pre, post);
    let c = pre.cell(x, y);
    if !(c.flagged || c.revealed) && !c.mine {
        lemma_flood_reveals_no_mine(pre, post, x, y);
    }
}

/// On a board whose numbers are right, revealing hidden unflagged cells one
/// after another (as a chord does) hits a mine exactly when one of the cells
/// holds a mine.
pub proof fn lemma_reveal_run_hits_iff_mine(pre: BoardView, post: BoardView, cells: Seq<(usize, usize)>, hit: bool)
    requires
        pre.wf(),
        counts_consistent(pre),
        forall|i: int|
            0 <= i < cells.len() ==> {
                let p = #[trigger] cells[i];
                &&& pre.in_bounds(p.0 as int, p.1 as int)
                &&& !pre.cell(p.0 as int, p.1 as int).revealed
                &&& !pre.cell(p.0 as int, p.1 as int).flagged
            },
        reveal_all_post(pre, post, cells, hit),
    ensures
        hit <==> exists|i: int| 0 <= i < cells.len() && pre.cell((#[trigger] cells[i]).0 as int, cells[i].1 as int).mine,
{
    let (states, hits) = choose|states: Seq<BoardView>, hits: Seq<bool>|
        #[trigger] reveal_run(states, hits, cells) && states[0] == pre && states.last() == post && hit
            == hits.contains(true);
    lemma_run_invariant(pre, states, hits, cells, cells.len() as int);
    assert(hits.take(cells.len() as int) =~= hits);
    if hit {
        let k = choose|k: int| 0 <= k < hits.len() && hits[k] == true;
        let _ = cells[k];
    }
}

/// On a board whose numbers are right, a chord hits a mine exactly when one
/// of the cells it reveals holds a mine; in particular a chord whose flags
/// are all on mines never hits one.
pub proof fn lemma_chord_hits_iff_mine(pre: BoardView, post: BoardView, x: int, y: int, hit: bool)
    requires
        pre.wf(),
        pre.in_bounds(x, y),
        counts_consistent(pre),
        reveal_all_post(pre, post, chord_candidates(pre, x, y), hit),
    ensures
        hit <==> exists|i: int|
            0 <= i < chord_candidates(pre, x, y).len() && pre.cell(
                (#[trigger] chord_candidates(pre, x, y)[i]).0 as int,
                chord_candidates(pre, x, y)[i].1 as int,
            ).mine,
{
    let cells = chord_candidates(pre, x, y);
    lemma_neighbor_seq(pre.width as int, pre.height as int, x, y);
    pre.lemma_hidden_unflagged_among(pre.neighbors(x, y));
    assert forall|i: int| 0 <= i < cells.len() implies {
        let p = #[trigger] cells[i];
        &&& pre.in_bounds(p.0 as int, p.1 as int)
        &&& !pre.cell(p.0 as int, p.1 as int).revealed
        &&& !pre.cell(p.0 as int, p.1 as int).flagged
    } by {
        let p = cells[i];
        let j = choose|j: int| 0 <= j < pre.neighbors(x, y).len() && pre.neighbors(x, y)[j] == p;
    }
    lemma_reveal_run_hits_iff_mine(pre, post, cells, hit);
}

/// Revealing cells one after another, as a chord does, only reveals: no
/// mine moves, no mark or number changes and no revealed cell is hidden.
pub proof fn lemma_reveal_run_only_reveals(pre: BoardView, post: BoardView, cells: Seq<(usize, usize)>, hit: bool)
    requires
        pre.wf(),
        reveal_all_post(pre, post, cells, hit),
    ensures
        post.wf(),
        post.width == pre.width,
        post.height == pre.height,
        post.flags_placed == pre.flags_placed,
        pre.only_reveals(post),
{
    let (states, hits) = choose|states: Seq<BoardView>, hits: Seq<bool>|
        #[trigger] reveal_run(states, hits, cells) && states[0] == pre && states.last() == post && hit
            == hits.contains(true);
    lemma_run_only_reveals(pre, states, hits, cells, cells.len() as int);
}

proof fn lemma_run_only_reveals(
    pre: BoardView,
    states: Seq<BoardView>,
    hits: Seq<bool>,
    cells: Seq<(usize, usize)>,
    n: int,
)
    requires
        pre.wf(),
        reveal_run(states, hits, cells),
        states[0] == pre,
        0 <= n <= cells.len(),
    ensures
        states[n].wf(),
        states[n].width == pre.width,
        states[n].height == pre.height,
        states[n].flags_placed == pre.flags_placed,
        pre.only_reveals(states[n]),
    decreases n,
{
    if n == 0 {
        assert forall|x: int, y: int| pre.in_bounds(x, y) implies {
            &&& (#[trigger] pre.cell(x, y)).mine == pre.cell(x, y).mine
            &&& pre.cell(x, y).flagged == pre.cell(x, y).flagged
            &&& pre.cell(x, y).questioned == pre.cell(x, y).questioned
            &&& pre.cell(x, y).neighbor_mines == pre.cell(x, y).neighbor_mines
            &&& pre.cell(x, y).revealed ==> pre.cell(x, y).revealed
        } by {
        }
    } else {
        let m = n - 1;
        lemma_run_only_reveals(pre, states, hits, cells, m);
        let p = cells[m];
        assert(reveal_post(states[m], states[n], p.0 as int, p.1 as int, hits[m]));
        lemma_reveal_keeps_cells(states[m], states[n], p.0 as int, p.1 as int, hits[m]);
        lemma_reveal_keeps_shape(states[m], states[n], p.0 as int, p.1 as int, hits[m]);
        lemma_only_reveals_trans(pre, states[m], states[n]);
    }
}

/// Boards with the same shape, flag counter, flags and question marks agree
/// on `marks_consistent`.
proof fn lemma_marks_follow(a: BoardView, b: BoardView)
    requires
        a.wf(),
        b.wf(),
        a.width == b.width,
        a.height == b.height,
        a.flags_placed == b.flags_placed,
        forall|x: int, y: int|
            a.in_bounds(x, y) ==> (#[trigger] b.cell(x, y)).flagged == a.cell(x, y).flagged && b.cell(
                x,
                y,
            ).questioned == a.cell(x, y).questioned,
        marks_consistent(a),
    ensures
        marks_consistent(b),
{
    lemma_flag_total_diff(a, b, -1, -1);
    assert forall|x: int, y: int| b.in_bounds(x, y) implies !((#[trigger] b.cell(x, y)).flagged && b.cell(
        x,
        y,
    ).questioned) by {
        let _ = a.cell(x, y);
    }
}

/// A fresh board, without marks and with a zero counter, keeps its marks
/// consistent.
pub proof fn lemma_fresh_marks(v: BoardView)
    requires
        v.wf(),
        v.flags_placed == 0,
        forall|x: int, y: int|
            v.in_bounds(x, y) ==> !(#[trigger] v.cell(x, y)).flagged && !v.cell(x, y).questioned,
    ensures
        marks_consistent(v),
{
    lemma_flag_total_none(v);
}

/// Toggling a mark keeps the flag counter equal to the number of flags and
/// no cell both flagged and questioned.
pub proof fn lemma_toggle_keeps_marks(pre: BoardView, post: BoardView, x: int, y: int)
    requires
        pre.wf(),
        pre.in_bounds(x, y),
        marks_consistent(pre),
        toggle_post(pre, post, x, y),
    ensures
        marks_consistent(post),
{
    if pre.cell(x, y).revealed {
        lemma_marks_follow(pre, post);
    } else {
        lemma_flag_total_diff(pre, post, x, y);
        assert forall|a: int, b: int| post.in_bounds(a, b) implies !((#[trigger] post.cell(a, b)).flagged
            && post.cell(a, b).questioned) by {
            let _ = pre.cell(a, b);
        }
    }
}

/// A reveal keeps the marks consistent.
pub proof fn lemma_reveal_keeps_marks(pre: BoardView, post: BoardView, x: int, y: int, hit: bool)
    requires
        pre.wf(),
        marks_consistent(pre),
        reveal_post(pre, post, x, y, hit),
    ensures
        marks_consistent(post),
{
    lemma_reveal_keeps_cells(pre, post, x, y, hit);
    lemma_reveal_keeps_shape(pre, post, x, y, hit);
    lemma_marks_follow(pre, post);
}

/// Revealing cells one after another, as a chord does, keeps the marks
/// consistent.
pub proof fn lemma_reveal_run_keeps_marks(pre: BoardView, post: BoardView, cells: Seq<(usize, usize)>, hit: bool)
    requires
        pre.wf(),
        marks_consistent(pre),
        reveal_all_post(pre, post, cells, hit),
    ensures
        marks_consistent(post),
{
    lemma_reveal_run_only_reveals(pre, post, cells, hit);
    lemma_marks_follow(pre, post);
}

/// Placing mines keeps the marks consistent.
pub proof fn lemma_placement_keeps_marks(pre: BoardView, post: BoardView, sx: u16, sy: u16)
    requires
        pre.wf(),
        marks_consistent(pre),
        placement_post(pre, post, sx, sy),
    ensures
        marks_consistent(post),
{
    assert forall|a: int, b: int| pre.in_bounds(a, b) implies (#[trigger] post.cell(a, b)).flagged == pre.cell(
        a,
        b,
    ).flagged && post.cell(a, b).questioned == pre.cell(a, b).questioned by {
        let _ = post.cell(a, b);
    }
    lemma_marks_follow(pre, post);
}

/// A click keeps the marks consistent, whether it places the mines or not.
pub proof fn lemma_reveal_at_keeps_marks(pre: BoardView, post: BoardView, x: int, y: int, outcome: RevealOutcome)
    requires
        pre.wf(),
        pre.in_bounds(x, y),
        marks_consistent(pre),
        reveal_at_post(pre, post, x, y, outcome),
    ensures
        marks_consistent(post),
{
    let c = pre.cell(x, y);
    if c.flagged || c.revealed {
        lemma_marks_follow(pre, post);
    } else if pre.first_click {
        let pre1 = BoardView { first_click: false, ..pre };
        let mid = choose|mid: BoardView|
            placed_by_picks(pre1, mid, x as u16, y as u16) && #[trigger] reveal_post(mid, post, x, y, c.mine);
        assert(pre1.flag_total() == pre.flag_total());
        assert forall|a: int, b: int| pre1.in_bounds(a, b) implies !((#[trigger] pre1.cell(a, b)).flagged && pre1.cell(
            a,
            b,
        ).questioned) by {
            let _ = pre.cell(a, b);
        }
        lemma_placement_keeps_marks(pre1, mid, x as u16, y as u16);
        lemma_reveal_keeps_marks(mid, post, x, y, c.mine);
    } else {
        lemma_reveal_keeps_marks(pre, post, x, y, c.mine);
    }
}

/// Along a run of reveals on a board whose numbers are right, with `n`
/// reveals done: the board keeps its shape, mines and numbers; a reveal hits
/// only a mine; and until a mine is hit, no cell revealed so far holds a
/// mine and no mine is uncovered.
#[verifier::spinoff_prover]
#[verifier::rlimit(40)]
proof fn lemma_run_invariant(
    pre: BoardView,
    states: Seq<BoardView>,
    hits: Seq<bool>,
    cells: Seq<(usize, usize)>,
    n: int,
)
    requires
        pre.wf(),
        counts_consistent(pre),
        forall|i: int|
            0 <= i < cells.len() ==> {
                let p = #[trigger] cells[i];
                &&& pre.in_bounds(p.0 as int, p.1 as int)
                &&& !pre.cell(p.0 as int, p.1 as int).revealed
                &&& !pre.cell(p.0 as int, p.1 as int).flagged
            },
        reveal_run(states, hits, cells),
        states[0] == pre,
        0 <= n <= cells.len(),
    ensures
        states[n].wf(),
        states[n].width == pre.width,
        states[n].height == pre.height,
        pre.only_reveals(states[n]),
        counts_consistent(states[n]),
        forall|i: int| 0 <= i < n && #[trigger] hits[i] ==> pre.cell(cells[i].0 as int, cells[i].1 as int).mine,
        !hits.take(n).contains(true) ==> forall|i: int|
            0 <= i < n ==> !pre.cell((#[trigger] cells[i]).0 as int, cells[i].1 as int).mine,
        !hits.take(n).contains(true) ==> forall|a: int, b: int|
            pre.in_bounds(a, b) && (#[trigger] states[n].cell(a, b)).revealed && !pre.cell(a, b).revealed
                ==> !pre.cell(a, b).mine,
    decreases n,
{
    if n > 0 {
        let m = n - 1;
        lemma_run_invariant(pre, states, hits, cells, m);
        let s = states[m];
        let t = states[n];
        let p = cells[m];
        assert(reveal_post(s, t, p.0 as int, p.1 as int, hits[m]));
        lemma_run_step(s, t, p.0 as int, p.1 as int, hits[m]);
        lemma_only_reveals_trans(pre, s, t);
        let _ = s.cell(p.0 as int, p.1 as int);
        if !hits.take(n).contains(true) {
            lemma_take_no_true(hits, m, n);
            lemma_no_hit_step(pre, s, t, p.0 as int, p.1 as int);
        }
    }
}

/// No `true` among the first `n` values means none among the first `m < n`
/// and none at `m`.
proof fn lemma_take_no_true(hits: Seq<bool>, m: int, n: int)
    requires
        0 <= m < n <= hits.len(),
        n == m + 1,
        !hits.take(n).contains(true),
    ensures
        !hits.take(m).contains(true),
        !hits[m],
{
    assert(hits.take(n)[m] == hits[m]);
    if hits.take(m).contains(true) {
        let k = choose|k: int| 0 <= k < m && hits.take(m)[k] == true;
        assert(hits.take(n)[k] == true);
    }
}

/// A reveal that hits nothing, after no mine has been uncovered: the
/// revealed cell holds no mine and still no mine is uncovered.
proof fn lemma_no_hit_step(pre: BoardView, s: BoardView, t: BoardView, x: int, y: int)
    requires
        pre.width == s.width,
        pre.height == s.height,
        pre.in_bounds(x, y),
        !pre.cell(x, y).revealed,
        !pre.cell(x, y).flagged,
        pre.only_reveals(s),
        s.only_reveals(t),
        !(s.cell(x, y).mine && !s.cell(x, y).revealed && !s.cell(x, y).flagged),
        forall|a: int, b: int|
            pre.in_bounds(a, b) && (#[trigger] s.cell(a, b)).revealed && !pre.cell(a, b).revealed
                ==> !pre.cell(a, b).mine,
        forall|a: int, b: int|
            s.in_bounds(a, b) && (#[trigger] t.cell(a, b)).revealed && !s.cell(a, b).revealed ==> !s.cell(
                a,
                b,
            ).mine,
    ensures
        !pre.cell(x, y).mine,
        forall|a: int, b: int|
            pre.in_bounds(a, b) && (#[trigger] t.cell(a, b)).revealed && !pre.cell(a, b).revealed
                ==> !pre.cell(a, b).mine,
{
    let _ = s.cell(x, y);
    assert forall|a: int, b: int|
        pre.in_bounds(a, b) && (#[trigger] t.cell(a, b)).revealed && !pre.cell(a, b).revealed
            implies !pre.cell(a, b).mine by {
        let _ = s.cell(a, b);
    }
}

/// The cells around `(x, y)` that carry a flag.
pub open spec fn flagged_around(v: BoardView, x: int, y: int) -> Set<(usize, usize)> {
    Set::new(
        |p: (usize, usize)|
            v.in_bounds(p.0 as int, p.1 as int) && adjacent(x, y, p.0 as int, p.1 as int) && v.cell(
                p.0 as int,
                p.1 as int,
            ).flagged,
    )
}

/// The cells around `(x, y)` that hold a mine.
pub open spec fn mined_around(v: BoardView, x: int, y: int) -> Set<(usize, usize)> {
    Set::new(
        |p: (usize, usize)|
            v.in_bounds(p.0 as int, p.1 as int) && adjacent(x, y, p.0 as int, p.1 as int) && v.cell(
                p.0 as int,
                p.1 as int,
            ).mine,
    )
}

/// Counting the flags of a list without repeats counts the flagged
/// positions it contains.
proof fn lemma_flags_among_is_card(v: BoardView, s: Seq<(usize, usize)>)
    requires
        s.no_duplicates(),
    ensures
        Set::new(|p: (usize, usize)| s.contains(p) && v.cell(p.0 as int, p.1 as int).flagged).finite(),
        v.flags_among(s) == Set::new(
            |p: (usize, usize)| s.contains(p) && v.cell(p.0 as int, p.1 as int).flagged,
        ).len(),
    decreases s.len(),
{
    let t = Set::new(|p: (usize, usize)| s.contains(p) && v.cell(p.0 as int, p.1 as int).flagged);
    assert(t.subset_of(s.to_set()));
    vstd::set_lib::lemma_len_subset(t, s.to_set());
    if s.len() == 0 {
        assert(t =~= Set::empty());
    } else {
        let s0 = s.drop_last();
        let e = s.last();
        assert(s0.no_duplicates());
        lemma_flags_among_is_card(v, s0);
        let t0 = Set::new(|p: (usize, usize)| s0.contains(p) && v.cell(p.0 as int, p.1 as int).flagged);
        assert(!s0.contains(e)) by {
            if s0.contains(e) {
                let i = choose|i: int| 0 <= i < s0.len() && s0[i] == e;
                assert(s[i] == s[s.len() - 1]);
            }
        }
        assert forall|p: (usize, usize)| s.contains(p) <==> s0.contains(p) || p == e by {
            if s.contains(p) {
                let i = choose|i: int| 0 <= i < s.len() && s[i] == p;
                if i < s.len() - 1 {
                    assert(s0[i] == p);
                }
            }
            if s0.contains(p) {
                let i = choose|i: int| 0 <= i < s0.len() && s0[i] == p;
                assert(s[i] == p);
            }
            if p == e {
                assert(s[s.len() - 1] == p);
            }
        }
        if v.cell(e.0 as int, e.1 as int).flagged {
            assert(t =~= t0.insert(e));
        } else {
            assert(t =~= t0);
        }
    }
}

/// Counting the mines of a list without repeats counts the mined positions
/// it contains.
proof fn lemma_mines_among_is_card(v: BoardView, s: Seq<(usize, usize)>)
    requires
        s.no_duplicates(),
    ensures
        Set::new(|p: (usize, usize)| s.contains(p) && v.cell(p.0 as int, p.1 as int).mine).finite(),
        v.mines_among(s) == Set::new(|p: (usize, usize)| s.contains(p) && v.cell(p.0 as int, p.1 as int).mine).len(),
    decreases s.len(),
{
    let t = Set::new(|p: (usize, usize)| s.contains(p) && v.cell(p.0 as int, p.1 as int).mine);
    assert(t.subset_of(s.to_set()));
    vstd::set_lib::lemma_len_subset(t, s.to_set());
    if s.len() == 0 {
        assert(t =~= Set::empty());
    } else {
        let s0 = s.drop_last();
        let e = s.last();
        assert(s0.no_duplicates());
        lemma_mines_among_is_card(v, s0);
        let t0 = Set::new(|p: (usize, usize)| s0.contains(p) && v.cell(p.0 as int, p.1 as int).mine);
        assert(!s0.contains(e)) by {
            if s0.contains(e) {
                let i = choose|i: int| 0 <= i < s0.len() && s0[i] == e;
                assert(s[i] == s[s.len() - 1]);
            }
        }
        assert forall|p: (usize, usize)| s.contains(p) <==> s0.contains(p) || p == e by {
            if s.contains(p) {
                let i = choose|i: int| 0 <= i < s.len() && s[i] == p;
                if i < s.len() - 1 {
                    assert(s0[i] == p);
                }
            }
            if s0.contains(p) {
                let i = choose|i: int| 0 <= i < s0.len() && s0[i] == p;
                assert(s[i] == p);
            }
            if p == e {
                assert(s[s.len() - 1] == p);
            }
        }
        if v.cell(e.0 as int, e.1 as int).mine {
            assert(t =~= t0.insert(e));
        } else {
            assert(t =~= t0);
        }
    }
}

/// The flag count around `(x, y)` is the number of adjacent cells on the
/// board that carry a flag; question marks and mines do not count.
pub proof fn lemma_flag_count_is_adjacent_flags(v: BoardView, x: int, y: int)
    requires
        v.wf(),
    ensures
        flagged_around(v, x, y).finite(),
        v.flag_neighbors(x, y) == flagged_around(v, x, y).len(),
{
    let s = v.neighbors(x, y);
    lemma_neighbor_seq(v.width as int, v.height as int, x, y);
    lemma_flags_among_is_card(v, s);
    let t = Set::new(|p: (usize, usize)| s.contains(p) && v.cell(p.0 as int, p.1 as int).flagged);
    assert forall|p: (usize, usize)| #[trigger] t.contains(p) <==> flagged_around(v, x, y).contains(p) by {
        if s.contains(p) {
            let i = choose|i: int| 0 <= i < s.len() && s[i] == p;
            let _ = s[i];
        }
        if v.in_bounds(p.0 as int, p.1 as int) && adjacent(x, y, p.0 as int, p.1 as int) {
            assert(s.contains(((p.0 as int) as usize, (p.1 as int) as usize)));
        }
    }
    assert(t =~= flagged_around(v, x, y));
}

/// The mine count around `(x, y)` is the number of adjacent cells on the
/// board that hold a mine.
pub proof fn lemma_mine_count_is_adjacent_mines(v: BoardView, x: int, y: int)
    requires
        v.wf(),
    ensures
        mined_around(v, x, y).finite(),
        v.mine_neighbors(x, y) == mined_around(v, x, y).len(),
{
    let s = v.neighbors(x, y);
    lemma_neighbor_seq(v.width as int, v.height as int, x, y);
    lemma_mines_among_is_card(v, s);
    let t = Set::new(|p: (usize, usize)| s.contains(p) && v.cell(p.0 as int, p.1 as int).mine);
    assert forall|p: (usize, usize)| #[trigger] t.contains(p) <==> mined_around(v, x, y).contains(p) by {
        if s.contains(p) {
            let i = choose|i: int| 0 <= i < s.len() && s[i] == p;
            let _ = s[i];
        }
        if v.in_bounds(p.0 as int, p.1 as int) && adjacent(x, y, p.0 as int, p.1 as int) {
            assert(s.contains(((p.0 as int) as usize, (p.1 as int) as usize)));
        }
    }
    assert(t =~= mined_around(v, x, y));
}

/// Two boards of the same shape whose flags agree have the same flag count
/// around every cell, whatever their question marks, mines or revealed
/// cells.
pub proof fn lemma_flag_count_ignores_other_marks(a: BoardView, b: BoardView, x: int, y: int)
    requires
        a.wf(),
        b.wf(),
        a.width == b.width,
        a.height == b.height,
        forall|i: int, j: int| a.in_bounds(i, j) ==> (#[trigger] a.cell(i, j)).flagged == b.cell(i, j).flagged,
    ensures
        a.flag_neighbors(x, y) == b.flag_neighbors(x, y),
{
    lemma_flag_count_is_adjacent_flags(a, x, y);
    lemma_flag_count_is_adjacent_flags(b, x, y);
    assert forall|p: (usize, usize)| #[trigger] flagged_around(a, x, y).contains(p) <==> flagged_around(b, x, y).contains(p) by {
        if a.in_bounds(p.0 as int, p.1 as int) {
            let _ = a.cell(p.0 as int, p.1 as int);
        }
    }
    assert(flagged_around(a, x, y) =~= flagged_around(b, x, y));
}

/// A chord reveals cells only on a revealed number whose flags around it
/// are exactly as many as its number; the cells are then the adjacent cells
/// that are neither revealed nor flagged.
pub proof fn lemma_chord_needs_matching_flags(v: BoardView, x: int, y: int)
    requires
        v.wf(),
        v.in_bounds(x, y),
    ensures
        chord_candidates(v, x, y).len() > 0 ==> flagged_around(v, x, y).len() == v.cell(x, y).neighbor_mines,
        chord_candidates(v, x, y).len() > 0 ==> v.cell(x, y).revealed && !v.cell(x, y).mine && v.cell(
            x,
            y,
        ).neighbor_mines > 0,
        forall|p: (usize, usize)|
            chord_candidates(v, x, y).contains(p) ==> v.in_bounds(p.0 as int, p.1 as int) && adjacent(
                x,
                y,
                p.0 as int,
                p.1 as int,
            ) && !v.cell(p.0 as int, p.1 as int).revealed && !v.cell(p.0 as int, p.1 as int).flagged,
        v.cell(x, y).revealed && !v.cell(x, y).mine && v.cell(x, y).neighbor_mines > 0 && flagged_around(v, x, y).len()
            == v.cell(x, y).neighbor_mines ==> forall|a: int, b: int|
            v.in_bounds(a, b) && adjacent(x, y, a, b) && !v.cell(a, b).revealed && !v.cell(a, b).flagged
                ==> #[trigger] chord_candidates(v, x, y).contains((a as usize, b as usize)),
{
    lemma_flag_count_is_adjacent_flags(v, x, y);
    lemma_neighbor_seq(v.width as int, v.height as int, x, y);
    v.lemma_hidden_unflagged_among(v.neighbors(x, y));
    let cands = chord_candidates(v, x, y);
    assert forall|p: (usize, usize)| cands.contains(p) implies v.in_bounds(p.0 as int, p.1 as int) && adjacent(
        x,
        y,
        p.0 as int,
        p.1 as int,
    ) && !v.cell(p.0 as int, p.1 as int).revealed && !v.cell(p.0 as int, p.1 as int).flagged by {
        let i = choose|i: int| 0 <= i < cands.len() && cands[i] == p;
        let _ = v.hidden_unflagged_neighbors(x, y)[i];
        let j = choose|j: int| 0 <= j < v.neighbors(x, y).len() && v.neighbors(x, y)[j] == p;
        let _ = v.neighbors(x, y)[j];
    }
    if v.cell(x, y).revealed && !v.cell(x, y).mine && v.cell(x, y).neighbor_mines > 0 && flagged_around(v, x, y).len()
        == v.cell(x, y).neighbor_mines {
        assert forall|a: int, b: int|
            v.in_bounds(a, b) && adjacent(x, y, a, b) && !v.cell(a, b).revealed && !v.cell(a, b).flagged
                implies #[trigger] cands.contains((a as usize, b as usize)) by {
            assert(v.neighbors(x, y).contains((a as usize, b as usize)));
            assert(v.cell((a as usize) as int, (b as usize) as int) == v.cell(a, b));
        }
    }
}

/// A chord whose flags do not match its number changes nothing and hits
/// no mine.
pub proof fn lemma_chord_without_matching_flags_does_nothing(
    pre: BoardView,
    post: BoardView,
    x: int,
    y: int,
    hit: bool,
)
    requires
        pre.wf(),
        pre.in_bounds(x, y),
        flagged_around(pre, x, y).len() != pre.cell(x, y).neighbor_mines,
        reveal_all_post(pre, post, chord_candidates(pre, x, y), hit),
    ensures
        !hit,
        post == pre,
{
    lemma_chord_needs_matching_flags(pre, x, y);
    let (states, hits) = choose|states: Seq<BoardView>, hits: Seq<bool>|
        #[trigger] reveal_run(states, hits, chord_candidates(pre, x, y)) && states[0] == pre && states.last()
            == post && hit == hits.contains(true);
    assert(hits.len() == 0);
}

/// The game is won exactly when every cell without a mine is revealed; a
/// hidden cell without a mine, flagged or not, means the game is not won.
pub proof fn lemma_win_means_every_safe_cell_revealed(v: BoardView)
    ensures
        all_safe_revealed(v) <==> forall|x: int, y: int|
            v.in_bounds(x, y) ==> #[trigger] v.cell(x, y).mine || v.cell(x, y).revealed,
{
    if all_safe_revealed(v) {
        assert forall|x: int, y: int| v.in_bounds(x, y) implies #[trigger] v.cell(x, y).mine || v.cell(
            x,
            y,
        ).revealed by {
        }
    }
}

/// Marks do not decide a win: boards of the same shape with the same mines
/// and revealed cells are both won or both not.
pub proof fn lemma_win_ignores_marks(a: BoardView, b: BoardView)
    requires
        a.width == b.width,
        a.height == b.height,
        forall|x: int, y: int|
            a.in_bounds(x, y) ==> (#[trigger] a.cell(x, y)).mine == b.cell(x, y).mine && a.cell(x, y).revealed
                == b.cell(x, y).revealed,
    ensures
        all_safe_revealed(a) == all_safe_revealed(b),
{
    lemma_win_means_every_safe_cell_revealed(a);
    lemma_win_means_every_safe_cell_revealed(b);
    if all_safe_revealed(a) {
        assert forall|x: int, y: int| b.in_bounds(x, y) implies #[trigger] b.cell(x, y).mine || b.cell(
            x,
            y,
        ).revealed by {
            let _ = a.cell(x, y);
        }
    }
    if all_safe_revealed(b) {
        assert forall|x: int, y: int| a.in_bounds(x, y) implies #[trigger] a.cell(x, y).mine || a.cell(
            x,
            y,
        ).revealed by {
            let _ = b.cell(x, y);
        }
    }
}

/// What a cell shows: a revealed cell other than the exploded one shows its
/// content, whatever its marks (a mine, its number, or empty); a hidden cell
/// shows its flag, else its question mark, else nothing; and the exploded
/// cell shows as such.
pub proof fn lemma_snapshot_shows_content(v: BoardView, x: int, y: int)
    ensures
        v.exploded == Some((x as usize, y as usize)) ==> snapshot_state(v, x, y) == CellState::ExplodedMine,
        v.exploded != Some((x as usize, y as usize)) && v.cell(x, y).revealed ==> snapshot_state(v, x, y) == if v.cell(
            x,
            y,
        ).mine {
            CellState::RevealedMine
        } else if v.cell(x, y).neighbor_mines > 0 {
            CellState::RevealedNumber(v.cell(x, y).neighbor_mines)
        } else {
            CellState::RevealedEmpty
        },
        v.exploded != Some((x as usize, y as usize)) && !v.cell(x, y).revealed ==> snapshot_state(v, x, y) == if v.cell(
            x,
            y,
        ).flagged {
            CellState::Flagged
        } else if v.cell(x, y).questioned {
            CellState::Questioned
        } else {
            CellState::Hidden
        },
{
}

/// The hidden unflagged neighbours of `(x, y)` are exactly the adjacent
/// cells on the board that are neither revealed nor flagged, each once; the
/// chord hints are these cells on a revealed number and nothing elsewhere.
pub proof fn lemma_hidden_unflagged_neighbors_exact(v: BoardView, x: int, y: int)
    requires
        v.wf(),
    ensures
        v.hidden_unflagged_neighbors(x, y).no_duplicates(),
        forall|p: (usize, usize)|
            #[trigger] v.hidden_unflagged_neighbors(x, y).contains(p) <==> v.in_bounds(p.0 as int, p.1 as int)
                && adjacent(x, y, p.0 as int, p.1 as int) && !v.cell(p.0 as int, p.1 as int).revealed && !v.cell(
                p.0 as int,
                p.1 as int,
            ).flagged,
        chord_hints(v, x, y).len() > 0 ==> v.cell(x, y).revealed && !v.cell(x, y).mine && v.cell(x, y).neighbor_mines > 0,
        v.cell(x, y).revealed && !v.cell(x, y).mine && v.cell(x, y).neighbor_mines > 0 ==> chord_hints(v, x, y)
            == v.hidden_unflagged_neighbors(x, y),
{
    let s = v.neighbors(x, y);
    let r = v.hidden_unflagged_neighbors(x, y);
    lemma_neighbor_seq(v.width as int, v.height as int, x, y);
    v.lemma_hidden_unflagged_among(s);
    lemma_selection_no_duplicates(v, s);
    assert forall|p: (usize, usize)| #[trigger] r.contains(p) <==> v.in_bounds(p.0 as int, p.1 as int) && adjacent(
        x,
        y,
        p.0 as int,
        p.1 as int,
    ) && !v.cell(p.0 as int, p.1 as int).revealed && !v.cell(p.0 as int, p.1 as int).flagged by {
        if r.contains(p) {
            let i = choose|i: int| 0 <= i < r.len() && r[i] == p;
            let _ = r[i];
            let j = choose|j: int| 0 <= j < s.len() && s[j] == p;
            let _ = s[j];
        }
        if v.in_bounds(p.0 as int, p.1 as int) && adjacent(x, y, p.0 as int, p.1 as int) {
            assert(s.contains(((p.0 as int) as usize, (p.1 as int) as usize)));
        }
    }
}

/// Selecting from a list without repeats gives a list without repeats.
proof fn lemma_selection_no_duplicates(v: BoardView, s: Seq<(usize, usize)>)
    requires
        s.no_duplicates(),
    ensures
        v.hidden_unflagged_among(s).no_duplicates(),
    decreases s.len(),
{
    if s.len() > 0 {
        let s0 = s.drop_last();
        assert(s0.no_duplicates());
        lemma_selection_no_duplicates(v, s0);
        v.lemma_hidden_unflagged_among(s0);
        let r0 = v.hidden_unflagged_among(s0);
        let r = v.hidden_unflagged_among(s);
        if r.len() > r0.len() {
            assert(!r0.contains(s.last())) by {
                if r0.contains(s.last()) {
                    let i = choose|i: int| 0 <= i < r0.len() && r0[i] == s.last();
                    let _ = r0[i];
                    let j = choose|j: int| 0 <= j < s0.len() && s0[j] == s.last();
                    assert(s[j] == s[s.len() - 1]);
                }
            }
            assert forall|i: int, j: int| 0 <= i < r.len() && 0 <= j < r.len() && i != j implies r[i] != r[j] by {
                if i < r0.len() && j < r0.len() {
                    assert(r[i] == r0[i] && r[j] == r0[j]);
                } else if i < r0.len() {
                    assert(r[i] == r0[i]);
                } else {
                    assert(r[j] == r0[j]);
                }
            }
        }
    }
}

/// Hitting a mine shows exactly the mines and marks the hit cell as
/// exploded; nothing else changes.
pub proof fn lemma_hit_shows_exactly_the_mines(pre: BoardView, post: BoardView, x: int, y: int, hit: bool)
    requires
        pre.wf(),
        pre.in_bounds(x, y),
        reveal_post(pre, post, x, y, hit),
    ensures
        hit <==> pre.cell(x, y).mine && !pre.cell(x, y).revealed && !pre.cell(x, y).flagged,
        hit ==> post.exploded == Some((x as usize, y as usize)),
        hit ==> forall|a: int, b: int|
            pre.in_bounds(a, b) ==> (#[trigger] post.cell(a, b)).revealed == (pre.cell(a, b).revealed || pre.cell(
                a,
                b,
            ).mine),
        !hit ==> post.exploded == pre.exploded,
{
    lemma_reveal_keeps_cells(pre, post, x, y, hit);
    let c = pre.cell(x, y);
    if !(c.flagged || c.revealed) && c.mine {
        let pre2 = BoardView { exploded: Some((x as usize, y as usize)), ..pre };
        assert forall|a: int, b: int| pre.in_bounds(a, b) implies (#[trigger] post.cell(a, b)).revealed == (pre.cell(
            a,
            b,
        ).revealed || pre.cell(a, b).mine) by {
            assert(pre2.in_bounds(a, b));
            assert(pre2.cell(a, b) == pre.cell(a, b));
        }
    }
}

/// Toggling the mark of a revealed cell changes nothing.
pub proof fn lemma_toggle_on_revealed_cell(pre: BoardView, post: BoardView, x: int, y: int)
    requires
        pre.in_bounds(x, y),
        pre.cell(x, y).revealed,
        toggle_post(pre, post, x, y),
    ensures
        post.flags_placed == pre.flags_placed,
        forall|a: int, b: int| pre.in_bounds(a, b) ==> #[trigger] post.cell(a, b) == pre.cell(a, b),
{
}

/// After a win every mine carries a flag and no question mark, every other
/// cell is as it was, and the flag counter equals the number of mines.
pub proof fn lemma_win_flags_every_mine(pre: BoardView, post: BoardView)
    requires
        win_post(pre, post),
    ensures
        post.flags_placed == pre.mine_count,
        post.mine_count == pre.mine_count,
        forall|a: int, b: int|
            pre.in_bounds(a, b) && pre.cell(a, b).mine ==> (#[trigger] post.cell(a, b)).flagged && !post.cell(
                a,
                b,
            ).questioned && post.cell(a, b).mine && post.cell(a, b).revealed == pre.cell(a, b).revealed,
        forall|a: int, b: int|
            pre.in_bounds(a, b) && !pre.cell(a, b).mine ==> #[trigger] post.cell(a, b) == pre.cell(a, b),
{
}

} // verus!

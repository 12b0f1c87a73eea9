//! The flow of a game around the board: what a frame's mouse input asks
//! for, what a click or a chord does to the board, and which state the game
//! moves to.
use vstd::prelude::*;
use crate::board::MinesweeperBoard;
use crate::cell::RevealOutcome;
use crate::rules::{
    all_safe_revealed, chord_anchor, chord_candidates, reveal_all_post, reveal_at_post, room_for_mines,
    toggle_post,
};

verus! {

/// Whether the game goes on, is won or is lost.
#[derive(Clone, Copy, Debug, PartialEq, Eq, Structural)]
pub enum GameState {
    Playing,
    Won,
    Lost,
}

/// The mouse buttons' changes in one frame.
#[derive(Clone, Copy, Debug, PartialEq, Eq, Structural)]
pub struct MouseInput {
    pub left_pressed: bool,
    pub right_pressed: bool,
    pub left_released: bool,
    pub right_released: bool,
    pub right_held: bool,
}

/// What a frame's input asks of the board.
#[derive(Clone, Copy, Debug, PartialEq, Eq, Structural)]
pub enum ClickAction {
    /// Nothing to do.
    Nothing,
    /// A held chord ends: chord on the anchor cell, which is then let go.
    Chord(usize, usize),
    /// A click on the cell under the cursor; `right` tells whether the
    /// right button was pressed.
    AtCursor { right: bool },
}

/// What the input asks for: nothing unless the game goes on; releasing a
/// button while a chord is held ends the chord; a left press without the
/// right button held, or a right press, acts on the cell under the cursor.
pub open spec fn spec_click_action(state: GameState, input: MouseInput, anchor: Option<(usize, usize)>) -> ClickAction {
    if state != GameState::Playing {
        ClickAction::Nothing
    } else if anchor is Some && (input.left_released || input.right_released) {
        let (x, y) = anchor->0;
        ClickAction::Chord(x, y)
    } else if (input.left_pressed && !input.right_held) || input.right_pressed {
        ClickAction::AtCursor { right: input.right_pressed }
    } else {
        ClickAction::Nothing
    }
}

/// What a frame's input does: nothing once the game is over; with a chord
/// held, releasing either button ends it on its anchor; otherwise a left
/// press without the right button held, or a right press, acts on the cell
/// under the cursor, as a flag action exactly when the right button was
/// pressed; any other input does nothing.
pub proof fn lemma_click_action_cases(state: GameState, input: MouseInput, anchor: Option<(usize, usize)>)
    ensures
        state != GameState::Playing ==> spec_click_action(state, input, anchor) == ClickAction::Nothing,
        forall|ax: usize, ay: usize|
            state == GameState::Playing && anchor == Some((ax, ay)) && (input.left_released || input.right_released)
                ==> spec_click_action(state, input, anchor) == ClickAction::Chord(ax, ay),
        state == GameState::Playing && !(anchor is Some && (input.left_released || input.right_released)) && (
        (input.left_pressed && !input.right_held) || input.right_pressed) ==> spec_click_action(state, input, anchor)
            == (ClickAction::AtCursor { right: input.right_pressed }),
        state == GameState::Playing && !(anchor is Some && (input.left_released || input.right_released)) && !(
        (input.left_pressed && !input.right_held) || input.right_pressed) ==> spec_click_action(state, input, anchor)
            == ClickAction::Nothing,
{
}

pub fn click_action(state: GameState, input: MouseInput, anchor: Option<(usize, usize)>) -> (action: ClickAction)
    ensures
        action == spec_click_action(state, input, anchor),
{
    if state != GameState::Playing {
        return ClickAction::Nothing;
    }
    let chord_trigger = anchor.is_some() && (input.left_released || input.right_released);
    let left_only = input.left_pressed && !input.right_held;
    if !chord_trigger && !left_only && !input.right_pressed {
        return ClickAction::Nothing;
    }
    match anchor {
        Some((x, y)) if chord_trigger => ClickAction::Chord(x, y),
        _ => ClickAction::AtCursor { right: input.right_pressed },
    }
}

/// The state after a move that hit a mine or not, on the board it left.
pub open spec fn state_after(hit: bool, won: bool) -> Option<GameState> {
    if hit {
        Some(GameState::Lost)
    } else if won {
        Some(GameState::Won)
    } else {
        None
    }
}

/// Hitting a mine loses the game whatever else holds; otherwise the game
/// is won when every safe cell is revealed, and goes on when not.
pub proof fn lemma_state_after_cases(hit: bool, won: bool)
    ensures
        hit ==> state_after(hit, won) == Some(GameState::Lost),
        !hit && won ==> state_after(hit, won) == Some(GameState::Won),
        !hit && !won ==> state_after(hit, won) is None,
{
}

/// Ends a chord on `(x, y)`: chords there, and reports a loss if a mine was
/// hit, a win if every safe cell is now revealed, and otherwise no change.
pub fn resolve_chord(board: &mut MinesweeperBoard, x: usize, y: usize) -> (next: Option<GameState>)
    requires
        old(board).wf(),
        old(board)@.in_bounds(x as int, y as int),
    ensures
        final(board).wf(),
        exists|hit: bool|
            reveal_all_post(old(board)@, final(board)@, chord_candidates(old(board)@, x as int, y as int), hit)
                && next == state_after(hit, all_safe_revealed(final(board)@)),
{
    let ghost pre = board@;
    let hit = board.chord(x, y);
    proof {
        assert(reveal_all_post(pre, board@, chord_candidates(pre, x as int, y as int), hit));
    }
    let next = if hit {
        Some(GameState::Lost)
    } else if board.check_win() {
        Some(GameState::Won)
    } else {
        None
    };
    proof {
        assert(next == state_after(hit, all_safe_revealed(board@)));
    }
    next
}

/// A click on the cell `(x, y)`. A right press on a hidden cell cycles its
/// mark; anything else is a reveal there, which may lose or win the game.
pub fn click_cell(board: &mut MinesweeperBoard, x: usize, y: usize, right: bool) -> (next: Option<GameState>)
    requires
        old(board).wf(),
        old(board)@.in_bounds(x as int, y as int),
        right && !old(board)@.cell(x as int, y as int).revealed && !old(board)@.cell(x as int, y as int).flagged
            && !old(board)@.cell(x as int, y as int).questioned ==> old(board)@.flags_placed < usize::MAX,
        !(right && !old(board)@.cell(x as int, y as int).revealed) && old(board)@.first_click && !old(
            board,
        )@.cell(x as int, y as int).flagged && !old(board)@.cell(x as int, y as int).revealed ==> room_for_mines(
            old(board)@,
            x as u16,
            y as u16,
            old(board)@.mine_count,
        ),
    ensures
        final(board).wf(),
        if right && !old(board)@.cell(x as int, y as int).revealed {
            toggle_post(old(board)@, final(board)@, x as int, y as int) && next is None
        } else {
            exists|outcome: RevealOutcome|
                reveal_at_post(old(board)@, final(board)@, x as int, y as int, outcome) && next == match outcome {
                    RevealOutcome::Ignored => None,
                    RevealOutcome::HitMine => Some(GameState::Lost),
                    RevealOutcome::Safe => state_after(false, all_safe_revealed(final(board)@)),
                }
        },
{
    if right && !board.is_revealed(x, y) {
        board.toggle_flag(x, y);
        return None;
    }
    let outcome = board.reveal_at(x, y);
    match outcome {
        RevealOutcome::Ignored => None,
        RevealOutcome::HitMine => Some(GameState::Lost),
        RevealOutcome::Safe => {
            if board.check_win() {
                Some(GameState::Won)
            } else {
                None
            }
        },
    }
}

/// The cell of the grid at column `cx` and row `cy`, if the board has one.
pub fn grid_cell(cx: i32, cy: i32, width: u16, height: u16) -> (cell: Option<(usize, usize)>)
    ensures
        cell == if 0 <= cx < width && 0 <= cy < height {
            Some((cx as usize, cy as usize))
        } else {
            None
        },
{
    if cx < 0 || cy < 0 || cx >= width as i32 || cy >= height as i32 {
        return None;
    }
    Some((cx as usize, cy as usize))
}

/// While both buttons are held over a revealed number, that cell becomes
/// the chord anchor and the cells a chord there would reveal are shown as
/// hints; over any other cell, or without both buttons, there is neither.
pub fn chord_preview(board: &MinesweeperBoard, both_held: bool, cursor_cell: Option<(usize, usize)>) -> (preview: (
    Option<(usize, usize)>,
    Vec<(usize, usize)>,
))
    requires
        board.wf(),
        cursor_cell matches Some(c) ==> board@.in_bounds(c.0 as int, c.1 as int),
    ensures
        match cursor_cell {
            Some((x, y)) if both_held && chord_anchor(board@, x as int, y as int) => preview.0 == cursor_cell
                && preview.1@ == board@.hidden_unflagged_neighbors(x as int, y as int),
            _ => preview.0 is None && preview.1@.len() == 0,
        },
{
    if !both_held {
        return (None, Vec::new());
    }
    match cursor_cell {
        Some((x, y)) => {
            let cell = board.cell(x, y);
            if cell.revealed && !cell.mine && cell.neighbor_mines != 0 {
                (Some((x, y)), board.chord_hint_cells(x, y))
            } else {
                (None, Vec::new())
            }
        },
        None => (None, Vec::new()),
    }
}

/// The mine counter: mines minus flags, as the display's `i32`.
pub fn mine_counter(board: &MinesweeperBoard) -> (remaining: i32)
    requires
        i32::MIN <= (board@.mine_count as i32) - (board@.flags_placed as i32) <= i32::MAX,
    ensures
        remaining == (board@.mine_count as i32) - (board@.flags_placed as i32),
{
    board.mine_count() as i32 - board.flags_placed() as i32
}

} // verus!

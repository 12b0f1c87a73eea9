//! The values that describe single cells and the outcome of a click.
use vstd::prelude::*;

verus! {

/// What the board records about one cell.
#[derive(Clone, Copy, Debug, PartialEq, Eq, Structural)]
pub struct CellData {
    pub mine: bool,
    pub revealed: bool,
    pub flagged: bool,
    pub questioned: bool,
    pub neighbor_mines: u8,
}

impl CellData {
    /// A hidden cell with no mine, no mark and a zero count.
    pub open spec fn spec_hidden() -> CellData {
        CellData { mine: false, revealed: false, flagged: false, questioned: false, neighbor_mines: 0 }
    }

    pub fn hidden() -> (c: CellData)
        ensures
            c == CellData::spec_hidden(),
    {
        CellData { mine: false, revealed: false, flagged: false, questioned: false, neighbor_mines: 0 }
    }
}

impl Default for CellData {
    fn default() -> (c: CellData)
        ensures
            c == CellData::spec_hidden(),
    {
        CellData::hidden()
    }
}

/// Result of a player's click on a cell.
#[derive(Clone, Copy, Debug, PartialEq, Eq, Structural)]
pub enum RevealOutcome {
    Ignored,
    Safe,
    HitMine,
}

/// What a player sees on one cell.
#[derive(Clone, Copy, Debug, PartialEq, Eq, Structural)]
pub enum CellState {
    Hidden,
    Flagged,
    Questioned,
    RevealedEmpty,
    RevealedNumber(u8),
    RevealedMine,
    ExplodedMine,
}

#[derive(Clone, Copy, Debug, PartialEq, Eq, Structural)]
pub struct CellSnapshot {
    pub state: CellState,
}

} // verus!

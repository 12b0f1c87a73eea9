use minesweeper::game::{chord_preview, click_action, click_cell, grid_cell, mine_counter, resolve_chord};
use minesweeper::{
    CellData, CellState, ClickAction, GameState, MinesweeperBoard, MouseInput, RevealOutcome,
};

fn edit(board: &mut MinesweeperBoard, x: usize, y: usize, f: impl FnOnce(&mut CellData)) {
    let mut cell = board.cell(x, y);
    f(&mut cell);
    board.set_cell(x, y, cell);
}

fn mined_board(width: u16, height: u16, mines: &[(usize, usize)]) -> MinesweeperBoard {
    let mut board = MinesweeperBoard::new(width, height, mines.len());
    board.set_first_click(false);
    for &(x, y) in mines {
        edit(&mut board, x, y, |c| c.mine = true);
    }
    for x in 0..board.width() {
        for y in 0..board.height() {
            if !board.cell(x, y).mine {
                let n = board.count_mine_neighbors(x as u16, y as u16);
                edit(&mut board, x, y, |c| c.neighbor_mines = n);
            }
        }
    }
    board
}

fn cells(board: &MinesweeperBoard) -> Vec<CellData> {
    let mut all = Vec::new();
    for x in 0..board.width() {
        for y in 0..board.height() {
            all.push(board.cell(x, y));
        }
    }
    all
}

fn mine_total(board: &MinesweeperBoard) -> usize {
    cells(board).iter().filter(|c| c.mine).count()
}

fn no_input() -> MouseInput {
    MouseInput {
        left_pressed: false,
        right_pressed: false,
        left_released: false,
        right_released: false,
        right_held: false,
    }
}

#[test]
fn new_board_cells_are_all_hidden() {
    let board = MinesweeperBoard::new(3, 4, 2);
    assert_eq!(cells(&board).len(), 12);
    assert!(cells(&board).iter().all(|c| *c == CellData::hidden()));
    assert!(matches!(board.cell_snapshot(2, 3).state, CellState::Hidden));
}

#[test]
fn first_click_is_safe_and_opens_its_neighbourhood() {
    for _ in 0..20 {
        let mut board = MinesweeperBoard::new(9, 9, 10);
        assert!(matches!(board.reveal_at(4, 4), RevealOutcome::Safe));
        assert_eq!(mine_total(&board), 10);
        assert_eq!(board.cell(4, 4).neighbor_mines, 0);
        for x in 3..=5 {
            for y in 3..=5 {
                assert!(!board.cell(x, y).mine);
                assert!(board.cell(x, y).revealed);
            }
        }
    }
}

#[test]
fn placed_mines_fill_every_site_when_there_is_exactly_room() {
    // A 4x4 board clicked in the corner has 12 cells outside the safe zone.
    let mut board = MinesweeperBoard::new(4, 4, 12);
    assert_eq!(board.mine_capacity(0, 0), 12);
    board.place_mines(0, 0);
    for x in 0..4 {
        for y in 0..4 {
            assert_eq!(board.cell(x, y).mine, x > 1 || y > 1);
        }
    }
    assert_eq!(board.cell(0, 0).neighbor_mines, 0);
    assert_eq!(board.cell(1, 1).neighbor_mines, 5);
    assert_eq!(board.cell(0, 1).neighbor_mines, 2);
}

#[test]
fn mine_capacity_counts_cells_outside_the_safe_zone() {
    let board = MinesweeperBoard::new(3, 3, 1);
    assert_eq!(board.mine_capacity(1, 1), 0);
    let board = MinesweeperBoard::new(5, 4, 1);
    assert_eq!(board.mine_capacity(0, 0), 16);
    let board = mined_board(5, 4, &[(4, 3)]);
    assert_eq!(board.mine_capacity(0, 0), 15);
}

#[test]
fn placed_numbers_are_right() {
    let mut board = MinesweeperBoard::new(10, 7, 20);
    board.place_mines(0, 6);
    assert_eq!(mine_total(&board), 20);
    for x in 0..10 {
        for y in 0..7 {
            let cell = board.cell(x, y);
            if !cell.mine {
                let expected = board
                    .neighbor_positions(x, y)
                    .iter()
                    .filter(|&&(a, b)| board.cell(a, b).mine)
                    .count();
                assert_eq!(cell.neighbor_mines as usize, expected);
            } else {
                assert_eq!(cell.neighbor_mines, 0);
            }
        }
    }
}

#[test]
fn neighbor_positions_come_column_by_column() {
    let board = MinesweeperBoard::new(3, 3, 0);
    assert_eq!(
        board.neighbor_positions(1, 1),
        vec![(0, 0), (0, 1), (0, 2), (1, 0), (1, 2), (2, 0), (2, 1), (2, 2)]
    );
    assert_eq!(board.neighbor_positions(2, 0), vec![(1, 0), (1, 1), (2, 1)]);
    let thin = MinesweeperBoard::new(1, 1, 0);
    assert!(thin.neighbor_positions(0, 0).is_empty());
}

#[test]
fn toggling_three_times_restores_the_cell() {
    let mut board = MinesweeperBoard::new(3, 3, 0);
    let before = board.cell(1, 2);
    board.toggle_flag(1, 2);
    assert!(matches!(board.cell_snapshot(1, 2).state, CellState::Flagged));
    assert_eq!(board.flags_placed(), 1);
    board.toggle_flag(1, 2);
    board.toggle_flag(1, 2);
    assert_eq!(board.cell(1, 2), before);
    assert_eq!(board.flags_placed(), 0);
}

#[test]
fn unflagging_with_a_zero_counter_saturates() {
    let mut board = MinesweeperBoard::new(2, 2, 0);
    edit(&mut board, 0, 0, |c| c.flagged = true);
    board.toggle_flag(0, 0);
    assert_eq!(board.flags_placed(), 0);
    assert!(board.cell(0, 0).questioned);
}

#[test]
fn revealing_twice_changes_nothing_the_second_time() {
    let mut board = mined_board(4, 4, &[(3, 0)]);
    assert!(!board.reveal_cell(0, 3));
    let after_first = cells(&board);
    assert!(!board.reveal_cell(0, 3));
    assert_eq!(cells(&board), after_first);
}

#[test]
fn revealing_a_flagged_cell_does_nothing() {
    let mut board = mined_board(2, 2, &[(0, 0)]);
    edit(&mut board, 0, 0, |c| c.flagged = true);
    let before = cells(&board);
    assert!(!board.reveal_cell(0, 0));
    assert_eq!(cells(&board), before);
    assert!(matches!(board.cell_snapshot(0, 0).state, CellState::Flagged));
}

#[test]
fn flood_fill_opens_the_whole_empty_region_and_stops_at_numbers() {
    let mut board = mined_board(5, 5, &[(4, 4), (0, 4)]);
    board.flood_fill(0, 0);
    for x in 0..5 {
        for y in 0..5 {
            let cell = board.cell(x, y);
            assert_eq!(cell.revealed, !cell.mine);
            if cell.revealed && cell.neighbor_mines == 0 {
                for (a, b) in board.neighbor_positions(x, y) {
                    let n = board.cell(a, b);
                    assert!(n.revealed || n.flagged);
                }
            }
        }
    }
}

#[test]
fn flood_fill_does_not_pass_a_wall_of_numbers() {
    // Mines in column 2 split the board; the right side stays hidden.
    let mut board = mined_board(5, 3, &[(2, 0), (2, 1), (2, 2)]);
    board.flood_fill(0, 1);
    for y in 0..3 {
        assert!(board.cell(0, y).revealed);
        assert!(board.cell(1, y).revealed);
        assert!(!board.cell(2, y).revealed);
        assert!(!board.cell(3, y).revealed);
        assert!(!board.cell(4, y).revealed);
    }
}

#[test]
fn flood_fill_on_a_revealed_cell_does_nothing() {
    let mut board = mined_board(3, 3, &[]);
    edit(&mut board, 1, 1, |c| c.revealed = true);
    let before = cells(&board);
    board.flood_fill(1, 1);
    assert_eq!(cells(&board), before);
}

#[test]
fn hitting_a_mine_shows_every_mine_and_only_mines() {
    let mut board = mined_board(4, 4, &[(0, 0), (3, 3), (1, 2)]);
    assert!(board.reveal_cell(3, 3));
    for x in 0..4 {
        for y in 0..4 {
            assert_eq!(board.cell(x, y).revealed, board.cell(x, y).mine);
        }
    }
    assert!(matches!(board.cell_snapshot(3, 3).state, CellState::ExplodedMine));
    assert!(matches!(board.cell_snapshot(0, 0).state, CellState::RevealedMine));
}

#[test]
fn correct_flags_make_a_safe_chord() {
    let mut board = mined_board(4, 4, &[(0, 0), (2, 2)]);
    edit(&mut board, 1, 1, |c| c.revealed = true);
    edit(&mut board, 0, 0, |c| c.flagged = true);
    edit(&mut board, 2, 2, |c| c.flagged = true);
    assert_eq!(board.chord_hint_cells(1, 1).len(), 6);
    assert!(!board.chord(1, 1));
    for (a, b) in board.neighbor_positions(1, 1) {
        assert!(board.cell(a, b).revealed || board.cell(a, b).flagged);
    }
    assert!(!board.cell(2, 2).revealed);
}

#[test]
fn chord_without_enough_flags_does_nothing() {
    let mut board = mined_board(3, 3, &[(0, 0), (2, 2)]);
    edit(&mut board, 1, 1, |c| c.revealed = true);
    let before = cells(&board);
    assert!(!board.chord(1, 1));
    assert_eq!(cells(&board), before);
}

#[test]
fn check_win_and_finalize_win() {
    let mut board = mined_board(2, 2, &[(0, 1)]);
    for (x, y) in [(0, 0), (1, 0), (1, 1)] {
        board.reveal_cell(x, y);
    }
    assert!(board.check_win());
    board.finalize_win();
    assert!(board.cell(0, 1).flagged);
    assert!(!board.cell(1, 1).flagged);
    assert_eq!(board.flags_placed(), 1);
}

#[test]
fn snapshot_prefers_the_exploded_mark_and_flags_over_numbers() {
    let mut board = mined_board(3, 1, &[(0, 0)]);
    edit(&mut board, 1, 0, |c| c.flagged = true);
    assert!(matches!(board.cell_snapshot(1, 0).state, CellState::Flagged));
    edit(&mut board, 1, 0, |c| c.revealed = true);
    assert!(matches!(board.cell_snapshot(1, 0).state, CellState::RevealedNumber(1)));
    edit(&mut board, 2, 0, |c| c.questioned = true);
    assert!(matches!(board.cell_snapshot(2, 0).state, CellState::Questioned));
}

#[test]
fn click_action_follows_the_mouse() {
    let left = MouseInput { left_pressed: true, ..no_input() };
    let right = MouseInput { right_pressed: true, ..no_input() };
    let left_while_right_held = MouseInput { left_pressed: true, right_held: true, ..no_input() };
    let release = MouseInput { left_released: true, ..no_input() };

    assert_eq!(click_action(GameState::Playing, left, None), ClickAction::AtCursor { right: false });
    assert_eq!(click_action(GameState::Playing, right, None), ClickAction::AtCursor { right: true });
    assert_eq!(click_action(GameState::Playing, left_while_right_held, None), ClickAction::Nothing);
    assert_eq!(click_action(GameState::Playing, release, Some((2, 3))), ClickAction::Chord(2, 3));
    assert_eq!(click_action(GameState::Playing, release, None), ClickAction::Nothing);
    assert_eq!(click_action(GameState::Won, left, None), ClickAction::Nothing);
    assert_eq!(click_action(GameState::Lost, release, Some((0, 0))), ClickAction::Nothing);
    assert_eq!(click_action(GameState::Playing, no_input(), None), ClickAction::Nothing);
}

#[test]
fn grid_cell_keeps_only_board_cells() {
    assert_eq!(grid_cell(0, 0, 4, 3), Some((0, 0)));
    assert_eq!(grid_cell(3, 2, 4, 3), Some((3, 2)));
    assert_eq!(grid_cell(4, 2, 4, 3), None);
    assert_eq!(grid_cell(3, 3, 4, 3), None);
    assert_eq!(grid_cell(-1, 0, 4, 3), None);
    assert_eq!(grid_cell(0, -5, 4, 3), None);
}

#[test]
fn clicks_flag_reveal_win_and_lose() {
    let mut board = mined_board(2, 1, &[(0, 0)]);
    assert_eq!(click_cell(&mut board, 0, 0, true), None);
    assert!(board.is_flagged(0, 0));
    assert_eq!(click_cell(&mut board, 0, 0, false), None);
    assert_eq!(click_cell(&mut board, 1, 0, false), Some(GameState::Won));

    let mut board = mined_board(2, 1, &[(0, 0)]);
    assert_eq!(click_cell(&mut board, 0, 0, false), Some(GameState::Lost));
    // A right press on a revealed cell is a (refused) reveal.
    assert_eq!(click_cell(&mut board, 0, 0, true), None);
}

#[test]
fn resolving_chords_reports_the_game_state() {
    let mut board = mined_board(3, 1, &[(0, 0)]);
    edit(&mut board, 1, 0, |c| c.revealed = true);
    edit(&mut board, 2, 0, |c| c.flagged = true);
    assert_eq!(resolve_chord(&mut board, 1, 0), Some(GameState::Lost));

    let mut board = mined_board(3, 1, &[(0, 0)]);
    edit(&mut board, 1, 0, |c| c.revealed = true);
    edit(&mut board, 0, 0, |c| c.flagged = true);
    assert_eq!(resolve_chord(&mut board, 1, 0), Some(GameState::Won));

    let mut board = mined_board(3, 2, &[(0, 0)]);
    edit(&mut board, 2, 1, |c| c.revealed = true);
    assert_eq!(resolve_chord(&mut board, 2, 1), None);
}

#[test]
fn chord_preview_needs_both_buttons() {
    let mut board = mined_board(3, 3, &[(0, 0)]);
    edit(&mut board, 1, 1, |c| c.revealed = true);
    let (anchor, hints) = chord_preview(&board, true, Some((1, 1)));
    assert_eq!(anchor, Some((1, 1)));
    assert_eq!(hints.len(), 8);
    let (anchor, hints) = chord_preview(&board, false, Some((1, 1)));
    assert_eq!(anchor, None);
    assert!(hints.is_empty());
    let (anchor, hints) = chord_preview(&board, true, Some((2, 2)));
    assert_eq!(anchor, None);
    assert!(hints.is_empty());
    let (anchor, hints) = chord_preview(&board, true, Some((0, 0)));
    assert_eq!(anchor, None);
    assert!(hints.is_empty());
    let (anchor, _) = chord_preview(&board, true, None);
    assert_eq!(anchor, None);
}

#[test]
fn mine_counter_is_mines_minus_flags() {
    let mut board = MinesweeperBoard::new(3, 3, 4);
    assert_eq!(mine_counter(&board), 4);
    board.set_flags_placed(6);
    assert_eq!(mine_counter(&board), -2);
}

#[test]
fn picks_choose_sites_column_by_column_with_swap_removal() {
    // Sites around a click on (0, 0) of a 4x4 board, column by column:
    // (0,2) (0,3) (1,2) (1,3) (2,0) (2,1) (2,2) (2,3) (3,0) (3,1) (3,2) (3,3).
    let mut board = MinesweeperBoard::new(4, 4, 2);
    board.place_mines_from(0, 0, &vec![0, 0]);
    // The first pick takes (0,2); (3,3) moves to index 0 and is the second.
    let mines: Vec<(usize, usize)> = (0..4)
        .flat_map(|x| (0..4).map(move |y| (x, y)))
        .filter(|&(x, y)| board.cell(x, y).mine)
        .collect();
    assert_eq!(mines, vec![(0, 2), (3, 3)]);
    assert_eq!(board.cell(1, 1).neighbor_mines, 1);
    assert_eq!(board.cell(2, 2).neighbor_mines, 1);

    let mut board = MinesweeperBoard::new(4, 4, 3);
    board.place_mines_from(0, 0, &vec![11, 4, 9]);
    // 11 takes (3,3); 4 takes (2,0); then (3,2) sits at index 4 and the list
    // has 10 sites, so 9 takes (3,1).
    let mines: Vec<(usize, usize)> = (0..4)
        .flat_map(|x| (0..4).map(move |y| (x, y)))
        .filter(|&(x, y)| board.cell(x, y).mine)
        .collect();
    assert_eq!(mines, vec![(2, 0), (3, 1), (3, 3)]);
}

#[test]
fn flag_counter_follows_the_flags() {
    let mut board = MinesweeperBoard::new(4, 4, 3);
    let count = |b: &MinesweeperBoard| cells(b).iter().filter(|c| c.flagged).count();
    for &(x, y) in &[(0, 0), (1, 1), (2, 2), (1, 1), (3, 3), (1, 1), (0, 0)] {
        board.toggle_flag(x, y);
        assert_eq!(board.flags_placed(), count(&board));
        assert!(cells(&board).iter().all(|c| !(c.flagged && c.questioned)));
    }
    assert!(matches!(board.reveal_at(3, 0), RevealOutcome::Safe));
    assert_eq!(board.flags_placed(), count(&board));
}

use minesweeper_core::board::{Board, BoardSettings, Tile};
use minesweeper_core::game::{FlagOutcome, Game, GamePhase, GameStats};
use minesweeper_core::reveal_engine::RevealOutcome;
use minesweeper_core::GameError;

fn layout(width: u8, height: u8, mine_cells: &[(u8, u8)]) -> Vec<bool> {
    let mut mines = vec![false; width as usize * height as usize];
    for &(x, y) in mine_cells {
        mines[y as usize * width as usize + x as usize] = true;
    }
    mines
}

fn game_with_mines(width: u8, height: u8, mine_cells: &[(u8, u8)]) -> Game {
    Game::with_board(Board::from_mine_layout(width, height, layout(width, height, mine_cells)).unwrap())
}

fn tile(g: &Game, x: u8, y: u8) -> Tile {
    g.board.get(x, y).unwrap()
}

#[test]
fn empty_board_floods_entirely_and_wins() {
    // 3x3, no mines: one reveal opens the whole board and wins at once
    let mut g = game_with_mines(3, 3, &[]);
    assert_eq!(g.reveal_tile(0, 0).unwrap(), RevealOutcome::Safe);
    for y in 0..3 {
        for x in 0..3 {
            assert!(tile(&g, x, y).is_revealed);
        }
    }
    assert_eq!(g.stats.tiles_revealed, 9);
    assert_eq!(g.phase, GamePhase::Won);
}

#[test]
fn numbered_cell_reveals_only_itself() {
    // 3x3 with the mine in the middle: every other cell shows 1
    let mut g = game_with_mines(3, 3, &[(1, 1)]);
    assert_eq!(g.reveal_tile(0, 0).unwrap(), RevealOutcome::Safe);
    assert!(tile(&g, 0, 0).is_revealed);
    assert_eq!(tile(&g, 0, 0).adjacent_mines, 1);
    let mut revealed = 0;
    for y in 0..3 {
        for x in 0..3 {
            if tile(&g, x, y).is_revealed {
                revealed += 1;
            }
        }
    }
    assert_eq!(revealed, 1);
    assert_eq!(g.stats.tiles_revealed, 1);
    assert_eq!(g.phase, GamePhase::Playing);
}

#[test]
fn revealing_a_mine_ends_the_game_and_shows_all_mines() {
    let mut g = game_with_mines(3, 3, &[(1, 1)]);
    assert_eq!(g.reveal_tile(1, 1).unwrap(), RevealOutcome::Mine);
    assert_eq!(g.phase, GamePhase::GameOver);
    assert!(tile(&g, 1, 1).is_revealed);
}

#[test]
fn game_over_reveals_every_mine() {
    let mut g = game_with_mines(4, 1, &[(0, 0), (3, 0)]);
    assert_eq!(g.reveal_tile(0, 0).unwrap(), RevealOutcome::Mine);
    assert_eq!(g.phase, GamePhase::GameOver);
    assert!(tile(&g, 0, 0).is_revealed);
    assert!(tile(&g, 3, 0).is_revealed);
}

#[test]
fn win_fires_on_the_last_safe_reveal_with_a_flag_placed() {
    // flag the central mine, then open the 8 remaining cells one by one
    let mut g = game_with_mines(3, 3, &[(1, 1)]);
    assert_eq!(g.toggle_flag(1, 1).unwrap(), FlagOutcome::Flagged);
    assert_eq!(g.stats.mines_remaining, 0);
    let cells = [(0, 0), (1, 0), (2, 0), (0, 1), (2, 1), (0, 2), (1, 2)];
    for &(x, y) in cells.iter() {
        assert_eq!(g.reveal_tile(x, y).unwrap(), RevealOutcome::Safe);
        assert_eq!(g.phase, GamePhase::Playing);
    }
    assert_eq!(g.reveal_tile(2, 2).unwrap(), RevealOutcome::Safe);
    assert_eq!(g.stats.tiles_revealed, 8);
    assert_eq!(g.phase, GamePhase::Won);
}

#[test]
fn revealing_twice_is_a_noop() {
    let mut g = game_with_mines(3, 3, &[(1, 1)]);
    assert_eq!(g.reveal_tile(0, 0).unwrap(), RevealOutcome::Safe);
    let before = g.stats.tiles_revealed;
    assert_eq!(g.reveal_tile(0, 0).unwrap(), RevealOutcome::NoOp);
    assert_eq!(g.stats.tiles_revealed, before);
    assert_eq!(g.phase, GamePhase::Playing);
    let mut revealed = 0;
    for y in 0..3 {
        for x in 0..3 {
            if tile(&g, x, y).is_revealed {
                revealed += 1;
            }
        }
    }
    assert_eq!(revealed, 1);
}

#[test]
fn revealing_a_flagged_cell_is_a_noop() {
    let mut g = game_with_mines(3, 3, &[(1, 1)]);
    assert_eq!(g.toggle_flag(0, 0).unwrap(), FlagOutcome::Flagged);
    assert_eq!(g.reveal_tile(0, 0).unwrap(), RevealOutcome::NoOp);
    assert!(!tile(&g, 0, 0).is_revealed);
}

#[test]
fn flagging_a_revealed_cell_is_a_noop() {
    let mut g = game_with_mines(3, 3, &[(1, 1)]);
    g.reveal_tile(0, 0).unwrap();
    assert_eq!(g.toggle_flag(0, 0).unwrap(), FlagOutcome::NoOp);
    assert!(!tile(&g, 0, 0).is_flagged);
    assert_eq!(g.stats.mines_remaining, 1);
}

#[test]
fn over_flagging_drives_the_deficit_negative() {
    let mut g = game_with_mines(3, 3, &[(1, 1)]);
    assert_eq!(g.stats.mines_remaining, 1);
    assert_eq!(g.toggle_flag(0, 0).unwrap(), FlagOutcome::Flagged);
    assert_eq!(g.toggle_flag(2, 2).unwrap(), FlagOutcome::Flagged);
    assert_eq!(g.stats.mines_remaining, -1);
    assert_eq!(g.toggle_flag(0, 0).unwrap(), FlagOutcome::Unflagged);
    assert_eq!(g.stats.mines_remaining, 0);
}

#[test]
fn chord_with_matching_flags_opens_the_rest() {
    // corner mine, its flag placed: chording the central 1 opens everything else
    let mut g = game_with_mines(3, 3, &[(0, 0)]);
    assert_eq!(g.reveal_tile(1, 1).unwrap(), RevealOutcome::Safe);
    assert_eq!(tile(&g, 1, 1).adjacent_mines, 1);
    assert_eq!(g.toggle_flag(0, 0).unwrap(), FlagOutcome::Flagged);
    assert_eq!(g.chord(1, 1).unwrap(), RevealOutcome::Safe);
    assert!(!tile(&g, 0, 0).is_revealed);
    for y in 0..3 {
        for x in 0..3 {
            if !(x == 0 && y == 0) {
                assert!(tile(&g, x, y).is_revealed);
            }
        }
    }
    assert_eq!(g.phase, GamePhase::Won);
}

#[test]
fn chord_with_mismatched_flags_changes_nothing() {
    let mut g = game_with_mines(3, 3, &[(0, 0)]);
    g.reveal_tile(1, 1).unwrap();
    // no flag placed: the count does not match, so nothing moves
    assert_eq!(g.chord(1, 1).unwrap(), RevealOutcome::NoOp);
    let mut revealed = 0;
    for y in 0..3 {
        for x in 0..3 {
            if tile(&g, x, y).is_revealed {
                revealed += 1;
            }
        }
    }
    assert_eq!(revealed, 1);
    assert_eq!(g.phase, GamePhase::Playing);
}

#[test]
fn chord_with_a_wrong_flag_hits_the_mine() {
    // the flag sits on a safe cell, so the chord opens the real mine
    let mut g = game_with_mines(3, 3, &[(0, 0)]);
    g.reveal_tile(1, 1).unwrap();
    assert_eq!(g.toggle_flag(2, 2).unwrap(), FlagOutcome::Flagged);
    assert_eq!(g.chord(1, 1).unwrap(), RevealOutcome::Mine);
    assert_eq!(g.phase, GamePhase::GameOver);
    assert!(tile(&g, 0, 0).is_revealed);
    assert!(!tile(&g, 2, 2).is_revealed);
}

#[test]
fn chord_on_an_unrevealed_cell_is_a_noop() {
    let mut g = game_with_mines(3, 3, &[(0, 0)]);
    assert_eq!(g.chord(1, 1).unwrap(), RevealOutcome::NoOp);
}

#[test]
fn intents_are_ignored_outside_the_playing_phase() {
    let mut g = game_with_mines(3, 3, &[(1, 1)]);
    g.reveal_tile(1, 1).unwrap();
    assert_eq!(g.phase, GamePhase::GameOver);
    assert_eq!(g.reveal_tile(0, 0).unwrap(), RevealOutcome::NoOp);
    assert_eq!(g.toggle_flag(0, 0).unwrap(), FlagOutcome::NoOp);
    assert_eq!(g.chord(0, 0).unwrap(), RevealOutcome::NoOp);
    assert!(!tile(&g, 0, 0).is_revealed);
}

#[test]
fn new_game_resets_phase_stats_and_board() {
    let mut g = game_with_mines(3, 3, &[(1, 1)]);
    g.toggle_flag(0, 0).unwrap();
    g.reveal_tile(1, 1).unwrap();
    assert_eq!(g.phase, GamePhase::GameOver);
    g.new_game();
    assert_eq!(g.phase, GamePhase::Playing);
    assert_eq!(g.stats.tiles_revealed, 0);
    assert_eq!(g.stats.mines_remaining, 1);
    for y in 0..3 {
        for x in 0..3 {
            let t = tile(&g, x, y);
            assert!(!t.is_revealed);
            assert!(!t.is_flagged);
        }
    }
}

#[test]
fn out_of_bounds_intents_are_errors() {
    let mut g = game_with_mines(3, 3, &[(1, 1)]);
    assert_eq!(g.reveal_tile(3, 0).unwrap_err(), GameError::OutOfBounds);
    assert_eq!(g.toggle_flag(0, 3).unwrap_err(), GameError::OutOfBounds);
    assert_eq!(g.chord(9, 9).unwrap_err(), GameError::OutOfBounds);
}

#[test]
fn game_new_validates_the_configuration() {
    assert_eq!(
        Game::new(BoardSettings { width: 2, height: 2, mine_count: 4 }).unwrap_err(),
        GameError::InvalidBoardConfig
    );
    let g = Game::new(BoardSettings { width: 9, height: 9, mine_count: 10 }).unwrap();
    assert_eq!(g.phase, GamePhase::Playing);
    assert_eq!(g.stats.mines_remaining, 10);
    assert_eq!(g.stats.tiles_revealed, 0);
}

#[test]
fn trivial_single_cell_game_wins_immediately() {
    let mut g = game_with_mines(1, 1, &[]);
    assert_eq!(g.reveal_tile(0, 0).unwrap(), RevealOutcome::Safe);
    assert_eq!(g.phase, GamePhase::Won);
    assert_eq!(g.stats.tiles_revealed, 1);
}

#[test]
fn flood_stops_at_numbered_border_and_flags() {
    // 5x1 strip with a mine at the right end: cells 0..2 have no mine
    // neighbor, cell 3 shows 1. Flagging cell 1 blocks the flood from 0.
    let mut g = game_with_mines(5, 1, &[(4, 0)]);
    g.toggle_flag(1, 0).unwrap();
    assert_eq!(g.reveal_tile(0, 0).unwrap(), RevealOutcome::Safe);
    assert!(tile(&g, 0, 0).is_revealed);
    assert!(!tile(&g, 1, 0).is_revealed);
    assert!(!tile(&g, 2, 0).is_revealed);
    assert!(!tile(&g, 3, 0).is_revealed);
    // without the flag the flood opens up to the numbered border
    let mut g2 = game_with_mines(5, 1, &[(4, 0)]);
    assert_eq!(g2.reveal_tile(0, 0).unwrap(), RevealOutcome::Safe);
    assert!(tile(&g2, 0, 0).is_revealed);
    assert!(tile(&g2, 1, 0).is_revealed);
    assert!(tile(&g2, 2, 0).is_revealed);
    assert!(tile(&g2, 3, 0).is_revealed);
    assert!(!tile(&g2, 4, 0).is_revealed);
    assert_eq!(tile(&g2, 3, 0).adjacent_mines, 1);
    assert_eq!(g2.phase, GamePhase::Won);
}

#[test]
fn default_stats_match_the_stock_configuration() {
    let s = GameStats::default();
    assert_eq!(s.mines_remaining, 20);
    assert_eq!(s.tiles_revealed, 0);
}

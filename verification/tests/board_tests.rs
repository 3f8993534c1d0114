use minesweeper_core::board::{Board, BoardSettings, Tile};
use minesweeper_core::geometry::{neighbors, Position};
use minesweeper_core::GameError;

fn layout(width: u8, height: u8, mine_cells: &[(u8, u8)]) -> Vec<bool> {
    let mut mines = vec![false; width as usize * height as usize];
    for &(x, y) in mine_cells {
        mines[y as usize * width as usize + x as usize] = true;
    }
    mines
}

fn tile(b: &Board, x: u8, y: u8) -> Tile {
    b.get(x, y).unwrap()
}

#[test]
fn generated_board_has_exact_mine_count() {
    let b = Board::new(9, 9, 10).unwrap();
    assert_eq!(b.mine_count, 10);
    let mut mines = 0;
    for y in 0..9 {
        for x in 0..9 {
            if tile(&b, x, y).is_mine {
                mines += 1;
            }
        }
    }
    assert_eq!(mines, 10);
}

#[test]
fn generated_board_starts_hidden_and_unflagged() {
    let b = Board::new(12, 12, 20).unwrap();
    for y in 0..12 {
        for x in 0..12 {
            let t = tile(&b, x, y);
            assert!(!t.is_revealed);
            assert!(!t.is_flagged);
        }
    }
}

#[test]
fn adjacency_counts_match_geometry() {
    let b = Board::new(8, 6, 11).unwrap();
    for y in 0..6 {
        for x in 0..8 {
            let t = tile(&b, x, y);
            if t.is_mine {
                assert_eq!(t.adjacent_mines, 0);
            } else {
                let mut expected = 0;
                for p in neighbors(x, y, 8, 6).unwrap() {
                    if tile(&b, p.x, p.y).is_mine {
                        expected += 1;
                    }
                }
                assert_eq!(t.adjacent_mines, expected);
            }
        }
    }
}

#[test]
fn adjacency_counts_on_fixed_layout() {
    // single mine in the middle of a 3x3 grid
    let b = Board::from_mine_layout(3, 3, layout(3, 3, &[(1, 1)])).unwrap();
    for y in 0..3 {
        for x in 0..3 {
            let t = tile(&b, x, y);
            if x == 1 && y == 1 {
                assert!(t.is_mine);
                assert_eq!(t.adjacent_mines, 0);
            } else {
                assert!(!t.is_mine);
                assert_eq!(t.adjacent_mines, 1);
            }
        }
    }
}

#[test]
fn invalid_board_configs_are_rejected() {
    assert_eq!(Board::new(0, 5, 0).unwrap_err(), GameError::InvalidBoardConfig);
    assert_eq!(Board::new(5, 0, 0).unwrap_err(), GameError::InvalidBoardConfig);
    assert_eq!(Board::new(2, 2, 4).unwrap_err(), GameError::InvalidBoardConfig);
    assert_eq!(Board::new(2, 2, 5).unwrap_err(), GameError::InvalidBoardConfig);
    // a 1x1 board can hold no mine at all
    assert_eq!(Board::new(1, 1, 1).unwrap_err(), GameError::InvalidBoardConfig);
    assert!(Board::new(1, 1, 0).is_ok());
}

#[test]
fn from_mine_layout_rejects_bad_layouts() {
    // wrong number of entries
    assert_eq!(
        Board::from_mine_layout(3, 3, vec![false; 8]).unwrap_err(),
        GameError::InvalidBoardConfig
    );
    // mines fill the grid
    assert_eq!(
        Board::from_mine_layout(2, 2, vec![true; 4]).unwrap_err(),
        GameError::InvalidBoardConfig
    );
    assert_eq!(
        Board::from_mine_layout(0, 3, vec![]).unwrap_err(),
        GameError::InvalidBoardConfig
    );
}

#[test]
fn get_reports_out_of_bounds() {
    let b = Board::new(4, 4, 3).unwrap();
    assert_eq!(b.get(4, 0).unwrap_err(), GameError::OutOfBounds);
    assert_eq!(b.get(0, 4).unwrap_err(), GameError::OutOfBounds);
    assert!(b.get(3, 3).is_ok());
}

#[test]
fn reveal_at_is_idempotent() {
    let mut b = Board::from_mine_layout(2, 2, layout(2, 2, &[(0, 0)])).unwrap();
    b.reveal_at(1, 1).unwrap();
    assert!(tile(&b, 1, 1).is_revealed);
    b.reveal_at(1, 1).unwrap();
    assert!(tile(&b, 1, 1).is_revealed);
    assert_eq!(b.count_revealed_tiles(), 1);
    assert_eq!(b.reveal_at(2, 0).unwrap_err(), GameError::OutOfBounds);
}

#[test]
fn toggle_flag_at_flips_the_flag() {
    let mut b = Board::from_mine_layout(2, 2, layout(2, 2, &[(0, 0)])).unwrap();
    b.toggle_flag_at(0, 1).unwrap();
    assert!(tile(&b, 0, 1).is_flagged);
    assert_eq!(b.count_flagged_tiles(), 1);
    b.toggle_flag_at(0, 1).unwrap();
    assert!(!tile(&b, 0, 1).is_flagged);
    assert_eq!(b.count_flagged_tiles(), 0);
    assert_eq!(b.toggle_flag_at(0, 2).unwrap_err(), GameError::OutOfBounds);
}

#[test]
fn tile_helpers_flip_their_fields() {
    let mut t = Tile { is_mine: false, is_flagged: false, is_revealed: false, adjacent_mines: 3 };
    t.toggle_flag();
    assert!(t.is_flagged);
    t.toggle_flag();
    assert!(!t.is_flagged);
    t.mark_revealed();
    assert!(t.is_revealed);
    assert_eq!(t.adjacent_mines, 3);
}

#[test]
fn neighbors_center_in_row_major_order() {
    let v = neighbors(1, 1, 3, 3).unwrap();
    let expected = [(0, 0), (1, 0), (2, 0), (0, 1), (2, 1), (0, 2), (1, 2), (2, 2)];
    assert_eq!(v.len(), 8);
    for (p, e) in v.iter().zip(expected.iter()) {
        assert_eq!((p.x, p.y), *e);
    }
}

#[test]
fn neighbors_clip_at_corners_and_edges() {
    let corner = neighbors(0, 0, 3, 3).unwrap();
    assert_eq!(corner.len(), 3);
    assert_eq!((corner[0].x, corner[0].y), (1, 0));
    assert_eq!((corner[1].x, corner[1].y), (0, 1));
    assert_eq!((corner[2].x, corner[2].y), (1, 1));
    let edge = neighbors(1, 0, 3, 3).unwrap();
    assert_eq!(edge.len(), 5);
    let single = neighbors(0, 0, 1, 1).unwrap();
    assert_eq!(single.len(), 0);
}

#[test]
fn neighbors_reject_out_of_range_center() {
    assert_eq!(neighbors(3, 0, 3, 3).unwrap_err(), GameError::InvalidCoordinate);
    assert_eq!(neighbors(0, 7, 3, 7).unwrap_err(), GameError::InvalidCoordinate);
}

#[test]
fn board_reset_replaces_everything() {
    let mut b = Board::from_mine_layout(3, 3, layout(3, 3, &[(1, 1)])).unwrap();
    b.reveal_at(0, 0).unwrap();
    b.toggle_flag_at(2, 2).unwrap();
    b.reset(4, 5, 6).unwrap();
    assert_eq!(b.width, 4);
    assert_eq!(b.height, 5);
    assert_eq!(b.mine_count, 6);
    assert_eq!(b.count_revealed_tiles(), 0);
    assert_eq!(b.count_flagged_tiles(), 0);
    assert_eq!(b.reset(2, 2, 9).unwrap_err(), GameError::InvalidBoardConfig);
}

#[test]
fn default_settings_match_the_stock_configuration() {
    let s = BoardSettings::default();
    assert_eq!(s.width, 12);
    assert_eq!(s.height, 12);
    assert_eq!(s.mine_count, 20);
}

#[test]
fn position_equality_is_by_coordinates() {
    assert_eq!(Position { x: 2, y: 7 }, Position { x: 2, y: 7 });
    assert_ne!(Position { x: 2, y: 7 }, Position { x: 7, y: 2 });
}

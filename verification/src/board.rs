//! The cell store: per-cell state for the whole grid, board generation
//! with random mine placement, and the primitive per-cell operations that
//! the reveal engine, flag toggler and chord resolver build on.

use vstd::prelude::*;
use crate::GameError;
use crate::config::{BOARD_HEIGHT, BOARD_WIDTH, MINE_COUNT};
use crate::counting::{
    b2i, count_matching, lemma_count_matching_all, lemma_count_matching_bounds,
    lemma_count_matching_concat, lemma_count_matching_none, lemma_count_matching_pointwise,
    lemma_count_matching_take_full, lemma_count_matching_take_step, lemma_count_matching_update,
};
use crate::geometry::{clipped, lemma_index_bound, spec_in_grid, spec_index, spec_neighbors, Position};
use rand::RngExt;

verus! {

/// One grid position's authoritative state.
#[derive(Clone, Copy, Debug, PartialEq, Eq, Structural)]
pub struct Tile {
    pub is_mine: bool,
    pub is_flagged: bool,
    pub is_revealed: bool,
    pub adjacent_mines: u8,
}

impl Tile {
    /// Flip the flag mark; callers enforce the revealed-cell guard.
    pub fn toggle_flag(&mut self)
        ensures
            *final(self) == (Tile {
                is_mine: old(self).is_mine,
                is_flagged: !old(self).is_flagged,
                is_revealed: old(self).is_revealed,
                adjacent_mines: old(self).adjacent_mines,
            }),
    {
        self.is_flagged = !self.is_flagged;
    }

    /// Mark the cell revealed; callers enforce all guards.
    pub fn mark_revealed(&mut self)
        ensures
            *final(self) == (Tile {
                is_mine: old(self).is_mine,
                is_flagged: old(self).is_flagged,
                is_revealed: true,
                adjacent_mines: old(self).adjacent_mines,
            }),
    {
        self.is_revealed = true;
    }
}

/// Board configuration: grid dimensions and how many mines to place.
#[derive(Clone, Copy, Debug, PartialEq, Eq, Structural)]
pub struct BoardSettings {
    pub width: u8,
    pub height: u8,
    pub mine_count: u16,
}

impl BoardSettings {
    /// Total number of cells in the configured grid.
    pub open spec fn area(self) -> int {
        self.width as int * self.height as int
    }

    /// A configuration is valid when both dimensions are positive and
    /// the mines do not fill (or overflow) the grid.
    pub open spec fn valid(self) -> bool {
        self.width > 0 && self.height > 0 && (self.mine_count as int) < self.area()
    }
}

impl Default for BoardSettings {
    /// The stock configuration.
    fn default() -> (s: Self)
        ensures
            s == (BoardSettings { width: BOARD_WIDTH, height: BOARD_HEIGHT, mine_count: MINE_COUNT }),
    {
        BoardSettings { width: BOARD_WIDTH, height: BOARD_HEIGHT, mine_count: MINE_COUNT }
    }
}

/// The predicate picking out mine cells.
pub open spec fn is_mine_pred() -> spec_fn(Tile) -> bool {
    |t: Tile| t.is_mine
}

/// The predicate picking out flagged cells.
pub open spec fn is_flagged_pred() -> spec_fn(Tile) -> bool {
    |t: Tile| t.is_flagged
}

/// The predicate picking out revealed cells.
pub open spec fn is_revealed_pred() -> spec_fn(Tile) -> bool {
    |t: Tile| t.is_revealed
}

/// The predicate picking out cells not yet revealed.
pub open spec fn is_unrevealed_pred() -> spec_fn(Tile) -> bool {
    |t: Tile| !t.is_revealed
}

/// The identity predicate on booleans.
pub open spec fn ident_pred() -> spec_fn(bool) -> bool {
    |b: bool| b
}

/// Whether a cell of a raw mine layout holds a mine; false off the grid.
pub open spec fn grid_mine_at(mines: Seq<bool>, width: int, height: int, col: int, row: int) -> bool {
    spec_in_grid(col, row, width, height) && mines[spec_index(col, row, width)]
}

/// Number of mine neighbors of `(col, row)` in a raw mine layout.
pub open spec fn spec_grid_adjacent_mines(
    mines: Seq<bool>,
    width: int,
    height: int,
    col: int,
    row: int,
) -> int {
    b2i(grid_mine_at(mines, width, height, col - 1, row - 1)) + b2i(
        grid_mine_at(mines, width, height, col, row - 1),
    ) + b2i(grid_mine_at(mines, width, height, col + 1, row - 1)) + b2i(
        grid_mine_at(mines, width, height, col - 1, row),
    ) + b2i(grid_mine_at(mines, width, height, col + 1, row)) + b2i(
        grid_mine_at(mines, width, height, col - 1, row + 1),
    ) + b2i(grid_mine_at(mines, width, height, col, row + 1)) + b2i(
        grid_mine_at(mines, width, height, col + 1, row + 1),
    )
}

/// A raw mine layout fit to build a board from: positive dimensions, one
/// entry per cell, and fewer mines than cells.
pub open spec fn layout_valid(width: int, height: int, mines: Seq<bool>) -> bool {
    &&& width > 0
    &&& height > 0
    &&& mines.len() == width * height
    &&& count_matching(mines, ident_pred()) < width * height
}

/// The authoritative cell store: a rectangular grid of tiles in row-major
/// order, together with its dimensions and mine total.
#[derive(Debug)]
pub struct Board {
    pub width: u8,
    pub height: u8,
    pub mine_count: u16,
    pub tiles: Vec<Tile>,
}

impl Board {
    /// Total number of cells.
    pub open spec fn area(self) -> int {
        self.width as int * self.height as int
    }

    /// Whether `(col, row)` addresses a cell of this board.
    pub open spec fn in_grid(self, col: int, row: int) -> bool {
        spec_in_grid(col, row, self.width as int, self.height as int)
    }

    /// Row-major index of `(col, row)`.
    pub open spec fn index_at(self, col: int, row: int) -> int {
        spec_index(col, row, self.width as int)
    }

    /// The tile at `(col, row)`.
    pub open spec fn tile_at(self, col: int, row: int) -> Tile {
        self.tiles@[self.index_at(col, row)]
    }

    /// The grid has positive dimensions and one tile per cell.
    pub open spec fn wf_shape(self) -> bool {
        &&& self.width > 0
        &&& self.height > 0
        &&& self.tiles@.len() == self.area()
    }

    /// Number of mine cells.
    pub open spec fn spec_mine_total(self) -> int {
        count_matching(self.tiles@, is_mine_pred())
    }

    /// Number of revealed cells, mines included.
    pub open spec fn spec_revealed_count(self) -> int {
        count_matching(self.tiles@, is_revealed_pred())
    }

    /// Number of flagged cells.
    pub open spec fn spec_flagged_count(self) -> int {
        count_matching(self.tiles@, is_flagged_pred())
    }

    /// Whether `(col, row)` is an in-bounds mine cell.
    pub open spec fn mine_at(self, col: int, row: int) -> bool {
        self.in_grid(col, row) && self.tile_at(col, row).is_mine
    }

    /// Whether `(col, row)` is an in-bounds flagged cell.
    pub open spec fn flag_at(self, col: int, row: int) -> bool {
        self.in_grid(col, row) && self.tile_at(col, row).is_flagged
    }

    /// Whether `(col, row)` is an in-bounds revealed cell.
    pub open spec fn revealed_at(self, col: int, row: int) -> bool {
        self.in_grid(col, row) && self.tile_at(col, row).is_revealed
    }

    /// Number of mine neighbors of `(col, row)`.
    pub open spec fn spec_adjacent_mines(self, col: int, row: int) -> int {
        b2i(self.mine_at(col - 1, row - 1)) + b2i(self.mine_at(col, row - 1)) + b2i(
            self.mine_at(col + 1, row - 1),
        ) + b2i(self.mine_at(col - 1, row)) + b2i(self.mine_at(col + 1, row)) + b2i(
            self.mine_at(col - 1, row + 1),
        ) + b2i(self.mine_at(col, row + 1)) + b2i(self.mine_at(col + 1, row + 1))
    }

    /// Number of flagged neighbors of `(col, row)`.
    pub open spec fn spec_adjacent_flags(self, col: int, row: int) -> int {
        b2i(self.flag_at(col - 1, row - 1)) + b2i(self.flag_at(col, row - 1)) + b2i(
            self.flag_at(col + 1, row - 1),
        ) + b2i(self.flag_at(col - 1, row)) + b2i(self.flag_at(col + 1, row)) + b2i(
            self.flag_at(col - 1, row + 1),
        ) + b2i(self.flag_at(col, row + 1)) + b2i(self.flag_at(col + 1, row + 1))
    }

    /// Every non-mine cell carries its exact mine-neighbor count; mine
    /// cells carry the unused sentinel 0.
    pub open spec fn adjacency_correct(self) -> bool {
        forall|c: int, r: int|
            self.in_grid(c, r) ==> (#[trigger] self.tile_at(c, r)).adjacent_mines as int == (
            if self.tile_at(c, r).is_mine {
                0int
            } else {
                self.spec_adjacent_mines(c, r)
            })
    }

    /// Full board invariant: well-shaped, mines leave at least one safe
    /// cell, the stored mine total is exact, and adjacency counts are
    /// correct.
    pub open spec fn wf(self) -> bool {
        &&& self.wf_shape()
        &&& (self.mine_count as int) < self.area()
        &&& self.spec_mine_total() == self.mine_count as int
        &&& self.adjacency_correct()
    }

    /// No cell is revealed or flagged.
    pub open spec fn fresh(self) -> bool {
        forall|i: int|
            0 <= i < self.tiles@.len() ==> !(#[trigger] self.tiles@[i]).is_revealed
                && !self.tiles@[i].is_flagged
    }

    /// The win condition: every non-mine cell has been revealed.
    pub open spec fn win_now(self) -> bool {
        self.spec_revealed_count() == self.area() - self.mine_count as int
    }

    /// Every mine cell is revealed (the game-over display state).
    pub open spec fn all_mines_revealed(self) -> bool {
        forall|i: int|
            0 <= i < self.tiles@.len() && (#[trigger] self.tiles@[i]).is_mine
                ==> self.tiles@[i].is_revealed
    }
}

/// Dimensions, mine placement, flags and adjacency counts agree between
/// two boards; only revealed marks may differ.
pub open spec fn same_layout(a: Board, b: Board) -> bool {
    &&& b.width == a.width
    &&& b.height == a.height
    &&& b.mine_count == a.mine_count
    &&& b.tiles@.len() == a.tiles@.len()
    &&& forall|i: int|
        0 <= i < a.tiles@.len() ==> (#[trigger] b.tiles@[i]).is_mine == a.tiles@[i].is_mine
            && b.tiles@[i].is_flagged == a.tiles@[i].is_flagged && b.tiles@[i].adjacent_mines
            == a.tiles@[i].adjacent_mines
}

/// Every cell revealed in `a` stays revealed in `b`.
pub open spec fn reveal_monotone(a: Board, b: Board) -> bool {
    forall|i: int|
        0 <= i < a.tiles@.len() && a.tiles@[i].is_revealed ==> (#[trigger] b.tiles@[i]).is_revealed
}

/// Whether `(col, row)` is revealed in `b` but was not in `a`.
pub open spec fn newly_revealed_at(a: Board, b: Board, col: int, row: int) -> bool {
    b.tile_at(col, row).is_revealed && !a.tile_at(col, row).is_revealed
}

/// Sharing a layout is transitive.
pub proof fn lemma_same_layout_trans(a: Board, b: Board, c: Board)
    requires
        same_layout(a, b),
        same_layout(b, c),
    ensures
        same_layout(a, c),
{
    assert forall|i: int| 0 <= i < a.tiles@.len() implies (#[trigger] c.tiles@[i]).is_mine
        == a.tiles@[i].is_mine && c.tiles@[i].is_flagged == a.tiles@[i].is_flagged
        && c.tiles@[i].adjacent_mines == a.tiles@[i].adjacent_mines by {
        assert(b.tiles@[i].is_mine == a.tiles@[i].is_mine);
    }
}

/// Monotone revealing is transitive.
pub proof fn lemma_reveal_monotone_trans(a: Board, b: Board, c: Board)
    requires
        reveal_monotone(a, b),
        reveal_monotone(b, c),
        a.tiles@.len() == b.tiles@.len(),
    ensures
        reveal_monotone(a, c),
{
    assert forall|i: int| 0 <= i < a.tiles@.len() && a.tiles@[i].is_revealed implies (
    #[trigger] c.tiles@[i]).is_revealed by {
        assert(b.tiles@[i].is_revealed);
    }
}

/// Winning depends on revealed cells alone: boards that agree on
/// dimensions, mine total and each cell's revealed mark agree on the win
/// condition, whatever their flags show.
pub proof fn lemma_win_ignores_flags(a: Board, b: Board)
    requires
        b.width == a.width,
        b.height == a.height,
        b.mine_count == a.mine_count,
        b.tiles@.len() == a.tiles@.len(),
        forall|i: int|
            0 <= i < a.tiles@.len() ==> (#[trigger] b.tiles@[i]).is_revealed
                == a.tiles@[i].is_revealed,
    ensures
        b.win_now() == a.win_now(),
{
    lemma_count_matching_pointwise(a.tiles@, b.tiles@, is_revealed_pred(), is_revealed_pred());
}

/// Dimensions, mine placement and adjacency counts agree between two
/// boards; flags and revealed marks may differ.
pub open spec fn same_mines(a: Board, b: Board) -> bool {
    &&& b.width == a.width
    &&& b.height == a.height
    &&& b.mine_count == a.mine_count
    &&& b.tiles@.len() == a.tiles@.len()
    &&& forall|i: int|
        0 <= i < a.tiles@.len() ==> (#[trigger] b.tiles@[i]).is_mine == a.tiles@[i].is_mine
            && b.tiles@[i].adjacent_mines == a.tiles@[i].adjacent_mines
}

/// `mine_at` agrees between boards with the same mines.
proof fn lemma_same_mines_mine_at(a: Board, b: Board, col: int, row: int)
    requires
        a.wf_shape(),
        same_mines(a, b),
    ensures
        b.mine_at(col, row) == a.mine_at(col, row),
{
    if a.in_grid(col, row) {
        lemma_index_bound(col, row, a.width as int, a.height as int);
    }
}

/// Mine-neighbor counts agree between boards with the same mines.
pub proof fn lemma_same_mines_adjacent_mines(a: Board, b: Board, col: int, row: int)
    requires
        a.wf_shape(),
        same_mines(a, b),
    ensures
        b.spec_adjacent_mines(col, row) == a.spec_adjacent_mines(col, row),
{
    lemma_same_mines_mine_at(a, b, col - 1, row - 1);
    lemma_same_mines_mine_at(a, b, col, row - 1);
    lemma_same_mines_mine_at(a, b, col + 1, row - 1);
    lemma_same_mines_mine_at(a, b, col - 1, row);
    lemma_same_mines_mine_at(a, b, col + 1, row);
    lemma_same_mines_mine_at(a, b, col - 1, row + 1);
    lemma_same_mines_mine_at(a, b, col, row + 1);
    lemma_same_mines_mine_at(a, b, col + 1, row + 1);
}

/// A board with the same mines as a well-formed board is well-formed.
pub proof fn lemma_same_mines_wf(a: Board, b: Board)
    requires
        a.wf(),
        same_mines(a, b),
    ensures
        b.wf(),
        b.spec_mine_total() == a.spec_mine_total(),
{
    lemma_count_matching_pointwise(a.tiles@, b.tiles@, is_mine_pred(), is_mine_pred());
    assert forall|c: int, r: int| b.in_grid(c, r) implies (#[trigger] b.tile_at(c, r)).adjacent_mines
        as int == (if b.tile_at(c, r).is_mine {
        0int
    } else {
        b.spec_adjacent_mines(c, r)
    }) by {
        lemma_index_bound(c, r, a.width as int, a.height as int);
        lemma_same_mines_adjacent_mines(a, b, c, r);
        assert(a.tile_at(c, r).adjacent_mines as int == (if a.tile_at(c, r).is_mine {
            0int
        } else {
            a.spec_adjacent_mines(c, r)
        }));
    }
}

/// The predicate picking out positions whose cell on `b` is a mine.
pub open spec fn mine_at_pred(b: Board) -> spec_fn(Position) -> bool {
    |p: Position| b.mine_at(p.x as int, p.y as int)
}

/// A cell's stored mine-neighbor total is exactly the number of mines on
/// the neighbor list that grid geometry yields for it.
pub proof fn lemma_adjacent_mines_per_geometry(b: Board, col: int, row: int)
    requires
        b.wf_shape(),
    ensures
        b.spec_adjacent_mines(col, row) == count_matching(
            spec_neighbors(col, row, b.width as int, b.height as int),
            mine_at_pred(b),
        ),
{
    let w = b.width as int;
    let h = b.height as int;
    let f = mine_at_pred(b);
    let s1 = clipped(col - 1, row - 1, w, h);
    let s2 = clipped(col, row - 1, w, h);
    let s3 = clipped(col + 1, row - 1, w, h);
    let s4 = clipped(col - 1, row, w, h);
    let s5 = clipped(col + 1, row, w, h);
    let s6 = clipped(col - 1, row + 1, w, h);
    let s7 = clipped(col, row + 1, w, h);
    let s8 = clipped(col + 1, row + 1, w, h);
    lemma_count_matching_concat(s1, s2, f);
    lemma_count_matching_concat(s1 + s2, s3, f);
    lemma_count_matching_concat(s1 + s2 + s3, s4, f);
    lemma_count_matching_concat(s1 + s2 + s3 + s4, s5, f);
    lemma_count_matching_concat(s1 + s2 + s3 + s4 + s5, s6, f);
    lemma_count_matching_concat(s1 + s2 + s3 + s4 + s5 + s6, s7, f);
    lemma_count_matching_concat(s1 + s2 + s3 + s4 + s5 + s6 + s7, s8, f);
    lemma_clipped_count(b, col - 1, row - 1);
    lemma_clipped_count(b, col, row - 1);
    lemma_clipped_count(b, col + 1, row - 1);
    lemma_clipped_count(b, col - 1, row);
    lemma_clipped_count(b, col + 1, row);
    lemma_clipped_count(b, col - 1, row + 1);
    lemma_clipped_count(b, col, row + 1);
    lemma_clipped_count(b, col + 1, row + 1);
}

/// One clipped slot contributes its cell's mine indicator.
proof fn lemma_clipped_count(b: Board, col: int, row: int)
    requires
        b.wf_shape(),
    ensures
        count_matching(
            clipped(col, row, b.width as int, b.height as int),
            mine_at_pred(b),
        ) == b2i(b.mine_at(col, row)),
{
    let w = b.width as int;
    let h = b.height as int;
    let f = mine_at_pred(b);
    let s = clipped(col, row, w, h);
    assert(count_matching(Seq::<Position>::empty(), f) == 0);
    if spec_in_grid(col, row, w, h) {
        assert(s.len() == 1);
        assert(s.drop_last() =~= Seq::<Position>::empty());
        assert(s.last() == (Position { x: col as u8, y: row as u8 }));
        assert(f(s.last()) == b.mine_at(col, row));
        assert(count_matching(s, f) == count_matching(s.drop_last(), f) + b2i(f(s.last())));
    } else {
        assert(s =~= Seq::<Position>::empty());
        assert(!b.mine_at(col, row));
    }
}

/// `mine_at` agrees between boards of the same layout.
proof fn lemma_same_layout_mine_at(a: Board, b: Board, col: int, row: int)
    requires
        a.wf_shape(),
        same_layout(a, b),
    ensures
        b.mine_at(col, row) == a.mine_at(col, row),
{
    if a.in_grid(col, row) {
        lemma_index_bound(col, row, a.width as int, a.height as int);
    }
}

/// Mine-neighbor counts agree between boards of the same layout.
pub proof fn lemma_same_layout_adjacent_mines(a: Board, b: Board, col: int, row: int)
    requires
        a.wf_shape(),
        same_layout(a, b),
    ensures
        b.spec_adjacent_mines(col, row) == a.spec_adjacent_mines(col, row),
{
    lemma_same_layout_mine_at(a, b, col - 1, row - 1);
    lemma_same_layout_mine_at(a, b, col, row - 1);
    lemma_same_layout_mine_at(a, b, col + 1, row - 1);
    lemma_same_layout_mine_at(a, b, col - 1, row);
    lemma_same_layout_mine_at(a, b, col + 1, row);
    lemma_same_layout_mine_at(a, b, col - 1, row + 1);
    lemma_same_layout_mine_at(a, b, col, row + 1);
    lemma_same_layout_mine_at(a, b, col + 1, row + 1);
}

/// A board of the same layout as a well-formed board is well-formed, and
/// keeps its mine and flag totals.
pub proof fn lemma_same_layout_wf(a: Board, b: Board)
    requires
        a.wf(),
        same_layout(a, b),
    ensures
        b.wf(),
        b.spec_mine_total() == a.spec_mine_total(),
        b.spec_flagged_count() == a.spec_flagged_count(),
{
    lemma_count_matching_pointwise(a.tiles@, b.tiles@, is_mine_pred(), is_mine_pred());
    lemma_count_matching_pointwise(a.tiles@, b.tiles@, is_flagged_pred(), is_flagged_pred());
    assert forall|c: int, r: int| b.in_grid(c, r) implies (#[trigger] b.tile_at(c, r)).adjacent_mines
        as int == (if b.tile_at(c, r).is_mine {
        0int
    } else {
        b.spec_adjacent_mines(c, r)
    }) by {
        lemma_index_bound(c, r, a.width as int, a.height as int);
        lemma_same_layout_adjacent_mines(a, b, c, r);
        assert(a.tile_at(c, r).adjacent_mines as int == (if a.tile_at(c, r).is_mine {
            0int
        } else {
            a.spec_adjacent_mines(c, r)
        }));
    }
}

/// The area of a grid with `u8` dimensions stays small.
pub proof fn lemma_u8_mul_bound(a: int, b: int)
    requires
        0 <= a <= 255,
        0 <= b <= 255,
    ensures
        0 <= a * b <= 65025,
{
    assert(0 <= a * b <= 65025) by (nonlinear_arith)
        requires
            0 <= a <= 255,
            0 <= b <= 255,
    ;
}

/// A strict row-major predecessor has a strictly smaller index.
proof fn lemma_row_major_mono(width: int, cc: int, rr: int, c: int, r: int)
    requires
        0 <= cc < width,
        0 <= c,
        0 <= rr,
        rr < r,
    ensures
        rr * width + cc < r * width + c,
{
    assert(rr * width + cc < r * width + c) by (nonlinear_arith)
        requires
            0 <= cc < width,
            0 <= c,
            0 <= rr,
            rr < r,
    ;
}

/// `mine_at` of a board agrees with `grid_mine_at` of the layout its
/// mines were taken from.
proof fn lemma_board_matches_grid_mine_at(b: Board, mines: Seq<bool>, col: int, row: int)
    requires
        b.wf_shape(),
        mines.len() == b.tiles@.len(),
        forall|i: int| 0 <= i < mines.len() ==> (#[trigger] b.tiles@[i]).is_mine == mines[i],
    ensures
        b.mine_at(col, row) == grid_mine_at(mines, b.width as int, b.height as int, col, row),
{
    if b.in_grid(col, row) {
        lemma_index_bound(col, row, b.width as int, b.height as int);
    }
}

/// Mine-neighbor counts of a board agree with those of the layout its
/// mines were taken from.
proof fn lemma_board_matches_grid_adjacent(b: Board, mines: Seq<bool>, col: int, row: int)
    requires
        b.wf_shape(),
        mines.len() == b.tiles@.len(),
        forall|i: int| 0 <= i < mines.len() ==> (#[trigger] b.tiles@[i]).is_mine == mines[i],
    ensures
        b.spec_adjacent_mines(col, row) == spec_grid_adjacent_mines(
            mines,
            b.width as int,
            b.height as int,
            col,
            row,
        ),
{
    lemma_board_matches_grid_mine_at(b, mines, col - 1, row - 1);
    lemma_board_matches_grid_mine_at(b, mines, col, row - 1);
    lemma_board_matches_grid_mine_at(b, mines, col + 1, row - 1);
    lemma_board_matches_grid_mine_at(b, mines, col - 1, row);
    lemma_board_matches_grid_mine_at(b, mines, col + 1, row);
    lemma_board_matches_grid_mine_at(b, mines, col - 1, row + 1);
    lemma_board_matches_grid_mine_at(b, mines, col, row + 1);
    lemma_board_matches_grid_mine_at(b, mines, col + 1, row + 1);
}

/// One tile of a board under construction carries exactly what the mine
/// layout dictates for its cell.
spec fn tile_ok(tiles: Seq<Tile>, mines: Seq<bool>, width: int, height: int, c: int, r: int) -> bool {
    let t = tiles[spec_index(c, r, width)];
    &&& t.is_mine == mines[spec_index(c, r, width)]
    &&& !t.is_flagged
    &&& !t.is_revealed
    &&& t.adjacent_mines as int == (if t.is_mine {
        0int
    } else {
        spec_grid_adjacent_mines(mines, width, height, c, r)
    })
}

/// Relies on `rand::rng` and `rand::RngExt::random_range`: a uniformly
/// distributed index below `n`; the call panics only on an empty range,
/// which `n > 0` rules out.
#[verifier::external_body]
fn random_below(n: usize) -> (r: usize)
    requires
        n > 0,
    ensures
        r < n,
{
    rand::rng().random_range(0..n)
}

/// Number of `true` entries of a raw mine layout.
fn count_true(mines: &Vec<bool>) -> (n: usize)
    ensures
        n as int == count_matching(mines@, ident_pred()),
        n <= mines@.len(),
{
    let mut n: usize = 0;
    let mut i: usize = 0;
    while i < mines.len()
        invariant
            i <= mines@.len(),
            n as int == count_matching(mines@.take(i as int), ident_pred()),
            n <= i,
        decreases mines@.len() - i,
    {
        proof {
            lemma_count_matching_take_step(mines@, i as int, ident_pred());
            lemma_count_matching_bounds(mines@.take(i as int), ident_pred());
        }
        if mines[i] {
            n = n + 1;
        }
        i = i + 1;
    }
    proof {
        lemma_count_matching_take_full(mines@, ident_pred());
        lemma_count_matching_bounds(mines@, ident_pred());
    }
    n
}

/// First free (non-mine) cell of a layout that still has one.
fn find_free_index(mines: &Vec<bool>) -> (i: usize)
    requires
        count_matching(mines@, ident_pred()) < mines@.len(),
    ensures
        i < mines@.len(),
        !mines@[i as int],
{
    let n = mines.len();
    let mut i: usize = 0;
    while i < n
        invariant
            i <= n,
            forall|j: int| 0 <= j < i ==> mines@[j],
        decreases n - i,
    {
        if !mines[i] {
            return i;
        }
        i = i + 1;
    }
    proof {
        lemma_count_matching_all(mines@, ident_pred());
        assert(false);
    }
    0
}

/// How many random draws to attempt for one mine before falling back to
/// the first free cell, which keeps placement terminating.
const MINE_RETRY_LIMIT: usize = 65536;

/// Place one more mine on a random free cell, drawing fresh cells until
/// an unoccupied one comes up.
fn place_one_mine(mines: &mut Vec<bool>)
    requires
        count_matching(old(mines)@, ident_pred()) < old(mines)@.len(),
    ensures
        final(mines)@.len() == old(mines)@.len(),
        count_matching(final(mines)@, ident_pred()) == count_matching(old(mines)@, ident_pred())
            + 1,
        forall|j: int| 0 <= j < old(mines)@.len() && old(mines)@[j] ==> final(mines)@[j],
{
    proof {
        lemma_count_matching_bounds(old(mines)@, ident_pred());
    }
    let n = mines.len();
    let mut fuel: usize = MINE_RETRY_LIMIT;
    while fuel > 0
        invariant
            mines@ == old(mines)@,
            n == mines@.len(),
        decreases fuel,
    {
        let i = random_below(n);
        if !mines[i] {
            proof {
                lemma_count_matching_update(mines@, i as int, true, ident_pred());
            }
            mines.set(i, true);
            return ;
        }
        fuel = fuel - 1;
    }
    let i = find_free_index(mines);
    proof {
        lemma_count_matching_update(mines@, i as int, true, ident_pred());
    }
    mines.set(i, true);
}

/// A random mine layout for a `width` x `height` grid with exactly
/// `mine_count` mines.
pub fn generate_mines(width: u8, height: u8, mine_count: u16) -> (mines: Vec<bool>)
    requires
        width > 0,
        height > 0,
        (mine_count as int) < width as int * height as int,
    ensures
        mines@.len() == width as int * height as int,
        count_matching(mines@, ident_pred()) == mine_count as int,
{
    proof {
        lemma_u8_mul_bound(width as int, height as int);
    }
    let total = (width as usize) * (height as usize);
    let mut mines: Vec<bool> = Vec::new();
    while mines.len() < total
        invariant
            mines@.len() <= total,
            forall|j: int| 0 <= j < mines@.len() ==> !mines@[j],
        decreases total - mines@.len(),
    {
        mines.push(false);
    }
    proof {
        lemma_count_matching_none(mines@, ident_pred());
    }
    let mut placed: u16 = 0;
    while placed < mine_count
        invariant
            mines@.len() == total,
            placed <= mine_count,
            count_matching(mines@, ident_pred()) == placed as int,
        decreases mine_count - placed,
    {
        place_one_mine(&mut mines);
        placed = placed + 1;
    }
    mines
}

impl Board {
    /// Row-major array index of in-bounds coordinates.
    fn index_of(&self, col: u8, row: u8) -> (i: usize)
        requires
            self.wf_shape(),
            self.in_grid(col as int, row as int),
        ensures
            i == self.index_at(col as int, row as int),
            i < self.tiles@.len(),
    {
        proof {
            lemma_u8_mul_bound(row as int, self.width as int);
            lemma_index_bound(col as int, row as int, self.width as int, self.height as int);
        }
        (row as usize) * (self.width as usize) + (col as usize)
    }

    /// Read-only snapshot of one cell.
    pub fn get(&self, col: u8, row: u8) -> (r: Result<Tile, GameError>)
        requires
            self.wf_shape(),
        ensures
            match r {
                Ok(t) => self.in_grid(col as int, row as int) && t == self.tile_at(
                    col as int,
                    row as int,
                ),
                Err(e) => e == GameError::OutOfBounds && !self.in_grid(col as int, row as int),
            },
    {
        if col >= self.width || row >= self.height {
            return Err(GameError::OutOfBounds);
        }
        let i = self.index_of(col, row);
        Ok(self.tiles[i])
    }

    /// Set one cell revealed, unconditionally; revealing a revealed cell
    /// changes nothing.
    pub fn reveal_at(&mut self, col: u8, row: u8) -> (r: Result<(), GameError>)
        requires
            old(self).wf_shape(),
        ensures
            match r {
                Ok(()) => ({
                    let t = old(self).tile_at(col as int, row as int);
                    &&& old(self).in_grid(col as int, row as int)
                    &&& final(self).width == old(self).width
                    &&& final(self).height == old(self).height
                    &&& final(self).mine_count == old(self).mine_count
                    &&& final(self).tiles@ == old(self).tiles@.update(
                        old(self).index_at(col as int, row as int),
                        (Tile {
                            is_mine: t.is_mine,
                            is_flagged: t.is_flagged,
                            is_revealed: true,
                            adjacent_mines: t.adjacent_mines,
                        }),
                    )
                    &&& t.is_revealed ==> final(self).tiles@ == old(self).tiles@
                }),
                Err(e) => e == GameError::OutOfBounds && !old(self).in_grid(col as int, row as int)
                    && *final(self) == *old(self),
            },
    {
        if col >= self.width || row >= self.height {
            return Err(GameError::OutOfBounds);
        }
        let i = self.index_of(col, row);
        let t = self.tiles[i];
        self.tiles.set(
            i,
            Tile {
                is_mine: t.is_mine,
                is_flagged: t.is_flagged,
                is_revealed: true,
                adjacent_mines: t.adjacent_mines,
            },
        );
        proof {
            if t.is_revealed {
                assert(self.tiles@ =~= old(self).tiles@);
            }
        }
        Ok(())
    }

    /// Flip one cell's flag, unconditionally; callers enforce the
    /// revealed-cell guard.
    pub fn toggle_flag_at(&mut self, col: u8, row: u8) -> (r: Result<(), GameError>)
        requires
            old(self).wf_shape(),
        ensures
            match r {
                Ok(()) => ({
                    let t = old(self).tile_at(col as int, row as int);
                    &&& old(self).in_grid(col as int, row as int)
                    &&& final(self).width == old(self).width
                    &&& final(self).height == old(self).height
                    &&& final(self).mine_count == old(self).mine_count
                    &&& final(self).tiles@ == old(self).tiles@.update(
                        old(self).index_at(col as int, row as int),
                        (Tile {
                            is_mine: t.is_mine,
                            is_flagged: !t.is_flagged,
                            is_revealed: t.is_revealed,
                            adjacent_mines: t.adjacent_mines,
                        }),
                    )
                }),
                Err(e) => e == GameError::OutOfBounds && !old(self).in_grid(col as int, row as int)
                    && *final(self) == *old(self),
            },
    {
        if col >= self.width || row >= self.height {
            return Err(GameError::OutOfBounds);
        }
        let i = self.index_of(col, row);
        let mut t = self.tiles[i];
        t.toggle_flag();
        self.tiles.set(i, t);
        Ok(())
    }

    /// Whether the in-bounds cell `(col, row)` is flagged; false off the
    /// grid.
    fn flag_at_exec(&self, col: i32, row: i32) -> (b: bool)
        requires
            self.wf_shape(),
        ensures
            b == self.flag_at(col as int, row as int),
    {
        if col >= 0 && row >= 0 && col < self.width as i32 && row < self.height as i32 {
            proof {
                lemma_u8_mul_bound(row as int, self.width as int);
                lemma_index_bound(col as int, row as int, self.width as int, self.height as int);
            }
            let i = (row as usize) * (self.width as usize) + (col as usize);
            self.tiles[i].is_flagged
        } else {
            false
        }
    }

    /// Number of flagged neighbors of an in-bounds cell.
    pub fn count_adjacent_flags(&self, col: u8, row: u8) -> (n: u8)
        requires
            self.wf_shape(),
            self.in_grid(col as int, row as int),
        ensures
            n as int == self.spec_adjacent_flags(col as int, row as int),
    {
        let c = col as i32;
        let r = row as i32;
        let mut n: u8 = 0;
        if self.flag_at_exec(c - 1, r - 1) {
            n = n + 1;
        }
        if self.flag_at_exec(c, r - 1) {
            n = n + 1;
        }
        if self.flag_at_exec(c + 1, r - 1) {
            n = n + 1;
        }
        if self.flag_at_exec(c - 1, r) {
            n = n + 1;
        }
        if self.flag_at_exec(c + 1, r) {
            n = n + 1;
        }
        if self.flag_at_exec(c - 1, r + 1) {
            n = n + 1;
        }
        if self.flag_at_exec(c, r + 1) {
            n = n + 1;
        }
        if self.flag_at_exec(c + 1, r + 1) {
            n = n + 1;
        }
        n
    }

    /// Number of revealed cells, mines included.
    pub fn count_revealed_tiles(&self) -> (n: u16)
        requires
            self.wf_shape(),
        ensures
            n as int == self.spec_revealed_count(),
    {
        proof {
            assert(self.width as int * self.height as int <= 65025) by (nonlinear_arith)
                requires
                    self.width as int <= 255,
                    self.height as int <= 255,
            ;
        }
        let mut n: u16 = 0;
        let mut i: usize = 0;
        while i < self.tiles.len()
            invariant
                i <= self.tiles@.len(),
                n as int == count_matching(self.tiles@.take(i as int), is_revealed_pred()),
                n <= i,
            decreases self.tiles@.len() - i,
        {
            proof {
                lemma_count_matching_take_step(self.tiles@, i as int, is_revealed_pred());
                lemma_count_matching_bounds(self.tiles@.take(i as int), is_revealed_pred());
            }
            if self.tiles[i].is_revealed {
                n = n + 1;
            }
            i = i + 1;
        }
        proof {
            lemma_count_matching_take_full(self.tiles@, is_revealed_pred());
        }
        n
    }

    /// Number of flagged cells.
    pub fn count_flagged_tiles(&self) -> (n: u16)
        requires
            self.wf_shape(),
        ensures
            n as int == self.spec_flagged_count(),
    {
        proof {
            assert(self.width as int * self.height as int <= 65025) by (nonlinear_arith)
                requires
                    self.width as int <= 255,
                    self.height as int <= 255,
            ;
        }
        let mut n: u16 = 0;
        let mut i: usize = 0;
        while i < self.tiles.len()
            invariant
                i <= self.tiles@.len(),
                n as int == count_matching(self.tiles@.take(i as int), is_flagged_pred()),
                n <= i,
            decreases self.tiles@.len() - i,
        {
            proof {
                lemma_count_matching_take_step(self.tiles@, i as int, is_flagged_pred());
                lemma_count_matching_bounds(self.tiles@.take(i as int), is_flagged_pred());
            }
            if self.tiles[i].is_flagged {
                n = n + 1;
            }
            i = i + 1;
        }
        proof {
            lemma_count_matching_take_full(self.tiles@, is_flagged_pred());
        }
        n
    }

    /// Reveal every mine cell, for the game-over display; all other cell
    /// state is untouched.
    pub fn reveal_all_mines(&mut self)
        requires
            old(self).wf_shape(),
        ensures
            final(self).wf_shape(),
            same_layout(*old(self), *final(self)),
            forall|i: int|
                0 <= i < old(self).tiles@.len() ==> (#[trigger] final(self).tiles@[i]).is_revealed
                    == (old(self).tiles@[i].is_revealed || old(self).tiles@[i].is_mine),
    {
        let mut i: usize = 0;
        while i < self.tiles.len()
            invariant
                self.width == old(self).width,
                self.height == old(self).height,
                self.mine_count == old(self).mine_count,
                self.tiles@.len() == old(self).tiles@.len(),
                i <= self.tiles@.len(),
                forall|j: int| i <= j < self.tiles@.len() ==> self.tiles@[j] == old(self).tiles@[j],
                forall|j: int|
                    0 <= j < i ==> ({
                        let t0 = old(self).tiles@[j];
                        (#[trigger] self.tiles@[j]) == (Tile {
                            is_mine: t0.is_mine,
                            is_flagged: t0.is_flagged,
                            is_revealed: t0.is_revealed || t0.is_mine,
                            adjacent_mines: t0.adjacent_mines,
                        })
                    }),
            decreases self.tiles@.len() - i,
        {
            let t = self.tiles[i];
            if t.is_mine && !t.is_revealed {
                self.tiles.set(
                    i,
                    Tile {
                        is_mine: t.is_mine,
                        is_flagged: t.is_flagged,
                        is_revealed: true,
                        adjacent_mines: t.adjacent_mines,
                    },
                );
            }
            i = i + 1;
        }
    }

    /// Build a board from an explicit mine layout: adjacency counts are
    /// computed for every non-mine cell, mines carry 0, and every cell
    /// starts unrevealed and unflagged.
    pub fn from_mine_layout(width: u8, height: u8, mines: Vec<bool>) -> (r: Result<
        Board,
        GameError,
    >)
        ensures
            match r {
                Ok(b) => {
                    &&& layout_valid(width as int, height as int, mines@)
                    &&& b.wf()
                    &&& b.fresh()
                    &&& b.width == width
                    &&& b.height == height
                    &&& b.mine_count as int == count_matching(mines@, ident_pred())
                    &&& forall|i: int|
                        0 <= i < mines@.len() ==> (#[trigger] b.tiles@[i]).is_mine == mines@[i]
                },
                Err(e) => e == GameError::InvalidBoardConfig && !layout_valid(
                    width as int,
                    height as int,
                    mines@,
                ),
            },
    {
        if width == 0 || height == 0 {
            return Err(GameError::InvalidBoardConfig);
        }
        proof {
            lemma_u8_mul_bound(width as int, height as int);
        }
        let total = (width as usize) * (height as usize);
        if mines.len() != total {
            return Err(GameError::InvalidBoardConfig);
        }
        let mine_total = count_true(&mines);
        if mine_total >= total {
            return Err(GameError::InvalidBoardConfig);
        }
        let ghost w: int = width as int;
        let ghost h: int = height as int;
        let mut tiles: Vec<Tile> = Vec::new();
        let mut row: u8 = 0;
        while row < height
            invariant
                row <= height,
                tiles@.len() == row as int * w,
                forall|rr: int, cc: int|
                    0 <= rr < row as int && 0 <= cc < w ==> #[trigger] tile_ok(
                        tiles@,
                        mines@,
                        w,
                        h,
                        cc,
                        rr,
                    ),
                forall|i: int|
                    0 <= i < tiles@.len() ==> ((#[trigger] tiles@[i]).is_mine == mines@[i]
                        && !tiles@[i].is_flagged && !tiles@[i].is_revealed),
            decreases height as int - row as int,
        {
            let mut colv: u8 = 0;
            while colv < width
                invariant
                    colv <= width,
                    row < height,
                    tiles@.len() == row as int * w + colv as int,
                    forall|rr: int, cc: int|
                        0 <= rr < row as int && 0 <= cc < w ==> #[trigger] tile_ok(
                            tiles@,
                            mines@,
                            w,
                            h,
                            cc,
                            rr,
                        ),
                    forall|cc: int|
                        0 <= cc < colv as int ==> #[trigger] tile_ok(
                            tiles@,
                            mines@,
                            w,
                            h,
                            cc,
                            row as int,
                        ),
                    forall|i: int|
                        0 <= i < tiles@.len() ==> ((#[trigger] tiles@[i]).is_mine == mines@[i]
                            && !tiles@[i].is_flagged && !tiles@[i].is_revealed),
                decreases width as int - colv as int,
            {
                proof {
                    lemma_u8_mul_bound(row as int, width as int);
                    lemma_index_bound(colv as int, row as int, w, h);
                }
                let i = (row as usize) * (width as usize) + (colv as usize);
                let is_mine = mines[i];
                let adj = if is_mine {
                    0
                } else {
                    count_adjacent_mines(&mines, width, height, colv, row)
                };
                let ghost tiles_before = tiles@;
                tiles.push(
                    Tile { is_mine, is_flagged: false, is_revealed: false, adjacent_mines: adj },
                );
                proof {
                    assert forall|rr: int, cc: int| 0 <= rr < row as int && 0 <= cc < w implies #[trigger] tile_ok(
                        tiles@,
                        mines@,
                        w,
                        h,
                        cc,
                        rr,
                    ) by {
                        lemma_row_major_mono(w, cc, rr, colv as int, row as int);
                        assert(tile_ok(tiles_before, mines@, w, h, cc, rr));
                    }
                    assert forall|cc: int| 0 <= cc < colv as int + 1 implies #[trigger] tile_ok(
                        tiles@,
                        mines@,
                        w,
                        h,
                        cc,
                        row as int,
                    ) by {
                        if cc < colv as int {
                            assert(tile_ok(tiles_before, mines@, w, h, cc, row as int));
                        }
                    }
                }
                colv = colv + 1;
            }
            proof {
                assert((row as int + 1) * w == row as int * w + w) by (nonlinear_arith);
            }
            row = row + 1;
        }
        let b = Board { width, height, mine_count: mine_total as u16, tiles };
        proof {
            assert(b.tiles@.len() == height as int * w);
            assert(b.area() == w * h);
            assert(h * w == w * h) by (nonlinear_arith);
            lemma_count_matching_pointwise(b.tiles@, mines@, is_mine_pred(), ident_pred());
            assert forall|c: int, r: int| b.in_grid(c, r) implies (#[trigger] b.tile_at(
                c,
                r,
            )).adjacent_mines as int == (if b.tile_at(c, r).is_mine {
                0int
            } else {
                b.spec_adjacent_mines(c, r)
            }) by {
                assert(tile_ok(b.tiles@, mines@, w, h, c, r));
                lemma_index_bound(c, r, w, h);
                lemma_board_matches_grid_adjacent(b, mines@, c, r);
            }
        }
        Ok(b)
    }

    /// Generate a fresh board: exactly `mine_count` mines placed at
    /// random, adjacency counts computed, all cells hidden.
    pub fn new(width: u8, height: u8, mine_count: u16) -> (r: Result<Board, GameError>)
        ensures
            match r {
                Ok(b) => {
                    &&& (BoardSettings { width, height, mine_count }).valid()
                    &&& b.wf()
                    &&& b.fresh()
                    &&& b.width == width
                    &&& b.height == height
                    &&& b.mine_count == mine_count
                },
                Err(e) => e == GameError::InvalidBoardConfig && !(BoardSettings {
                    width,
                    height,
                    mine_count,
                }).valid(),
            },
    {
        if width == 0 || height == 0 {
            return Err(GameError::InvalidBoardConfig);
        }
        proof {
            lemma_u8_mul_bound(width as int, height as int);
        }
        let total = (width as usize) * (height as usize);
        if (mine_count as usize) >= total {
            return Err(GameError::InvalidBoardConfig);
        }
        let mines = generate_mines(width, height, mine_count);
        match Board::from_mine_layout(width, height, mines) {
            Ok(b) => Ok(b),
            Err(_) => {
                proof {
                    assert(false);
                }
                Err(GameError::InvalidBoardConfig)
            },
        }
    }

    /// Replace the whole board with a freshly generated one.
    pub fn reset(&mut self, width: u8, height: u8, mine_count: u16) -> (r: Result<(), GameError>)
        ensures
            match r {
                Ok(()) => {
                    &&& (BoardSettings { width, height, mine_count }).valid()
                    &&& final(self).wf()
                    &&& final(self).fresh()
                    &&& final(self).width == width
                    &&& final(self).height == height
                    &&& final(self).mine_count == mine_count
                },
                Err(e) => e == GameError::InvalidBoardConfig && !(BoardSettings {
                    width,
                    height,
                    mine_count,
                }).valid() && *final(self) == *old(self),
            },
    {
        match Board::new(width, height, mine_count) {
            Ok(b) => {
                *self = b;
                Ok(())
            },
            Err(e) => Err(e),
        }
    }
}

/// Whether a cell of a raw mine layout holds a mine; false off the grid.
fn grid_mine_at_exec(mines: &Vec<bool>, width: u8, height: u8, col: i32, row: i32) -> (b: bool)
    requires
        mines@.len() == width as int * height as int,
    ensures
        b == grid_mine_at(mines@, width as int, height as int, col as int, row as int),
{
    if col >= 0 && row >= 0 && col < width as i32 && row < height as i32 {
        proof {
            lemma_u8_mul_bound(row as int, width as int);
            lemma_index_bound(col as int, row as int, width as int, height as int);
        }
        let i = (row as usize) * (width as usize) + (col as usize);
        mines[i]
    } else {
        false
    }
}

/// Number of mine neighbors of `(x, y)` in a raw mine layout.
pub fn count_adjacent_mines(mines: &Vec<bool>, width: u8, height: u8, x: u8, y: u8) -> (n: u8)
    requires
        mines@.len() == width as int * height as int,
        spec_in_grid(x as int, y as int, width as int, height as int),
    ensures
        n as int == spec_grid_adjacent_mines(mines@, width as int, height as int, x as int, y as int),
{
    let c = x as i32;
    let r = y as i32;
    let mut n: u8 = 0;
    if grid_mine_at_exec(mines, width, height, c - 1, r - 1) {
        n = n + 1;
    }
    if grid_mine_at_exec(mines, width, height, c, r - 1) {
        n = n + 1;
    }
    if grid_mine_at_exec(mines, width, height, c + 1, r - 1) {
        n = n + 1;
    }
    if grid_mine_at_exec(mines, width, height, c - 1, r) {
        n = n + 1;
    }
    if grid_mine_at_exec(mines, width, height, c + 1, r) {
        n = n + 1;
    }
    if grid_mine_at_exec(mines, width, height, c - 1, r + 1) {
        n = n + 1;
    }
    if grid_mine_at_exec(mines, width, height, c, r + 1) {
        n = n + 1;
    }
    if grid_mine_at_exec(mines, width, height, c + 1, r + 1) {
        n = n + 1;
    }
    n
}

} // verus!

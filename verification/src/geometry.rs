//! Grid geometry: coordinate bounds checks, the neighbor relation of the
//! up-to-8 cells around a center, and index arithmetic for the row-major
//! cell array.

use vstd::prelude::*;
use crate::GameError;

verus! {

/// One grid coordinate pair: `x` is the column, `y` is the row.
#[derive(Clone, Copy, Debug, PartialEq, Eq, Structural)]
pub struct Position {
    pub x: u8,
    pub y: u8,
}

/// Whether `(col, row)` lies inside a `width` x `height` grid.
pub open spec fn spec_in_grid(col: int, row: int, width: int, height: int) -> bool {
    0 <= col < width && 0 <= row < height
}

/// Whether two coordinates are distinct cells of the same 3x3 block,
/// i.e. they touch horizontally, vertically or diagonally.
pub open spec fn is_neighbor(c1: int, r1: int, c2: int, r2: int) -> bool {
    &&& -1 <= c2 - c1 <= 1
    &&& -1 <= r2 - r1 <= 1
    &&& !(c1 == c2 && r1 == r2)
}

/// The singleton `[(col, row)]` when in bounds, else the empty sequence.
pub open spec fn clipped(col: int, row: int, width: int, height: int) -> Seq<Position> {
    if spec_in_grid(col, row, width, height) {
        seq![Position { x: col as u8, y: row as u8 }]
    } else {
        seq![]
    }
}

/// The in-bounds neighbors of `(col, row)`, in a row-major scan of the
/// 3x3 block around the center, skipping the center itself.
pub open spec fn spec_neighbors(col: int, row: int, width: int, height: int) -> Seq<Position> {
    clipped(col - 1, row - 1, width, height) + clipped(col, row - 1, width, height) + clipped(
        col + 1,
        row - 1,
        width,
        height,
    ) + clipped(col - 1, row, width, height) + clipped(col + 1, row, width, height) + clipped(
        col - 1,
        row + 1,
        width,
        height,
    ) + clipped(col, row + 1, width, height) + clipped(col + 1, row + 1, width, height)
}

/// A cell's row-major index inside the flat cell array.
pub open spec fn spec_index(col: int, row: int, width: int) -> int {
    row * width + col
}

/// Row-major indices of in-bounds cells stay inside the array.
pub proof fn lemma_index_bound(col: int, row: int, width: int, height: int)
    requires
        spec_in_grid(col, row, width, height),
    ensures
        0 <= spec_index(col, row, width) < width * height,
{
    assert(0 <= row * width + col < width * height) by (nonlinear_arith)
        requires
            0 <= col < width,
            0 <= row < height,
    ;
}

/// Row-major indexing is injective on in-bounds coordinates.
pub proof fn lemma_index_injective(c1: int, r1: int, c2: int, r2: int, width: int, height: int)
    requires
        spec_in_grid(c1, r1, width, height),
        spec_in_grid(c2, r2, width, height),
        spec_index(c1, r1, width) == spec_index(c2, r2, width),
    ensures
        c1 == c2 && r1 == r2,
{
    assert(r1 == r2 && c1 == c2) by (nonlinear_arith)
        requires
            0 <= c1 < width,
            0 <= c2 < width,
            0 <= r1,
            0 <= r2,
            r1 * width + c1 == r2 * width + c2,
    ;
}

/// The neighbor list holds exactly the in-bounds positions that the
/// neighbor relation admits.
pub proof fn lemma_neighbors_complete(col: int, row: int, width: int, height: int)
    requires
        0 <= width <= 256,
        0 <= height <= 256,
    ensures
        forall|p: Position|
            spec_neighbors(col, row, width, height).contains(p) <==> (spec_in_grid(
                p.x as int,
                p.y as int,
                width,
                height,
            ) && is_neighbor(col, row, p.x as int, p.y as int)),
{
    let ns = spec_neighbors(col, row, width, height);
    let s1 = clipped(col - 1, row - 1, width, height);
    let s2 = clipped(col, row - 1, width, height);
    let s3 = clipped(col + 1, row - 1, width, height);
    let s4 = clipped(col - 1, row, width, height);
    let s5 = clipped(col + 1, row, width, height);
    let s6 = clipped(col - 1, row + 1, width, height);
    let s7 = clipped(col, row + 1, width, height);
    let s8 = clipped(col + 1, row + 1, width, height);
    assert forall|p: Position|
        ns.contains(p) <==> (spec_in_grid(p.x as int, p.y as int, width, height) && is_neighbor(
            col,
            row,
            p.x as int,
            p.y as int,
        )) by {
        let c = p.x as int;
        let r = p.y as int;
        if spec_in_grid(c, r, width, height) && is_neighbor(col, row, c, r) {
            let l1 = s1.len() as int;
            let l2 = l1 + s2.len();
            let l3 = l2 + s3.len();
            let l4 = l3 + s4.len();
            let l5 = l4 + s5.len();
            let l6 = l5 + s6.len();
            let l7 = l6 + s7.len();
            if r == row - 1 && c == col - 1 {
                assert(ns[0] == p);
            } else if r == row - 1 && c == col {
                assert(ns[l1] == p);
            } else if r == row - 1 && c == col + 1 {
                assert(ns[l2] == p);
            } else if r == row && c == col - 1 {
                assert(ns[l3] == p);
            } else if r == row && c == col + 1 {
                assert(ns[l4] == p);
            } else if r == row + 1 && c == col - 1 {
                assert(ns[l5] == p);
            } else if r == row + 1 && c == col {
                assert(ns[l6] == p);
            } else {
                assert(r == row + 1 && c == col + 1);
                assert(ns[l7] == p);
            }
            assert(ns.contains(p));
        }
        if ns.contains(p) {
            let k = choose|k: int| 0 <= k < ns.len() && ns[k] == p;
            let t1 = s1 + s2;
            let t2 = t1 + s3;
            let t3 = t2 + s4;
            let t4 = t3 + s5;
            let t5 = t4 + s6;
            let t6 = t5 + s7;
            assert(ns == t6 + s8);
            if k < t1.len() {
                assert(t1[k] == p);
            } else if k < t2.len() {
                assert(s3[k - t1.len()] == p);
            } else if k < t3.len() {
                assert(s4[k - t2.len()] == p);
            } else if k < t4.len() {
                assert(s5[k - t3.len()] == p);
            } else if k < t5.len() {
                assert(s6[k - t4.len()] == p);
            } else if k < t6.len() {
                assert(s7[k - t5.len()] == p);
            } else {
                assert(s8[k - t6.len()] == p);
            }
            assert(spec_in_grid(c, r, width, height) && is_neighbor(col, row, c, r));
        }
    }
}

/// The in-bounds neighbors of `(col, row)` in a `width` x `height` grid,
/// in row-major order of the 3x3 block with the center skipped.
///
/// Out-of-range center coordinates are rejected.
pub fn neighbors(col: u8, row: u8, width: u8, height: u8) -> (r: Result<Vec<Position>, GameError>)
    ensures
        match r {
            Ok(v) => spec_in_grid(col as int, row as int, width as int, height as int) && v@
                == spec_neighbors(col as int, row as int, width as int, height as int),
            Err(e) => e == GameError::InvalidCoordinate && !spec_in_grid(
                col as int,
                row as int,
                width as int,
                height as int,
            ),
        },
{
    if col >= width || row >= height {
        return Err(GameError::InvalidCoordinate);
    }
    let mut v: Vec<Position> = Vec::new();
    if col > 0 && row > 0 {
        v.push(Position { x: col - 1, y: row - 1 });
    }
    if row > 0 {
        v.push(Position { x: col, y: row - 1 });
    }
    if col + 1 < width && row > 0 {
        v.push(Position { x: col + 1, y: row - 1 });
    }
    if col > 0 {
        v.push(Position { x: col - 1, y: row });
    }
    if col + 1 < width {
        v.push(Position { x: col + 1, y: row });
    }
    if col > 0 && row + 1 < height {
        v.push(Position { x: col - 1, y: row + 1 });
    }
    if row + 1 < height {
        v.push(Position { x: col, y: row + 1 });
    }
    if col + 1 < width && row + 1 < height {
        v.push(Position { x: col + 1, y: row + 1 });
    }
    proof {
        assert(v@ =~= spec_neighbors(col as int, row as int, width as int, height as int));
    }
    Ok(v)
}

} // verus!

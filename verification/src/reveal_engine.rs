//! The reveal engine: revealing a cell, including the worklist flood-fill
//! that opens a whole zero-adjacency region together with its numbered
//! border, stopping at mines and flagged cells.

use vstd::prelude::*;
use crate::board::{
    is_unrevealed_pred, lemma_reveal_monotone_trans, lemma_same_layout_trans, lemma_u8_mul_bound,
    newly_revealed_at, reveal_monotone, same_layout, Board, Tile,
};
use crate::counting::{count_matching, lemma_count_matching_bounds, lemma_count_matching_update};
use crate::geometry::{is_neighbor, lemma_index_bound, lemma_index_injective, Position};

verus! {

/// What a reveal request did.
#[derive(Clone, Copy, Debug, PartialEq, Eq, Structural)]
pub enum RevealOutcome {
    /// The cell (and possibly a cascaded region) was revealed safely.
    Safe,
    /// The revealed cell was a mine.
    Mine,
    /// Nothing changed: the cell was already revealed or is flagged.
    NoOp,
}

/// Number of cells not yet revealed.
pub open spec fn unrevealed_count(b: Board) -> int {
    count_matching(b.tiles@, is_unrevealed_pred())
}

/// Every unflagged, non-mine neighbor of `(col, row)` is revealed in `b`.
pub open spec fn closed_at(b: Board, col: int, row: int) -> bool {
    forall|c2: int, r2: int|
        b.in_grid(c2, r2) && is_neighbor(col, row, c2, r2) && !(#[trigger] b.tile_at(
            c2,
            r2,
        )).is_flagged && !b.tile_at(c2, r2).is_mine ==> b.tile_at(c2, r2).is_revealed
}

/// No mine and no flagged cell was revealed between `a` and `b`.
pub open spec fn cascade_safe(a: Board, b: Board) -> bool {
    forall|c2: int, r2: int|
        a.in_grid(c2, r2) && #[trigger] newly_revealed_at(a, b, c2, r2) ==> !a.tile_at(
            c2,
            r2,
        ).is_mine && !a.tile_at(c2, r2).is_flagged
}

/// Every cell revealed between `a` and `b`, other than the target, has a
/// zero-adjacency, non-mine neighbor that was also revealed in that step.
pub open spec fn cascade_sourced(a: Board, b: Board, col: int, row: int) -> bool {
    forall|c2: int, r2: int|
        a.in_grid(c2, r2) && #[trigger] newly_revealed_at(a, b, c2, r2) && !(c2 == col && r2 == row)
            ==> exists|c3: int, r3: int|
            a.in_grid(c3, r3) && is_neighbor(c3, r3, c2, r2) && #[trigger] newly_revealed_at(
                a,
                b,
                c3,
                r3,
            ) && a.tile_at(c3, r3).adjacent_mines == 0 && !a.tile_at(c3, r3).is_mine
}

/// Every zero-adjacency cell revealed between `a` and `b` has its whole
/// unflagged, non-mine neighborhood revealed in `b`.
pub open spec fn cascade_closed(a: Board, b: Board) -> bool {
    forall|c2: int, r2: int|
        a.in_grid(c2, r2) && #[trigger] newly_revealed_at(a, b, c2, r2) && a.tile_at(
            c2,
            r2,
        ).adjacent_mines == 0 ==> closed_at(b, c2, r2)
}

/// Everything the flood-fill from a zero-adjacency target guarantees.
pub open spec fn flood_cascade_post(a: Board, b: Board, col: int, row: int) -> bool {
    &&& same_layout(a, b)
    &&& reveal_monotone(a, b)
    &&& newly_revealed_at(a, b, col, row)
    &&& cascade_safe(a, b)
    &&& cascade_sourced(a, b, col, row)
    &&& cascade_closed(a, b)
}

/// Whether a chord at `(col, row)` would reveal a mine: some unflagged,
/// unrevealed neighbor holds one.
pub open spec fn chord_hits_mine(b: Board, col: int, row: int) -> bool {
    exists|c2: int, r2: int|
        b.in_grid(c2, r2) && is_neighbor(col, row, c2, r2) && !(#[trigger] b.tile_at(
            c2,
            r2,
        )).is_flagged && !b.tile_at(c2, r2).is_revealed && b.tile_at(c2, r2).is_mine
}

/// A chain of cells fit to carry a flood-fill from its head: each is an
/// in-bounds, unrevealed, unflagged, non-mine, zero-adjacency cell, and
/// consecutive cells are neighbors.
pub open spec fn zero_chain(b: Board, path: Seq<(int, int)>) -> bool {
    &&& forall|k: int|
        0 <= k < path.len() ==> {
            let p = #[trigger] path[k];
            &&& b.in_grid(p.0, p.1)
            &&& !b.tile_at(p.0, p.1).is_revealed
            &&& !b.tile_at(p.0, p.1).is_flagged
            &&& !b.tile_at(p.0, p.1).is_mine
            &&& b.tile_at(p.0, p.1).adjacent_mines == 0
        }
    &&& forall|k: int|
        0 < k < path.len() ==> is_neighbor(
            (#[trigger] path[k]).0,
            path[k].1,
            path[k - 1].0,
            path[k - 1].1,
        )
}

/// Flood-fill opens whole regions: after revealing a zero-adjacency cell,
/// every cell connected to it through unrevealed, unflagged
/// zero-adjacency cells is revealed, and so is the unflagged, non-mine
/// border of every cell on such a chain.
pub proof fn lemma_flood_covers_region(b0: Board, b1: Board, col: int, row: int, path: Seq<(int, int)>)
    requires
        b0.wf_shape(),
        flood_cascade_post(b0, b1, col, row),
        path.len() > 0,
        path[0] == (col, row),
        zero_chain(b0, path),
    ensures
        forall|k: int|
            0 <= k < path.len() ==> newly_revealed_at(b0, b1, (#[trigger] path[k]).0, path[k].1),
        closed_at(b1, path.last().0, path.last().1),
    decreases path.len(),
{
    if path.len() == 1 {
        assert(newly_revealed_at(b0, b1, col, row));
        assert(closed_at(b1, col, row));
    } else {
        let pre = path.drop_last();
        assert(pre[0] == (col, row));
        assert(zero_chain(b0, pre));
        lemma_flood_covers_region(b0, b1, col, row, pre);
        let p = path[path.len() - 2];
        let q = path.last();
        assert(newly_revealed_at(b0, b1, p.0, p.1));
        assert(closed_at(b1, p.0, p.1));
        assert(is_neighbor(q.0, q.1, p.0, p.1));
        assert(is_neighbor(p.0, p.1, q.0, q.1));
        lemma_index_bound(q.0, q.1, b0.width as int, b0.height as int);
        assert(b1.tile_at(q.0, q.1).is_revealed);
        assert(newly_revealed_at(b0, b1, q.0, q.1));
        assert(closed_at(b1, q.0, q.1));
        assert forall|k: int| 0 <= k < path.len() implies newly_revealed_at(
            b0,
            b1,
            (#[trigger] path[k]).0,
            path[k].1,
        ) by {
            if k < path.len() - 1 {
                assert(path[k] == pre[k]);
            }
        }
    }
}

/// Whether the worklist holds `(col, row)`.
pub open spec fn in_stack(s: Seq<Position>, col: int, row: int) -> bool {
    exists|k: int| 0 <= k < s.len() && (#[trigger] s[k]).x as int == col && s[k].y as int == row
}

/// What holds of every worklist entry: an in-bounds, zero-adjacency,
/// non-mine, unflagged cell revealed by the running cascade.
pub open spec fn stack_elem_ok(a: Board, b: Board, p: Position) -> bool {
    &&& a.in_grid(p.x as int, p.y as int)
    &&& newly_revealed_at(a, b, p.x as int, p.y as int)
    &&& a.tile_at(p.x as int, p.y as int).adjacent_mines == 0
    &&& !a.tile_at(p.x as int, p.y as int).is_mine
    &&& !a.tile_at(p.x as int, p.y as int).is_flagged
}

/// `a` is an unchanged initial segment of `b`.
pub open spec fn stack_prefix(a: Seq<Position>, b: Seq<Position>) -> bool {
    a.len() <= b.len() && forall|m: int| 0 <= m < a.len() ==> a[m] == #[trigger] b[m]
}

proof fn lemma_stack_prefix_trans(a: Seq<Position>, b: Seq<Position>, c: Seq<Position>)
    requires
        stack_prefix(a, b),
        stack_prefix(b, c),
    ensures
        stack_prefix(a, c),
{
    assert forall|m: int| 0 <= m < a.len() implies a[m] == #[trigger] c[m] by {
        assert(a[m] == b[m]);
    }
}

/// When one flood step pushed a cell, the pushed cell holds what the
/// worklist demands, stated between that step's start and end boards.
pub open spec fn visit_pushed(a: Board, b: Board, sa: Seq<Position>, sb: Seq<Position>) -> bool {
    sb.len() == sa.len() + 1 ==> ({
        let pos = sb.last();
        &&& sb == sa.push(pos)
        &&& a.in_grid(pos.x as int, pos.y as int)
        &&& newly_revealed_at(a, b, pos.x as int, pos.y as int)
        &&& !a.tile_at(pos.x as int, pos.y as int).is_mine
        &&& !a.tile_at(pos.x as int, pos.y as int).is_flagged
        &&& a.tile_at(pos.x as int, pos.y as int).adjacent_mines == 0
    })
}

/// A worklist entry justified against one step lifts to the whole
/// cascade: earlier boards reveal less, later boards reveal more.
proof fn lemma_lift_elem(g0: Board, ga: Board, gb: Board, g8: Board, pos: Position)
    requires
        g0.wf_shape(),
        same_layout(g0, ga),
        same_layout(g0, gb),
        same_layout(g0, g8),
        reveal_monotone(g0, ga),
        reveal_monotone(gb, g8),
        ga.in_grid(pos.x as int, pos.y as int),
        newly_revealed_at(ga, gb, pos.x as int, pos.y as int),
        !ga.tile_at(pos.x as int, pos.y as int).is_mine,
        !ga.tile_at(pos.x as int, pos.y as int).is_flagged,
        ga.tile_at(pos.x as int, pos.y as int).adjacent_mines == 0,
    ensures
        stack_elem_ok(g0, g8, pos),
{
    lemma_index_bound(pos.x as int, pos.y as int, g0.width as int, g0.height as int);
    assert(!g0.tile_at(pos.x as int, pos.y as int).is_revealed);
    assert(g8.tile_at(pos.x as int, pos.y as int).is_revealed);
}

impl Board {
    /// One flood-fill step: reveal `(qc, qr)` if it is an in-bounds,
    /// unrevealed, unflagged, non-mine cell, and queue it when it has no
    /// mine neighbors; otherwise change nothing.
    fn flood_visit(&mut self, stack: &mut Vec<Position>, qc: i32, qr: i32)
        requires
            old(self).wf_shape(),
        ensures
            final(self).wf_shape(),
            same_layout(*old(self), *final(self)),
            reveal_monotone(*old(self), *final(self)),
            unrevealed_count(*final(self)) + final(stack)@.len() <= unrevealed_count(*old(self))
                + old(stack)@.len(),
            final(stack)@.len() == old(stack)@.len() || final(stack)@.len() == old(stack)@.len()
                + 1,
            stack_prefix(old(stack)@, final(stack)@),
            visit_pushed(*old(self), *final(self), old(stack)@, final(stack)@),
            forall|c2: int, r2: int|
                old(self).in_grid(c2, r2) && #[trigger] newly_revealed_at(
                    *old(self),
                    *final(self),
                    c2,
                    r2,
                ) ==> c2 == qc as int && r2 == qr as int,
            ({
                let c = qc as int;
                let r = qr as int;
                if old(self).in_grid(c, r) {
                    let q = old(self).tile_at(c, r);
                    if !q.is_revealed && !q.is_flagged && !q.is_mine {
                        &&& final(self).tiles@ == old(self).tiles@.update(
                            old(self).index_at(c, r),
                            (Tile {
                                is_mine: q.is_mine,
                                is_flagged: q.is_flagged,
                                is_revealed: true,
                                adjacent_mines: q.adjacent_mines,
                            }),
                        )
                        &&& (q.adjacent_mines == 0 ==> final(stack)@ == old(stack)@.push(
                            (Position { x: qc as u8, y: qr as u8 }),
                        ))
                        &&& (q.adjacent_mines != 0 ==> final(stack)@ == old(stack)@)
                    } else {
                        final(self).tiles@ == old(self).tiles@ && final(stack)@ == old(stack)@
                    }
                } else {
                    final(self).tiles@ == old(self).tiles@ && final(stack)@ == old(stack)@
                }
            }),
    {
        if qc < 0 || qr < 0 || qc >= self.width as i32 || qr >= self.height as i32 {
            return ;
        }
        let col = qc as u8;
        let row = qr as u8;
        proof {
            lemma_u8_mul_bound(row as int, self.width as int);
            lemma_index_bound(col as int, row as int, self.width as int, self.height as int);
        }
        let i = (row as usize) * (self.width as usize) + (col as usize);
        let q = self.tiles[i];
        if !q.is_revealed && !q.is_flagged && !q.is_mine {
            proof {
                lemma_count_matching_update(
                    self.tiles@,
                    i as int,
                    (Tile {
                        is_mine: q.is_mine,
                        is_flagged: q.is_flagged,
                        is_revealed: true,
                        adjacent_mines: q.adjacent_mines,
                    }),
                    is_unrevealed_pred(),
                );
            }
            self.tiles.set(
                i,
                Tile {
                    is_mine: q.is_mine,
                    is_flagged: q.is_flagged,
                    is_revealed: true,
                    adjacent_mines: q.adjacent_mines,
                },
            );
            proof {
                assert forall|c2: int, r2: int|
                    old(self).in_grid(c2, r2) && #[trigger] newly_revealed_at(
                        *old(self),
                        *self,
                        c2,
                        r2,
                    ) implies c2 == col as int && r2 == row as int by {
                    lemma_index_bound(c2, r2, self.width as int, self.height as int);
                    if !(c2 == col as int && r2 == row as int) {
                        if old(self).index_at(c2, r2) == i as int {
                            lemma_index_injective(
                                c2,
                                r2,
                                col as int,
                                row as int,
                                self.width as int,
                                self.height as int,
                            );
                        }
                    }
                }
                assert(newly_revealed_at(*old(self), *self, col as int, row as int));
            }
            if q.adjacent_mines == 0 {
                stack.push(Position { x: col, y: row });
            }
        }
    }

    /// Expand one popped worklist cell: apply a flood step to each of its
    /// up-to-8 neighbors, closing its whole unflagged neighborhood.
    #[verifier::rlimit(100)]
    fn flood_expand(&mut self, stack: &mut Vec<Position>, px: u8, py: u8)
        requires
            old(self).wf_shape(),
            old(self).in_grid(px as int, py as int),
        ensures
            final(self).wf_shape(),
            same_layout(*old(self), *final(self)),
            reveal_monotone(*old(self), *final(self)),
            unrevealed_count(*final(self)) + final(stack)@.len() <= unrevealed_count(*old(self))
                + old(stack)@.len(),
            stack_prefix(old(stack)@, final(stack)@),
            closed_at(*final(self), px as int, py as int),
            forall|c2: int, r2: int|
                old(self).in_grid(c2, r2) && #[trigger] newly_revealed_at(
                    *old(self),
                    *final(self),
                    c2,
                    r2,
                ) ==> is_neighbor(px as int, py as int, c2, r2) && !old(self).tile_at(
                    c2,
                    r2,
                ).is_mine && !old(self).tile_at(c2, r2).is_flagged,
            forall|c2: int, r2: int|
                old(self).in_grid(c2, r2) && #[trigger] newly_revealed_at(
                    *old(self),
                    *final(self),
                    c2,
                    r2,
                ) && old(self).tile_at(c2, r2).adjacent_mines == 0 ==> in_stack(
                    final(stack)@,
                    c2,
                    r2,
                ),
            forall|m: int|
                old(stack)@.len() <= m < final(stack)@.len() ==> stack_elem_ok(
                    *old(self),
                    *final(self),
                    #[trigger] final(stack)@[m],
                ),
    {
        let pc = px as i32;
        let pr = py as i32;
        let ghost g0 = *old(self);
        let ghost s0 = old(stack)@;
        self.flood_visit(stack, pc - 1, pr - 1);
        let ghost g1 = *self;
        let ghost s1 = stack@;
        self.flood_visit(stack, pc, pr - 1);
        let ghost g2 = *self;
        let ghost s2 = stack@;
        self.flood_visit(stack, pc + 1, pr - 1);
        let ghost g3 = *self;
        let ghost s3 = stack@;
        self.flood_visit(stack, pc - 1, pr);
        let ghost g4 = *self;
        let ghost s4 = stack@;
        self.flood_visit(stack, pc + 1, pr);
        let ghost g5 = *self;
        let ghost s5 = stack@;
        self.flood_visit(stack, pc - 1, pr + 1);
        let ghost g6 = *self;
        let ghost s6 = stack@;
        self.flood_visit(stack, pc, pr + 1);
        let ghost g7 = *self;
        let ghost s7 = stack@;
        self.flood_visit(stack, pc + 1, pr + 1);
        proof {
            let g8 = *self;
            let s8 = stack@;
            let w = g0.width as int;
            let h = g0.height as int;
            let pxi = px as int;
            let pyi = py as int;
            lemma_same_layout_trans(g0, g1, g2);
            lemma_same_layout_trans(g0, g2, g3);
            lemma_same_layout_trans(g0, g3, g4);
            lemma_same_layout_trans(g0, g4, g5);
            lemma_same_layout_trans(g0, g5, g6);
            lemma_same_layout_trans(g0, g6, g7);
            lemma_same_layout_trans(g0, g7, g8);
            lemma_reveal_monotone_trans(g0, g1, g2);
            lemma_reveal_monotone_trans(g0, g2, g3);
            lemma_reveal_monotone_trans(g0, g3, g4);
            lemma_reveal_monotone_trans(g0, g4, g5);
            lemma_reveal_monotone_trans(g0, g5, g6);
            lemma_reveal_monotone_trans(g0, g6, g7);
            lemma_reveal_monotone_trans(g0, g7, g8);
            lemma_reveal_monotone_trans(g6, g7, g8);
            lemma_reveal_monotone_trans(g5, g6, g8);
            lemma_reveal_monotone_trans(g4, g5, g8);
            lemma_reveal_monotone_trans(g3, g4, g8);
            lemma_reveal_monotone_trans(g2, g3, g8);
            lemma_reveal_monotone_trans(g1, g2, g8);
            lemma_reveal_monotone_trans(g0, g1, g8);
            lemma_stack_prefix_trans(s0, s1, s2);
            lemma_stack_prefix_trans(s0, s2, s3);
            lemma_stack_prefix_trans(s0, s3, s4);
            lemma_stack_prefix_trans(s0, s4, s5);
            lemma_stack_prefix_trans(s0, s5, s6);
            lemma_stack_prefix_trans(s0, s6, s7);
            lemma_stack_prefix_trans(s0, s7, s8);
            lemma_stack_prefix_trans(s1, s2, s8);
            lemma_stack_prefix_trans(s2, s3, s8);
            lemma_stack_prefix_trans(s3, s4, s8);
            lemma_stack_prefix_trans(s4, s5, s8);
            lemma_stack_prefix_trans(s5, s6, s8);
            lemma_stack_prefix_trans(s6, s7, s8);
            // the whole unflagged, non-mine neighborhood of (px, py) ends
            // up revealed
            assert forall|c3: int, r3: int|
                g8.in_grid(c3, r3) && is_neighbor(pxi, pyi, c3, r3) && !(#[trigger] g8.tile_at(
                    c3,
                    r3,
                )).is_flagged && !g8.tile_at(c3, r3).is_mine implies g8.tile_at(
                c3,
                r3,
            ).is_revealed by {
                lemma_index_bound(c3, r3, w, h);
                if r3 == pyi - 1 && c3 == pxi - 1 {
                    if !g0.tile_at(c3, r3).is_revealed {
                        assert(g1.tile_at(c3, r3).is_revealed);
                    }
                } else if r3 == pyi - 1 && c3 == pxi {
                    if !g1.tile_at(c3, r3).is_revealed {
                        assert(g2.tile_at(c3, r3).is_revealed);
                    }
                } else if r3 == pyi - 1 && c3 == pxi + 1 {
                    if !g2.tile_at(c3, r3).is_revealed {
                        assert(g3.tile_at(c3, r3).is_revealed);
                    }
                } else if r3 == pyi && c3 == pxi - 1 {
                    if !g3.tile_at(c3, r3).is_revealed {
                        assert(g4.tile_at(c3, r3).is_revealed);
                    }
                } else if r3 == pyi && c3 == pxi + 1 {
                    if !g4.tile_at(c3, r3).is_revealed {
                        assert(g5.tile_at(c3, r3).is_revealed);
                    }
                } else if r3 == pyi + 1 && c3 == pxi - 1 {
                    if !g5.tile_at(c3, r3).is_revealed {
                        assert(g6.tile_at(c3, r3).is_revealed);
                    }
                } else if r3 == pyi + 1 && c3 == pxi {
                    if !g6.tile_at(c3, r3).is_revealed {
                        assert(g7.tile_at(c3, r3).is_revealed);
                    }
                } else {
                    assert(r3 == pyi + 1 && c3 == pxi + 1);
                    if !g7.tile_at(c3, r3).is_revealed {
                        assert(g8.tile_at(c3, r3).is_revealed);
                    }
                }
            }
            // each newly revealed cell is one of the 8 neighbors, was
            // neither a mine nor flagged, and a zero cell got queued
            assert forall|c2: int, r2: int|
                g0.in_grid(c2, r2) && #[trigger] newly_revealed_at(g0, g8, c2, r2) implies ({
                    &&& is_neighbor(pxi, pyi, c2, r2)
                    &&& !g0.tile_at(c2, r2).is_mine
                    &&& !g0.tile_at(c2, r2).is_flagged
                    &&& (g0.tile_at(c2, r2).adjacent_mines == 0 ==> in_stack(s8, c2, r2))
                }) by {
                lemma_index_bound(c2, r2, w, h);
                if newly_revealed_at(g0, g1, c2, r2) {
                    assert(c2 == pxi - 1 && r2 == pyi - 1);
                    if g0.tile_at(c2, r2).adjacent_mines == 0 {
                        assert(s1 == s0.push(Position { x: c2 as u8, y: r2 as u8 }));
                        assert(s8[s1.len() - 1] == s1[s1.len() - 1]);
                        assert(in_stack(s8, c2, r2));
                    }
                } else if newly_revealed_at(g1, g2, c2, r2) {
                    assert(c2 == pxi && r2 == pyi - 1);
                    if g1.tile_at(c2, r2).adjacent_mines == 0 {
                        assert(s2 == s1.push(Position { x: c2 as u8, y: r2 as u8 }));
                        assert(s8[s2.len() - 1] == s2[s2.len() - 1]);
                        assert(in_stack(s8, c2, r2));
                    }
                } else if newly_revealed_at(g2, g3, c2, r2) {
                    assert(c2 == pxi + 1 && r2 == pyi - 1);
                    if g2.tile_at(c2, r2).adjacent_mines == 0 {
                        assert(s3 == s2.push(Position { x: c2 as u8, y: r2 as u8 }));
                        assert(s8[s3.len() - 1] == s3[s3.len() - 1]);
                        assert(in_stack(s8, c2, r2));
                    }
                } else if newly_revealed_at(g3, g4, c2, r2) {
                    assert(c2 == pxi - 1 && r2 == pyi);
                    if g3.tile_at(c2, r2).adjacent_mines == 0 {
                        assert(s4 == s3.push(Position { x: c2 as u8, y: r2 as u8 }));
                        assert(s8[s4.len() - 1] == s4[s4.len() - 1]);
                        assert(in_stack(s8, c2, r2));
                    }
                } else if newly_revealed_at(g4, g5, c2, r2) {
                    assert(c2 == pxi + 1 && r2 == pyi);
                    if g4.tile_at(c2, r2).adjacent_mines == 0 {
                        assert(s5 == s4.push(Position { x: c2 as u8, y: r2 as u8 }));
                        assert(s8[s5.len() - 1] == s5[s5.len() - 1]);
                        assert(in_stack(s8, c2, r2));
                    }
                } else if newly_revealed_at(g5, g6, c2, r2) {
                    assert(c2 == pxi - 1 && r2 == pyi + 1);
                    if g5.tile_at(c2, r2).adjacent_mines == 0 {
                        assert(s6 == s5.push(Position { x: c2 as u8, y: r2 as u8 }));
                        assert(s8[s6.len() - 1] == s6[s6.len() - 1]);
                        assert(in_stack(s8, c2, r2));
                    }
                } else if newly_revealed_at(g6, g7, c2, r2) {
                    assert(c2 == pxi && r2 == pyi + 1);
                    if g6.tile_at(c2, r2).adjacent_mines == 0 {
                        assert(s7 == s6.push(Position { x: c2 as u8, y: r2 as u8 }));
                        assert(s8[s7.len() - 1] == s7[s7.len() - 1]);
                        assert(in_stack(s8, c2, r2));
                    }
                } else if newly_revealed_at(g7, g8, c2, r2) {
                    assert(c2 == pxi + 1 && r2 == pyi + 1);
                    if g7.tile_at(c2, r2).adjacent_mines == 0 {
                        assert(s8 == s7.push(Position { x: c2 as u8, y: r2 as u8 }));
                        assert(in_stack(s8, c2, r2));
                    }
                } else {
                    assert(false);
                }
            }
            // every fresh worklist entry is a valid cascade cell
            assert forall|m: int| s0.len() <= m < s8.len() implies stack_elem_ok(
                g0,
                g8,
                #[trigger] s8[m],
            ) by {
                if m < s1.len() {
                    assert(s8[m] == s1[m]);
                    assert(s1.len() == s0.len() + 1 && m == s1.len() - 1);
                    lemma_lift_elem(g0, g0, g1, g8, s1.last());
                } else if m < s2.len() {
                    assert(s8[m] == s2[m]);
                    assert(s2.len() == s1.len() + 1 && m == s2.len() - 1);
                    lemma_lift_elem(g0, g1, g2, g8, s2.last());
                } else if m < s3.len() {
                    assert(s8[m] == s3[m]);
                    assert(s3.len() == s2.len() + 1 && m == s3.len() - 1);
                    lemma_lift_elem(g0, g2, g3, g8, s3.last());
                } else if m < s4.len() {
                    assert(s8[m] == s4[m]);
                    assert(s4.len() == s3.len() + 1 && m == s4.len() - 1);
                    lemma_lift_elem(g0, g3, g4, g8, s4.last());
                } else if m < s5.len() {
                    assert(s8[m] == s5[m]);
                    assert(s5.len() == s4.len() + 1 && m == s5.len() - 1);
                    lemma_lift_elem(g0, g4, g5, g8, s5.last());
                } else if m < s6.len() {
                    assert(s8[m] == s6[m]);
                    assert(s6.len() == s5.len() + 1 && m == s6.len() - 1);
                    lemma_lift_elem(g0, g5, g6, g8, s6.last());
                } else if m < s7.len() {
                    assert(s8[m] == s7[m]);
                    assert(s7.len() == s6.len() + 1 && m == s7.len() - 1);
                    lemma_lift_elem(g0, g6, g7, g8, s7.last());
                } else {
                    assert(s8.len() == s7.len() + 1 && m == s8.len() - 1);
                    lemma_lift_elem(g0, g7, g8, g8, s8.last());
                }
            }
        }
    }

    /// One chorded reveal request: apply reveal semantics to `(qc, qr)`
    /// when it is on the grid, and report whether it uncovered a mine.
    fn chord_visit(&mut self, qc: i32, qr: i32) -> (mine: bool)
        requires
            old(self).wf_shape(),
        ensures
            final(self).wf_shape(),
            same_layout(*old(self), *final(self)),
            reveal_monotone(*old(self), *final(self)),
            ({
                let c = qc as int;
                let r = qr as int;
                &&& (old(self).in_grid(c, r) && !old(self).tile_at(c, r).is_flagged
                    ==> final(self).tile_at(c, r).is_revealed)
                &&& (mine <==> (old(self).in_grid(c, r) && !old(self).tile_at(c, r).is_flagged
                    && !old(self).tile_at(c, r).is_revealed && old(self).tile_at(c, r).is_mine))
            }),
            forall|c2: int, r2: int|
                old(self).in_grid(c2, r2) && #[trigger] newly_revealed_at(
                    *old(self),
                    *final(self),
                    c2,
                    r2,
                ) ==> !old(self).tile_at(c2, r2).is_flagged && (!mine ==> !old(self).tile_at(
                    c2,
                    r2,
                ).is_mine),
    {
        if qc < 0 || qr < 0 || qc >= self.width as i32 || qr >= self.height as i32 {
            return false;
        }
        proof {
            lemma_index_bound(qc as int, qr as int, self.width as int, self.height as int);
        }
        let o = self.reveal_flood(qc as u8, qr as u8);
        matches!(o, RevealOutcome::Mine)
    }

    /// Request an independent reveal, cascade included, of every
    /// neighbor of `(col, row)`; flagged neighbors come back as no-ops.
    /// Reports whether any reveal hit a mine.
    #[verifier::rlimit(100)]
    pub fn chord_cascade(&mut self, col: u8, row: u8) -> (mine_hit: bool)
        requires
            old(self).wf_shape(),
            old(self).in_grid(col as int, row as int),
        ensures
            final(self).wf_shape(),
            same_layout(*old(self), *final(self)),
            reveal_monotone(*old(self), *final(self)),
            forall|c2: int, r2: int|
                old(self).in_grid(c2, r2) && is_neighbor(col as int, row as int, c2, r2) && !(
                #[trigger] old(self).tile_at(c2, r2)).is_flagged ==> final(self).tile_at(
                    c2,
                    r2,
                ).is_revealed,
            forall|c2: int, r2: int|
                old(self).in_grid(c2, r2) && #[trigger] newly_revealed_at(
                    *old(self),
                    *final(self),
                    c2,
                    r2,
                ) ==> !old(self).tile_at(c2, r2).is_flagged && (!mine_hit ==> !old(self).tile_at(
                    c2,
                    r2,
                ).is_mine),
            mine_hit <==> chord_hits_mine(*old(self), col as int, row as int),
    {
        let ghost b0 = *old(self);
        let ghost ci = col as int;
        let ghost ri = row as int;
        let c = col as i32;
        let rr = row as i32;
        let mut mine_hit = false;
        let m1 = self.chord_visit(c - 1, rr - 1);
        if m1 {
            mine_hit = true;
        }
        let ghost h1 = *self;
        let m2 = self.chord_visit(c, rr - 1);
        if m2 {
            mine_hit = true;
        }
        let ghost h2 = *self;
        let m3 = self.chord_visit(c + 1, rr - 1);
        if m3 {
            mine_hit = true;
        }
        let ghost h3 = *self;
        let m4 = self.chord_visit(c - 1, rr);
        if m4 {
            mine_hit = true;
        }
        let ghost h4 = *self;
        let m5 = self.chord_visit(c + 1, rr);
        if m5 {
            mine_hit = true;
        }
        let ghost h5 = *self;
        let m6 = self.chord_visit(c - 1, rr + 1);
        if m6 {
            mine_hit = true;
        }
        let ghost h6 = *self;
        let m7 = self.chord_visit(c, rr + 1);
        if m7 {
            mine_hit = true;
        }
        let ghost h7 = *self;
        let m8 = self.chord_visit(c + 1, rr + 1);
        if m8 {
            mine_hit = true;
        }
        let ghost h8 = *self;
        proof {
            let w = b0.width as int;
            let h = b0.height as int;
            lemma_same_layout_trans(b0, h1, h2);
            lemma_same_layout_trans(b0, h2, h3);
            lemma_same_layout_trans(b0, h3, h4);
            lemma_same_layout_trans(b0, h4, h5);
            lemma_same_layout_trans(b0, h5, h6);
            lemma_same_layout_trans(b0, h6, h7);
            lemma_same_layout_trans(b0, h7, h8);
            lemma_reveal_monotone_trans(b0, h1, h2);
            lemma_reveal_monotone_trans(b0, h2, h3);
            lemma_reveal_monotone_trans(b0, h3, h4);
            lemma_reveal_monotone_trans(b0, h4, h5);
            lemma_reveal_monotone_trans(b0, h5, h6);
            lemma_reveal_monotone_trans(b0, h6, h7);
            lemma_reveal_monotone_trans(b0, h7, h8);
            lemma_reveal_monotone_trans(h6, h7, h8);
            lemma_reveal_monotone_trans(h5, h6, h8);
            lemma_reveal_monotone_trans(h4, h5, h8);
            lemma_reveal_monotone_trans(h3, h4, h8);
            lemma_reveal_monotone_trans(h2, h3, h8);
            lemma_reveal_monotone_trans(h1, h2, h8);
            // every unflagged neighbor ends up revealed
            assert forall|c2: int, r2: int|
                b0.in_grid(c2, r2) && is_neighbor(ci, ri, c2, r2) && !(#[trigger] b0.tile_at(
                    c2,
                    r2,
                )).is_flagged implies h8.tile_at(c2, r2).is_revealed by {
                lemma_index_bound(c2, r2, w, h);
                if r2 == ri - 1 && c2 == ci - 1 {
                    assert(h1.tile_at(c2, r2).is_revealed);
                } else if r2 == ri - 1 && c2 == ci {
                    assert(h2.tile_at(c2, r2).is_revealed);
                } else if r2 == ri - 1 && c2 == ci + 1 {
                    assert(h3.tile_at(c2, r2).is_revealed);
                } else if r2 == ri && c2 == ci - 1 {
                    assert(h4.tile_at(c2, r2).is_revealed);
                } else if r2 == ri && c2 == ci + 1 {
                    assert(h5.tile_at(c2, r2).is_revealed);
                } else if r2 == ri + 1 && c2 == ci - 1 {
                    assert(h6.tile_at(c2, r2).is_revealed);
                } else if r2 == ri + 1 && c2 == ci {
                    assert(h7.tile_at(c2, r2).is_revealed);
                } else {
                    assert(r2 == ri + 1 && c2 == ci + 1);
                    assert(h8.tile_at(c2, r2).is_revealed);
                }
            }
            // nothing flagged was revealed; without a mine outcome,
            // nothing mined either
            assert forall|c2: int, r2: int|
                b0.in_grid(c2, r2) && #[trigger] newly_revealed_at(b0, h8, c2, r2) implies (
            !b0.tile_at(c2, r2).is_flagged && (!mine_hit ==> !b0.tile_at(c2, r2).is_mine)) by {
                lemma_index_bound(c2, r2, w, h);
                if newly_revealed_at(b0, h1, c2, r2) {
                } else if newly_revealed_at(h1, h2, c2, r2) {
                } else if newly_revealed_at(h2, h3, c2, r2) {
                } else if newly_revealed_at(h3, h4, c2, r2) {
                } else if newly_revealed_at(h4, h5, c2, r2) {
                } else if newly_revealed_at(h5, h6, c2, r2) {
                } else if newly_revealed_at(h6, h7, c2, r2) {
                } else if newly_revealed_at(h7, h8, c2, r2) {
                } else {
                    assert(false);
                }
            }
            // a mine outcome pinpoints an unflagged, unrevealed mine
            // neighbor; without one, every such neighbor was already
            // revealed, so none exists
            if mine_hit {
                if m1 {
                    lemma_index_bound(ci - 1, ri - 1, w, h);
                    assert(!b0.tile_at(ci - 1, ri - 1).is_revealed);
                    assert(chord_hits_mine(b0, ci, ri));
                } else if m2 {
                    lemma_index_bound(ci, ri - 1, w, h);
                    assert(!b0.tile_at(ci, ri - 1).is_revealed);
                    assert(chord_hits_mine(b0, ci, ri));
                } else if m3 {
                    lemma_index_bound(ci + 1, ri - 1, w, h);
                    assert(!b0.tile_at(ci + 1, ri - 1).is_revealed);
                    assert(chord_hits_mine(b0, ci, ri));
                } else if m4 {
                    lemma_index_bound(ci - 1, ri, w, h);
                    assert(!b0.tile_at(ci - 1, ri).is_revealed);
                    assert(chord_hits_mine(b0, ci, ri));
                } else if m5 {
                    lemma_index_bound(ci + 1, ri, w, h);
                    assert(!b0.tile_at(ci + 1, ri).is_revealed);
                    assert(chord_hits_mine(b0, ci, ri));
                } else if m6 {
                    lemma_index_bound(ci - 1, ri + 1, w, h);
                    assert(!b0.tile_at(ci - 1, ri + 1).is_revealed);
                    assert(chord_hits_mine(b0, ci, ri));
                } else if m7 {
                    lemma_index_bound(ci, ri + 1, w, h);
                    assert(!b0.tile_at(ci, ri + 1).is_revealed);
                    assert(chord_hits_mine(b0, ci, ri));
                } else {
                    lemma_index_bound(ci + 1, ri + 1, w, h);
                    assert(!b0.tile_at(ci + 1, ri + 1).is_revealed);
                    assert(chord_hits_mine(b0, ci, ri));
                }
            } else {
                assert forall|c2: int, r2: int|
                    b0.in_grid(c2, r2) && is_neighbor(ci, ri, c2, r2) && !(#[trigger] b0.tile_at(
                        c2,
                        r2,
                    )).is_flagged && b0.tile_at(c2, r2).is_mine implies b0.tile_at(
                    c2,
                    r2,
                ).is_revealed by {
                    lemma_index_bound(c2, r2, w, h);
                    if !b0.tile_at(c2, r2).is_revealed {
                        assert(h8.tile_at(c2, r2).is_revealed);
                        assert(newly_revealed_at(b0, h8, c2, r2));
                        assert(false);
                    }
                }
                assert(!chord_hits_mine(b0, ci, ri));
            }
        }
        mine_hit
    }

    /// Apply reveal semantics to `(col, row)`: a no-op on a revealed or
    /// flagged cell; otherwise the cell is revealed, a mine ends the
    /// request, a numbered cell reveals only itself, and a zero-adjacency
    /// cell floods its whole region and numbered border.
    #[verifier::rlimit(100)]
    pub fn reveal_flood(&mut self, col: u8, row: u8) -> (out: RevealOutcome)
        requires
            old(self).wf_shape(),
            old(self).in_grid(col as int, row as int),
        ensures
            final(self).wf_shape(),
            same_layout(*old(self), *final(self)),
            reveal_monotone(*old(self), *final(self)),
            forall|c2: int, r2: int|
                old(self).in_grid(c2, r2) && #[trigger] newly_revealed_at(
                    *old(self),
                    *final(self),
                    c2,
                    r2,
                ) ==> !old(self).tile_at(c2, r2).is_flagged,
            out != RevealOutcome::Mine ==> forall|c2: int, r2: int|
                old(self).in_grid(c2, r2) && #[trigger] newly_revealed_at(
                    *old(self),
                    *final(self),
                    c2,
                    r2,
                ) ==> !old(self).tile_at(c2, r2).is_mine,
            out == RevealOutcome::Mine ==> forall|c2: int, r2: int|
                old(self).in_grid(c2, r2) && #[trigger] newly_revealed_at(
                    *old(self),
                    *final(self),
                    c2,
                    r2,
                ) ==> c2 == col as int && r2 == row as int,
            ({
                let t0 = old(self).tile_at(col as int, row as int);
                let idx0 = old(self).index_at(col as int, row as int);
                &&& ((out == RevealOutcome::NoOp) <==> (t0.is_revealed || t0.is_flagged))
                &&& (out == RevealOutcome::NoOp ==> *final(self) == *old(self))
                &&& ((out == RevealOutcome::Mine) <==> (!t0.is_revealed && !t0.is_flagged
                    && t0.is_mine))
                &&& ((out == RevealOutcome::Safe) <==> (!t0.is_revealed && !t0.is_flagged
                    && !t0.is_mine))
                &&& ((out == RevealOutcome::Mine || (out == RevealOutcome::Safe
                    && t0.adjacent_mines != 0)) ==> final(self).tiles@ == old(self).tiles@.update(
                    idx0,
                    (Tile {
                        is_mine: t0.is_mine,
                        is_flagged: t0.is_flagged,
                        is_revealed: true,
                        adjacent_mines: t0.adjacent_mines,
                    }),
                ))
                &&& (out == RevealOutcome::Safe && t0.adjacent_mines == 0 ==> flood_cascade_post(
                    *old(self),
                    *final(self),
                    col as int,
                    row as int,
                ))
            }),
    {
        proof {
            lemma_u8_mul_bound(row as int, self.width as int);
            lemma_index_bound(col as int, row as int, self.width as int, self.height as int);
        }
        let i0 = (row as usize) * (self.width as usize) + (col as usize);
        let t0 = self.tiles[i0];
        if t0.is_revealed || t0.is_flagged {
            return RevealOutcome::NoOp;
        }
        self.tiles.set(
            i0,
            Tile {
                is_mine: t0.is_mine,
                is_flagged: t0.is_flagged,
                is_revealed: true,
                adjacent_mines: t0.adjacent_mines,
            },
        );
        proof {
            assert forall|c2: int, r2: int|
                old(self).in_grid(c2, r2) && #[trigger] newly_revealed_at(
                    *old(self),
                    *self,
                    c2,
                    r2,
                ) implies c2 == col as int && r2 == row as int by {
                lemma_index_bound(c2, r2, self.width as int, self.height as int);
                if !(c2 == col as int && r2 == row as int) {
                    if old(self).index_at(c2, r2) == i0 as int {
                        lemma_index_injective(
                            c2,
                            r2,
                            col as int,
                            row as int,
                            self.width as int,
                            self.height as int,
                        );
                    }
                }
            }
        }
        if t0.is_mine {
            return RevealOutcome::Mine;
        }
        if t0.adjacent_mines != 0 {
            return RevealOutcome::Safe;
        }
        let mut stack: Vec<Position> = Vec::new();
        stack.push(Position { x: col, y: row });
        proof {
            lemma_count_matching_update(
                old(self).tiles@,
                i0 as int,
                (Tile {
                    is_mine: t0.is_mine,
                    is_flagged: t0.is_flagged,
                    is_revealed: true,
                    adjacent_mines: t0.adjacent_mines,
                }),
                is_unrevealed_pred(),
            );
            assert(stack@[0] == (Position { x: col, y: row }));
            assert(in_stack(stack@, col as int, row as int));
        }
        while stack.len() > 0
            invariant
                self.wf_shape(),
                same_layout(*old(self), *self),
                reveal_monotone(*old(self), *self),
                newly_revealed_at(*old(self), *self, col as int, row as int),
                cascade_safe(*old(self), *self),
                cascade_sourced(*old(self), *self, col as int, row as int),
                forall|k: int|
                    0 <= k < stack@.len() ==> stack_elem_ok(*old(self), *self, #[trigger] stack@[k]),
                forall|c2: int, r2: int|
                    old(self).in_grid(c2, r2) && #[trigger] newly_revealed_at(
                        *old(self),
                        *self,
                        c2,
                        r2,
                    ) && old(self).tile_at(c2, r2).adjacent_mines == 0 ==> (in_stack(stack@, c2, r2)
                        || closed_at(*self, c2, r2)),
            decreases unrevealed_count(*self) + stack@.len(),
        {
            let ghost b0 = *old(self);
            let ghost g0 = *self;
            let ghost s0 = stack@;
            let p = stack.pop().unwrap();
            let ghost sp = stack@;
            proof {
                assert(stack_elem_ok(b0, g0, p));
                lemma_count_matching_bounds(g0.tiles@, is_unrevealed_pred());
                assert(sp.len() == s0.len() - 1);
            }
            self.flood_expand(&mut stack, p.x, p.y);
            proof {
                let g8 = *self;
                let s8 = stack@;
                let w = b0.width as int;
                let h = b0.height as int;
                let px = p.x as int;
                let py = p.y as int;
                let ci = col as int;
                let ri = row as int;
                lemma_same_layout_trans(b0, g0, g8);
                lemma_reveal_monotone_trans(b0, g0, g8);
                lemma_count_matching_bounds(g8.tiles@, is_unrevealed_pred());
                assert(unrevealed_count(g8) + s8.len() <= unrevealed_count(g0) + sp.len());
                lemma_index_bound(px, py, w, h);
                assert(g8.tile_at(px, py).is_revealed);
                assert(newly_revealed_at(b0, g8, px, py));
                // safety, sources and closure for every revealed cell
                assert forall|c2: int, r2: int|
                    b0.in_grid(c2, r2) && #[trigger] newly_revealed_at(b0, g8, c2, r2) implies ({
                        &&& !b0.tile_at(c2, r2).is_mine
                        &&& !b0.tile_at(c2, r2).is_flagged
                        &&& (!(c2 == ci && r2 == ri) ==> exists|c4: int, r4: int|
                            b0.in_grid(c4, r4) && is_neighbor(c4, r4, c2, r2)
                                && #[trigger] newly_revealed_at(b0, g8, c4, r4) && b0.tile_at(
                                c4,
                                r4,
                            ).adjacent_mines == 0 && !b0.tile_at(c4, r4).is_mine)
                        &&& (b0.tile_at(c2, r2).adjacent_mines == 0 ==> (in_stack(s8, c2, r2)
                            || closed_at(g8, c2, r2)))
                    }) by {
                    lemma_index_bound(c2, r2, w, h);
                    if newly_revealed_at(b0, g0, c2, r2) {
                        assert(!b0.tile_at(c2, r2).is_mine && !b0.tile_at(c2, r2).is_flagged);
                        if !(c2 == ci && r2 == ri) {
                            let (c3, r3) = choose|c3: int, r3: int|
                                b0.in_grid(c3, r3) && is_neighbor(c3, r3, c2, r2)
                                    && newly_revealed_at(b0, g0, c3, r3) && b0.tile_at(
                                    c3,
                                    r3,
                                ).adjacent_mines == 0 && !b0.tile_at(c3, r3).is_mine;
                            lemma_index_bound(c3, r3, w, h);
                            assert(newly_revealed_at(b0, g8, c3, r3));
                        }
                        if b0.tile_at(c2, r2).adjacent_mines == 0 {
                            if in_stack(s0, c2, r2) {
                                let k = choose|k: int|
                                    0 <= k < s0.len() && (#[trigger] s0[k]).x as int == c2 && (
                                    s0[k]).y as int == r2;
                                if k < s0.len() - 1 {
                                    assert(sp[k] == s0[k]);
                                    assert(s8[k] == sp[k]);
                                    assert(in_stack(s8, c2, r2));
                                } else {
                                    assert(c2 == px && r2 == py);
                                    assert(closed_at(g8, c2, r2));
                                }
                            } else {
                                assert(closed_at(g0, c2, r2));
                                assert forall|c3: int, r3: int|
                                    g8.in_grid(c3, r3) && is_neighbor(c2, r2, c3, r3) && !(
                                    #[trigger] g8.tile_at(c3, r3)).is_flagged && !g8.tile_at(
                                        c3,
                                        r3,
                                    ).is_mine implies g8.tile_at(c3, r3).is_revealed by {
                                    lemma_index_bound(c3, r3, w, h);
                                    assert(!g0.tile_at(c3, r3).is_flagged && !g0.tile_at(
                                        c3,
                                        r3,
                                    ).is_mine);
                                    assert(g0.tile_at(c3, r3).is_revealed);
                                }
                                assert(closed_at(g8, c2, r2));
                            }
                        }
                    } else {
                        // revealed by this expansion step
                        assert(newly_revealed_at(g0, g8, c2, r2));
                        assert(is_neighbor(px, py, c2, r2));
                        assert(!g0.tile_at(c2, r2).is_mine && !g0.tile_at(c2, r2).is_flagged);
                        assert(newly_revealed_at(b0, g8, px, py));
                        if b0.tile_at(c2, r2).adjacent_mines == 0 {
                            assert(g0.tile_at(c2, r2).adjacent_mines == 0);
                            assert(in_stack(s8, c2, r2));
                        }
                    }
                }
                // worklist entries all stay valid cascade cells
                assert forall|k: int| 0 <= k < s8.len() implies stack_elem_ok(
                    b0,
                    g8,
                    #[trigger] s8[k],
                ) by {
                    if k < sp.len() {
                        assert(s8[k] == sp[k]);
                        assert(sp[k] == s0[k]);
                        assert(stack_elem_ok(b0, g0, s0[k]));
                        let q = s0[k];
                        lemma_index_bound(q.x as int, q.y as int, w, h);
                        assert(g8.tile_at(q.x as int, q.y as int).is_revealed);
                    } else {
                        assert(stack_elem_ok(g0, g8, s8[k]));
                        let q = s8[k];
                        lemma_index_bound(q.x as int, q.y as int, w, h);
                        assert(!b0.tile_at(q.x as int, q.y as int).is_revealed);
                    }
                }
            }
        }
        RevealOutcome::Safe
    }
}

} // verus!

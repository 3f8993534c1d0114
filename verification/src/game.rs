//! The game session: coarse phase (Playing / GameOver / Won), aggregate
//! stats, and the intent handlers that drive the cell store — reveal,
//! flag, chord and new-game.

use vstd::prelude::*;
use crate::board::{
    is_flagged_pred, is_revealed_pred, lemma_reveal_monotone_trans, lemma_same_layout_trans,
    lemma_same_layout_wf, lemma_same_mines_wf, lemma_u8_mul_bound, newly_revealed_at,
    reveal_monotone, same_layout, same_mines, Board, BoardSettings, Tile,
};
use crate::counting::{
    lemma_count_matching_bounds, lemma_count_matching_none, lemma_count_matching_update,
};
use crate::geometry::{is_neighbor, lemma_index_bound};
use crate::reveal_engine::{chord_hits_mine, flood_cascade_post, RevealOutcome};
use crate::GameError;

verus! {

/// The coarse game state; terminal states only leave via a new game.
#[derive(Clone, Copy, Debug, PartialEq, Eq, Structural)]
pub enum GamePhase {
    Playing,
    GameOver,
    Won,
}

/// Aggregate counters derived from the board.
#[derive(Clone, Copy, Debug, PartialEq, Eq, Structural)]
pub struct GameStats {
    /// Raw flag deficit: mines minus flags placed; may go negative when
    /// over-flagging, by design.
    pub mines_remaining: i32,
    /// Revealed cells, mines included.
    pub tiles_revealed: u16,
}

impl Default for GameStats {
    /// Counters for a fresh board under the stock configuration.
    fn default() -> (s: Self)
        ensures
            s == (GameStats {
                mines_remaining: crate::config::MINE_COUNT as i32,
                tiles_revealed: 0,
            }),
    {
        GameStats { mines_remaining: crate::config::MINE_COUNT as i32, tiles_revealed: 0 }
    }
}

/// What a flag request did.
#[derive(Clone, Copy, Debug, PartialEq, Eq, Structural)]
pub enum FlagOutcome {
    /// The cell is now flagged.
    Flagged,
    /// The cell's flag was removed.
    Unflagged,
    /// Nothing changed: the round is over or the cell is revealed.
    NoOp,
}

/// One full game session: configuration, board, stats and phase.
#[derive(Debug)]
pub struct Game {
    pub settings: BoardSettings,
    pub board: Board,
    pub stats: GameStats,
    pub phase: GamePhase,
}

impl Game {
    /// Session invariant: the board is well-formed and matches the
    /// configuration, the flag deficit is exact, and while the round is
    /// live the revealed counter is exact. A won round really is won.
    pub open spec fn wf(self) -> bool {
        &&& self.board.wf()
        &&& self.settings.valid()
        &&& self.board.width == self.settings.width
        &&& self.board.height == self.settings.height
        &&& self.board.mine_count == self.settings.mine_count
        &&& self.stats.mines_remaining as int == self.board.mine_count as int
            - self.board.spec_flagged_count()
        &&& (self.phase == GamePhase::Playing ==> self.stats.tiles_revealed as int
            == self.board.spec_revealed_count())
        &&& (self.phase == GamePhase::Won ==> self.board.win_now() && self.stats.tiles_revealed
            as int == self.board.spec_revealed_count())
    }

    /// Start a session on a freshly generated board.
    pub fn new(settings: BoardSettings) -> (r: Result<Game, GameError>)
        ensures
            match r {
                Ok(g) => {
                    &&& settings.valid()
                    &&& g.wf()
                    &&& g.settings == settings
                    &&& g.phase == GamePhase::Playing
                    &&& g.board.fresh()
                    &&& g.stats.tiles_revealed == 0
                    &&& g.stats.mines_remaining == settings.mine_count as i32
                },
                Err(e) => e == GameError::InvalidBoardConfig && !settings.valid(),
            },
    {
        match Board::new(settings.width, settings.height, settings.mine_count) {
            Ok(b) => {
                proof {
                    lemma_count_matching_none(b.tiles@, is_flagged_pred());
                    lemma_count_matching_none(b.tiles@, is_revealed_pred());
                }
                Ok(
                    Game {
                        settings,
                        board: b,
                        stats: GameStats {
                            mines_remaining: settings.mine_count as i32,
                            tiles_revealed: 0,
                        },
                        phase: GamePhase::Playing,
                    },
                )
            },
            Err(e) => Err(e),
        }
    }

    /// Start a session on an explicitly built fresh board.
    pub fn with_board(board: Board) -> (g: Game)
        requires
            board.wf(),
            board.fresh(),
        ensures
            g.wf(),
            g.board == board,
            g.phase == GamePhase::Playing,
            g.stats.tiles_revealed == 0,
            g.stats.mines_remaining == board.mine_count as i32,
            g.settings == (BoardSettings {
                width: board.width,
                height: board.height,
                mine_count: board.mine_count,
            }),
    {
        proof {
            lemma_count_matching_none(board.tiles@, is_flagged_pred());
            lemma_count_matching_none(board.tiles@, is_revealed_pred());
        }
        let settings = BoardSettings {
            width: board.width,
            height: board.height,
            mine_count: board.mine_count,
        };
        let stats = GameStats { mines_remaining: board.mine_count as i32, tiles_revealed: 0 };
        Game { settings, board, stats, phase: GamePhase::Playing }
    }

    /// Replace board and stats with fresh ones and return to `Playing`;
    /// the only way out of a terminal phase.
    pub fn new_game(&mut self)
        requires
            old(self).wf(),
        ensures
            final(self).wf(),
            final(self).settings == old(self).settings,
            final(self).phase == GamePhase::Playing,
            final(self).board.fresh(),
            final(self).board.wf(),
            final(self).stats.tiles_revealed == 0,
            final(self).stats.mines_remaining == old(self).settings.mine_count as i32,
    {
        match Board::new(self.settings.width, self.settings.height, self.settings.mine_count) {
            Ok(b) => {
                proof {
                    lemma_count_matching_none(b.tiles@, is_flagged_pred());
                    lemma_count_matching_none(b.tiles@, is_revealed_pred());
                }
                self.board = b;
                self.stats = GameStats {
                    mines_remaining: self.settings.mine_count as i32,
                    tiles_revealed: 0,
                };
                self.phase = GamePhase::Playing;
            },
            Err(_) => {
                proof {
                    assert(false);
                }
            },
        }
    }

    /// Whether the live round is won: every non-mine cell revealed,
    /// flags irrelevant.
    pub fn check_win_condition(&self) -> (b: bool)
        requires
            self.wf(),
            self.phase == GamePhase::Playing,
        ensures
            b == self.board.win_now(),
    {
        proof {
            lemma_u8_mul_bound(self.board.width as int, self.board.height as int);
        }
        let area = (self.board.width as u32) * (self.board.height as u32);
        (self.stats.tiles_revealed as u32) == area - (self.board.mine_count as u32)
    }

    /// Handle a reveal intent at `(col, row)`: a no-op outside `Playing`
    /// or on a revealed/flagged cell; a mine ends the round and shows all
    /// mines; a safe reveal floods zero regions and may win the round.
    pub fn reveal_tile(&mut self, col: u8, row: u8) -> (r: Result<RevealOutcome, GameError>)
        requires
            old(self).wf(),
        ensures
            final(self).wf(),
            final(self).settings == old(self).settings,
            match r {
                Err(e) => e == GameError::OutOfBounds && !old(self).board.in_grid(
                    col as int,
                    row as int,
                ) && *final(self) == *old(self),
                Ok(out) => ({
                    let b0 = old(self).board;
                    let fb = final(self).board;
                    let t0 = b0.tile_at(col as int, row as int);
                    &&& b0.in_grid(col as int, row as int)
                    &&& ((out == RevealOutcome::NoOp) <==> (old(self).phase != GamePhase::Playing
                        || t0.is_revealed || t0.is_flagged))
                    &&& (out == RevealOutcome::NoOp ==> *final(self) == *old(self))
                    &&& ((out == RevealOutcome::Mine) <==> (old(self).phase == GamePhase::Playing
                        && !t0.is_revealed && !t0.is_flagged && t0.is_mine))
                    &&& (out == RevealOutcome::Mine ==> {
                        &&& final(self).phase == GamePhase::GameOver
                        &&& same_layout(b0, fb)
                        &&& fb.all_mines_revealed()
                        &&& (forall|i: int|
                            0 <= i < b0.tiles@.len() ==> (#[trigger] fb.tiles@[i]).is_revealed == (
                            b0.tiles@[i].is_revealed || b0.tiles@[i].is_mine))
                        &&& final(self).stats.tiles_revealed as int == old(
                            self,
                        ).stats.tiles_revealed as int + 1
                        &&& final(self).stats.mines_remaining == old(self).stats.mines_remaining
                    })
                    &&& ((out == RevealOutcome::Safe) <==> (old(self).phase == GamePhase::Playing
                        && !t0.is_revealed && !t0.is_flagged && !t0.is_mine))
                    &&& (out == RevealOutcome::Safe ==> {
                        &&& same_layout(b0, fb)
                        &&& reveal_monotone(b0, fb)
                        &&& newly_revealed_at(b0, fb, col as int, row as int)
                        &&& (t0.adjacent_mines != 0 ==> fb.tiles@ == b0.tiles@.update(
                            b0.index_at(col as int, row as int),
                            (Tile {
                                is_mine: t0.is_mine,
                                is_flagged: t0.is_flagged,
                                is_revealed: true,
                                adjacent_mines: t0.adjacent_mines,
                            }),
                        ))
                        &&& (t0.adjacent_mines == 0 ==> flood_cascade_post(
                            b0,
                            fb,
                            col as int,
                            row as int,
                        ))
                        &&& final(self).stats.tiles_revealed as int == fb.spec_revealed_count()
                        &&& final(self).stats.mines_remaining == old(self).stats.mines_remaining
                        &&& ((final(self).phase == GamePhase::Won) <==> fb.win_now())
                        &&& (final(self).phase == GamePhase::Won || final(self).phase
                            == GamePhase::Playing)
                    })
                }),
            },
    {
        if col >= self.board.width || row >= self.board.height {
            return Err(GameError::OutOfBounds);
        }
        if !matches!(self.phase, GamePhase::Playing) {
            return Ok(RevealOutcome::NoOp);
        }
        let ghost b0 = self.board;
        let out = self.board.reveal_flood(col, row);
        proof {
            lemma_same_layout_wf(b0, self.board);
        }
        match out {
            RevealOutcome::NoOp => Ok(RevealOutcome::NoOp),
            RevealOutcome::Mine => {
                proof {
                    lemma_index_bound(col as int, row as int, b0.width as int, b0.height as int);
                    lemma_count_matching_update(
                        b0.tiles@,
                        b0.index_at(col as int, row as int),
                        (Tile {
                            is_mine: true,
                            is_flagged: false,
                            is_revealed: true,
                            adjacent_mines: b0.tile_at(col as int, row as int).adjacent_mines,
                        }),
                        is_revealed_pred(),
                    );
                    lemma_count_matching_bounds(b0.tiles@, is_revealed_pred());
                }
                let n = self.board.count_revealed_tiles();
                self.stats.tiles_revealed = n;
                let ghost b1 = self.board;
                self.board.reveal_all_mines();
                proof {
                    lemma_same_layout_wf(b1, self.board);
                    lemma_same_layout_trans(b0, b1, self.board);
                }
                self.phase = GamePhase::GameOver;
                Ok(RevealOutcome::Mine)
            },
            RevealOutcome::Safe => {
                proof {
                    lemma_index_bound(col as int, row as int, b0.width as int, b0.height as int);
                }
                let n = self.board.count_revealed_tiles();
                self.stats.tiles_revealed = n;
                if self.check_win_condition() {
                    self.phase = GamePhase::Won;
                }
                Ok(RevealOutcome::Safe)
            },
        }
    }

    /// Handle a flag intent at `(col, row)`: a no-op outside `Playing` or
    /// on a revealed cell; otherwise the flag flips and the raw flag
    /// deficit moves by one.
    pub fn toggle_flag(&mut self, col: u8, row: u8) -> (r: Result<FlagOutcome, GameError>)
        requires
            old(self).wf(),
        ensures
            final(self).wf(),
            final(self).settings == old(self).settings,
            final(self).phase == old(self).phase,
            match r {
                Err(e) => e == GameError::OutOfBounds && !old(self).board.in_grid(
                    col as int,
                    row as int,
                ) && *final(self) == *old(self),
                Ok(out) => ({
                    let b0 = old(self).board;
                    let fb = final(self).board;
                    let t0 = b0.tile_at(col as int, row as int);
                    &&& b0.in_grid(col as int, row as int)
                    &&& ((out == FlagOutcome::NoOp) <==> (old(self).phase != GamePhase::Playing
                        || t0.is_revealed))
                    &&& (out == FlagOutcome::NoOp ==> *final(self) == *old(self))
                    &&& ((out == FlagOutcome::Flagged) <==> (old(self).phase == GamePhase::Playing
                        && !t0.is_revealed && !t0.is_flagged))
                    &&& ((out == FlagOutcome::Unflagged) <==> (old(self).phase
                        == GamePhase::Playing && !t0.is_revealed && t0.is_flagged))
                    &&& (out != FlagOutcome::NoOp ==> {
                        &&& fb.tiles@ == b0.tiles@.update(
                            b0.index_at(col as int, row as int),
                            (Tile {
                                is_mine: t0.is_mine,
                                is_flagged: !t0.is_flagged,
                                is_revealed: t0.is_revealed,
                                adjacent_mines: t0.adjacent_mines,
                            }),
                        )
                        &&& final(self).stats.tiles_revealed == old(self).stats.tiles_revealed
                        &&& final(self).stats.mines_remaining as int == old(
                            self,
                        ).stats.mines_remaining as int + (if t0.is_flagged {
                            1int
                        } else {
                            -1int
                        })
                    })
                }),
            },
    {
        if col >= self.board.width || row >= self.board.height {
            return Err(GameError::OutOfBounds);
        }
        if !matches!(self.phase, GamePhase::Playing) {
            return Ok(FlagOutcome::NoOp);
        }
        let t = match self.board.get(col, row) {
            Ok(t) => t,
            Err(e) => {
                proof {
                    assert(false);
                }
                return Err(e);
            },
        };
        if t.is_revealed {
            return Ok(FlagOutcome::NoOp);
        }
        let ghost b0 = self.board;
        proof {
            lemma_index_bound(col as int, row as int, b0.width as int, b0.height as int);
            lemma_u8_mul_bound(b0.width as int, b0.height as int);
            lemma_count_matching_bounds(b0.tiles@, is_flagged_pred());
            let t1 = (Tile {
                is_mine: t.is_mine,
                is_flagged: !t.is_flagged,
                is_revealed: t.is_revealed,
                adjacent_mines: t.adjacent_mines,
            });
            lemma_count_matching_update(
                b0.tiles@,
                b0.index_at(col as int, row as int),
                t1,
                is_flagged_pred(),
            );
            lemma_count_matching_update(
                b0.tiles@,
                b0.index_at(col as int, row as int),
                t1,
                is_revealed_pred(),
            );
        }
        match self.board.toggle_flag_at(col, row) {
            Ok(()) => (),
            Err(_) => {
                proof {
                    assert(false);
                }
            },
        }
        proof {
            assert(same_mines(b0, self.board));
            lemma_same_mines_wf(b0, self.board);
        }
        if t.is_flagged {
            self.stats.mines_remaining = self.stats.mines_remaining + 1;
            Ok(FlagOutcome::Unflagged)
        } else {
            self.stats.mines_remaining = self.stats.mines_remaining - 1;
            Ok(FlagOutcome::Flagged)
        }
    }

    /// Handle a chord intent at `(col, row)`: when the cell is a revealed
    /// non-mine number and exactly as many neighbors are flagged as it
    /// counts mines, every unflagged neighbor gets an independent reveal,
    /// cascades included; any other state is a no-op.
    #[verifier::rlimit(100)]
    pub fn chord(&mut self, col: u8, row: u8) -> (r: Result<RevealOutcome, GameError>)
        requires
            old(self).wf(),
        ensures
            final(self).wf(),
            final(self).settings == old(self).settings,
            match r {
                Err(e) => e == GameError::OutOfBounds && !old(self).board.in_grid(
                    col as int,
                    row as int,
                ) && *final(self) == *old(self),
                Ok(out) => ({
                    let b0 = old(self).board;
                    let fb = final(self).board;
                    let ci = col as int;
                    let ri = row as int;
                    let t0 = b0.tile_at(ci, ri);
                    let applies = old(self).phase == GamePhase::Playing && t0.is_revealed
                        && !t0.is_mine && b0.spec_adjacent_flags(ci, ri) == t0.adjacent_mines as int;
                    &&& b0.in_grid(ci, ri)
                    &&& ((out == RevealOutcome::NoOp) <==> !applies)
                    &&& (out == RevealOutcome::NoOp ==> *final(self) == *old(self))
                    &&& (out != RevealOutcome::NoOp ==> {
                        &&& same_layout(b0, fb)
                        &&& reveal_monotone(b0, fb)
                        &&& (forall|c2: int, r2: int|
                            b0.in_grid(c2, r2) && is_neighbor(ci, ri, c2, r2) && !(
                            #[trigger] b0.tile_at(c2, r2)).is_flagged ==> fb.tile_at(
                                c2,
                                r2,
                            ).is_revealed)
                        &&& (forall|c2: int, r2: int|
                            b0.in_grid(c2, r2) && #[trigger] newly_revealed_at(b0, fb, c2, r2)
                                ==> !b0.tile_at(c2, r2).is_flagged || b0.tile_at(c2, r2).is_mine)
                        &&& final(self).stats.mines_remaining == old(self).stats.mines_remaining
                    })
                    &&& ((out == RevealOutcome::Mine) <==> (applies && chord_hits_mine(b0, ci, ri)))
                    &&& (out == RevealOutcome::Mine ==> final(self).phase == GamePhase::GameOver
                        && fb.all_mines_revealed())
                    &&& ((out == RevealOutcome::Safe) <==> (applies && !chord_hits_mine(
                        b0,
                        ci,
                        ri,
                    )))
                    &&& (out == RevealOutcome::Safe ==> {
                        &&& (forall|c2: int, r2: int|
                            b0.in_grid(c2, r2) && #[trigger] newly_revealed_at(b0, fb, c2, r2)
                                ==> !b0.tile_at(c2, r2).is_flagged && !b0.tile_at(c2, r2).is_mine)
                        &&& final(self).stats.tiles_revealed as int == fb.spec_revealed_count()
                        &&& ((final(self).phase == GamePhase::Won) <==> fb.win_now())
                        &&& (final(self).phase == GamePhase::Won || final(self).phase
                            == GamePhase::Playing)
                    })
                }),
            },
    {
        if col >= self.board.width || row >= self.board.height {
            return Err(GameError::OutOfBounds);
        }
        if !matches!(self.phase, GamePhase::Playing) {
            return Ok(RevealOutcome::NoOp);
        }
        let t0 = match self.board.get(col, row) {
            Ok(t) => t,
            Err(e) => {
                proof {
                    assert(false);
                }
                return Err(e);
            },
        };
        if !t0.is_revealed || t0.is_mine {
            return Ok(RevealOutcome::NoOp);
        }
        let nflags = self.board.count_adjacent_flags(col, row);
        if nflags != t0.adjacent_mines {
            return Ok(RevealOutcome::NoOp);
        }
        let ghost b0 = self.board;
        let ghost ci = col as int;
        let ghost ri = row as int;
        let mine_hit = self.board.chord_cascade(col, row);
        proof {
            lemma_same_layout_wf(b0, self.board);
        }
        let n = self.board.count_revealed_tiles();
        self.stats.tiles_revealed = n;
        if mine_hit {
            let ghost b1 = self.board;
            self.board.reveal_all_mines();
            proof {
                lemma_same_layout_wf(b1, self.board);
                lemma_same_layout_trans(b0, b1, self.board);
                lemma_reveal_monotone_trans(b0, b1, self.board);
                let fb = self.board;
                let w = b0.width as int;
                let h = b0.height as int;
                assert(fb.all_mines_revealed());
                assert forall|c2: int, r2: int|
                    b0.in_grid(c2, r2) && is_neighbor(ci, ri, c2, r2) && !(#[trigger] b0.tile_at(
                        c2,
                        r2,
                    )).is_flagged implies fb.tile_at(c2, r2).is_revealed by {
                    lemma_index_bound(c2, r2, w, h);
                    assert(b1.tile_at(c2, r2).is_revealed);
                }
                assert forall|c2: int, r2: int|
                    b0.in_grid(c2, r2) && #[trigger] newly_revealed_at(b0, fb, c2, r2) implies (
                !b0.tile_at(c2, r2).is_flagged || b0.tile_at(c2, r2).is_mine) by {
                    lemma_index_bound(c2, r2, w, h);
                    if b1.tile_at(c2, r2).is_revealed {
                        assert(newly_revealed_at(b0, b1, c2, r2));
                    }
                }
            }
            self.phase = GamePhase::GameOver;
            Ok(RevealOutcome::Mine)
        } else {
            if self.check_win_condition() {
                self.phase = GamePhase::Won;
            }
            Ok(RevealOutcome::Safe)
        }
    }
}

} // verus!


//! Default board configuration.

use vstd::prelude::*;

verus! {

/// Default number of grid columns.
pub const BOARD_WIDTH: u8 = 12;

/// Default number of grid rows.
pub const BOARD_HEIGHT: u8 = 12;

/// Default number of mines placed on the board.
pub const MINE_COUNT: u16 = 20;

} // verus!

//! The eight instruction bytes. Every other byte is a comment.

use vstd::prelude::*;

verus! {

/// `>`: move the data pointer one cell to the right.
pub const MOVE_RIGHT: u8 = 0x3e;

/// `<`: move the data pointer one cell to the left.
pub const MOVE_LEFT: u8 = 0x3c;

/// `+`: add one to the current cell.
pub const INCREMENT: u8 = 0x2b;

/// `-`: take one from the current cell.
pub const DECREMENT: u8 = 0x2d;

/// `.`: write the current cell.
pub const OUTPUT: u8 = 0x2e;

/// `,`: read one byte into the current cell.
pub const INPUT: u8 = 0x2c;

/// `[`: enter the loop if the current cell is not zero, else jump behind it.
pub const LOOP_OPEN: u8 = 0x5b;

/// `]`: leave the loop if the current cell is zero, else jump back into it.
pub const LOOP_CLOSE: u8 = 0x5d;

/// Number of cells on the tape.
pub const TAPE_LEN: usize = 30000;

} // verus!

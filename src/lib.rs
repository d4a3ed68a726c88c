//! Scan engine of a row-multiplexed 8 x 16 LED matrix with 16 brightness
//! levels shown by binary-code modulation.
//!
//! `encode` splits a row of the grid into bit-planes, `plan` turns planes
//! into the exact sequence of pin, bus and timer operations of a layer write
//! and of a refresh pass, `sequencer` hands those operations out one at a
//! time and stops at the first failure, and `protocol` proves the
//! handshake's guarantees (blanking around a row switch, no partial latch,
//! weighted timing, row lines changing only on a row's first plane).

use vstd::prelude::*;

pub mod encode;
pub mod plan;
pub mod protocol;
pub mod sequencer;

verus! {

/// Number of row-select lines.
pub const ROW_BITS: usize = 3;

/// Number of column address bits.
pub const COL_BITS: usize = 4;

/// Number of brightness bits, that is of bit-planes per row.
pub const LAYER_BITS: usize = 4;

/// Number of rows of the matrix.
pub const NUM_ROWS: usize = 8;

/// Number of columns of the matrix.
pub const NUM_COLS: usize = 16;

/// Bytes shifted out for one bit-plane of one row.
pub const SPI_BYTES: usize = 2;

/// The brightness grid of the display, one value per row and column.
pub struct LEDArray {
    pub array: [[u8; NUM_COLS]; NUM_ROWS],
}

/// A failed hardware operation, tagged by its source and carrying the
/// peripheral's own error.
#[derive(Debug, PartialEq, Eq)]
pub enum LEDError<P, S> {
    /// Driving a pin failed.
    PinError(P),
    /// Sending a byte over the serial bus failed.
    SPIError(S),
}

} // verus!

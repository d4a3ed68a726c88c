use vstd::prelude::*;

use crate::encode::plane_bytes;
use crate::{LEDArray, LAYER_BITS, NUM_ROWS, SPI_BYTES};

verus! {

/// A control line of the display.
#[derive(Clone, Copy, Debug, PartialEq, Eq, Structural)]
pub enum Line {
    /// Row-select line carrying bit 0 of the row address.
    Row0,
    /// Row-select line carrying bit 1 of the row address.
    Row1,
    /// Row-select line carrying bit 2 of the row address.
    Row2,
    /// Latch of the column shift registers; high commits the shifted data.
    Latch,
    /// Output disable; high blanks every column output.
    OutputDisable,
}

/// One hardware operation of the display protocol.
#[derive(Clone, Copy, Debug, PartialEq, Eq, Structural)]
pub enum Op {
    /// Drive a line high (`true`) or low (`false`).
    Drive(Line, bool),
    /// Shift one byte out over the serial bus, blocking until it is accepted.
    Send(u8),
    /// Block until the armed timer has run out.
    Wait,
    /// Arm the timer with the base period shifted left by the given amount.
    Arm(usize),
}

/// Whether `l` is one of the row-select lines.
pub open spec fn is_row_line(l: Line) -> bool {
    l == Line::Row0 || l == Line::Row1 || l == Line::Row2
}

/// Whether `op` drives a row-select line.
pub open spec fn drives_row(op: Op) -> bool {
    match op {
        Op::Drive(l, _) => is_row_line(l),
        _ => false,
    }
}

/// Driving the row-select lines to the binary address of `row`, lowest
/// line first.
pub open spec fn select_ops(row: nat) -> Seq<Op> {
    seq![
        Op::Drive(Line::Row0, row % 2 == 1),
        Op::Drive(Line::Row1, (row / 2) % 2 == 1),
        Op::Drive(Line::Row2, (row / 4) % 2 == 1),
    ]
}

/// Shifting out each byte of a plane, inverted, in order.
pub open spec fn send_ops(layer: Seq<u8>) -> Seq<Op> {
    layer.map_values(|b: u8| Op::Send(!b))
}

/// The operations of the tail of a layer write: a plain latch, or, when a
/// row is selected, blank, reselect, latch and unblank.
pub open spec fn commit_ops(row: Option<usize>) -> Seq<Op> {
    match row {
        None => seq![Op::Drive(Line::Latch, true)],
        Some(r) => seq![Op::Drive(Line::OutputDisable, true)] + select_ops(r as nat) + seq![
            Op::Drive(Line::Latch, true),
            Op::Drive(Line::OutputDisable, false),
        ],
    }
}

/// The full operation sequence of writing one bit-plane: drop the latch,
/// shift the inverted bytes out, wait for the previous plane's time to end,
/// then commit.
pub open spec fn layer_ops(layer: Seq<u8>, row: Option<usize>) -> Seq<Op> {
    seq![Op::Drive(Line::Latch, false)] + send_ops(layer) + seq![Op::Wait] + commit_ops(row)
}

/// The timer shift armed after plane `p`: planes of more weight stay longer.
pub open spec fn plane_shift(p: nat) -> nat {
    (LAYER_BITS - 1 - p) as nat
}

/// The row selector handed to the write of plane `p` of row `r`.
pub open spec fn plane_row(r: nat, p: nat) -> Option<usize> {
    if p == 0 {
        Some(r as usize)
    } else {
        None
    }
}

/// Writing plane `p` of row `r`, then arming the timer for its weight.
pub open spec fn plane_ops(row: Seq<u8>, r: nat, p: nat) -> Seq<Op> {
    layer_ops(plane_bytes(row, p), plane_row(r, p)) + seq![Op::Arm(plane_shift(p) as usize)]
}

/// The operations of the first `n` planes of row `r`.
pub open spec fn planes_upto(row: Seq<u8>, r: nat, n: nat) -> Seq<Op>
    decreases n,
{
    if n == 0 {
        Seq::empty()
    } else {
        planes_upto(row, r, (n - 1) as nat) + plane_ops(row, r, (n - 1) as nat)
    }
}

/// The operations of the first `n` rows of a grid.
pub open spec fn rows_upto(grid: Seq<[u8; 16]>, n: nat) -> Seq<Op>
    decreases n,
{
    if n == 0 {
        Seq::empty()
    } else {
        rows_upto(grid, (n - 1) as nat) + planes_upto(
            grid[n - 1]@,
            (n - 1) as nat,
            LAYER_BITS as nat,
        )
    }
}

/// The operations of one refresh pass over a grid.
pub open spec fn scan_ops(grid: Seq<[u8; 16]>) -> Seq<Op> {
    rows_upto(grid, NUM_ROWS as nat)
}

impl LEDArray {
    /// Appends the operations that drive the row-select lines to the binary
    /// address of `row`, lowest line first.
    fn write_row(ops: &mut Vec<Op>, row: usize)
        ensures
            final(ops)@ == old(ops)@ + select_ops(row as nat),
    {
        ops.push(Op::Drive(Line::Row0, row % 2 == 1));
        ops.push(Op::Drive(Line::Row1, (row / 2) % 2 == 1));
        ops.push(Op::Drive(Line::Row2, (row / 4) % 2 == 1));
        assert(ops@ =~= old(ops)@ + select_ops(row as nat));
    }

    /// The operations that write one bit-plane, switching to `row` first
    /// when one is given.
    pub fn write_layer(layer: &[u8], row: Option<usize>) -> (r: Vec<Op>)
        ensures
            r@ == layer_ops(layer@, row),
    {
        let mut ops: Vec<Op> = Vec::new();
        ops.push(Op::Drive(Line::Latch, false));
        let mut i: usize = 0;
        while i < layer.len()
            invariant
                i <= layer@.len(),
                ops@ == seq![Op::Drive(Line::Latch, false)] + send_ops(layer@.subrange(0, i as int)),
            decreases layer@.len() - i,
        {
            let data: u8 = layer[i];
            ops.push(Op::Send(!data));
            proof {
                assert(layer@.subrange(0, i + 1) =~= layer@.subrange(0, i as int).push(data));
                assert(send_ops(layer@.subrange(0, i + 1)) =~= send_ops(
                    layer@.subrange(0, i as int),
                ).push(Op::Send(!data)));
            }
            i = i + 1;
        }
        proof {
            assert(layer@.subrange(0, i as int) =~= layer@);
        }
        ops.push(Op::Wait);
        match row {
            None => {
                ops.push(Op::Drive(Line::Latch, true));
            },
            Some(r) => {
                ops.push(Op::Drive(Line::OutputDisable, true));
                Self::write_row(&mut ops, r);
                ops.push(Op::Drive(Line::Latch, true));
                ops.push(Op::Drive(Line::OutputDisable, false));
            },
        }
        assert(ops@ =~= layer_ops(layer@, row));
        ops
    }

    /// The operations of one refresh pass: every row in ascending order,
    /// and within a row every plane from the least significant one, each
    /// followed by arming the timer for that plane's weight.
    pub fn scan(&self) -> (r: Vec<Op>)
        ensures
            r@ == scan_ops(self.array@),
    {
        let mut out: Vec<Op> = Vec::new();
        let mut layers: [[u8; SPI_BYTES]; LAYER_BITS] = [[0u8; SPI_BYTES]; LAYER_BITS];
        let mut row: usize = 0;
        while row < NUM_ROWS
            invariant
                row <= NUM_ROWS,
                out@ == rows_upto(self.array@, row as nat),
            decreases NUM_ROWS - row,
        {
            self.prepare_row(row, &mut layers);
            let ghost start = out@;
            let mut layer: usize = 0;
            while layer < LAYER_BITS
                invariant
                    row < NUM_ROWS,
                    layer <= LAYER_BITS,
                    start == rows_upto(self.array@, row as nat),
                    forall|p: int|
                        0 <= p < LAYER_BITS ==> (#[trigger] layers@[p])@ == plane_bytes(
                            self.array@[row as int]@,
                            p as nat,
                        ),
                    out@ == start + planes_upto(self.array@[row as int]@, row as nat, layer as nat),
                decreases LAYER_BITS - layer,
            {
                let sel: Option<usize> = if layer == 0 {
                    Some(row)
                } else {
                    None
                };
                let mut ops = Self::write_layer(&layers[layer], sel);
                out.append(&mut ops);
                out.push(Op::Arm(LAYER_BITS - layer - 1));
                proof {
                    let g = self.array@[row as int]@;
                    assert(out@ =~= start + planes_upto(g, row as nat, (layer + 1) as nat));
                }
                layer = layer + 1;
            }
            row = row + 1;
        }
        out
    }
}

} // verus!

use vstd::prelude::*;

use crate::encode::plane_bytes;
use crate::plan::{
    commit_ops, drives_row, layer_ops, plane_ops, plane_row, plane_shift, planes_upto, rows_upto,
    scan_ops, select_ops, send_ops, Line, Op,
};
use crate::{LAYER_BITS, NUM_ROWS, SPI_BYTES};

verus! {

/// Whether `op` drives the latch or the output-disable line.
pub open spec fn drives_latch_or_blank(op: Op) -> bool {
    match op {
        Op::Drive(l, _) => l == Line::Latch || l == Line::OutputDisable,
        _ => false,
    }
}

/// A layer write that switches rows blanks the outputs, then drives the
/// row-select lines to the new address, then raises the latch, and only then
/// enables the outputs again; before the blanking it touches neither the
/// row lines nor output disable, and the latch only to drop it.
pub proof fn lemma_row_switch_blanks(layer: Seq<u8>, r: usize)
    ensures
        ({
            let ops = layer_ops(layer, Some(r));
            let n = layer.len() as int;
            &&& ops.len() == n + 8
            &&& ops[0] == Op::Drive(Line::Latch, false)
            &&& forall|i: int| 1 <= i < n + 2 ==> !drives_row(#[trigger] ops[i]) && !drives_latch_or_blank(ops[i])
            &&& ops[n + 2] == Op::Drive(Line::OutputDisable, true)
            &&& ops.subrange(n + 3, n + 6) == select_ops(r as nat)
            &&& ops[n + 6] == Op::Drive(Line::Latch, true)
            &&& ops[n + 7] == Op::Drive(Line::OutputDisable, false)
        }),
{
    let ops = layer_ops(layer, Some(r));
    let n = layer.len() as int;
    assert forall|i: int| 1 <= i < n + 2 implies !drives_row(#[trigger] ops[i]) && !drives_latch_or_blank(ops[i]) by {
        if i < n + 1 {
            assert(ops[i] == send_ops(layer)[i - 1]);
        }
    }
    assert(ops.subrange(n + 3, n + 6) =~= select_ops(r as nat));
}

/// Until every byte of a plane has been shifted out and the timer waited
/// for, a layer write has dropped the latch and not raised it: a write
/// abandoned on a failed send leaves the latch low, with nothing latched.
pub proof fn lemma_latch_low_while_shifting(layer: Seq<u8>, row: Option<usize>, k: int)
    requires
        1 <= k <= layer.len() + 2,
    ensures
        layer_ops(layer, row)[0] == Op::Drive(Line::Latch, false),
        forall|i: int| 1 <= i < k ==> !drives_latch_or_blank(#[trigger] layer_ops(layer, row)[i]),
        forall|i: int| 1 <= i < k ==> !drives_row(#[trigger] layer_ops(layer, row)[i]),
{
    let ops = layer_ops(layer, row);
    assert forall|i: int| 1 <= i < k implies !drives_latch_or_blank(#[trigger] ops[i]) && !drives_row(ops[i]) by {
        if i < layer.len() + 1 {
            assert(ops[i] == send_ops(layer)[i - 1]);
        }
    }
}

/// After plane `p` of a row the timer is armed with the base period shifted
/// by `LAYER_BITS - 1 - p`, so each plane stays twice as long as the one
/// below it and plane 0 gets the largest shift.
pub proof fn lemma_plane_timing(row: Seq<u8>, r: nat, p: nat)
    requires
        p < LAYER_BITS,
    ensures
        plane_ops(row, r, p).last() == Op::Arm((LAYER_BITS - 1 - p) as usize),
        p > 0 ==> plane_shift(p) + 1 == plane_shift((p - 1) as nat),
        plane_shift(p) <= plane_shift(0),
{
}

/// Only the first plane of a row drives the row-select lines, to the
/// row's address; the other planes of the row leave them alone.
pub proof fn lemma_rows_change_on_first_plane(row: Seq<u8>, r: nat, p: nat)
    requires
        r < NUM_ROWS,
        p < LAYER_BITS,
    ensures
        p == 0 ==> plane_ops(row, r, p).subrange(
            SPI_BYTES + 3,
            SPI_BYTES + 6,
        ) == select_ops(r),
        p > 0 ==> forall|i: int|
            0 <= i < plane_ops(row, r, p).len() ==> !drives_row(#[trigger] plane_ops(row, r, p)[i]),
{
    let bytes = plane_bytes(row, p);
    let ops = plane_ops(row, r, p);
    assert(bytes.len() == SPI_BYTES);
    if p == 0 {
        lemma_row_switch_blanks(bytes, r as usize);
        assert(ops.subrange(SPI_BYTES + 3, SPI_BYTES + 6) =~= layer_ops(bytes, Some(r as usize)).subrange(
            SPI_BYTES + 3,
            SPI_BYTES + 6,
        ));
    } else {
        assert(plane_row(r, p) == None::<usize>);
        assert forall|i: int| 0 <= i < ops.len() implies !drives_row(#[trigger] ops[i]) by {
            if 1 <= i < SPI_BYTES + 1 {
                assert(ops[i] == send_ops(bytes)[i - 1]);
            }
        }
    }
}

/// Number of operations of plane `p` of a row, timer arming included.
pub open spec fn plane_len(p: nat) -> nat {
    if p == 0 {
        (SPI_BYTES + 9) as nat
    } else {
        (SPI_BYTES + 4) as nat
    }
}

/// Number of operations of one row of a pass.
pub open spec fn row_len() -> nat {
    (plane_len(0) + (LAYER_BITS - 1) * plane_len(1)) as nat
}

proof fn lemma_plane_len(row: Seq<u8>, r: nat, p: nat)
    ensures
        plane_ops(row, r, p).len() == plane_len(p),
{
    assert(plane_bytes(row, p).len() == SPI_BYTES);
    assert(send_ops(plane_bytes(row, p)).len() == SPI_BYTES);
    assert(commit_ops(plane_row(r, p)).len() == if p == 0 { 6nat } else { 1nat });
}

proof fn lemma_planes_prefix(row: Seq<u8>, r: nat, m: nat, n: nat)
    requires
        m <= n,
    ensures
        planes_upto(row, r, n).len() == if n == 0 { 0 } else { plane_len(0) + (n - 1) * plane_len(1) },
        planes_upto(row, r, n).subrange(0, planes_upto(row, r, m).len() as int) == planes_upto(row, r, m),
    decreases n,
{
    if n > 0 {
        lemma_plane_len(row, r, (n - 1) as nat);
        if m < n {
            lemma_planes_prefix(row, r, m, (n - 1) as nat);
            lemma_planes_prefix(row, r, m, m);
            if m > 0 {
                assert((m - 1) * plane_len(1) <= (n - 2) * plane_len(1)) by (nonlinear_arith)
                    requires
                        m - 1 <= n - 2,
                ;
            }
            assert(planes_upto(row, r, n).subrange(0, planes_upto(row, r, m).len() as int) =~= planes_upto(row, r, (n - 1) as nat).subrange(0, planes_upto(row, r, m).len() as int));
        } else {
            lemma_planes_prefix(row, r, (n - 1) as nat, (n - 1) as nat);
            assert(planes_upto(row, r, n).subrange(0, planes_upto(row, r, n).len() as int) =~= planes_upto(row, r, n));
        }
        if n >= 2 {
            assert((n - 1) * plane_len(1) == (n - 2) * plane_len(1) + plane_len(1)) by (nonlinear_arith);
        }
    }
}

proof fn lemma_rows_prefix(grid: Seq<[u8; 16]>, m: nat, n: nat)
    requires
        m <= n,
    ensures
        rows_upto(grid, n).len() == n * row_len(),
        rows_upto(grid, n).subrange(0, (m * row_len()) as int) == rows_upto(grid, m),
    decreases n,
{
    if n > 0 {
        let row = grid[n - 1]@;
        lemma_planes_prefix(row, (n - 1) as nat, LAYER_BITS as nat, LAYER_BITS as nat);
        assert(n * row_len() == (n - 1) * row_len() + row_len()) by (nonlinear_arith);
        if m < n {
            lemma_rows_prefix(grid, m, (n - 1) as nat);
            assert(m * row_len() <= (n - 1) * row_len()) by (nonlinear_arith)
                requires
                    m <= n - 1,
            ;
            assert(rows_upto(grid, n).subrange(0, (m * row_len()) as int) =~= rows_upto(grid, (n - 1) as nat).subrange(0, (m * row_len()) as int));
        } else {
            lemma_rows_prefix(grid, (n - 1) as nat, (n - 1) as nat);
            assert(rows_upto(grid, n).subrange(0, (n * row_len()) as int) =~= rows_upto(grid, n));
        }
    } else {
        assert(rows_upto(grid, n).subrange(0, 0) =~= rows_upto(grid, 0));
    }
}

/// A pass is the rows of the grid one after another, each taking
/// `row_len()` operations: the operations of row `r` stand at
/// `r * row_len()` and are that row's planes.
pub proof fn lemma_pass_layout(grid: Seq<[u8; 16]>, r: nat)
    requires
        r < NUM_ROWS,
    ensures
        scan_ops(grid).len() == NUM_ROWS * row_len(),
        scan_ops(grid).subrange((r * row_len()) as int, ((r + 1) * row_len()) as int) == planes_upto(
            grid[r as int]@,
            r,
            LAYER_BITS as nat,
        ),
{
    lemma_rows_prefix(grid, r + 1, NUM_ROWS as nat);
    lemma_rows_prefix(grid, r, r + 1);
    assert((r + 1) * row_len() == r * row_len() + row_len()) by (nonlinear_arith);
    assert((r + 1) * row_len() <= NUM_ROWS * row_len()) by (nonlinear_arith)
        requires
            r + 1 <= NUM_ROWS,
    ;
    let whole = scan_ops(grid);
    let upto = rows_upto(grid, r + 1);
    assert(whole.subrange((r * row_len()) as int, ((r + 1) * row_len()) as int) =~= upto.subrange(
        (r * row_len()) as int,
        ((r + 1) * row_len()) as int,
    ));
}

/// Across a whole pass the row-select lines are driven only within the
/// first plane of each row, at its row-address step, and there to that
/// row's address: during the other planes of a row they stay unchanged.
pub proof fn lemma_pass_selects_rows_on_first_plane(grid: Seq<[u8; 16]>, i: int)
    requires
        0 <= i < scan_ops(grid).len(),
        drives_row(scan_ops(grid)[i]),
    ensures
        SPI_BYTES + 3 <= i % (row_len() as int) < SPI_BYTES + 6,
        scan_ops(grid)[i] == select_ops((i / (row_len() as int)) as nat)[i % (row_len() as int) - SPI_BYTES - 3],
{
    let len = row_len() as int;
    let r = i / len;
    let o = i % len;
    lemma_pass_layout(grid, 0);
    assert(0 <= r < NUM_ROWS) by (nonlinear_arith)
        requires
            0 <= i < NUM_ROWS * len,
            len > 0,
            r == i / len,
    ;
    assert(i == r * len + o && 0 <= o < len) by (nonlinear_arith)
        requires
            len > 0,
            r == i / len,
            o == i % len,
    ;
    lemma_pass_layout(grid, r as nat);
    assert((r + 1) * len == r * len + len) by (nonlinear_arith);
    let row = grid[r]@;
    let segment = planes_upto(row, r as nat, LAYER_BITS as nat);
    lemma_planes_prefix(row, r as nat, LAYER_BITS as nat, LAYER_BITS as nat);
    assert(segment.len() == len);
    assert((r + 1) * len <= NUM_ROWS * len) by (nonlinear_arith)
        requires
            r + 1 <= NUM_ROWS,
            len > 0,
    ;
    assert(scan_ops(grid).subrange(r * len, (r + 1) * len)[o] == scan_ops(grid)[i]);
    assert(scan_ops(grid)[i] == segment[o]);
    reveal_with_fuel(planes_upto, 5);
    assert(segment == plane_ops(row, r as nat, 0) + plane_ops(row, r as nat, 1) + plane_ops(row, r as nat, 2) + plane_ops(row, r as nat, 3));
    lemma_plane_len(row, r as nat, 0);
    lemma_plane_len(row, r as nat, 1);
    lemma_plane_len(row, r as nat, 2);
    lemma_plane_len(row, r as nat, 3);
    lemma_rows_change_on_first_plane(row, r as nat, 0);
    lemma_rows_change_on_first_plane(row, r as nat, 1);
    lemma_rows_change_on_first_plane(row, r as nat, 2);
    lemma_rows_change_on_first_plane(row, r as nat, 3);
    let first = plane_ops(row, r as nat, 0);
    if o >= plane_len(0) {
        let o1 = o - plane_len(0);
        if o1 < plane_len(1) {
            assert(segment[o] == plane_ops(row, r as nat, 1)[o1]);
        } else if o1 < 2 * plane_len(1) {
            assert(segment[o] == plane_ops(row, r as nat, 2)[o1 - plane_len(1)]);
        } else {
            assert(segment[o] == plane_ops(row, r as nat, 3)[o1 - 2 * plane_len(1)]);
        }
        assert(false);
    }
    assert(segment[o] == first[o]);
    lemma_row_switch_blanks(plane_bytes(row, 0), r as usize);
    assert(first[o] == layer_ops(plane_bytes(row, 0), Some(r as usize))[o]);
    if o >= SPI_BYTES + 3 && o < SPI_BYTES + 6 {
        assert(first.subrange(SPI_BYTES + 3, SPI_BYTES + 6)[o - SPI_BYTES - 3] == first[o]);
    }
}

} // verus!

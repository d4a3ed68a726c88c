use vstd::arithmetic::div_mod::lemma_div_denominator;
use vstd::prelude::*;

use crate::{LEDArray, LAYER_BITS, NUM_COLS, NUM_ROWS, SPI_BYTES};

verus! {

/// `2` raised to `n`.
pub open spec fn two_to(n: nat) -> nat
    decreases n,
{
    if n == 0 {
        1
    } else {
        2 * two_to((n - 1) as nat)
    }
}

/// Bit `p` of a brightness value.
pub open spec fn bit(v: u8, p: nat) -> nat {
    ((v as nat) / two_to(p)) % 2
}

} // verus!

verus! {

/// The 16-bit word of plane `p` built from the columns `c..NUM_COLS` of a
/// row: column `c + i` lands on bit `i`.
pub open spec fn word_from(row: Seq<u8>, p: nat, c: nat) -> nat
    decreases NUM_COLS - c,
{
    if c >= NUM_COLS {
        0
    } else {
        bit(row[c as int], p) + 2 * word_from(row, p, c + 1)
    }
}

/// The packed word of plane `p` of a row: column `c` on bit `c`.
pub open spec fn plane_word(row: Seq<u8>, p: nat) -> nat {
    word_from(row, p, 0)
}

/// The bytes shifted out for plane `p` of a row: the plane's word in
/// big-endian order.
pub open spec fn plane_bytes(row: Seq<u8>, p: nat) -> Seq<u8> {
    seq![(plane_word(row, p) / 256) as u8, (plane_word(row, p) % 256) as u8]
}

proof fn lemma_word_from_bound(row: Seq<u8>, p: nat, c: nat)
    requires
        c <= NUM_COLS,
    ensures
        word_from(row, p, c) < two_to((NUM_COLS - c) as nat),
    decreases NUM_COLS - c,
{
    if c < NUM_COLS {
        lemma_word_from_bound(row, p, c + 1);
        assert(two_to((NUM_COLS - c) as nat) == 2 * two_to((NUM_COLS - (c + 1)) as nat));
    }
}

impl LEDArray {
    /// Splits row `r` of the grid into its bit-planes: `buf[p]` receives the
    /// bytes of plane `p`, where column `c` is bit `c` of the plane's word
    /// and the word is stored most significant byte first.
    pub fn prepare_row(&self, r: usize, buf: &mut [[u8; SPI_BYTES]; LAYER_BITS])
        requires
            r < NUM_ROWS,
        ensures
            forall|p: int|
                0 <= p < LAYER_BITS ==> (#[trigger] final(buf)@[p])@ == plane_bytes(
                    self.array@[r as int]@,
                    p as nat,
                ),
    {
        let row: [u8; NUM_COLS] = self.array[r];
        let ghost rs = row@;
        let mut layer: usize = 0;
        let mut weight: u8 = 1;
        while layer < LAYER_BITS
            invariant
                layer <= LAYER_BITS,
                r < NUM_ROWS,
                layer < LAYER_BITS ==> weight as nat == two_to(layer as nat),
                weight >= 1,
                rs == self.array@[r as int]@,
                rs == row@,
                rs.len() == NUM_COLS,
                forall|p: int|
                    0 <= p < layer ==> (#[trigger] buf@[p])@ == plane_bytes(rs, p as nat),
            decreases LAYER_BITS - layer,
        {
            let mut output: u16 = 0;
            let mut c: usize = NUM_COLS;
            while c > 0
                invariant
                    c <= NUM_COLS,
                    layer < LAYER_BITS,
                    weight as nat == two_to(layer as nat),
                    weight >= 1,
                    rs == row@,
                    rs.len() == NUM_COLS,
                    output as nat == word_from(rs, layer as nat, c as nat),
                decreases c,
            {
                c = c - 1;
                proof {
                    lemma_word_from_bound(rs, layer as nat, c as nat);
                    reveal_with_fuel(two_to, 17);
                }
                let b: u8 = (row[c] / weight) % 2;
                assert(b as nat == bit(rs[c as int], layer as nat));
                output = output * 2 + b as u16;
            }
            proof {
                lemma_word_from_bound(rs, layer as nat, 0);
                reveal_with_fuel(two_to, 17);
            }
            let hi: u8 = (output / 256) as u8;
            let lo: u8 = (output % 256) as u8;
            buf[layer] = [hi, lo];
            proof {
                assert(buf@[layer as int]@ =~= plane_bytes(rs, layer as nat));
            }
            layer = layer + 1;
            if layer < LAYER_BITS {
                proof {
                    reveal_with_fuel(two_to, 4);
                }
                weight = weight * 2;
            }
        }
    }
}

proof fn lemma_two_to_positive(n: nat)
    ensures
        two_to(n) >= 1,
    decreases n,
{
    if n > 0 {
        lemma_two_to_positive((n - 1) as nat);
    }
}

proof fn lemma_word_from_bit(row: Seq<u8>, p: nat, c: nat, k: nat)
    requires
        c + k < NUM_COLS,
    ensures
        (word_from(row, p, c) / two_to(k)) % 2 == bit(row[(c + k) as int], p),
    decreases k,
{
    let b = bit(row[c as int], p);
    let w = word_from(row, p, c + 1);
    assert(word_from(row, p, c) == b + 2 * w);
    if k == 0 {
        assert(two_to(0) == 1);
    } else {
        assert(two_to(k) == 2 * two_to((k - 1) as nat));
        lemma_two_to_positive((k - 1) as nat);
        lemma_div_denominator((b + 2 * w) as int, 2, two_to((k - 1) as nat) as int);
        assert((b + 2 * w) / 2 == w);
        lemma_word_from_bit(row, p, c + 1, (k - 1) as nat);
        assert(c + 1 + (k - 1) == c + k);
        assert(word_from(row, p, c) / two_to(k) == w / two_to((k - 1) as nat));
    }
}

/// In plane `p` of a row, bit `c` of the plane's word is bit `p` of the
/// brightness of column `c`.
pub proof fn lemma_column_bit(row: Seq<u8>, p: nat, c: nat)
    requires
        c < NUM_COLS,
    ensures
        (plane_word(row, p) / two_to(c)) % 2 == bit(row[c as int], p),
        plane_word(row, p) < two_to(NUM_COLS as nat),
{
    lemma_word_from_bit(row, p, 0, c);
    lemma_word_from_bound(row, p, 0);
}

/// The planes of a row depend on that row of the grid alone: encoding a row
/// twice without changing it gives the same planes.
pub proof fn lemma_encoding_deterministic(a: LEDArray, b: LEDArray, r: nat)
    requires
        r < NUM_ROWS,
        a.array@[r as int] == b.array@[r as int],
    ensures
        forall|p: nat|
            p < LAYER_BITS ==> #[trigger] plane_bytes(a.array@[r as int]@, p) == plane_bytes(
                b.array@[r as int]@,
                p,
            ),
{
}

} // verus!

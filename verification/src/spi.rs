//! Soft-SPI bit codec: the data-ordering half of the bit-banged SPI
//! primitives.  A byte travels on the wire most-significant bit first;
//! these functions turn a byte into that bit sequence and assemble a
//! byte back from sampled levels.  The physical side (driving the clock
//! and data lines with the per-half-cycle delay) is pure I/O and lives
//! with the hardware bindings, which consume these bit sequences.

use vstd::prelude::*;
use vstd::slice::slice_index_get;

verus! {

/// The `i`-th bit of `b` as it appears on the wire, counting from the
/// first bit sent: bit 0 is the most significant bit of the byte.
pub open spec fn wire_bit(b: u8, i: int) -> bool {
    b & (1u8 << (7 - i)) != 0
}

/// Decompose a byte into the 8 levels to drive on the data line,
/// most-significant bit first.
pub fn byte_to_bits(b: u8) -> (r: Vec<bool>)
    ensures
        r@.len() == 8,
        forall|i: int| 0 <= i < 8 ==> r@[i] == wire_bit(b, i),
{
    let mut r: Vec<bool> = Vec::new();
    let mut i: usize = 8;
    while i > 0
        invariant
            i <= 8,
            r@.len() == 8 - i,
            forall|j: int| 0 <= j < r@.len() ==> r@[j] == wire_bit(b, j),
        decreases i,
    {
        i = i - 1;
        let level = (b & (1u8 << i)) > 0;
        proof {
            let j = 8 - i - 1;
            assert(7 - j == i as int);
            assert(1u8 << (i as int) == 1u8 << i);
        }
        r.push(level);
    }
    r
}

/// Assemble a byte from 8 levels sampled on the data line,
/// most-significant bit first.  The accumulation mirrors the shift
/// register a hardware receiver would use: or the sampled bit into the
/// low end, shifting left between samples.
pub fn bits_to_byte(bits: &[bool]) -> (r: u8)
    requires
        bits@.len() == 8,
    ensures
        forall|i: int| 0 <= i < 8 ==> wire_bit(r, i) == bits@[i],
{
    let mut value: u8 = 0;
    let mut i: usize = 0;
    proof {
        assert(0u8 & 1 == 0) by (bit_vector);
        assert(0u8 >> 0u8 <= 1) by (bit_vector);
    }
    while i < 7
        invariant
            i <= 7,
            bits@.len() == 8,
            value & 1 == 0,
            value >> (i as u8) <= 1,
            forall|j: int| 0 <= j < i ==> ((value & (1u8 << ((i - j) as u8))) != 0) == bits@[j],
        decreases 7 - i,
    {
        let level: u8 = if *slice_index_get(bits, i) {
            1
        } else {
            0
        };
        let merged = value | level;
        let shifted = merged << 1;
        proof {
            let iu = i as u8;
            assert(shifted & 1 == 0) by (bit_vector)
                requires
                    shifted == (value | level) << 1,
            ;
            assert(shifted >> (iu + 1) <= 1) by (bit_vector)
                requires
                    shifted == (value | level) << 1,
                    value >> iu <= 1,
                    level <= 1,
                    iu <= 6,
            ;
            assert(((shifted & (1u8 << 1)) != 0) == (level == 1)) by (bit_vector)
                requires
                    shifted == (value | level) << 1,
                    value & 1 == 0,
                    level <= 1,
            ;
            assert forall|j: int| 0 <= j < i implies bit_set(shifted, (i + 1 - j) as u8)
                == bits@[j] by {
                let k = (i - j) as u8;
                assert(1 <= k <= 6);
                assert(bit_set(shifted, (k + 1) as u8) == bit_set(value, k)) by (bit_vector)
                    requires
                        shifted == (value | level) << 1,
                        value >> iu <= 1,
                        level <= 1,
                        iu <= 6,
                        1 <= k <= 6,
                ;
                assert((i + 1 - j) as u8 == (k + 1) as u8);
            }
            assert(bit_set(shifted, 1u8) == (level == 1));
        }
        value = shifted;
        i = i + 1;
    }
    let level: u8 = if *slice_index_get(bits, 7) {
        1
    } else {
        0
    };
    let r = value | level;
    proof {
        assert forall|j: int| 0 <= j < 8 implies wire_bit(r, j) == bits@[j] by {
            let k = (7 - j) as u8;
            if j < 7 {
                assert(bit_set(r, k) == bit_set(value, k)) by (bit_vector)
                    requires
                        r == value | level,
                        level <= 1,
                        1 <= k <= 7,
                ;
            } else {
                assert(bit_set(r, 0u8) == (level == 1)) by (bit_vector)
                    requires
                        r == value | level,
                        value & 1 == 0,
                        level <= 1,
                ;
            }
            assert(1u8 << (7 - j) == 1u8 << k);
        }
    }
    r
}

/// Whether bit `k` (counting from the least significant end) of `b` is set.
pub open spec fn bit_set(b: u8, k: u8) -> bool {
    b & (1u8 << k) != 0
}

/// A byte is determined by its eight wire bits: two bytes whose wire
/// bits agree are equal.  Together with the contracts above this gives
/// the round trip: assembling the levels a byte was decomposed into
/// yields the byte back.
pub proof fn lemma_byte_bits_round_trip(a: u8, b: u8)
    requires
        forall|i: int| 0 <= i < 8 ==> wire_bit(a, i) == wire_bit(b, i),
    ensures
        a == b,
{
    assert forall|k: u8| k < 8 implies bit_set(a, k) == bit_set(b, k) by {
        let i = 7 - k as int;
        assert(wire_bit(a, i) == wire_bit(b, i));
        assert(1u8 << (7 - i) == 1u8 << k);
    }
    assert(bit_set(a, 0u8) == bit_set(b, 0u8));
    assert(bit_set(a, 1u8) == bit_set(b, 1u8));
    assert(bit_set(a, 2u8) == bit_set(b, 2u8));
    assert(bit_set(a, 3u8) == bit_set(b, 3u8));
    assert(bit_set(a, 4u8) == bit_set(b, 4u8));
    assert(bit_set(a, 5u8) == bit_set(b, 5u8));
    assert(bit_set(a, 6u8) == bit_set(b, 6u8));
    assert(bit_set(a, 7u8) == bit_set(b, 7u8));
    assert(a == b) by (bit_vector)
        requires
            (a & (1u8 << 0u8) != 0) == (b & (1u8 << 0u8) != 0),
            (a & (1u8 << 1u8) != 0) == (b & (1u8 << 1u8) != 0),
            (a & (1u8 << 2u8) != 0) == (b & (1u8 << 2u8) != 0),
            (a & (1u8 << 3u8) != 0) == (b & (1u8 << 3u8) != 0),
            (a & (1u8 << 4u8) != 0) == (b & (1u8 << 4u8) != 0),
            (a & (1u8 << 5u8) != 0) == (b & (1u8 << 5u8) != 0),
            (a & (1u8 << 6u8) != 0) == (b & (1u8 << 6u8) != 0),
            (a & (1u8 << 7u8) != 0) == (b & (1u8 << 7u8) != 0),
    ;
}

} // verus!

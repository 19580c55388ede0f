//! Sizes and alignments of the storage that holds a container's control block
//! and payload side by side.

use vstd::arithmetic::power2::{
    is_pow2, is_pow2_equiv, lemma2_to64, lemma_pow2_pos, lemma_pow2_strictly_increases, pow2,
};
use vstd::bits::{lemma_usize_low_bits_mask_is_mod, low_bits_mask};
use vstd::prelude::*;

verus! {

/// Bytes taken by the object header that precedes every allocation.
pub const SIZEOF_OBJECT_HEADER: usize = 16;

/// Alignment, in bytes, of every allocation and of the payload inside it.
pub const OBJECT_ALIGNMENT: usize = 16;

/// Bytes taken by a container's control block.
pub const SIZEOF_CONTROL_BLOCK: usize = 32;

/// Alignment, in bytes, of a container's control block.
pub const ALIGNOF_CONTROL_BLOCK: usize = 8;

/// The least multiple of `alignment` that is not below `value`.
pub open spec fn round_up(value: int, alignment: int) -> int {
    ((value + alignment - 1) / alignment) * alignment
}

/// A power of two that fits a `usize` is one less than the mask of its low
/// bits, for an exponent below the width of the type.
proof fn lemma_mask_of_power(a: usize) -> (k: nat)
    requires
        is_pow2(a as int),
    ensures
        k < usize::BITS,
        pow2(k) == a,
        low_bits_mask(k) == a - 1,
{
    is_pow2_equiv(a as int);
    let k = choose|i: nat| vstd::arithmetic::power::pow(2, i) == a as int;
    lemma_pow2_pos(k);
    assert(pow2(k) == a);
    if k >= usize::BITS {
        lemma2_to64();
        if k > usize::BITS {
            lemma_pow2_strictly_increases(usize::BITS as nat, k);
        }
    }
    k
}

/// Rounds `value` up to the next multiple of `alignment`, a power of two.
pub fn align_up(value: usize, alignment: usize) -> (r: usize)
    requires
        is_pow2(alignment as int),
        value + alignment - 1 <= usize::MAX,
    ensures
        r == round_up(value as int, alignment as int),
        r % alignment == 0,
        value <= r < value + alignment,
{
    let ghost mut k: nat = 0;
    proof {
        k = lemma_mask_of_power(alignment);
    }
    let align_1 = alignment - 1;
    let sum = value + align_1;
    let r = sum & !align_1;
    proof {
        lemma_usize_low_bits_mask_is_mod(sum, k);
        assert(sum & !align_1 == sum - (sum & align_1)) by (bit_vector);
        lemma_rounded(value as int, alignment as int, r as int);
    }
    r
}

/// Taking the remainder off `v + a - 1` rounds `v` up to a multiple of `a`.
proof fn lemma_rounded(v: int, a: int, r: int)
    requires
        a > 0,
        v >= 0,
        r == (v + a - 1) - (v + a - 1) % a,
    ensures
        r == round_up(v, a),
        r % a == 0,
        v <= r < v + a,
{
    let s = v + a - 1;
    assert(s == (s / a) * a + s % a && 0 <= s % a < a) by (nonlinear_arith)
        requires
            a > 0,
            s >= 0,
    ;
    assert(((s / a) * a) % a == 0) by (nonlinear_arith)
        requires
            a > 0,
    ;
}

/// The bytes to allocate for a payload of `payload_size` bytes: room for the
/// payload and for the object header, rounded up to the object alignment.
pub fn vsizeof(payload_size: usize) -> (r: usize)
    requires
        payload_size + SIZEOF_OBJECT_HEADER + OBJECT_ALIGNMENT - 1 <= usize::MAX,
    ensures
        r == round_up(payload_size + SIZEOF_OBJECT_HEADER, OBJECT_ALIGNMENT as int),
        r % OBJECT_ALIGNMENT == 0,
{
    proof {
        reveal_with_fuel(is_pow2, 6);
    }
    align_up(payload_size + SIZEOF_OBJECT_HEADER, OBJECT_ALIGNMENT)
}

/// The address of the payload of the container whose control block is at
/// `addr`: the payload begins right behind the control block, at the same
/// alignment.
pub fn cown_to_data(addr: usize) -> (data: usize)
    requires
        addr != 0,
        addr % OBJECT_ALIGNMENT == 0,
        addr + SIZEOF_CONTROL_BLOCK <= usize::MAX,
    ensures
        data == addr + SIZEOF_CONTROL_BLOCK,
        data % OBJECT_ALIGNMENT == 0,
{
    addr + SIZEOF_CONTROL_BLOCK
}

/// The four sizes a client of the storage layer may ask for: size and
/// alignment of the control block, size of the object header, and the
/// object alignment.
pub fn size_info() -> (info: (usize, usize, usize, usize))
    ensures
        info == (
            SIZEOF_CONTROL_BLOCK,
            ALIGNOF_CONTROL_BLOCK,
            SIZEOF_OBJECT_HEADER,
            OBJECT_ALIGNMENT,
        ),
{
    (SIZEOF_CONTROL_BLOCK, ALIGNOF_CONTROL_BLOCK, SIZEOF_OBJECT_HEADER, OBJECT_ALIGNMENT)
}

} // verus!

//! Fixed-width integer entries packed into 64-bit words, as the
//! multi-region format stores its block-state indices. Entries fill each
//! word from the low bit and never straddle a word boundary.

use vstd::prelude::*;
use vstd::arithmetic::power2::{pow2, lemma_pow2_unfold};

use crate::error::SchemError;

verus! {

/// The narrowest packed width this format uses.
pub const MIN_BITS_PER_ENTRY: u8 = 4;

/// The number of binary digits of `n`: zero for zero, else one more than
/// for `n / 2`.
pub open spec fn spec_bit_length(n: nat) -> nat
    decreases n,
{
    if n == 0 {
        0
    } else {
        1 + spec_bit_length(n / 2)
    }
}

/// The packed width for a palette of `n` entries: the number of bits that
/// distinguish `n` values, floored at 4. A palette of size 0 or 1 uses the
/// floor width.
pub open spec fn spec_bits_for_palette_size(n: nat) -> u8 {
    if n <= 1 {
        MIN_BITS_PER_ENTRY
    } else if spec_bit_length((n - 1) as nat) < MIN_BITS_PER_ENTRY as nat {
        MIN_BITS_PER_ENTRY
    } else {
        spec_bit_length((n - 1) as nat) as u8
    }
}

/// Number of bits needed to index a palette of `palette_len` entries,
/// at least `MIN_BITS_PER_ENTRY` and at most 64.
pub fn bits_for_palette_size(palette_len: usize) -> (r: u8)
    ensures
        r == spec_bits_for_palette_size(palette_len as nat),
        MIN_BITS_PER_ENTRY <= r <= 64,
{
    if palette_len <= 1 {
        return MIN_BITS_PER_ENTRY;
    }
    let mut m: usize = palette_len - 1;
    let mut bits: u8 = 0;
    proof {
        assert(usize::MAX < pow2(64)) by {
            vstd::arithmetic::power2::lemma2_to64();
        }
    }
    while m > 0
        invariant
            bits <= 64,
            m < pow2((64 - bits) as nat),
            spec_bit_length((palette_len - 1) as nat) == bits + spec_bit_length(m as nat),
        decreases m,
    {
        proof {
            if 64 - bits == 0 {
                assert(pow2(0) == 1) by {
                    vstd::arithmetic::power2::lemma2_to64();
                }
                assert(false);
            }
            lemma_pow2_unfold((64 - bits) as nat);
        }
        m = m / 2;
        bits = bits + 1;
    }
    if bits < MIN_BITS_PER_ENTRY {
        MIN_BITS_PER_ENTRY
    } else {
        bits
    }
}

/// The entry at position `i` of a packed word array: the `bits` bits of the
/// word `i / (64 / bits)`, starting at bit `(i % (64 / bits)) * bits`,
/// truncated to 32 bits.
pub open spec fn spec_unpacked_entry(longs: Seq<i64>, bits: u8, i: int) -> u32
    recommends
        1 <= bits <= 64,
        0 <= i,
        i / (64int / (bits as int)) < longs.len(),
{
    let per = 64int / (bits as int);
    let word = longs[i / per] as u64;
    let mask = if bits == 64 {
        0xffff_ffff_ffff_ffffu64
    } else {
        ((1u64 << (bits as u64)) - 1) as u64
    };
    (((word >> (((i % per) * (bits as int)) as u64)) & mask) as u32)
}

/// Unpack `block_count` palette indices from a packed word array.
pub fn unpack_packed_long_array(longs: &[i64], block_count: usize, bits_per_entry: u8) -> (r:
    Result<Vec<u32>, SchemError>)
    ensures
        match r {
            Ok(v) => {
                &&& 1 <= bits_per_entry <= 64
                &&& block_count <= longs@.len() * (64int / (bits_per_entry as int))
                &&& v@.len() == block_count
                &&& forall|i: int|
                    0 <= i < block_count ==> v@[i] == spec_unpacked_entry(
                        longs@,
                        bits_per_entry,
                        i,
                    )
            },
            Err(SchemError::InvalidBitsPerEntry) => bits_per_entry == 0 || bits_per_entry > 64,
            Err(SchemError::PackedArrayTooShort) => {
                &&& 1 <= bits_per_entry <= 64
                &&& block_count > longs@.len() * (64int / (bits_per_entry as int))
            },
            Err(_) => false,
        },
{
    if bits_per_entry == 0 || bits_per_entry > 64 {
        return Err(SchemError::InvalidBitsPerEntry);
    }
    let bb: u64 = bits_per_entry as u64;
    proof {
        assert(bb < 64 ==> (1u64 << bb) >= 1) by (bit_vector);
    }
    let mask: u64 = if bits_per_entry == 64 {
        0xffff_ffff_ffff_ffffu64
    } else {
        (1u64 << bb) - 1
    };
    let blocks_per_long: usize = 64 / (bits_per_entry as usize);
    proof {
        assert(1 <= blocks_per_long <= 64) by (nonlinear_arith)
            requires
                blocks_per_long as int == 64int / (bits_per_entry as int),
                1 <= bits_per_entry <= 64,
        ;
    }
    let mut result: Vec<u32> = Vec::new();
    let mut i: usize = 0;
    while i < block_count
        invariant
            1 <= bits_per_entry <= 64,
            1 <= blocks_per_long <= 64,
            blocks_per_long as int == 64int / (bits_per_entry as int),
            mask == (if bits_per_entry == 64 {
                0xffff_ffff_ffff_ffffu64
            } else {
                ((1u64 << (bits_per_entry as u64)) - 1) as u64
            }),
            i <= block_count,
            result@.len() == i,
            i <= longs@.len() * blocks_per_long,
            forall|k: int|
                0 <= k < i ==> result@[k] == spec_unpacked_entry(longs@, bits_per_entry, k),
        decreases block_count - i,
    {
        let long_index = i / blocks_per_long;
        let offset_in_long = i % blocks_per_long;
        proof {
            assert(offset_in_long * (bits_per_entry as usize) <= 64 * 64) by (nonlinear_arith)
                requires
                    offset_in_long <= 64,
                    bits_per_entry <= 64,
            ;
        }
        let bit_start = offset_in_long * (bits_per_entry as usize);

        if long_index >= longs.len() {
            proof {
                vstd::arithmetic::div_mod::lemma_fundamental_div_mod(i as int,
                    blocks_per_long as int);
                assert(i >= longs@.len() * blocks_per_long) by (nonlinear_arith)
                    requires
                        (i as int) / (blocks_per_long as int) >= longs@.len(),
                        blocks_per_long >= 1,
                        (i as int) % (blocks_per_long as int) >= 0,
                        i as int == (blocks_per_long as int) * ((i as int) / (blocks_per_long
                            as int)) + (i as int) % (blocks_per_long as int),
                ;
            }
            return Err(SchemError::PackedArrayTooShort);
        }
        proof {
            vstd::arithmetic::div_mod::lemma_fundamental_div_mod(i as int, blocks_per_long as int);
            assert(offset_in_long < blocks_per_long);
            assert(i < longs@.len() * blocks_per_long) by (nonlinear_arith)
                requires
                    (i as int) / (blocks_per_long as int) < longs@.len(),
                    blocks_per_long >= 1,
                    (i as int) % (blocks_per_long as int) < blocks_per_long,
                    i as int == (blocks_per_long as int) * ((i as int) / (blocks_per_long
                        as int)) + (i as int) % (blocks_per_long as int),
            ;
            assert(blocks_per_long * bits_per_entry <= 64) by (nonlinear_arith)
                requires
                    blocks_per_long as int == 64int / (bits_per_entry as int),
                    1 <= bits_per_entry <= 64,
            ;
            assert(bit_start + bits_per_entry <= 64) by (nonlinear_arith)
                requires
                    offset_in_long < blocks_per_long,
                    bit_start == offset_in_long * bits_per_entry,
                    blocks_per_long * bits_per_entry <= 64,
                    bits_per_entry >= 1,
            ;
        }
        let word = longs[long_index] as u64;
        let value = (word >> (bit_start as u64)) & mask;
        result.push((value & 0xffff_ffffu64) as u32);
        proof {
            let ghost sv = spec_unpacked_entry(longs@, bits_per_entry, i as int);
            assert((value & 0xffff_ffffu64) as u32 == value as u32) by (bit_vector);
            assert(result@[i as int] == sv);
        }
        i = i + 1;
    }
    proof {
        assert(block_count <= longs@.len() * blocks_per_long);
    }
    Ok(result)
}

} // verus!

//! The free-block bitmap: one bit per block, 1 = used.
//!
//! Block `b` is bit `b % 8` of byte `b / 8`, counted from the least
//! significant bit.
use vstd::prelude::*;

verus! {

/// Bit `k` of `x`, counted from the least significant bit.
pub open spec fn byte_bit(x: u8, k: u8) -> bool {
    x & (1u8 << k) != 0
}

/// `x` with bit `k` set to `used`.
pub open spec fn byte_with_bit(x: u8, k: u8, used: bool) -> u8 {
    if used {
        x | (1u8 << k)
    } else {
        x & !(1u8 << k)
    }
}

/// Whether the bitmap marks `block` as used.  A block beyond the bitmap's
/// last byte has no bit, which reads as not marked.
pub open spec fn bit_at(bitmap: Seq<u8>, block: int) -> bool {
    0 <= block && block / 8 < bitmap.len() && byte_bit(bitmap[block / 8], (block % 8) as u8)
}

/// Changing one bit of a byte changes that bit and no other.
pub proof fn lemma_byte_with_bit(x: u8, k: u8, used: bool, j: u8)
    requires
        k < 8,
        j < 8,
    ensures
        byte_bit(byte_with_bit(x, k, used), j) == (if j == k {
            used
        } else {
            byte_bit(x, j)
        }),
{
    if used {
        assert(((x | (1u8 << k)) & (1u8 << j) != 0) == (if j == k {
            true
        } else {
            x & (1u8 << j) != 0
        })) by (bit_vector)
            requires
                k < 8,
                j < 8,
        ;
    } else {
        assert(((x & !(1u8 << k)) & (1u8 << j) != 0) == (if j == k {
            false
        } else {
            x & (1u8 << j) != 0
        })) by (bit_vector)
            requires
                k < 8,
                j < 8,
        ;
    }
}

/// A zero byte has no bit set.
pub proof fn lemma_zero_byte_has_no_bit(j: u8)
    requires
        j < 8,
    ensures
        !byte_bit(0u8, j),
{
    assert(0u8 & (1u8 << j) == 0) by (bit_vector)
        requires
            j < 8,
    ;
}

/// Changing the byte that holds a block's bit changes that block's mark and
/// no other block's.
pub proof fn lemma_bitmap_with_bit(bitmap: Seq<u8>, block: int, used: bool, other: int)
    requires
        0 <= block,
        block / 8 < bitmap.len(),
    ensures
        bit_at(
            bitmap.update(
                block / 8,
                byte_with_bit(bitmap[block / 8], (block % 8) as u8, used),
            ),
            other,
        ) == (if other == block {
            used
        } else {
            bit_at(bitmap, other)
        }),
{
    if 0 <= other && other / 8 == block / 8 {
        lemma_byte_with_bit(bitmap[block / 8], (block % 8) as u8, used, (other % 8) as u8);
    }
}

/// Whether the bit of `block` is set.  A block that the bitmap has no byte
/// for counts as free.
pub fn bit_is_set(bitmap: &[u8], block: u32) -> (r: bool)
    ensures
        r == bit_at(bitmap@, block as int),
{
    let idx: usize = block as usize;
    let byte: usize = idx / 8;
    let bit: u8 = (idx % 8) as u8;
    if byte >= bitmap.len() {
        return false;
    }
    (bitmap[byte] & (1u8 << bit)) != 0
}

/// Whether `block_index` is taken.  A block that the bitmap has no byte for
/// counts as taken, so that it is never handed out.
pub fn bitmap_test(bitmap: &[u8], block_index: u32) -> (r: bool)
    ensures
        r == (block_index as int / 8 >= bitmap@.len() || bit_at(bitmap@, block_index as int)),
{
    let idx: usize = block_index as usize;
    let byte: usize = idx / 8;
    let bit: u8 = (idx % 8) as u8;
    if byte >= bitmap.len() {
        return true;
    }
    (bitmap[byte] & (1u8 << bit)) != 0
}

/// Marks `block_index` as used or free.  A block that the bitmap has no byte
/// for is left alone.
pub fn bitmap_set(bitmap: &mut Vec<u8>, block_index: u32, used: bool)
    ensures
        block_index as int / 8 >= old(bitmap)@.len() ==> final(bitmap)@ == old(bitmap)@,
        block_index as int / 8 < old(bitmap)@.len() ==> final(bitmap)@ == old(bitmap)@.update(
            block_index as int / 8,
            byte_with_bit(
                old(bitmap)@[block_index as int / 8],
                (block_index as int % 8) as u8,
                used,
            ),
        ),
        final(bitmap)@.len() == old(bitmap)@.len(),
        block_index as int / 8 < old(bitmap)@.len() ==> forall|other: int|
            bit_at(final(bitmap)@, other) == (if other == block_index {
                used
            } else {
                bit_at(old(bitmap)@, other)
            }),
{
    let idx: usize = block_index as usize;
    let byte: usize = idx / 8;
    let bit: u8 = (idx % 8) as u8;
    if byte >= bitmap.len() {
        return ;
    }
    let before: u8 = bitmap[byte];
    let after: u8 = if used {
        before | (1u8 << bit)
    } else {
        before & !(1u8 << bit)
    };
    bitmap[byte] = after;
    proof {
        assert forall|other: int|
            bit_at(bitmap@, other) == (if other == block_index {
                used
            } else {
                bit_at(old(bitmap)@, other)
            }) by {
            lemma_bitmap_with_bit(old(bitmap)@, block_index as int, used, other);
        }
    }
}

} // verus!

//! Prefix masks: building a mask from a prefix length and recovering the
//! prefix length from a mask.

use vstd::prelude::*;

verus! {

/// The mask of a prefix length `bits`: the top `bits` bits set, the rest clear.
pub open spec fn mask_of(bits: u8) -> u128 {
    if bits == 0 {
        0
    } else {
        (!0u128) << ((128 - bits) as u128)
    }
}

/// Bit `i` of `m`, counted from the most significant bit (index 0).
pub open spec fn bit_at(m: u128, i: u128) -> bool {
    (m >> (127 - i) as u128) & 1 == 1
}

/// Whether `m` is the mask of some prefix length.
pub open spec fn is_mask(m: u128) -> bool {
    exists|b: u8| b <= 128 && #[trigger] mask_of(b) == m
}

/// The prefix length of `m`, or `None` when `m` is not a contiguous mask.
pub open spec fn bits_of_mask(m: u128) -> Option<u8> {
    if is_mask(m) {
        Some(choose|b: u8| b <= 128 && #[trigger] mask_of(b) == m)
    } else {
        None
    }
}

/// Bit `i` of the mask of `b` is set exactly when `i < b`.
pub proof fn lemma_mask_bit(b: u8, i: u128)
    requires
        b <= 128,
        i < 128,
    ensures
        bit_at(mask_of(b), i) <==> (i as int) < (b as int),
{
    if b == 0 {
        assert(bit_at(0u128, i) == false) by (bit_vector)
            requires i < 128;
    } else {
        let s: u128 = (128 - b) as u128;
        assert(bit_at((!0u128) << s, i) <==> i < 128 - s) by (bit_vector)
            requires
                i < 128,
                s < 128,
        ;
    }
}

/// `mask_of` tells prefix lengths apart.
pub proof fn lemma_mask_injective(b: u8, c: u8)
    requires
        b <= 128,
        c <= 128,
        mask_of(b) == mask_of(c),
    ensures
        b == c,
{
    if b < c {
        lemma_mask_bit(b, b as u128);
        lemma_mask_bit(c, b as u128);
    } else if c < b {
        lemma_mask_bit(b, c as u128);
        lemma_mask_bit(c, c as u128);
    }
}

/// The mask of `b + 1` is the mask of `b` with bit `b` added.
proof fn lemma_mask_step(b: u8)
    requires
        b < 128,
    ensures
        mask_of((b + 1) as u8) == mask_of(b) | (1u128 << ((127 - b) as u128)),
{
    let s: u128 = (127 - b) as u128;
    if b == 0 {
        assert((!0u128) << 127u128 == 0u128 | (1u128 << 127u128)) by (bit_vector);
    } else {
        assert((!0u128) << s == ((!0u128) << ((s + 1) as u128)) | (1u128 << s)) by (bit_vector)
            requires
                s < 127,
        ;
    }
}

/// Recovering the prefix length from the mask of `b` gives back `b`.
pub proof fn lemma_bits_of_mask_of(b: u8)
    requires
        b <= 128,
    ensures
        bits_of_mask(mask_of(b)) == Some(b),
{
    assert(is_mask(mask_of(b)));
    let c = choose|c: u8| c <= 128 && #[trigger] mask_of(c) == mask_of(b);
    lemma_mask_injective(b, c);
}

/// A value with a clear bit before a set bit is no mask: it has no prefix length.
pub proof fn lemma_gap_is_not_mask(m: u128, i: u128, j: u128)
    requires
        i < j < 128,
        !bit_at(m, i),
        bit_at(m, j),
    ensures
        bits_of_mask(m) == None::<u8>,
{
    assert forall|b: u8| b <= 128 implies #[trigger] mask_of(b) != m by {
        lemma_mask_bit(b, i);
        lemma_mask_bit(b, j);
    }
}

/// A bit of `x & y` is set exactly when it is set in both.
proof fn lemma_bit_and(x: u128, y: u128, i: u128)
    requires
        i < 128,
    ensures
        bit_at(x & y, i) <==> bit_at(x, i) && bit_at(y, i),
{
    assert(bit_at(x & y, i) <==> bit_at(x, i) && bit_at(y, i)) by (bit_vector)
        requires
            i < 128,
    ;
}

/// The mask with the top `bits` bits set.
pub fn get_mask(bits: u8) -> (r: u128)
    requires
        bits <= 128,
    ensures
        r == mask_of(bits),
{
    if bits == 0 {
        0
    } else {
        (!0u128) << ((128 - bits) as u128)
    }
}

/// Recovers the prefix length of a mask: the run of leading one bits is
/// counted, and every bit after it must be clear.
pub fn mask_to_bits(mask: u128) -> (r: Option<u8>)
    ensures
        r == bits_of_mask(mask),
{
    let mut b: u8 = 0;
    assert(mask & 0u128 == 0u128) by (bit_vector);
    while b < 128 && (mask >> ((127 - b) as u128)) & 1 == 1
        invariant
            b <= 128,
            mask & mask_of(b) == mask_of(b),
        decreases 128 - b,
    {
        proof {
            lemma_mask_step(b);
            let m = mask_of(b);
            let s: u128 = (127 - b) as u128;
            assert(mask & (m | (1u128 << s)) == m | (1u128 << s)) by (bit_vector)
                requires
                    mask & m == m,
                    (mask >> s) & 1 == 1,
                    s < 128,
            ;
        }
        b = b + 1;
    }
    if mask == get_mask(b) {
        proof {
            assert(is_mask(mask));
            let c = choose|c: u8| c <= 128 && #[trigger] mask_of(c) == mask;
            lemma_mask_injective(b, c);
        }
        Some(b)
    } else {
        proof {
            assert forall|c: u8| c <= 128 implies #[trigger] mask_of(c) != mask by {
                if mask_of(c) == mask {
                    if c < b {
                        lemma_mask_bit(b, c as u128);
                        lemma_mask_bit(c, c as u128);
                        lemma_bit_and(mask, mask_of(b), c as u128);
                    } else if c > b {
                        lemma_mask_bit(c, b as u128);
                    }
                }
            }
        }
        None
    }
}

} // verus!

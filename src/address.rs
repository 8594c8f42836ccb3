//! Addresses: the canonical 128-bit value and its two grouped forms, sixteen
//! octets and eight 16-bit groups, each with the most significant group first.

use vstd::prelude::*;

verus! {

/// Octet `i` of `x`, index 0 being the most significant.
pub open spec fn octet(x: u128, i: int) -> u8 {
    (x >> ((120 - 8 * i) as u128)) as u8
}

/// The sixteen octets of `x`, most significant first.
pub open spec fn octets_of(x: u128) -> Seq<u8> {
    Seq::new(16, |i: int| octet(x, i))
}

/// The value whose octets, most significant first, are `s`.
pub open spec fn from_octets(s: Seq<u8>) -> u128 {
    (s[0] as u128) << 120u128 | (s[1] as u128) << 112u128 | (s[2] as u128) << 104u128
        | (s[3] as u128) << 96u128 | (s[4] as u128) << 88u128 | (s[5] as u128) << 80u128
        | (s[6] as u128) << 72u128 | (s[7] as u128) << 64u128 | (s[8] as u128) << 56u128
        | (s[9] as u128) << 48u128 | (s[10] as u128) << 40u128 | (s[11] as u128) << 32u128
        | (s[12] as u128) << 24u128 | (s[13] as u128) << 16u128 | (s[14] as u128) << 8u128
        | (s[15] as u128)
}

/// Group `i` of `x`, sixteen bits wide, index 0 being the most significant.
pub open spec fn group(x: u128, i: int) -> u16 {
    (x >> ((112 - 16 * i) as u128)) as u16
}

/// The eight 16-bit groups of `x`, most significant first.
pub open spec fn groups_of(x: u128) -> Seq<u16> {
    Seq::new(8, |i: int| group(x, i))
}

/// The value whose 16-bit groups, most significant first, are `s`.
pub open spec fn from_groups(s: Seq<u16>) -> u128 {
    (s[0] as u128) << 112u128 | (s[1] as u128) << 96u128 | (s[2] as u128) << 80u128
        | (s[3] as u128) << 64u128 | (s[4] as u128) << 48u128 | (s[5] as u128) << 32u128
        | (s[6] as u128) << 16u128 | (s[7] as u128)
}

/// Splitting a value into octets and joining them again gives the value back.
pub proof fn lemma_octets_round_trip(x: u128)
    ensures
        from_octets(octets_of(x)) == x,
{
    let s = octets_of(x);
    assert(s[0] == octet(x, 0) && s[1] == octet(x, 1) && s[2] == octet(x, 2));
    assert(s[3] == octet(x, 3) && s[4] == octet(x, 4) && s[5] == octet(x, 5));
    assert(s[6] == octet(x, 6) && s[7] == octet(x, 7) && s[8] == octet(x, 8));
    assert(s[9] == octet(x, 9) && s[10] == octet(x, 10) && s[11] == octet(x, 11));
    assert(s[12] == octet(x, 12) && s[13] == octet(x, 13) && s[14] == octet(x, 14));
    assert(s[15] == octet(x, 15));
    assert(((x >> 120u128) as u8 as u128) << 120u128 | ((x >> 112u128) as u8 as u128) << 112u128
        | ((x >> 104u128) as u8 as u128) << 104u128 | ((x >> 96u128) as u8 as u128) << 96u128
        | ((x >> 88u128) as u8 as u128) << 88u128 | ((x >> 80u128) as u8 as u128) << 80u128
        | ((x >> 72u128) as u8 as u128) << 72u128 | ((x >> 64u128) as u8 as u128) << 64u128
        | ((x >> 56u128) as u8 as u128) << 56u128 | ((x >> 48u128) as u8 as u128) << 48u128
        | ((x >> 40u128) as u8 as u128) << 40u128 | ((x >> 32u128) as u8 as u128) << 32u128
        | ((x >> 24u128) as u8 as u128) << 24u128 | ((x >> 16u128) as u8 as u128) << 16u128
        | ((x >> 8u128) as u8 as u128) << 8u128 | ((x >> 0u128) as u8 as u128) == x) by (bit_vector);
}

/// Joining sixteen octets and splitting the value again gives the octets back.
pub proof fn lemma_octets_of_from_octets(s: Seq<u8>)
    requires
        s.len() == 16,
    ensures
        octets_of(from_octets(s)) == s,
{
    let (b0, b1, b2, b3, b4, b5, b6, b7) = (s[0], s[1], s[2], s[3], s[4], s[5], s[6], s[7]);
    let (b8, b9, b10, b11, b12, b13, b14, b15) = (s[8], s[9], s[10], s[11], s[12], s[13], s[14], s[15]);
    let x = from_octets(s);
    assert(x == (b0 as u128) << 120u128 | (b1 as u128) << 112u128 | (b2 as u128) << 104u128
        | (b3 as u128) << 96u128 | (b4 as u128) << 88u128 | (b5 as u128) << 80u128
        | (b6 as u128) << 72u128 | (b7 as u128) << 64u128 | (b8 as u128) << 56u128
        | (b9 as u128) << 48u128 | (b10 as u128) << 40u128 | (b11 as u128) << 32u128
        | (b12 as u128) << 24u128 | (b13 as u128) << 16u128 | (b14 as u128) << 8u128
        | (b15 as u128));
    assert((x >> 120u128) as u8 == b0 && (x >> 112u128) as u8 == b1 && (x >> 104u128) as u8 == b2
        && (x >> 96u128) as u8 == b3 && (x >> 88u128) as u8 == b4 && (x >> 80u128) as u8 == b5
        && (x >> 72u128) as u8 == b6 && (x >> 64u128) as u8 == b7 && (x >> 56u128) as u8 == b8
        && (x >> 48u128) as u8 == b9 && (x >> 40u128) as u8 == b10 && (x >> 32u128) as u8 == b11
        && (x >> 24u128) as u8 == b12 && (x >> 16u128) as u8 == b13 && (x >> 8u128) as u8 == b14
        && (x >> 0u128) as u8 == b15) by (bit_vector)
        requires
            x == (b0 as u128) << 120u128 | (b1 as u128) << 112u128 | (b2 as u128) << 104u128
                | (b3 as u128) << 96u128 | (b4 as u128) << 88u128 | (b5 as u128) << 80u128
                | (b6 as u128) << 72u128 | (b7 as u128) << 64u128 | (b8 as u128) << 56u128
                | (b9 as u128) << 48u128 | (b10 as u128) << 40u128 | (b11 as u128) << 32u128
                | (b12 as u128) << 24u128 | (b13 as u128) << 16u128 | (b14 as u128) << 8u128
                | (b15 as u128),
    ;
    assert(octets_of(x) =~= s);
}

/// Splitting a value into 16-bit groups and joining them again gives the value back.
pub proof fn lemma_groups_round_trip(x: u128)
    ensures
        from_groups(groups_of(x)) == x,
{
    let s = groups_of(x);
    assert(s[0] == group(x, 0) && s[1] == group(x, 1) && s[2] == group(x, 2));
    assert(s[3] == group(x, 3) && s[4] == group(x, 4) && s[5] == group(x, 5));
    assert(s[6] == group(x, 6) && s[7] == group(x, 7));
    assert(((x >> 112u128) as u16 as u128) << 112u128 | ((x >> 96u128) as u16 as u128) << 96u128
        | ((x >> 80u128) as u16 as u128) << 80u128 | ((x >> 64u128) as u16 as u128) << 64u128
        | ((x >> 48u128) as u16 as u128) << 48u128 | ((x >> 32u128) as u16 as u128) << 32u128
        | ((x >> 16u128) as u16 as u128) << 16u128 | ((x >> 0u128) as u16 as u128) == x)
        by (bit_vector);
}

/// Joining eight 16-bit groups and splitting the value again gives the groups back.
pub proof fn lemma_groups_of_from_groups(s: Seq<u16>)
    requires
        s.len() == 8,
    ensures
        groups_of(from_groups(s)) == s,
{
    let (g0, g1, g2, g3, g4, g5, g6, g7) = (s[0], s[1], s[2], s[3], s[4], s[5], s[6], s[7]);
    let x = from_groups(s);
    assert((x >> 112u128) as u16 == g0 && (x >> 96u128) as u16 == g1 && (x >> 80u128) as u16 == g2
        && (x >> 64u128) as u16 == g3 && (x >> 48u128) as u16 == g4 && (x >> 32u128) as u16 == g5
        && (x >> 16u128) as u16 == g6 && (x >> 0u128) as u16 == g7) by (bit_vector)
        requires
            x == (g0 as u128) << 112u128 | (g1 as u128) << 96u128 | (g2 as u128) << 80u128
                | (g3 as u128) << 64u128 | (g4 as u128) << 48u128 | (g5 as u128) << 32u128
                | (g6 as u128) << 16u128 | (g7 as u128),
    ;
    assert(groups_of(x) =~= s);
}

/// The octets of `x`, most significant first.
pub fn u128_to_u8_array(x: u128) -> (r: [u8; 16])
    ensures
        r@ == octets_of(x),
{
    let r = [
        (x >> 120u128) as u8, (x >> 112u128) as u8, (x >> 104u128) as u8, (x >> 96u128) as u8,
        (x >> 88u128) as u8, (x >> 80u128) as u8, (x >> 72u128) as u8, (x >> 64u128) as u8,
        (x >> 56u128) as u8, (x >> 48u128) as u8, (x >> 40u128) as u8, (x >> 32u128) as u8,
        (x >> 24u128) as u8, (x >> 16u128) as u8, (x >> 8u128) as u8, (x >> 0u128) as u8,
    ];
    assert(r@ =~= octets_of(x));
    r
}

/// The 16-bit groups of `x`, most significant first.
pub fn u128_to_u16_array(x: u128) -> (r: [u16; 8])
    ensures
        r@ == groups_of(x),
{
    let r = [
        (x >> 112u128) as u16, (x >> 96u128) as u16, (x >> 80u128) as u16, (x >> 64u128) as u16,
        (x >> 48u128) as u16, (x >> 32u128) as u16, (x >> 16u128) as u16, (x >> 0u128) as u16,
    ];
    assert(r@ =~= groups_of(x));
    r
}

/// The value whose octets, most significant first, are `a`.
pub fn u8_array_to_u128(a: [u8; 16]) -> (r: u128)
    ensures
        r == from_octets(a@),
{
    (a[0] as u128) << 120u128 | (a[1] as u128) << 112u128 | (a[2] as u128) << 104u128
        | (a[3] as u128) << 96u128 | (a[4] as u128) << 88u128 | (a[5] as u128) << 80u128
        | (a[6] as u128) << 72u128 | (a[7] as u128) << 64u128 | (a[8] as u128) << 56u128
        | (a[9] as u128) << 48u128 | (a[10] as u128) << 40u128 | (a[11] as u128) << 32u128
        | (a[12] as u128) << 24u128 | (a[13] as u128) << 16u128 | (a[14] as u128) << 8u128
        | (a[15] as u128)
}

/// The value whose 16-bit groups, most significant first, are `a`.
pub fn u16_array_to_u128(a: [u16; 8]) -> (r: u128)
    ensures
        r == from_groups(a@),
{
    (a[0] as u128) << 112u128 | (a[1] as u128) << 96u128 | (a[2] as u128) << 80u128
        | (a[3] as u128) << 64u128 | (a[4] as u128) << 48u128 | (a[5] as u128) << 32u128
        | (a[6] as u128) << 16u128 | (a[7] as u128)
}

/// A value that can be taken as an IPv6 address.
pub trait Ipv6Able {
    /// The canonical 128-bit value of the address.
    spec fn address(&self) -> u128;

    fn get_u128(&self) -> (r: u128)
        ensures
            r == self.address(),
    ;
}

impl Ipv6Able for u128 {
    open spec fn address(&self) -> u128 {
        *self
    }

    fn get_u128(&self) -> (r: u128) {
        *self
    }
}

impl Ipv6Able for [u8; 16] {
    open spec fn address(&self) -> u128 {
        from_octets(self@)
    }

    fn get_u128(&self) -> (r: u128) {
        u8_array_to_u128(*self)
    }
}

impl Ipv6Able for [u16; 8] {
    open spec fn address(&self) -> u128 {
        from_groups(self@)
    }

    fn get_u128(&self) -> (r: u128) {
        u16_array_to_u128(*self)
    }
}

impl<T: Ipv6Able> Ipv6Able for &T {
    open spec fn address(&self) -> u128 {
        (**self).address()
    }

    fn get_u128(&self) -> (r: u128) {
        (**self).get_u128()
    }
}

} // verus!

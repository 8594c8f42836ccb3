//! The IPv6 CIDR block: a prefix together with a contiguous mask.

use vstd::prelude::*;
use vstd::arithmetic::power2::{
    pow2, lemma_pow2_unfold, lemma2_to64, lemma2_to64_rest, lemma_pow2_adds, lemma_pow2_pos,
    lemma_pow2_strictly_increases,
};
use core::cmp::Ordering;
use crate::address::{
    Ipv6Able, octets_of, groups_of, u128_to_u8_array, u128_to_u16_array,
};
use crate::bits::{mask_of, is_mask, bits_of_mask, get_mask, mask_to_bits, lemma_bits_of_mask_of};

verus! {

/// An IPv6 CIDR block. The prefix never has a bit set outside the mask, and
/// the mask is always contiguous.
#[derive(Debug, PartialEq, Eq, Structural, Clone, Copy, Ord)]
pub struct Ipv6Cidr {
    prefix: u128,
    mask: u128,
}

/// Possible errors of `Ipv6Cidr`.
#[derive(Debug, PartialEq, Eq, Structural, Clone, Copy)]
pub enum Ipv6CidrError {
    IncorrectBitsRange,
    IncorrectMask,
    IncorrectIpv6CIDRString,
}

/// The number of addresses of a block with prefix length `bits`, as a value
/// and an overflow flag: `(0, false)` stands for the single address of a /128
/// block, `(0, true)` for the 2^128 addresses of a /0 block.
pub open spec fn size_of_bits(bits: u8) -> (u128, bool) {
    if bits == 128 {
        (0, false)
    } else if bits == 0 {
        (0, true)
    } else {
        (pow2((128 - bits) as nat) as u128, false)
    }
}

/// The quantity `p.0 + 2^128` when the overflow flag `p.1` is set, else `p.0`.
pub open spec fn pair_value(p: (u128, bool)) -> int {
    if p.1 {
        p.0 + pow2(128)
    } else {
        p.0 as int
    }
}

/// Shifting one left by `s` gives `2^s`.
pub proof fn lemma_shl_pow2(s: u128)
    requires
        s < 128,
    ensures
        (1u128 << s) as nat == pow2(s as nat),
    decreases s,
{
    if s == 0 {
        assert(1u128 << 0u128 == 1u128) by (bit_vector);
        lemma2_to64();
    } else {
        lemma_shl_pow2((s - 1) as u128);
        let t: u128 = (s - 1) as u128;
        assert((1u128 << s) == (1u128 << t) + (1u128 << t)) by (bit_vector)
            requires
                t < 127,
                s == t + 1,
        ;
        lemma_pow2_unfold(s as nat);
    }
}

impl Ipv6Cidr {
    /// Holds of every block: the mask is contiguous and the prefix lies within it.
    #[verifier::type_invariant]
    pub closed spec fn wf(&self) -> bool {
        &&& is_mask(self.mask)
        &&& self.prefix & self.mask == self.prefix
    }

    /// The prefix, that is the first address of the block.
    pub closed spec fn prefix_spec(&self) -> u128 {
        self.prefix
    }

    /// The prefix length.
    pub closed spec fn bits_spec(&self) -> u8 {
        match bits_of_mask(self.mask) {
            Some(b) => b,
            None => 0,
        }
    }

    /// The mask, as a 128-bit value.
    pub open spec fn mask_spec(&self) -> u128 {
        mask_of(self.bits_spec())
    }

    /// The last address of the block: the prefix with every host bit set.
    pub open spec fn last_spec(&self) -> u128 {
        self.prefix_spec() | !self.mask_spec()
    }

    /// Whether the address `ip` lies in the block.
    pub open spec fn contains_spec(&self, ip: u128) -> bool {
        ip & self.mask_spec() == self.prefix_spec()
    }

    /// The model of a well-formed block: its stored mask is the mask of its
    /// prefix length.
    proof fn lemma_model(&self)
        requires
            self.wf(),
        ensures
            self.bits_spec() <= 128,
            self.mask == self.mask_spec(),
            bits_of_mask(self.mask) == Some(self.bits_spec()),
    {
        let b = choose|b: u8| b <= 128 && #[trigger] mask_of(b) == self.mask;
        lemma_bits_of_mask_of(b);
    }
}

impl Ipv6Cidr {
    pub fn get_prefix(&self) -> (r: u128)
        ensures
            r == self.prefix_spec(),
    {
        self.prefix
    }

    pub fn get_prefix_as_u8_array(&self) -> (r: [u8; 16])
        ensures
            r@ == octets_of(self.prefix_spec()),
    {
        u128_to_u8_array(self.get_prefix())
    }

    pub fn get_prefix_as_u16_array(&self) -> (r: [u16; 8])
        ensures
            r@ == groups_of(self.prefix_spec()),
    {
        u128_to_u16_array(self.get_prefix())
    }

    pub fn get_bits(&self) -> (r: u8)
        ensures
            r == self.bits_spec(),
            r <= 128,
    {
        proof {
            use_type_invariant(self);
            self.lemma_model();
        }
        mask_to_bits(self.mask).unwrap()
    }

    pub fn get_mask(&self) -> (r: u128)
        ensures
            r == self.mask_spec(),
    {
        get_mask(self.get_bits())
    }

    pub fn get_mask_as_u8_array(&self) -> (r: [u8; 16])
        ensures
            r@ == octets_of(self.mask_spec()),
    {
        u128_to_u8_array(self.get_mask())
    }

    pub fn get_mask_as_u16_array(&self) -> (r: [u16; 8])
        ensures
            r@ == groups_of(self.mask_spec()),
    {
        u128_to_u16_array(self.get_mask())
    }

    /// The block of prefix length `bits` around `prefix`. The bits of
    /// `prefix` outside the mask are cleared, never rejected.
    pub fn from_prefix_and_bits<P: Ipv6Able>(prefix: P, bits: u8) -> (r: Result<
        Ipv6Cidr,
        Ipv6CidrError,
    >)
        ensures
            match r {
                Ok(c) => {
                    &&& bits <= 128
                    &&& c.bits_spec() == bits
                    &&& c.prefix_spec() == prefix.address() & mask_of(bits)
                },
                Err(e) => bits > 128 && e == Ipv6CidrError::IncorrectBitsRange,
            },
    {
        if bits > 128 {
            return Err(Ipv6CidrError::IncorrectBitsRange);
        }
        let mask = get_mask(bits);
        let address = prefix.get_u128();
        let prefix = address & mask;
        proof {
            lemma_bits_of_mask_of(bits);
            assert(prefix & mask == prefix) by (bit_vector)
                requires
                    prefix == address & mask,
            ;
        }
        Ok(Ipv6Cidr { prefix, mask })
    }
}

impl Ipv6Cidr {
    /// The block with the mask `mask` around `prefix`. The mask must be
    /// contiguous; the bits of `prefix` outside it are cleared.
    pub fn from_prefix_and_mask<P: Ipv6Able, M: Ipv6Able>(prefix: P, mask: M) -> (r: Result<
        Ipv6Cidr,
        Ipv6CidrError,
    >)
        ensures
            match r {
                Ok(c) => {
                    &&& bits_of_mask(mask.address()) == Some(c.bits_spec())
                    &&& c.mask_spec() == mask.address()
                    &&& c.prefix_spec() == prefix.address() & mask.address()
                },
                Err(e) => bits_of_mask(mask.address()) == None::<u8> && e
                    == Ipv6CidrError::IncorrectMask,
            },
    {
        let mask = mask.get_u128();
        match mask_to_bits(mask) {
            Some(_) => {
                let address = prefix.get_u128();
                let prefix = address & mask;
                proof {
                    assert(prefix & mask == prefix) by (bit_vector)
                        requires
                            prefix == address & mask,
                    ;
                    let c = Ipv6Cidr { prefix, mask };
                    c.lemma_model();
                }
                Ok(Ipv6Cidr { prefix, mask })
            },
            None => Err(Ipv6CidrError::IncorrectMask),
        }
    }
}

impl Ipv6Cidr {
    pub fn first(&self) -> (r: u128)
        ensures
            r == self.prefix_spec(),
    {
        self.get_prefix()
    }

    pub fn first_as_u8_array(&self) -> (r: [u8; 16])
        ensures
            r@ == octets_of(self.prefix_spec()),
    {
        self.get_prefix_as_u8_array()
    }

    pub fn first_as_u16_array(&self) -> (r: [u16; 8])
        ensures
            r@ == groups_of(self.prefix_spec()),
    {
        self.get_prefix_as_u16_array()
    }

    pub fn last(&self) -> (r: u128)
        ensures
            r == self.last_spec(),
    {
        let mask = self.get_mask();
        let prefix = self.get_prefix();
        assert(!mask | prefix == prefix | !mask) by (bit_vector);
        !mask | prefix
    }

    pub fn last_as_u8_array(&self) -> (r: [u8; 16])
        ensures
            r@ == octets_of(self.last_spec()),
    {
        u128_to_u8_array(self.last())
    }

    pub fn last_as_u16_array(&self) -> (r: [u16; 8])
        ensures
            r@ == groups_of(self.last_spec()),
    {
        u128_to_u16_array(self.last())
    }

    /// The number of addresses in the block, as a value and an overflow flag
    /// (see `size_of_bits`).
    pub fn size(&self) -> (r: (u128, bool))
        ensures
            r == size_of_bits(self.bits_spec()),
    {
        let bits = self.get_bits();
        if bits == 128 {
            (0, false)
        } else if bits == 0 {
            (0, true)
        } else {
            let s: u128 = (128 - bits) as u128;
            proof {
                lemma_shl_pow2(s);
            }
            (1u128 << s, false)
        }
    }

    /// Whether `ipv6` lies in the block.
    pub fn contains<IP: Ipv6Able>(&self, ipv6: IP) -> (r: bool)
        ensures
            r == self.contains_spec(ipv6.address()),
    {
        let mask = self.get_mask();
        ipv6.get_u128() & mask == self.prefix
    }
}

impl Ipv6Cidr {
    /// The order of blocks: by address first, then by prefix length.
    pub open spec fn compare(&self, other: &Ipv6Cidr) -> Ordering {
        if self.prefix_spec() < other.prefix_spec() {
            Ordering::Less
        } else if self.prefix_spec() > other.prefix_spec() {
            Ordering::Greater
        } else if self.bits_spec() < other.bits_spec() {
            Ordering::Less
        } else if self.bits_spec() > other.bits_spec() {
            Ordering::Greater
        } else {
            Ordering::Equal
        }
    }
}

/// Two values agree on the groups above bit `s` and on the group at `s`:
/// they agree on every bit from `s` up.
proof fn lemma_groups_agree_step(x: u128, y: u128, s: u128)
    requires
        s <= 112,
        s == 112 || x >> ((s + 16) as u128) == y >> ((s + 16) as u128),
        (x >> s) as u16 == (y >> s) as u16,
    ensures
        x >> s == y >> s,
{
    assert(x >> s == y >> s) by (bit_vector)
        requires
            s <= 112,
            s == 112 || x >> ((s + 16) as u128) == y >> ((s + 16) as u128),
            (x >> s) as u16 == (y >> s) as u16,
    ;
}

/// Two values agree on the groups above bit `s` and differ in the group at
/// `s`: that group decides their order.
proof fn lemma_groups_decide(x: u128, y: u128, s: u128)
    requires
        s <= 112,
        s == 112 || x >> ((s + 16) as u128) == y >> ((s + 16) as u128),
        ((x >> s) as u16) < ((y >> s) as u16),
    ensures
        x < y,
{
    assert(x < y) by (bit_vector)
        requires
            s <= 112,
            s == 112 || x >> ((s + 16) as u128) == y >> ((s + 16) as u128),
            ((x >> s) as u16) < ((y >> s) as u16),
    ;
}

impl PartialOrd for Ipv6Cidr {
    /// Compares the addresses group by group, most significant first, then
    /// the prefix lengths.
    fn partial_cmp(&self, other: &Ipv6Cidr) -> (r: Option<Ordering>) {
        let a = self.first_as_u16_array();
        let b = other.first_as_u16_array();
        let ghost x = self.prefix_spec();
        let ghost y = other.prefix_spec();
        let mut i: usize = 0;
        while i < 8
            invariant
                i <= 8,
                x == self.prefix_spec(),
                y == other.prefix_spec(),
                a@ == groups_of(x),
                b@ == groups_of(y),
                i == 0 || x >> ((128 - 16 * i) as u128) == y >> ((128 - 16 * i) as u128),
            decreases 8 - i,
        {
            let ghost s: u128 = (112 - 16 * i) as u128;
            assert(s + 16 == 128 - 16 * i);
            if a[i] > b[i] {
                proof {
                    lemma_groups_decide(y, x, s);
                }
                return Some(Ordering::Greater);
            } else if a[i] < b[i] {
                proof {
                    lemma_groups_decide(x, y, s);
                }
                return Some(Ordering::Less);
            }
            proof {
                lemma_groups_agree_step(x, y, s);
            }
            i = i + 1;
        }
        assert(x >> 0u128 == x && y >> 0u128 == y) by (bit_vector);
        let p = self.get_bits();
        let q = other.get_bits();
        if p < q {
            Some(Ordering::Less)
        } else if p > q {
            Some(Ordering::Greater)
        } else {
            Some(Ordering::Equal)
        }
    }
}

impl vstd::std_specs::cmp::PartialOrdSpecImpl for Ipv6Cidr {
    open spec fn obeys_partial_cmp_spec() -> bool {
        true
    }

    open spec fn partial_cmp_spec(&self, other: &Ipv6Cidr) -> Option<Ordering> {
        Some(self.compare(other))
    }
}

/// The number of addresses of a block with prefix length `bits`.
pub open spec fn block_len(bits: u8) -> nat {
    pow2((128 - bits) as nat)
}

impl Ipv6Cidr {
    /// The last address is the prefix plus the number of addresses, less one.
    pub proof fn lemma_last_offset(&self)
        requires
            self.wf(),
        ensures
            self.bits_spec() <= 128,
            self.last_spec() as int == self.prefix_spec() + block_len(self.bits_spec()) - 1,
            self.prefix_spec() + block_len(self.bits_spec()) <= pow2(128),
    {
        self.lemma_model();
        let b = self.bits_spec();
        let p = self.prefix;
        let m = self.mask;
        if b == 0 {
            assert(p == 0u128 && (0u128 | !0u128) == 0xffff_ffff_ffff_ffff_ffff_ffff_ffff_ffffu128)
                by (bit_vector)
                requires
                    p & 0u128 == p,
            ;
            assert(pow2(128) == 0x1_0000_0000_0000_0000_0000_0000_0000_0000) by {
                vstd::arithmetic::power2::lemma2_to64();
                vstd::arithmetic::power2::lemma2_to64_rest();
                vstd::arithmetic::power2::lemma_pow2_adds(64, 64);
            }
        } else {
            let s: u128 = (128 - b) as u128;
            assert((p | !m) as int == p + !m && !m as int == (1u128 << s) - 1) by (bit_vector)
                requires
                    s < 128,
                    m == (!0u128) << s,
                    p & m == p,
            ;
            lemma_shl_pow2(s);
            assert(pow2(128) == 0x1_0000_0000_0000_0000_0000_0000_0000_0000) by {
                vstd::arithmetic::power2::lemma2_to64();
                vstd::arithmetic::power2::lemma2_to64_rest();
                vstd::arithmetic::power2::lemma_pow2_adds(64, 64);
            }
        }
    }
}

/// The size of a block is `(0, false)` exactly for prefix length 128 and
/// `(0, true)` exactly for prefix length 0; any other prefix length `p` gives
/// `(2^(128 - p), false)`. Read as a value with an overflow flag, the size of
/// every block but a /128 one is its number of addresses.
pub proof fn lemma_size_cases(bits: u8)
    requires
        bits <= 128,
    ensures
        (size_of_bits(bits) == (0u128, false)) <==> bits == 128,
        (size_of_bits(bits) == (0u128, true)) <==> bits == 0,
        0 < bits < 128 ==> size_of_bits(bits) == (pow2((128 - bits) as nat) as u128, false),
        bits < 128 ==> pair_value(size_of_bits(bits)) == block_len(bits),
{
    if 0 < bits < 128 {
        lemma_pow2_strictly_increases((128 - bits) as nat, 128);
        lemma_pow2_pos((128 - bits) as nat);
        lemma2_to64();
        lemma2_to64_rest();
        lemma_pow2_adds(64, 64);
    }
}

/// A block holds its first and its last address, and neither the address
/// just before the first nor the one just after the last.
pub proof fn lemma_block_bounds(c: Ipv6Cidr)
    requires
        c.wf(),
    ensures
        c.contains_spec(c.prefix_spec()),
        c.contains_spec(c.last_spec()),
        c.prefix_spec() > 0 ==> !c.contains_spec((c.prefix_spec() - 1) as u128),
        c.last_spec() < u128::MAX ==> !c.contains_spec((c.last_spec() + 1) as u128),
{
    c.lemma_model();
    let p = c.prefix_spec();
    let m = c.mask_spec();
    let b = c.bits_spec();
    assert(p & m == p);
    assert((p | !m) & m == p) by (bit_vector)
        requires
            p & m == p,
    ;
    assert(p > 0 ==> ((p - 1) as u128) & m != p) by (bit_vector)
        requires
            p & m == p,
    ;
    if b == 0 {
        assert((p | !0u128) == u128::MAX) by (bit_vector);
    } else {
        let s: u128 = (128 - b) as u128;
        assert((p | !m) < u128::MAX ==> (((p | !m) + 1) as u128) & m != p) by (bit_vector)
            requires
                s < 128,
                m == (!0u128) << s,
                p & m == p,
        ;
    }
}

/// The order of blocks is a strict total order that agrees with equality:
/// two blocks compare equal exactly when they are the same block, swapping
/// the operands swaps `Less` and `Greater`, and `Less` is transitive.
pub proof fn lemma_compare_total_order(a: Ipv6Cidr, b: Ipv6Cidr, c: Ipv6Cidr)
    requires
        a.wf(),
        b.wf(),
        c.wf(),
    ensures
        (a.compare(&b) == Ordering::Equal) <==> a == b,
        (a.compare(&b) == Ordering::Less) <==> (b.compare(&a) == Ordering::Greater),
        a.compare(&b) == Ordering::Less && b.compare(&c) == Ordering::Less ==> a.compare(&c)
            == Ordering::Less,
{
    a.lemma_model();
    b.lemma_model();
    c.lemma_model();
}

} // verus!

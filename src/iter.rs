//! Walking the addresses of a block in ascending order.

use vstd::prelude::*;
use vstd::arithmetic::power2::{
    pow2, lemma2_to64, lemma2_to64_rest, lemma_pow2_adds, lemma_pow2_pos,
    lemma_pow2_strictly_increases,
};
use crate::address::{octets_of, u128_to_u8_array};
use crate::ipv6_cidr::{Ipv6Cidr, block_len, pair_value, size_of_bits, lemma_size_cases};

verus! {

/// The octets of the addresses `origin + k`, for `k` from `start` up to but
/// not including `end`.
pub open spec fn addresses_from(origin: u128, start: int, end: int) -> Seq<Seq<u8>> {
    Seq::new((end - start) as nat, |k: int| octets_of((origin + start + k) as u128))
}

proof fn lemma_pow2_128()
    ensures
        pow2(128) == 0x1_0000_0000_0000_0000_0000_0000_0000_0000,
{
    lemma2_to64();
    lemma2_to64_rest();
    lemma_pow2_adds(64, 64);
}

/// An iterator over the addresses of a block, as octets. It counts the
/// addresses handed out so far from the first address of the block; both the
/// count and the number of addresses are kept as a value with an overflow
/// flag, since a /0 block holds 2^128 addresses.
#[derive(Debug)]
pub struct Ipv6CidrU8ArrayIterator {
    origin: u128,
    next: (u128, bool),
    size: (u128, bool),
}

impl Ipv6CidrU8ArrayIterator {
    #[verifier::type_invariant]
    pub closed spec fn wf(&self) -> bool {
        &&& self.next.1 ==> self.next.0 == 0
        &&& self.size.1 ==> self.size.0 == 0
        &&& 1 <= pair_value(self.size)
        &&& pair_value(self.next) <= pair_value(self.size)
        &&& self.origin + pair_value(self.size) <= pow2(128)
    }

    /// The addresses that are still to come, in order.
    pub closed spec fn remaining(&self) -> Seq<Seq<u8>> {
        addresses_from(self.origin, pair_value(self.next), pair_value(self.size))
    }

    /// The last address of the whole walk, handed out or not.
    pub closed spec fn final_address(&self) -> u128 {
        (self.origin + pair_value(self.size) - 1) as u128
    }

    /// Hands out the next address, or `None` once every address was handed out.
    pub fn next(&mut self) -> (r: Option<[u8; 16]>)
        ensures
            match r {
                None => {
                    &&& old(self).remaining().len() == 0
                    &&& final(self).remaining() == old(self).remaining()
                    &&& final(self).final_address() == old(self).final_address()
                },
                Some(a) => {
                    &&& old(self).remaining().len() > 0
                    &&& a@ == old(self).remaining()[0]
                    &&& final(self).remaining() == old(self).remaining().drop_first()
                    &&& final(self).final_address() == old(self).final_address()
                },
            },
    {
        proof {
            use_type_invariant(&*self);
            lemma_pow2_128();
        }
        if self.next.0 == self.size.0 && self.next.1 == self.size.1 {
            None
        } else {
            let ghost before = *self;
            let p = self.origin + self.next.0;
            if self.next.0 == 0xffff_ffff_ffff_ffff_ffff_ffff_ffff_ffffu128 {
                self.next = (0, true);
            } else {
                self.next = (self.next.0 + 1, false);
            }
            let a = u128_to_u8_array(p);
            assert(self.remaining() =~= before.remaining().drop_first());
            Some(a)
        }
    }

    /// The last address of the walk, reached directly rather than by handing
    /// out every address before it.
    pub fn last(self) -> (r: Option<[u8; 16]>)
        ensures
            match r {
                Some(a) => a@ == octets_of(self.final_address()),
                None => false,
            },
    {
        proof {
            use_type_invariant(&self);
            lemma_pow2_128();
        }
        let mut it = self;
        if it.size.1 {
            it.next = (0xffff_ffff_ffff_ffff_ffff_ffff_ffff_ffffu128, false);
        } else {
            it.next = (it.size.0 - 1, false);
        }
        it.next()
    }
}

impl Ipv6Cidr {
    /// The addresses of the block, as octets, in ascending order.
    pub open spec fn addresses(&self) -> Seq<Seq<u8>> {
        addresses_from(self.prefix_spec(), 0, block_len(self.bits_spec()) as int)
    }

    /// An iterator over the addresses of the block, as octets, in ascending order.
    pub fn iter_as_u8_array(&self) -> (r: Ipv6CidrU8ArrayIterator)
        ensures
            r.remaining() == self.addresses(),
            r.final_address() == self.last_spec(),
    {
        proof {
            use_type_invariant(self);
            self.lemma_last_offset();
            lemma_pow2_128();
        }
        let size = self.size();
        proof {
            let b = self.bits_spec();
            lemma2_to64();
            if 0 < b < 128 {
                lemma_pow2_strictly_increases((128 - b) as nat, 128);
                lemma_pow2_pos((128 - b) as nat);
            }
        }
        let count = if size.0 == 0 && !size.1 {
            (1u128, false)
        } else {
            size
        };
        let r = Ipv6CidrU8ArrayIterator { origin: self.get_prefix(), next: (0, false), size: count };
        assert(pair_value(count) == block_len(self.bits_spec()));
        assert(r.remaining() =~= self.addresses());
        r
    }
}

/// A walk over a block hands out exactly as many addresses as the block's
/// size says, reading `(0, false)` as one address and `(0, true)` as 2^128.
pub proof fn lemma_walk_len(c: Ipv6Cidr)
    requires
        c.wf(),
    ensures
        c.addresses().len() == if size_of_bits(c.bits_spec()) == (0u128, false) {
            1
        } else {
            pair_value(size_of_bits(c.bits_spec()))
        },
{
    c.lemma_last_offset();
    lemma_size_cases(c.bits_spec());
    lemma2_to64();
    lemma_pow2_128();
}

/// A walk over a block starts at the block's first address and ends at its
/// last address.
pub proof fn lemma_walk_ends(c: Ipv6Cidr)
    requires
        c.wf(),
    ensures
        c.addresses().len() > 0,
        c.addresses()[0] == octets_of(c.prefix_spec()),
        c.addresses().last() == octets_of(c.last_spec()),
{
    c.lemma_last_offset();
    lemma_pow2_pos((128 - c.bits_spec()) as nat);
}

/// The direct jump of `last` and handing out addresses until none is left
/// agree: the last address handed out is the walk's final address.
pub proof fn lemma_last_is_final_next(it: Ipv6CidrU8ArrayIterator)
    requires
        it.wf(),
        it.remaining().len() > 0,
    ensures
        it.remaining().last() == octets_of(it.final_address()),
{
}

} // verus!

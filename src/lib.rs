//! IPv6 CIDR blocks over a canonical 128-bit address value: masks and prefix
//! lengths, the grouped forms of an address, membership, ordering, sizes that
//! reach 2^128, and a walk over the addresses of a block.

pub mod address;
pub mod bits;
pub mod ipv6_cidr;
pub mod iter;

pub use address::{Ipv6Able, u128_to_u8_array, u128_to_u16_array, u8_array_to_u128, u16_array_to_u128};
pub use bits::{get_mask, mask_to_bits};
pub use ipv6_cidr::{Ipv6Cidr, Ipv6CidrError};
pub use iter::Ipv6CidrU8ArrayIterator;

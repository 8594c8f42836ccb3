use ipv6_cidr::{
    get_mask, mask_to_bits, u128_to_u16_array, u128_to_u8_array, u16_array_to_u128,
    u8_array_to_u128, Ipv6Cidr, Ipv6CidrError,
};

const ALL_ONES: u128 = 0xffff_ffff_ffff_ffff_ffff_ffff_ffff_ffff;
const DOC_ADDR: u128 = 0x2001_0db8_85a3_0000_0000_8a2e_0370_7334;

#[test]
fn mask_from_bits_edges() {
    assert_eq!(get_mask(0), 0);
    assert_eq!(get_mask(128), ALL_ONES);
    assert_eq!(get_mask(1), 1u128 << 127);
    assert_eq!(get_mask(64), 0xffff_ffff_ffff_ffff_0000_0000_0000_0000);
    assert_eq!(get_mask(7), 0xfe00_0000_0000_0000_0000_0000_0000_0000);
}

#[test]
fn mask_bits_round_trip_all_lengths() {
    for b in 0..=128u8 {
        assert_eq!(mask_to_bits(get_mask(b)), Some(b));
    }
}

#[test]
fn non_contiguous_masks_are_rejected() {
    assert_eq!(mask_to_bits(1), None);
    assert_eq!(mask_to_bits(0x7fff_ffff_ffff_ffff_ffff_ffff_ffff_ffff), None);
    assert_eq!(mask_to_bits(0xff00_ff00_0000_0000_0000_0000_0000_0000), None);
    assert_eq!(mask_to_bits(ALL_ONES - 2), None);
    assert_eq!(mask_to_bits(get_mask(64) | 1), None);
}

#[test]
fn octets_are_most_significant_first() {
    let a = u128_to_u8_array(DOC_ADDR);
    assert_eq!(a, [0x20, 0x01, 0x0d, 0xb8, 0x85, 0xa3, 0, 0, 0, 0, 0x8a, 0x2e, 0x03, 0x70, 0x73, 0x34]);
    assert_eq!(u8_array_to_u128(a), DOC_ADDR);
}

#[test]
fn groups_are_most_significant_first() {
    let g = u128_to_u16_array(DOC_ADDR);
    assert_eq!(g, [0x2001, 0x0db8, 0x85a3, 0, 0, 0x8a2e, 0x0370, 0x7334]);
    assert_eq!(u16_array_to_u128(g), DOC_ADDR);
}

#[test]
fn address_round_trips() {
    for x in [0u128, 1, ALL_ONES, DOC_ADDR, 1u128 << 127, 0x0102_0304_0506_0708_090a_0b0c_0d0e_0f10] {
        assert_eq!(u8_array_to_u128(u128_to_u8_array(x)), x);
        assert_eq!(u16_array_to_u128(u128_to_u16_array(x)), x);
    }
}

#[test]
fn slash_64_of_zero() {
    let c = Ipv6Cidr::from_prefix_and_bits(0u128, 64).unwrap();
    assert_eq!(c.get_prefix(), 0);
    assert_eq!(c.get_mask(), 0xffff_ffff_ffff_ffff_0000_0000_0000_0000);
    assert_eq!(c.get_bits(), 64);
    assert_eq!(c.size(), (1u128 << 64, false));
    assert_eq!(c.first(), 0);
    assert_eq!(c.first_as_u8_array(), [0u8; 16]);
    assert_eq!(c.last(), 0x0000_0000_0000_0000_ffff_ffff_ffff_ffff);
    assert_eq!(c.last_as_u16_array(), [0, 0, 0, 0, 0xffff, 0xffff, 0xffff, 0xffff]);
}

#[test]
fn slash_128_is_one_address() {
    let c = Ipv6Cidr::from_prefix_and_bits(DOC_ADDR, 128).unwrap();
    assert_eq!(c.size(), (0, false));
    assert_eq!(c.first(), DOC_ADDR);
    assert_eq!(c.last(), DOC_ADDR);
    assert_eq!(c.get_mask(), ALL_ONES);
    let mut it = c.iter_as_u8_array();
    assert_eq!(it.next(), Some(u128_to_u8_array(DOC_ADDR)));
    assert_eq!(it.next(), None);
    assert_eq!(c.iter_as_u8_array().last(), Some(u128_to_u8_array(DOC_ADDR)));
}

#[test]
fn slash_0_is_everything() {
    let c = Ipv6Cidr::from_prefix_and_bits(DOC_ADDR, 0).unwrap();
    assert_eq!(c.get_prefix(), 0);
    assert_eq!(c.get_mask(), 0);
    assert_eq!(c.get_bits(), 0);
    assert_eq!(c.size(), (0, true));
    assert_eq!(c.last(), ALL_ONES);
    assert_eq!(c.iter_as_u8_array().last(), Some([0xffu8; 16]));
    let mut it = c.iter_as_u8_array();
    assert_eq!(it.next(), Some([0u8; 16]));
    let mut second = [0u8; 16];
    second[15] = 1;
    assert_eq!(it.next(), Some(second));
    assert!(c.contains(ALL_ONES));
    assert!(c.contains(0u128));
}

#[test]
fn mask_with_gap_is_incorrect() {
    let mut mask = [0u8; 16];
    mask[0] = 0xff;
    mask[2] = 0xff;
    assert_eq!(Ipv6Cidr::from_prefix_and_mask(DOC_ADDR, mask), Err(Ipv6CidrError::IncorrectMask));
    assert_eq!(
        Ipv6Cidr::from_prefix_and_mask(DOC_ADDR, 0x8000_0000_0000_0000_0000_0000_0000_0001u128),
        Err(Ipv6CidrError::IncorrectMask)
    );
}

#[test]
fn bits_above_128_are_out_of_range() {
    assert_eq!(Ipv6Cidr::from_prefix_and_bits(DOC_ADDR, 129), Err(Ipv6CidrError::IncorrectBitsRange));
    assert_eq!(Ipv6Cidr::from_prefix_and_bits(DOC_ADDR, 255), Err(Ipv6CidrError::IncorrectBitsRange));
}

#[test]
fn host_bits_are_cleared() {
    let c = Ipv6Cidr::from_prefix_and_bits(DOC_ADDR, 32).unwrap();
    assert_eq!(c.get_prefix(), 0x2001_0db8_0000_0000_0000_0000_0000_0000);
    assert_eq!(c.get_prefix_as_u16_array(), [0x2001, 0x0db8, 0, 0, 0, 0, 0, 0]);
    assert_eq!(c.last(), 0x2001_0db8_ffff_ffff_ffff_ffff_ffff_ffff);
    assert_eq!(c.size(), (1u128 << 96, false));
}

#[test]
fn mask_constructor_matches_bits_constructor() {
    let by_mask = Ipv6Cidr::from_prefix_and_mask(DOC_ADDR, get_mask(48)).unwrap();
    let by_bits = Ipv6Cidr::from_prefix_and_bits(DOC_ADDR, 48).unwrap();
    assert_eq!(by_mask, by_bits);
    assert_eq!(by_mask.get_bits(), 48);
    let groups: [u16; 8] = [0xffff, 0xffff, 0xffff, 0, 0, 0, 0, 0];
    let by_groups = Ipv6Cidr::from_prefix_and_mask(u128_to_u16_array(DOC_ADDR), groups).unwrap();
    assert_eq!(by_groups, by_bits);
    assert_eq!(by_bits.get_mask_as_u16_array(), groups);
    assert_eq!(
        by_bits.get_mask_as_u8_array(),
        [0xff, 0xff, 0xff, 0xff, 0xff, 0xff, 0, 0, 0, 0, 0, 0, 0, 0, 0, 0]
    );
}

#[test]
fn contains_first_and_last_but_not_neighbours() {
    for bits in [1u8, 8, 33, 64, 100, 127] {
        let c = Ipv6Cidr::from_prefix_and_bits(DOC_ADDR, bits).unwrap();
        assert!(c.contains(c.first()));
        assert!(c.contains(c.last()));
        assert!(c.contains(&c.first_as_u8_array()));
        assert!(c.contains(c.last_as_u16_array()));
        if c.first() > 0 {
            assert!(!c.contains(c.first() - 1));
        }
        if c.last() < ALL_ONES {
            assert!(!c.contains(c.last() + 1));
        }
    }
}

#[test]
fn size_values() {
    let s = |b: u8| Ipv6Cidr::from_prefix_and_bits(0u128, b).unwrap().size();
    assert_eq!(s(128), (0, false));
    assert_eq!(s(0), (0, true));
    assert_eq!(s(127), (2, false));
    assert_eq!(s(1), (1u128 << 127, false));
    assert_eq!(s(120), (256, false));
}

#[test]
fn iterator_yields_size_many_ascending() {
    for bits in [120u8, 124, 126, 127, 128] {
        let c = Ipv6Cidr::from_prefix_and_bits(DOC_ADDR, bits).unwrap();
        let (n, overflow) = c.size();
        assert!(!overflow);
        let expected = if n == 0 { 1 } else { n };
        let mut it = c.iter_as_u8_array();
        let mut count: u128 = 0;
        let mut final_one = None;
        while let Some(a) = it.next() {
            assert_eq!(u8_array_to_u128(a), c.first() + count);
            assert!(c.contains(a));
            count += 1;
            final_one = Some(a);
        }
        assert_eq!(count, expected);
        assert_eq!(final_one, Some(c.last_as_u8_array()));
        assert_eq!(c.iter_as_u8_array().last(), final_one);
    }
}

#[test]
fn ordering_by_address_then_length() {
    let a = Ipv6Cidr::from_prefix_and_bits(0x2001_0db8_0000_0000_0000_0000_0000_0000u128, 32).unwrap();
    let b = Ipv6Cidr::from_prefix_and_bits(0x2001_0db8_0000_0000_0000_0000_0000_0000u128, 48).unwrap();
    let c = Ipv6Cidr::from_prefix_and_bits(0x2001_0db9_0000_0000_0000_0000_0000_0000u128, 32).unwrap();
    let d = Ipv6Cidr::from_prefix_and_bits(0x0000_0000_0000_0000_0000_0000_0000_0001u128, 128).unwrap();
    assert!(a < b);
    assert!(b < c);
    assert!(a < c);
    assert!(d < a);
    assert_eq!(a.partial_cmp(&a), Some(std::cmp::Ordering::Equal));
    assert_eq!(c.partial_cmp(&b), Some(std::cmp::Ordering::Greater));
    let mut v = vec![c, b, d, a];
    v.sort();
    assert_eq!(v, vec![d, a, b, c]);
}

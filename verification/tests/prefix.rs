use ipcanvas::prefix::{read_octets, Ipv6Prefix};

/// The octets of the address with these eight groups.
fn addr(groups: [u16; 8]) -> [u8; 16] {
    let mut octets = [0u8; 16];
    for (i, group) in groups.iter().enumerate() {
        octets[2 * i] = (group >> 8) as u8;
        octets[2 * i + 1] = (group & 0xFF) as u8;
    }
    octets
}

#[test]
fn test_match_prefix() {
    // Test matching an IPv6 address against a /64 prefix
    let prefix = Ipv6Prefix::from((addr([0x2001, 0xdb8, 0, 0, 0, 0, 0, 0]), 64));
    let addr1 = addr([0x2001, 0xdb8, 0, 0, 0, 0, 0, 1]);
    let addr2 = addr([0x2001, 0xdb8, 0, 1, 0, 0, 0, 1]);
    let addr3 = addr([0x2001, 0xdb9, 0, 0, 0, 0, 0, 1]);
    assert!(prefix.matches(&addr1));
    assert!(!prefix.matches(&addr2));
    assert!(!prefix.matches(&addr3));

    // Test matching an IPv6 address against a /48 prefix
    let prefix = Ipv6Prefix::from((addr([0x2001, 0xdb8, 0, 0, 0, 0, 0, 0]), 48));
    let addr1 = addr([0x2001, 0xdb8, 0, 0, 0, 0, 0, 1]);
    let addr2 = addr([0x2001, 0xdb8, 0, 1, 0, 0, 0, 1]);
    let addr3 = addr([0x2001, 0xdb9, 0, 0, 0, 0, 0, 1]);
    assert!(prefix.matches(&addr1));
    assert!(prefix.matches(&addr2));
    assert!(!prefix.matches(&addr3));

    // Test matching an IPv6 address against a /127 prefix
    let prefix = Ipv6Prefix::from((addr([0x2001, 0xdb8, 0, 0, 0, 0, 0, 0x4320]), 127));
    let addr1 = addr([0x2001, 0xdb8, 0, 0, 0, 0, 0, 0x4320]);
    let addr2 = addr([0x2001, 0xdb8, 0, 0, 0, 0, 0, 0x4321]);
    let addr3 = addr([0x2001, 0xdb8, 0, 0, 0, 0, 0, 0x4322]);
    assert!(prefix.matches(&addr1));
    assert!(prefix.matches(&addr2));
    assert!(!prefix.matches(&addr3));
}

#[test]
fn prefix_of_length_zero_matches_everything() {
    let prefix = Ipv6Prefix::new(addr([0x2001, 0xdb8, 0, 0, 0, 0, 0, 0]), 0);
    assert!(prefix.matches(&[0u8; 16]));
    assert!(prefix.matches(&[0xFFu8; 16]));
    assert!(prefix.matches(&addr([0xfe80, 0, 0, 0, 1, 2, 3, 4])));
}

#[test]
fn prefix_of_length_128_is_equality() {
    let address = addr([0x2001, 0xdb8, 1, 2, 3, 4, 5, 6]);
    let prefix = Ipv6Prefix::new(address, 128);
    assert!(prefix.matches(&address));
    for bit in 0..128 {
        let mut other = address;
        other[bit / 8] ^= 0x80 >> (bit % 8);
        assert!(!prefix.matches(&other), "bit {} was not compared", bit);
    }
}

#[test]
fn matcher_compares_exactly_the_leading_bits() {
    let address = addr([0x2001, 0xdb8, 0xabcd, 0x1234, 0x5678, 0x9abc, 0xdef0, 0x0f0f]);
    for len in 0..=128u8 {
        let prefix = Ipv6Prefix::new(address, len);
        for bit in 0..128usize {
            let mut other = address;
            other[bit / 8] ^= 0x80 >> (bit % 8);
            assert_eq!(
                prefix.matches(&other),
                bit >= len as usize,
                "length {}, bit {}",
                len,
                bit
            );
        }
    }
}

#[test]
fn bits_past_the_length_of_the_stored_address_are_ignored() {
    let clean = Ipv6Prefix::new(addr([0x2001, 0xdb8, 0, 0, 0, 0, 0, 0]), 61);
    let dirty = Ipv6Prefix::new(addr([0x2001, 0xdb8, 0, 0x0007, 0xffff, 0xffff, 0xffff, 0xffff]), 61);
    let inside = addr([0x2001, 0xdb8, 0, 0x0005, 1, 2, 3, 4]);
    let outside = addr([0x2001, 0xdb8, 0, 0x0008, 1, 2, 3, 4]);
    assert!(clean.matches(&inside));
    assert!(dirty.matches(&inside));
    assert!(!clean.matches(&outside));
    assert!(!dirty.matches(&outside));
}

#[test]
fn validity_is_a_length_of_at_most_128() {
    assert!(Ipv6Prefix::new([0; 16], 0).is_valid());
    assert!(Ipv6Prefix::new([0; 16], 128).is_valid());
    assert!(!Ipv6Prefix::new([0; 16], 129).is_valid());
    assert!(!Ipv6Prefix::new([0; 16], 255).is_valid());
}

#[test]
fn packed_form_is_address_then_length() {
    let address = addr([0x2001, 0xdb8, 0, 0, 0, 0, 0, 0x4320]);
    let prefix = Ipv6Prefix::new(address, 127);
    let packed: [u8; 17] = prefix.into();
    assert_eq!(&packed[..16], &address[..]);
    assert_eq!(packed[16], 127);
    assert_eq!(Ipv6Prefix::from(packed), prefix);

    let mut raw = [0u8; 17];
    for (i, byte) in raw.iter_mut().enumerate() {
        *byte = 100 + i as u8;
    }
    let unpacked = Ipv6Prefix::from(raw);
    assert_eq!(unpacked.prefix_len, 116);
    assert_eq!(unpacked.address[0], 100);
    assert_eq!(unpacked.address[15], 115);
    assert_eq!(<[u8; 17]>::from(unpacked), raw);
}

#[test]
fn read_octets_copies_sixteen_bytes_from_the_offset() {
    let bytes: Vec<u8> = (0..40u8).collect();
    assert_eq!(read_octets(&bytes, 0), core::array::from_fn(|i| i as u8));
    assert_eq!(read_octets(&bytes, 24), core::array::from_fn(|i| 24 + i as u8));
}

use ztunnel::net::{byte_to_ip, IpAddress, Network};

#[test]
fn bytes_spell_addresses() {
    assert_eq!(byte_to_ip(&[127, 0, 0, 1]), Some(IpAddress::V4(0x7f000001)));
    let mut bytes = [0u8; 16];
    bytes[0] = 0xfe;
    bytes[15] = 0x02;
    assert_eq!(byte_to_ip(&bytes), Some(IpAddress::V6((0xfe << 120) | 2)));
    assert_eq!(byte_to_ip(&[255; 16]), Some(IpAddress::V6(u128::MAX)));
    assert_eq!(byte_to_ip(&[]), None);
    assert_eq!(byte_to_ip(&[1; 5]), None);
    assert_eq!(byte_to_ip(&[1; 17]), None);
}

#[test]
fn prefixes_fit_their_addresses() {
    assert!(Network::new(IpAddress::V4(0), 32).is_some());
    assert!(Network::new(IpAddress::V4(0), 33).is_none());
    assert!(Network::new(IpAddress::V6(0), 128).is_some());
    assert!(Network::new(IpAddress::V6(0), 129).is_none());
    let untouched = Network::new(IpAddress::V4(0x0a0b0c0d), 8).unwrap();
    assert_eq!(untouched.addr(), IpAddress::V4(0x0a0b0c0d));
    assert_eq!(untouched.prefix_len(), 8);
}

#[test]
fn networks_hold_what_shares_their_prefix() {
    let network = Network::new(IpAddress::V4(0x0a0b0c0d), 20).unwrap();
    assert!(network.contains(IpAddress::V4(0x0a0b0000)));
    assert!(network.contains(IpAddress::V4(0x0a0b0fff)));
    assert!(!network.contains(IpAddress::V4(0x0a0b1000)));
    assert!(!network.contains(IpAddress::V6(0x0a0b0000)));
    let all = Network::new(IpAddress::V6(1), 0).unwrap();
    assert!(all.contains(IpAddress::V6(u128::MAX)));
    assert!(!all.contains(IpAddress::V4(1)));
    let one = Network::new(IpAddress::V6(5), 128).unwrap();
    assert!(one.contains(IpAddress::V6(5)));
    assert!(!one.contains(IpAddress::V6(4)));
}

#[test]
fn truncation_clears_host_bits_and_holds_the_same() {
    let network = Network::new(IpAddress::V4(0xc0a8ffff), 17).unwrap();
    let cut = network.trunc();
    assert_eq!(cut.addr(), IpAddress::V4(0xc0a88000));
    assert_eq!(cut.prefix_len(), 17);
    assert_eq!(cut.trunc(), cut);
    for bits in [0xc0a87fffu32, 0xc0a88000, 0xc0a8ffff, 0xc0a90000] {
        assert_eq!(network.contains(IpAddress::V4(bits)), cut.contains(IpAddress::V4(bits)));
    }
    let wide = Network::new(IpAddress::V6(u128::MAX), 65).unwrap().trunc();
    assert_eq!(wide.addr(), IpAddress::V6(u128::MAX << 63));
}

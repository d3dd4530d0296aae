use smbn::ip::{parse_ip_address, IpAddress};

#[test]
fn ipv4_literals() {
    assert_eq!(parse_ip_address("0.0.0.0"), Some(IpAddress::V4(0)));
    assert_eq!(parse_ip_address("192.168.1.10"), Some(IpAddress::V4(0xC0A8010A)));
    assert_eq!(parse_ip_address("255.255.255.255"), Some(IpAddress::V4(u32::MAX)));
    assert_eq!(parse_ip_address("256.0.0.1"), None);
    assert_eq!(parse_ip_address("01.2.3.4"), None);
    assert_eq!(parse_ip_address("1.2.3"), None);
    assert_eq!(parse_ip_address(" 1.2.3.4"), None);
}

#[test]
fn ipv6_literals() {
    assert_eq!(parse_ip_address("::"), Some(IpAddress::V6(0)));
    assert_eq!(parse_ip_address("::1"), Some(IpAddress::V6(1)));
    assert_eq!(parse_ip_address("fe80::1:2"), Some(IpAddress::V6(0xfe80_0000_0000_0000_0000_0000_0001_0002)));
    assert_eq!(parse_ip_address("::ffff:1.2.3.4"), Some(IpAddress::V6(0xffff_0102_0304)));
    assert_eq!(parse_ip_address("1:2:3:4:5:6:7:8"), Some(IpAddress::V6(0x0001_0002_0003_0004_0005_0006_0007_0008)));
    assert_eq!(parse_ip_address("1::2::3"), None);
    assert_eq!(parse_ip_address("12345::"), None);
    assert_eq!(parse_ip_address("localhost"), None);
}

#[test]
fn ipv6_edge_literals() {
    assert_eq!(parse_ip_address("::1.2.3.4"), Some(IpAddress::V6(0x0102_0304)));
    assert_eq!(
        parse_ip_address("a:b:c:d:e:f:1.2.3.4"),
        Some(IpAddress::V6(0x000a_000b_000c_000d_000e_000f_0102_0304))
    );
    assert_eq!(parse_ip_address("1::"), Some(IpAddress::V6(1u128 << 112)));
    assert_eq!(parse_ip_address("1:2:3:4:5:6:7::"), Some(IpAddress::V6(0x0001_0002_0003_0004_0005_0006_0007_0000)));
    assert_eq!(parse_ip_address("::2:3:4:5:6:7:8"), Some(IpAddress::V6(0x0000_0002_0003_0004_0005_0006_0007_0008)));
    assert_eq!(parse_ip_address("1:2:3:4:5:6:7:8:9"), None);
    assert_eq!(parse_ip_address(":1"), None);
    assert_eq!(parse_ip_address("1:"), None);
    assert_eq!(parse_ip_address("g::"), None);
    assert_eq!(parse_ip_address("::1%1"), None);
    assert_eq!(parse_ip_address("[::1]"), None);
}

use c_ares::a::AResult;
use c_ares::addr::{IpAddr, Ipv4, Ipv6};

#[test]
fn ipv4_wire_form() {
    let ip = Ipv4::from_octets(93, 184, 216, 34);
    assert_eq!(ip.bits, 0x5DB8D822);
    assert_eq!(ip.to_wire(), vec![93, 184, 216, 34]);
    assert_eq!(Ipv4::from_wire(&[93, 184, 216, 34]), Some(ip));
    assert_eq!(Ipv4::from_wire(&[93, 184, 216]), None);
    assert_eq!(Ipv4::from_wire(&[93, 184, 216, 34, 0]), None);
}

#[test]
fn ipv4_text() {
    assert_eq!(Ipv4::from_octets(93, 184, 216, 34).to_text(), "93.184.216.34");
    assert_eq!(Ipv4::from_octets(0, 0, 0, 0).to_text(), "0.0.0.0");
    assert_eq!(Ipv4::from_octets(255, 100, 10, 9).to_text(), "255.100.10.9");
}

#[test]
fn ipv4_reverse_name() {
    assert_eq!(Ipv4::from_octets(192, 0, 2, 1).reverse_name(), b"1.2.0.192.in-addr.arpa");
    assert_eq!(Ipv4::from_octets(8, 8, 4, 4).reverse_name(), b"4.4.8.8.in-addr.arpa");
}

#[test]
fn ipv6_wire_form() {
    let bytes: [u8; 16] = [0x20, 0x01, 0x0d, 0xb8, 0, 0, 0, 0, 0, 0, 0, 0, 0xde, 0xad, 0xbe, 0xef];
    let ip = Ipv6::from_wire(&bytes).unwrap();
    assert_eq!(ip, Ipv6 { hi: 0x20010db800000000, lo: 0xdeadbeef });
    assert_eq!(ip.to_wire(), bytes.to_vec());
    assert_eq!(Ipv6::from_wire(&bytes[..15]), None);
}

#[test]
fn ipv6_reverse_name() {
    let ip = Ipv6 { hi: 0x20010db800000000, lo: 0x0000000000000001 };
    assert_eq!(
        ip.reverse_name(),
        b"1.0.0.0.0.0.0.0.0.0.0.0.0.0.0.0.0.0.0.0.0.0.0.0.8.b.d.0.1.0.0.2.ip6.arpa".to_vec()
    );
    let ip = Ipv6 { hi: 0x0123456789abcdef, lo: 0xfedcba9876543210 };
    assert_eq!(
        ip.reverse_name(),
        b"0.1.2.3.4.5.6.7.8.9.a.b.c.d.e.f.f.e.d.c.b.a.9.8.7.6.5.4.3.2.1.0.ip6.arpa".to_vec()
    );
}

#[test]
fn either_family() {
    assert_eq!(
        IpAddr::from_wire(&[10, 0, 0, 1]),
        Some(IpAddr::V4(Ipv4::from_octets(10, 0, 0, 1)))
    );
    assert_eq!(IpAddr::from_wire(&[0; 16]), Some(IpAddr::V6(Ipv6 { hi: 0, lo: 0 })));
    assert_eq!(IpAddr::from_wire(&[0; 5]), None);
    let v4 = IpAddr::V4(Ipv4::from_octets(10, 0, 0, 1));
    assert_eq!(v4.to_wire(), vec![10, 0, 0, 1]);
    assert_eq!(v4.reverse_name(), b"1.0.0.10.in-addr.arpa");
    let v6 = IpAddr::V6(Ipv6 { hi: 0, lo: 1 });
    assert_eq!(v6.to_wire().len(), 16);
    assert!(v6.reverse_name().ends_with(b".ip6.arpa"));
}

#[test]
fn record_text() {
    let r = AResult { addr: Ipv4::from_octets(93, 184, 216, 34), ttl: 300 };
    assert_eq!(r.to_text(), "IPv4: 93.184.216.34, TTL: 300, ");
    let r = AResult { addr: Ipv4::from_octets(1, 2, 3, 4), ttl: -7 };
    assert_eq!(r.to_text(), "IPv4: 1.2.3.4, TTL: -7, ");
    let r = AResult { addr: Ipv4::from_octets(1, 2, 3, 4), ttl: i32::MIN };
    assert_eq!(r.to_text(), "IPv4: 1.2.3.4, TTL: -2147483648, ");
}

use homelab_networking::Ipv4;

#[test]
fn parse_accepts_strict_dotted_quads() {
    assert_eq!(Ipv4::parse("0.0.0.0"), Some(Ipv4::new(0, 0, 0, 0)));
    assert_eq!(Ipv4::parse("255.255.255.255"), Some(Ipv4::new(255, 255, 255, 255)));
    assert_eq!(Ipv4::parse("192.168.10.1"), Some(Ipv4::new(192, 168, 10, 1)));
}

#[test]
fn parse_rejects_loose_forms() {
    assert_eq!(Ipv4::parse("256.0.0.0"), None);
    assert_eq!(Ipv4::parse("1.2.3"), None);
    assert_eq!(Ipv4::parse("1.2.3.4.5"), None);
    assert_eq!(Ipv4::parse("01.2.3.4"), None);
    assert_eq!(Ipv4::parse("1.2.3.4 "), None);
    assert_eq!(Ipv4::parse("+1.2.3.4"), None);
    assert_eq!(Ipv4::parse("1..3.4"), None);
    assert_eq!(Ipv4::parse(""), None);
}

#[test]
fn display_round_trip() {
    let ip = Ipv4::new(10, 0, 200, 7);
    assert_eq!(ip.to_text(), "10.0.200.7");
    assert_eq!(Ipv4::parse(&ip.to_text()), Some(ip));
}

#[test]
fn octets_in_order() {
    assert_eq!(Ipv4::new(1, 2, 3, 4).octets(), &[1, 2, 3, 4]);
}

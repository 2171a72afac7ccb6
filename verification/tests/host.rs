use homelab_networking::{Host, Ipv4};

#[test]
fn from_str_ip() {
    let h: Result<Host, _> = "1.2.3.4".parse();
    match h {
        Ok(Host::Ip(ip)) => assert_eq!(ip, Ipv4::new(1, 2, 3, 4)),
        _ => panic!("expected an IP type"),
    }
}

#[test]
fn from_str_domain() {
    let h: Result<Host, _> = "mine.local".parse();
    match h {
        Ok(Host::Domain(d)) => assert_eq!(d, "mine.local"),
        _ => panic!("expected an Domain type"),
    }
}

#[test]
fn classification_is_total() {
    assert!(matches!(Host::classify(""), Host::Domain(_)));
    assert!(matches!(Host::classify("256.1.1.1"), Host::Domain(_)));
    assert!(matches!(Host::classify("01.2.3.4"), Host::Domain(_)));
    assert!(matches!(Host::classify("1.2.3"), Host::Domain(_)));
    assert!(matches!(Host::classify("1.2.3.4.5"), Host::Domain(_)));
    assert!(matches!(Host::classify("0.0.0.0"), Host::Ip(_)));
    assert!(matches!(Host::classify("255.255.255.255"), Host::Ip(_)));
}

#[test]
fn host_display_round_trip() {
    let ip = Host::classify("10.0.0.7");
    assert_eq!(ip.to_text(), "10.0.0.7");
    assert_eq!(Host::classify(&ip.to_text()), ip);
    let dom = Host::classify("printer.mine.local");
    assert_eq!(dom.to_text(), "printer.mine.local");
    assert_eq!(Host::classify(&dom.to_text()), dom);
}

use homelab_networking::config::{Config, DecodeError, DocEntry, DocValue};
use homelab_networking::wol::Password;
use homelab_networking::{HardwareAddress, Host, Ipv4, MacParseError};

fn text(s: &str) -> DocValue {
    DocValue::Text(s.to_string())
}

fn entry(key: &str, value: DocValue) -> DocEntry {
    DocEntry {
        key: key.to_string(),
        value,
    }
}

fn server(name: &str, host: &str, mac: &str) -> DocValue {
    DocValue::Table(vec![
        entry("name", text(name)),
        entry("host", text(host)),
        entry("mac", text(mac)),
    ])
}

#[test]
fn duplicate_server_names_fail() {
    let doc = DocValue::Table(vec![entry(
        "server",
        DocValue::List(vec![
            server("one", "1.2.3.4", "00:11:22:33:44:55"),
            server("one", "4.3.2.1", "55:44:33:22:11:00"),
        ]),
    )]);
    match Config::decode(&doc) {
        Err(DecodeError::DuplicateField(kind)) => assert_eq!(kind, "server name"),
        other => panic!("expected a duplicate-name failure, got {:?}", other),
    }
}

#[test]
fn distinct_server_names_decode_to_exact_size() {
    let doc = DocValue::Table(vec![entry(
        "server",
        DocValue::List(vec![
            server("one", "1.2.3.4", "00:11:22:33:44:55"),
            server("two", "mine.local", "55:44:33:22:11:00"),
            server("three", "10.0.0.9", "0a-0b-0c-0d-0e-0f"),
        ]),
    )]);
    let cfg = Config::decode(&doc).unwrap();
    assert_eq!(cfg.servers.len(), 3);
    assert_eq!(cfg.servers[0].name, "one");
    assert_eq!(cfg.servers[1].name, "two");
    assert_eq!(cfg.servers[2].name, "three");
    assert!(cfg.networks.is_none());
}

#[test]
fn missing_server_key_fails() {
    let doc = DocValue::Table(vec![]);
    match Config::decode(&doc) {
        Err(DecodeError::MissingField(f)) => assert_eq!(f, "server"),
        other => panic!("expected a missing-field failure, got {:?}", other),
    }
}

#[test]
fn empty_server_list_decodes_to_empty_mapping() {
    let doc = DocValue::Table(vec![entry("server", DocValue::List(vec![]))]);
    let cfg = Config::decode(&doc).unwrap();
    assert!(cfg.servers.is_empty());
    assert!(cfg.networks.is_none());
}

#[test]
fn unknown_top_level_key_fails() {
    let doc = DocValue::Table(vec![
        entry("server", DocValue::List(vec![])),
        entry("bogus", text("whatever")),
    ]);
    match Config::decode(&doc) {
        Err(DecodeError::UnknownField(k)) => assert_eq!(k, "bogus"),
        other => panic!("expected an unknown-field failure, got {:?}", other),
    }
}

#[test]
fn full_document_decodes_field_by_field() {
    let network = DocValue::Table(vec![
        entry("name", text("lan")),
        entry("dns", text("10.0.0.1")),
        entry(
            "domains",
            DocValue::List(vec![text("mine.local"), text("lan.local")]),
        ),
        entry(
            "wol",
            DocValue::Table(vec![entry("broadcast", text("10.0.0.255"))]),
        ),
    ]);
    let srv = DocValue::Table(vec![
        entry("name", text("nas")),
        entry("host", text("nas.mine.local")),
        entry("mac", text("00:11:22:33:44:55")),
        entry("network", text("lan")),
        entry(
            "wol",
            DocValue::Table(vec![
                entry("broadcast", text("10.0.0.255")),
                entry("password", text("192.168.0.1")),
            ]),
        ),
    ]);
    let doc = DocValue::Table(vec![
        entry("network", DocValue::List(vec![network])),
        entry("server", DocValue::List(vec![srv])),
    ]);
    let cfg = Config::decode(&doc).unwrap();
    let nets = cfg.networks.as_ref().unwrap();
    assert_eq!(nets.len(), 1);
    assert_eq!(nets[0].name, "lan");
    assert_eq!(nets[0].dns, Ipv4::new(10, 0, 0, 1));
    assert_eq!(
        nets[0].domains.as_ref().unwrap(),
        &vec!["mine.local".to_string(), "lan.local".to_string()]
    );
    assert_eq!(nets[0].wol.as_ref().unwrap().broadcast, Ipv4::new(10, 0, 0, 255));
    assert_eq!(cfg.servers.len(), 1);
    let s = &cfg.servers[0];
    assert_eq!(s.name, "nas");
    assert_eq!(s.host, Host::Domain("nas.mine.local".to_string()));
    assert_eq!(s.mac, HardwareAddress::new(0x00, 0x11, 0x22, 0x33, 0x44, 0x55));
    assert_eq!(s.network.as_deref(), Some("lan"));
    let wol = s.wol.as_ref().unwrap();
    assert_eq!(wol.broadcast, Some(Ipv4::new(10, 0, 0, 255)));
    assert_eq!(wol.password, Some(Password::Four(Ipv4::new(192, 168, 0, 1))));
}

#[test]
fn bad_mac_in_server_fails_with_mac_error() {
    let doc = DocValue::Table(vec![entry(
        "server",
        DocValue::List(vec![server("one", "1.2.3.4", "00:11:22:g1:44:55")]),
    )]);
    match Config::decode(&doc) {
        Err(DecodeError::Mac(MacParseError::ParseByte { byte, .. })) => assert_eq!(byte, "g1"),
        other => panic!("expected a mac failure, got {:?}", other),
    }
}

#[test]
fn bad_dns_fails_with_ipv4_error() {
    let doc = DocValue::Table(vec![
        entry(
            "network",
            DocValue::List(vec![DocValue::Table(vec![
                entry("name", text("lan")),
                entry("dns", text("999.1.2.3")),
            ])]),
        ),
        entry("server", DocValue::List(vec![])),
    ]);
    match Config::decode(&doc) {
        Err(DecodeError::InvalidIpv4(t)) => assert_eq!(t, "999.1.2.3"),
        other => panic!("expected an address failure, got {:?}", other),
    }
}

#[test]
fn duplicate_network_names_fail() {
    let net = |name: &str| {
        DocValue::Table(vec![
            entry("name", text(name)),
            entry("dns", text("10.0.0.1")),
        ])
    };
    let doc = DocValue::Table(vec![
        entry("network", DocValue::List(vec![net("lan"), net("lan")])),
        entry("server", DocValue::List(vec![])),
    ]);
    match Config::decode(&doc) {
        Err(DecodeError::DuplicateField(kind)) => assert_eq!(kind, "network name"),
        other => panic!("expected a duplicate-name failure, got {:?}", other),
    }
}

#[test]
fn repeated_server_key_extends_the_mapping() {
    let doc = DocValue::Table(vec![
        entry(
            "server",
            DocValue::List(vec![server("one", "1.2.3.4", "00:11:22:33:44:55")]),
        ),
        entry(
            "server",
            DocValue::List(vec![server("two", "4.3.2.1", "55:44:33:22:11:00")]),
        ),
    ]);
    let cfg = Config::decode(&doc).unwrap();
    assert_eq!(cfg.servers.len(), 2);

    let doc = DocValue::Table(vec![
        entry(
            "server",
            DocValue::List(vec![server("one", "1.2.3.4", "00:11:22:33:44:55")]),
        ),
        entry(
            "server",
            DocValue::List(vec![server("one", "4.3.2.1", "55:44:33:22:11:00")]),
        ),
    ]);
    match Config::decode(&doc) {
        Err(DecodeError::DuplicateField(kind)) => assert_eq!(kind, "server name"),
        other => panic!("expected a duplicate-name failure, got {:?}", other),
    }
}

#[test]
fn missing_required_entry_fields_fail_in_order() {
    let doc = DocValue::Table(vec![entry(
        "server",
        DocValue::List(vec![DocValue::Table(vec![entry("host", text("1.2.3.4"))])]),
    )]);
    match Config::decode(&doc) {
        Err(DecodeError::MissingField(f)) => assert_eq!(f, "name"),
        other => panic!("expected a missing-field failure, got {:?}", other),
    }
    let doc = DocValue::Table(vec![entry(
        "server",
        DocValue::List(vec![DocValue::Table(vec![
            entry("name", text("one")),
            entry("host", text("1.2.3.4")),
        ])]),
    )]);
    match Config::decode(&doc) {
        Err(DecodeError::MissingField(f)) => assert_eq!(f, "mac"),
        other => panic!("expected a missing-field failure, got {:?}", other),
    }
}

#[test]
fn duplicate_entry_field_fails() {
    let doc = DocValue::Table(vec![entry(
        "server",
        DocValue::List(vec![DocValue::Table(vec![
            entry("name", text("one")),
            entry("name", text("two")),
        ])]),
    )]);
    match Config::decode(&doc) {
        Err(DecodeError::DuplicateField(f)) => assert_eq!(f, "name"),
        other => panic!("expected a duplicate-field failure, got {:?}", other),
    }
}

#[test]
fn wrong_shapes_fail() {
    match Config::decode(&DocValue::Int(3)) {
        Err(DecodeError::WrongType(w)) => assert_eq!(w, "config"),
        other => panic!("expected a shape failure, got {:?}", other),
    }
    let doc = DocValue::Table(vec![entry("server", text("not a list"))]);
    match Config::decode(&doc) {
        Err(DecodeError::WrongType(w)) => assert_eq!(w, "server"),
        other => panic!("expected a shape failure, got {:?}", other),
    }
    let doc = DocValue::Table(vec![entry("server", DocValue::List(vec![text("nope")]))]);
    match Config::decode(&doc) {
        Err(DecodeError::WrongType(w)) => assert_eq!(w, "server"),
        other => panic!("expected a shape failure, got {:?}", other),
    }
}

#[test]
fn bad_password_fails() {
    let srv = DocValue::Table(vec![
        entry("name", text("one")),
        entry("host", text("1.2.3.4")),
        entry("mac", text("00:11:22:33:44:55")),
        entry(
            "wol",
            DocValue::Table(vec![entry("password", text("NotAPassword"))]),
        ),
    ]);
    let doc = DocValue::Table(vec![entry("server", DocValue::List(vec![srv]))]);
    match Config::decode(&doc) {
        Err(DecodeError::WolPasswordParse) => {}
        other => panic!("expected a password failure, got {:?}", other),
    }
}

#[test]
fn network_reference_is_an_unchecked_name() {
    // A server may name a network that the document never defines; the
    // reference is deliberately loose.
    let srv = DocValue::Table(vec![
        entry("name", text("one")),
        entry("host", text("1.2.3.4")),
        entry("mac", text("00:11:22:33:44:55")),
        entry("network", text("nowhere")),
    ]);
    let doc = DocValue::Table(vec![entry("server", DocValue::List(vec![srv]))]);
    let cfg = Config::decode(&doc).unwrap();
    assert_eq!(cfg.servers[0].network.as_deref(), Some("nowhere"));
}

#[test]
fn unknown_entry_fields_are_ignored() {
    let srv = DocValue::Table(vec![
        entry("name", text("one")),
        entry("comment", text("spare machine")),
        entry("host", text("1.2.3.4")),
        entry("mac", text("00:11:22:33:44:55")),
    ]);
    let doc = DocValue::Table(vec![entry("server", DocValue::List(vec![srv]))]);
    let cfg = Config::decode(&doc).unwrap();
    assert_eq!(cfg.servers.len(), 1);
}

#[test]
fn decode_is_idempotent_on_equal_documents() {
    let make = || {
        DocValue::Table(vec![entry(
            "server",
            DocValue::List(vec![server("one", "1.2.3.4", "00:11:22:33:44:55")]),
        )])
    };
    let a = Config::decode(&make()).unwrap();
    let b = Config::decode(&make()).unwrap();
    assert_eq!(a, b);
}

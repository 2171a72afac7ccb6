use homelab_networking::config::{Config, DecodeError, DocEntry, DocValue};
use homelab_networking::{Error, HardwareAddress, MacParseError};

#[test]
fn mac_error_messages_name_the_problem() {
    match HardwareAddress::from_str("00:11:22:33:44") {
        Err(e) => assert_eq!(e.message(), "mac address is too short, got 5 bytes"),
        _ => panic!("expected an error"),
    }
    match HardwareAddress::from_str("00:11:22:33:44:55:66:77:88:99:aa:bb:cc") {
        Err(e) => assert_eq!(e.message(), "mac address is too long, got 13 bytes"),
        _ => panic!("expected an error"),
    }
    match HardwareAddress::from_str("00:11:22:g1:44:55") {
        Err(e) => assert_eq!(e.message(), "could not parse \"g1\" as byte"),
        _ => panic!("expected an error"),
    }
}

#[test]
fn conversion_error_messages() {
    assert_eq!(
        Error::WolPasswordParse.message(),
        "wol password was not in 4 byte or 6 byte format"
    );
    assert_eq!(
        Error::MacParse(MacParseError::TooShort(5)).message(),
        "could not parse mac address"
    );
}

#[test]
fn decode_error_messages() {
    let doc = DocValue::Table(vec![DocEntry {
        key: "bogus".to_string(),
        value: DocValue::Bool(true),
    }]);
    match Config::decode(&doc) {
        Err(e @ DecodeError::UnknownField(_)) => {
            assert_eq!(e.message(), "unknown field `bogus`")
        }
        other => panic!("expected an unknown-field failure, got {:?}", other),
    }
    let doc = DocValue::Table(vec![]);
    match Config::decode(&doc) {
        Err(e) => assert_eq!(e.message(), "missing field `server`"),
        other => panic!("expected a failure, got {:?}", other),
    }
}

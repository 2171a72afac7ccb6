use homelab_networking::error::ParseIntError;
use homelab_networking::{HardwareAddress, MacParseError};

#[test]
fn from_str_dashes() {
    let addr: Result<HardwareAddress, _> = "00-11-22-33-44-55".parse();
    match addr {
        Ok(addr) => assert_eq!(
            addr,
            HardwareAddress::new(0x0, 0x11, 0x22, 0x33, 0x44, 0x55)
        ),
        Err(e) => panic!("{:?}", e),
    }
}

#[test]
fn from_str_colons() {
    let addr: Result<HardwareAddress, _> = "00:11:22:33:44:55".parse();
    match addr {
        Ok(addr) => assert_eq!(
            addr,
            HardwareAddress::new(0x0, 0x11, 0x22, 0x33, 0x44, 0x55)
        ),
        Err(e) => panic!("didn't expect an error: {:?}", e),
    }
}

#[test]
fn from_str_too_short() {
    let addr: Result<HardwareAddress, _> = "00:11:22:33:44".parse();
    match addr {
        Err(MacParseError::TooShort(e)) => assert_eq!(e, 5),
        _ => panic!("should have gotten a TooShort error"),
    }
}

#[test]
fn from_str_too_long() {
    let addr: Result<HardwareAddress, _> = "00:11:22:33:44:55:66".parse();
    match addr {
        Err(MacParseError::TooLong(e)) => assert_eq!(e, 7),
        _ => panic!("should have gotten a TooLong error"),
    }
}

#[test]
fn from_str_byte_parse() {
    let addr: Result<HardwareAddress, _> = "00:11:22:g1:44:55".parse();
    match addr {
        Err(MacParseError::ParseByte { byte, source: _ }) => assert_eq!(byte, "g1"),
        _ => panic!("expected ParseByte error"),
    }
}

#[test]
fn display_is_uppercase_colon_form() {
    let addr = HardwareAddress::new(0x00, 0x11, 0x22, 0x33, 0x44, 0x55);
    assert_eq!(addr.to_text(), "00:11:22:33:44:55");
    let addr = HardwareAddress::new(0xab, 0xcd, 0xef, 0x01, 0x23, 0x45);
    assert_eq!(addr.to_text(), "AB:CD:EF:01:23:45");
}

#[test]
fn parse_display_round_trip() {
    let addr = HardwareAddress::from_str("aa-bb-cc-0d-0e-0f").unwrap();
    assert_eq!(addr.to_text(), "AA:BB:CC:0D:0E:0F");
    let again = HardwareAddress::from_str(&addr.to_text()).unwrap();
    assert_eq!(again, addr);
}

#[test]
fn separators_are_interchangeable() {
    let dashes = HardwareAddress::from_str("01-02-03-04-05-06").unwrap();
    let colons = HardwareAddress::from_str("01:02:03:04:05:06").unwrap();
    let mixed = HardwareAddress::from_str("01-02:03-04:05-06").unwrap();
    assert_eq!(dashes, colons);
    assert_eq!(dashes, mixed);
}

#[test]
fn byte_overflow_names_the_token() {
    let addr = HardwareAddress::from_str("00:11:22:333:44:55");
    match addr {
        Err(MacParseError::ParseByte { byte, source }) => {
            assert_eq!(byte, "333");
            assert_eq!(source, ParseIntError::PosOverflow);
        }
        _ => panic!("expected ParseByte error"),
    }
}

#[test]
fn empty_token_names_the_token() {
    let addr = HardwareAddress::from_str("00::22:33:44:55");
    match addr {
        Err(MacParseError::ParseByte { byte, source }) => {
            assert_eq!(byte, "");
            assert_eq!(source, ParseIntError::Empty);
        }
        _ => panic!("expected ParseByte error"),
    }
}

#[test]
fn octects_returns_the_octets_in_order() {
    let addr = HardwareAddress::new(1, 2, 3, 4, 5, 6);
    assert_eq!(addr.octects(), &[1, 2, 3, 4, 5, 6]);
}

#[test]
fn from_octets_lifts_an_array() {
    let addr = HardwareAddress::from_octets([9, 8, 7, 6, 5, 4]);
    assert_eq!(addr, HardwareAddress::new(9, 8, 7, 6, 5, 4));
}

use homelab_networking::wol::Password;
use homelab_networking::{Error, HardwareAddress, Ipv4};

#[test]
fn from_str_four() {
    let pass: Result<Password, _> = "1.2.3.4".parse();
    match pass {
        Ok(Password::Four(ip)) => {
            assert_eq!(ip, Ipv4::new(1, 2, 3, 4))
        }
        Ok(_) => panic!("expected to be of type Four"),
        Err(e) => panic!("didn't expect an error: {:?}", e),
    }
}

#[test]
fn from_str_six() {
    let pass: Result<Password, _> = "00:11:22:33:44:55".parse();
    match pass {
        Ok(Password::Six(hw)) => {
            assert_eq!(hw, HardwareAddress::new(0x0, 0x11, 0x22, 0x33, 0x44, 0x55))
        }
        Ok(_) => panic!("expected to be of type Six"),
        Err(e) => panic!("didn't expect an error: {:?}", e),
    }
}

#[test]
fn from_str_error() {
    let pass: Result<Password, _> = "NotAPassword".parse();
    match pass {
        Err(Error::WolPasswordParse) => {}
        _ => panic!("expected WOLPasswordParse error"),
    }
}

#[test]
fn password_display_round_trip() {
    let four = Password::from_str("192.168.0.255").unwrap();
    assert_eq!(four.to_text(), "192.168.0.255");
    assert_eq!(Password::from_str(&four.to_text()).unwrap(), four);
    let six = Password::from_str("de-ad-be-ef-00-01").unwrap();
    assert_eq!(six.to_text(), "DE:AD:BE:EF:00:01");
    assert_eq!(Password::from_str(&six.to_text()).unwrap(), six);
}

#[test]
fn ipv4_shape_wins_over_mac_shape() {
    // A dotted quad is always classified as the 4-byte form, never as a
    // hardware address.
    let pass = Password::from_str("1.2.3.4").unwrap();
    assert!(matches!(pass, Password::Four(_)));
}

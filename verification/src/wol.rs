//! A Wake-on-LAN "secure-on" password: either a 4-byte (IPv4-shaped) or a
//! 6-byte (MAC-shaped) value. Textual parsing tries the IPv4 form first,
//! then the hardware-address form; if neither fits it fails with one
//! undifferentiated error, the two underlying causes deliberately discarded.

use crate::error::Error;
use crate::hardware_address::{
    mac_spec, mac_text, mac_valid, lemma_mac_round_trip, HardwareAddress,
};
use crate::ipv4::{ipv4_text, ipv4_valid, ipv4_value, lemma_ipv4_chars, lemma_ipv4_round_trip, Ipv4};
use crate::text::is_dec_digit;
use vstd::prelude::*;

verus! {

/// Spec-level value of a `Password`.
pub enum PasswordModel {
    Four(Seq<u8>),
    Six(Seq<u8>),
}

#[derive(Debug, Clone, PartialEq, Eq)]
pub enum Password {
    Four(Ipv4),
    Six(HardwareAddress),
}

impl View for Password {
    type V = PasswordModel;

    open spec fn view(&self) -> PasswordModel {
        match self {
            Password::Four(ip) => PasswordModel::Four(ip@),
            Password::Six(hw) => PasswordModel::Six(hw@),
        }
    }
}

/// How password text is classified: the IPv4 form wins where both could
/// apply; text of neither shape is rejected.
pub open spec fn password_of(s: Seq<char>) -> Option<PasswordModel> {
    if ipv4_valid(s) {
        Some(PasswordModel::Four(ipv4_value(s)))
    } else if mac_valid(s) {
        Some(PasswordModel::Six(mac_spec(s)->Ok_0))
    } else {
        None
    }
}

/// The canonical text of a password: the underlying value's own display
/// form.
pub open spec fn password_text(m: PasswordModel) -> Seq<char> {
    match m {
        PasswordModel::Four(o) => ipv4_text(o),
        PasswordModel::Six(o) => mac_text(o),
    }
}

impl Password {
    /// Fallible conversion from text: IPv4 shape first, then MAC shape.
    pub fn from_str(s: &str) -> (r: Result<Password, Error>)
        ensures
            (match password_of(s@) {
                Some(m) => r matches Ok(p) && p@ == m,
                None => r == Err::<Password, Error>(Error::WolPasswordParse),
            }),
    {
        match Ipv4::parse(s) {
            Some(ip) => Ok(Password::Four(ip)),
            None => match HardwareAddress::from_str(s) {
                Ok(hw) => Ok(Password::Six(hw)),
                Err(_) => Err(Error::WolPasswordParse),
            },
        }
    }

    /// Canonical display of the password.
    pub fn to_text(&self) -> (t: String)
        ensures
            t@ == password_text(self@),
    {
        match self {
            Password::Four(ip) => ip.to_text(),
            Password::Six(hw) => hw.to_text(),
        }
    }
}

impl core::str::FromStr for Password {
    type Err = Error;

    fn from_str(s: &str) -> Result<Password, Error> {
        Password::from_str(s)
    }
}

/// The canonical text of six octets is never a dotted quad: its third
/// character is a colon.
proof fn lemma_mac_text_not_ipv4(o: Seq<u8>)
    requires
        o.len() == 6,
    ensures
        !ipv4_valid(mac_text(o)),
{
    let t = mac_text(o);
    assert(t[2] == ':');
    if ipv4_valid(t) {
        lemma_ipv4_chars(t);
        assert(is_dec_digit(t[2]) || t[2] == '.');
        assert(false);
    }
}

/// Round trip: the canonical text of a password parses back to the same
/// password, for every password value.
pub proof fn lemma_password_round_trip(m: PasswordModel)
    requires
        m matches PasswordModel::Four(o) ==> o.len() == 4,
        m matches PasswordModel::Six(o) ==> o.len() == 6,
    ensures
        password_of(password_text(m)) == Some(m),
{
    match m {
        PasswordModel::Four(o) => {
            lemma_ipv4_round_trip(o);
        },
        PasswordModel::Six(o) => {
            lemma_mac_text_not_ipv4(o);
            lemma_mac_round_trip(o);
        },
    }
}

} // verus!

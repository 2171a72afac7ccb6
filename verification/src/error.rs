//! Error taxonomy of the address layer: every failure is structural and
//! terminal, there is no retry and no partial recovery.

use crate::text::{chars_to_string, dec_digits, push_dec_digits};
use vstd::prelude::*;

verus! {

/// Why one token could not be read as a numeric value, mirroring the
/// distinctions std draws when parsing an unsigned integer.
#[derive(Debug, Clone, Copy, PartialEq, Eq, Structural)]
pub enum ParseIntError {
    /// The token was empty.
    Empty,
    /// The token held a character that is no digit of the expected base.
    InvalidDigit,
    /// The token's value does not fit in the target type.
    PosOverflow,
}

/// Failure of hardware-address parsing.
#[derive(Debug, Clone, PartialEq, Eq)]
pub enum MacParseError {
    /// One part was no two-digit base-16 byte; names the exact failing token.
    ParseByte { source: ParseIntError, byte: String },
    /// More than 6 parts; carries the observed part count.
    TooLong(usize),
    /// Fewer than 6 parts; carries the observed part count.
    TooShort(usize),
}

/// Failure of the fallible textual conversions.
#[derive(Debug, Clone, PartialEq, Eq)]
pub enum Error {
    /// A hardware address could not be parsed.
    MacParse(MacParseError),
    /// A WoL password was neither in 4-byte nor in 6-byte format.
    WolPasswordParse,
}

/// The displayable message of a hardware-address parse failure.
pub open spec fn mac_parse_error_message(e: MacParseError) -> Seq<char> {
    match e {
        MacParseError::ParseByte { source: _, byte } => "could not parse \""@ + byte@
            + "\" as byte"@,
        MacParseError::TooLong(n) => "mac address is too long, got "@ + dec_digits(n as nat)
            + " bytes"@,
        MacParseError::TooShort(n) => "mac address is too short, got "@ + dec_digits(n as nat)
            + " bytes"@,
    }
}

/// The displayable message of a textual-conversion failure.
pub open spec fn error_message(e: Error) -> Seq<char> {
    match e {
        Error::MacParse(_) => "could not parse mac address"@,
        Error::WolPasswordParse => "wol password was not in 4 byte or 6 byte format"@,
    }
}

impl MacParseError {
    /// The displayable message of the failure.
    pub fn message(&self) -> (s: String)
        ensures
            s@ == mac_parse_error_message(*self),
    {
        match self {
            MacParseError::ParseByte { source: _, byte } => {
                let mut s = String::from_str("could not parse \"");
                s.append(byte.as_str());
                s.append("\" as byte");
                s
            },
            MacParseError::TooLong(n) => {
                let mut s = String::from_str("mac address is too long, got ");
                let mut digits: Vec<char> = Vec::new();
                push_dec_digits(&mut digits, *n as u64);
                proof {
                    assert(digits@ =~= dec_digits(*n as nat));
                }
                let d = chars_to_string(&digits);
                s.append(d.as_str());
                s.append(" bytes");
                s
            },
            MacParseError::TooShort(n) => {
                let mut s = String::from_str("mac address is too short, got ");
                let mut digits: Vec<char> = Vec::new();
                push_dec_digits(&mut digits, *n as u64);
                proof {
                    assert(digits@ =~= dec_digits(*n as nat));
                }
                let d = chars_to_string(&digits);
                s.append(d.as_str());
                s.append(" bytes");
                s
            },
        }
    }
}

impl Error {
    /// The displayable message of the failure.
    pub fn message(&self) -> (s: String)
        ensures
            s@ == error_message(*self),
    {
        match self {
            Error::MacParse(_) => String::from_str("could not parse mac address"),
            Error::WolPasswordParse => String::from_str(
                "wol password was not in 4 byte or 6 byte format",
            ),
        }
    }
}

/// Spec-level value of a `MacParseError`, with text as a character sequence.
pub enum MacErrorModel {
    ParseByte { source: ParseIntError, byte: Seq<char> },
    TooLong(nat),
    TooShort(nat),
}

/// Whether the executable error `e` carries exactly the value the model `m`
/// prescribes.
pub open spec fn mac_error_matches(e: MacParseError, m: MacErrorModel) -> bool {
    match (e, m) {
        (
            MacParseError::ParseByte { source: s1, byte: b1 },
            MacErrorModel::ParseByte { source: s2, byte: b2 },
        ) => s1 == s2 && b1@ == b2,
        (MacParseError::TooLong(n1), MacErrorModel::TooLong(n2)) => n1 as nat == n2,
        (MacParseError::TooShort(n1), MacErrorModel::TooShort(n2)) => n1 as nat == n2,
        _ => false,
    }
}

} // verus!

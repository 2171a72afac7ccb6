//! A validated 6-octet link-layer hardware address with strict textual
//! parsing (colon- or dash-delimited base-16 parts) and canonical
//! uppercase-colon display.

use crate::error::{MacErrorModel, MacParseError, ParseIntError};
use crate::text::{
    chars_to_string, digit_char, digit_to_char, hex_digit_val, hex_digit_value, is_hex_digit,
    lemma_digit_char, lemma_split2_append_no_sep, lemma_split2_push_sep, lemma_split2_single,
    split2, split_two_seps,
};
use vstd::prelude::*;

verus! {

// ---------------------------------------------------------------------------
// Reading one part as a base-16 byte
// ---------------------------------------------------------------------------

/// An optional leading `+` sign, as std's unsigned integer parsing accepts.
pub open spec fn strip_plus(p: Seq<char>) -> Seq<char> {
    if p.len() > 0 && p[0] == '+' {
        p.drop_first()
    } else {
        p
    }
}

/// Scanning base-16 digits left to right onto `acc`, failing at the first
/// non-digit or at the first step whose value would leave a byte's range.
pub open spec fn hex_scan(q: Seq<char>, acc: nat) -> Result<u8, ParseIntError>
    recommends
        acc <= 255,
    decreases q.len(),
{
    if q.len() == 0 {
        Ok(acc as u8)
    } else if !is_hex_digit(q[0]) {
        Err(ParseIntError::InvalidDigit)
    } else if acc * 16 + hex_digit_val(q[0]) > 255 {
        Err(ParseIntError::PosOverflow)
    } else {
        hex_scan(q.drop_first(), acc * 16 + hex_digit_val(q[0]))
    }
}

/// What reading one token as a base-16 byte yields.
pub open spec fn hex_u8(p: Seq<char>) -> Result<u8, ParseIntError> {
    if p.len() == 0 {
        Err(ParseIntError::Empty)
    } else if strip_plus(p).len() == 0 {
        Err(ParseIntError::InvalidDigit)
    } else {
        hex_scan(strip_plus(p), 0)
    }
}

/// Reads one token as a base-16 byte.
fn parse_hex_u8(p: &Vec<char>) -> (r: Result<u8, ParseIntError>)
    ensures
        r == hex_u8(p@),
{
    if p.len() == 0 {
        return Err(ParseIntError::Empty);
    }
    let start: usize = if p[0] == '+' {
        1
    } else {
        0
    };
    if p.len() == start {
        return Err(ParseIntError::InvalidDigit);
    }
    let ghost q = strip_plus(p@);
    proof {
        assert(q =~= p@.skip(start as int));
        assert(q.skip(0) =~= q);
    }
    let mut acc: u32 = 0;
    let n = p.len();
    for i in start..n
        invariant
            n == p@.len(),
            start <= i <= n,
            start < n,
            q == p@.skip(start as int),
            acc <= 255,
            hex_u8(p@) == hex_scan(q.skip((i - start) as int), acc as nat),
    {
        proof {
            assert(q.skip((i - start) as int)[0] == p@[i as int]);
            assert(q.skip((i - start) as int).drop_first() =~= q.skip((i + 1 - start) as int));
        }
        match hex_digit_value(p[i]) {
            None => {
                return Err(ParseIntError::InvalidDigit);
            },
            Some(d) => {
                let v = acc * 16 + d as u32;
                if v > 255 {
                    return Err(ParseIntError::PosOverflow);
                }
                acc = v;
            },
        }
    }
    proof {
        assert(q.skip((n - start) as int) =~= Seq::<char>::empty());
    }
    Ok(acc as u8)
}

// ---------------------------------------------------------------------------
// The hardware-address grammar
// ---------------------------------------------------------------------------

/// The tokens of a hardware-address text: split on `:` or `-`.
pub open spec fn mac_parts(s: Seq<char>) -> Seq<Seq<char>> {
    split2(s, ':', '-')
}

/// The index of the first token that is no base-16 byte, or `parts.len()`.
pub open spec fn first_bad(parts: Seq<Seq<char>>) -> int
    decreases parts.len(),
{
    if parts.len() == 0 {
        0
    } else if hex_u8(parts[0]) is Err {
        0
    } else {
        1 + first_bad(parts.drop_first())
    }
}

pub proof fn lemma_first_bad(parts: Seq<Seq<char>>)
    ensures
        0 <= first_bad(parts) <= parts.len(),
        first_bad(parts) == parts.len() <==> (forall|i: int|
            0 <= i < parts.len() ==> hex_u8(#[trigger] parts[i]) is Ok),
        first_bad(parts) < parts.len() ==> hex_u8(parts[first_bad(parts)]) is Err,
        forall|i: int| 0 <= i < first_bad(parts) ==> hex_u8(#[trigger] parts[i]) is Ok,
    decreases parts.len(),
{
    if parts.len() > 0 {
        let rest = parts.drop_first();
        lemma_first_bad(rest);
        assert(forall|i: int| 0 <= i < rest.len() ==> rest[i] == parts[i + 1]);
        if hex_u8(parts[0]) is Err {
            assert(first_bad(parts) == 0);
        } else {
            let fb = first_bad(rest);
            assert(first_bad(parts) == 1 + fb);
            if fb == rest.len() {
                assert forall|i: int| 0 <= i < parts.len() implies hex_u8(
                    #[trigger] parts[i],
                ) is Ok by {
                    if i > 0 {
                        assert(parts[i] == rest[i - 1]);
                    }
                }
            } else {
                assert(hex_u8(parts[1 + fb]) is Err) by {
                    assert(parts[1 + fb] == rest[fb]);
                }
            }
            assert forall|i: int| 0 <= i < first_bad(parts) implies hex_u8(
                #[trigger] parts[i],
            ) is Ok by {
                if i > 0 {
                    assert(parts[i] == rest[i - 1]);
                }
            }
        }
    }
}

/// The parts are the same, so the first bad token is found at the index
/// where the executable scan stopped.
proof fn lemma_first_bad_at(parts: Seq<Seq<char>>, k: int)
    requires
        0 <= k < parts.len(),
        forall|i: int| 0 <= i < k ==> hex_u8(#[trigger] parts[i]) is Ok,
        hex_u8(parts[k]) is Err,
    ensures
        first_bad(parts) == k,
    decreases parts.len(),
{
    if k > 0 {
        assert(forall|i: int|
            0 <= i < parts.drop_first().len() ==> parts.drop_first()[i] == parts[i + 1]);
        lemma_first_bad_at(parts.drop_first(), k - 1);
    }
}

/// The octet values of valid tokens.
pub open spec fn mac_octets(parts: Seq<Seq<char>>) -> Seq<u8> {
    parts.map_values(|p: Seq<char>| hex_u8(p)->Ok_0)
}

/// What parsing a hardware-address text yields: more than 6 parts is too
/// long, fewer too short, and otherwise the first token that is no base-16
/// byte names the failure.
pub open spec fn mac_spec(s: Seq<char>) -> Result<Seq<u8>, MacErrorModel> {
    let parts = mac_parts(s);
    if parts.len() > 6 {
        Err(MacErrorModel::TooLong(parts.len()))
    } else if parts.len() < 6 {
        Err(MacErrorModel::TooShort(parts.len()))
    } else if first_bad(parts) == 6 {
        Ok(mac_octets(parts))
    } else {
        Err(
            MacErrorModel::ParseByte {
                source: hex_u8(parts[first_bad(parts)])->Err_0,
                byte: parts[first_bad(parts)],
            },
        )
    }
}

pub open spec fn mac_valid(s: Seq<char>) -> bool {
    mac_spec(s) is Ok
}

// ---------------------------------------------------------------------------
// Canonical display
// ---------------------------------------------------------------------------

/// Two uppercase base-16 digits of one octet.
pub open spec fn byte_hex(b: u8) -> Seq<char> {
    seq![digit_char(b as nat / 16), digit_char(b as nat % 16)]
}

/// The canonical uppercase colon-separated text of six octets.
pub open spec fn mac_text(o: Seq<u8>) -> Seq<char>
    recommends
        o.len() == 6,
{
    byte_hex(o[0]) + seq![':'] + byte_hex(o[1]) + seq![':'] + byte_hex(o[2]) + seq![':'] + byte_hex(
        o[3],
    ) + seq![':'] + byte_hex(o[4]) + seq![':'] + byte_hex(o[5])
}

/// Appends the two uppercase base-16 digits of `b`.
fn push_hex(v: &mut Vec<char>, b: u8)
    ensures
        final(v)@ == old(v)@ + byte_hex(b),
{
    v.push(digit_to_char(b / 16));
    v.push(digit_to_char(b % 16));
    proof {
        assert(v@ =~= old(v)@ + byte_hex(b));
    }
}

// ---------------------------------------------------------------------------
// The type
// ---------------------------------------------------------------------------

/// A Hardware Address.
#[derive(Debug, Clone, PartialEq, Eq)]
pub struct HardwareAddress {
    octets: [u8; 6],
}

impl View for HardwareAddress {
    type V = Seq<u8>;

    closed spec fn view(&self) -> Seq<u8> {
        self.octets@
    }
}

impl HardwareAddress {
    /// Create a new Hardware Address.
    pub fn new(a: u8, b: u8, c: u8, d: u8, e: u8, f: u8) -> (r: HardwareAddress)
        ensures
            r@ == seq![a, b, c, d, e, f],
    {
        let r = HardwareAddress { octets: [a, b, c, d, e, f] };
        proof {
            assert(r@ =~= seq![a, b, c, d, e, f]);
        }
        r
    }

    /// Return the octects of the HardwareAddress.
    pub fn octects(&self) -> (r: &[u8; 6])
        ensures
            r@ == self@,
    {
        &self.octets
    }

    /// Lift a 6-byte array.
    pub fn from_octets(octets: [u8; 6]) -> (r: HardwareAddress)
        ensures
            r@ == octets@,
    {
        HardwareAddress { octets }
    }

    /// Parse a colon- or dash-delimited base-16 text; order-preserving,
    /// part i becomes octet i.
    pub fn from_str(s: &str) -> (r: Result<HardwareAddress, MacParseError>)
        ensures
            (match mac_spec(s@) {
                Ok(o) => r matches Ok(a) && a@ == o,
                Err(m) => r matches Err(e) && crate::error::mac_error_matches(e, m),
            }),
    {
        let parts = split_two_seps(s, ':', '-');
        let ghost pm = mac_parts(s@);
        proof {
            assert(parts@.map_values(|p: Vec<char>| p@) == pm);
        }
        if parts.len() > 6 {
            return Err(MacParseError::TooLong(parts.len()));
        }
        if parts.len() < 6 {
            return Err(MacParseError::TooShort(parts.len()));
        }
        let mut octets: [u8; 6] = [0, 0, 0, 0, 0, 0];
        for k in 0..6usize
            invariant
                parts@.map_values(|p: Vec<char>| p@) == pm,
                parts@.len() == 6,
                pm == mac_parts(s@),
                forall|j: int| 0 <= j < k ==> hex_u8(#[trigger] pm[j]) is Ok,
                forall|j: int| 0 <= j < k ==> octets@[j] == hex_u8(#[trigger] pm[j])->Ok_0,
        {
            match parse_hex_u8(&parts[k]) {
                Ok(v) => {
                    octets[k] = v;
                },
                Err(e) => {
                    proof {
                        lemma_first_bad_at(pm, k as int);
                    }
                    return Err(
                        MacParseError::ParseByte { source: e, byte: chars_to_string(&parts[k]) },
                    );
                },
            }
        }
        proof {
            lemma_first_bad(pm);
        }
        let r = HardwareAddress { octets };
        proof {
            assert(r@ =~= mac_octets(pm));
        }
        Ok(r)
    }

    /// Canonical uppercase colon-separated display of the address.
    pub fn to_text(&self) -> (s: String)
        ensures
            s@ == mac_text(self@),
    {
        let mut v: Vec<char> = Vec::new();
        push_hex(&mut v, self.octets[0]);
        v.push(':');
        push_hex(&mut v, self.octets[1]);
        v.push(':');
        push_hex(&mut v, self.octets[2]);
        v.push(':');
        push_hex(&mut v, self.octets[3]);
        v.push(':');
        push_hex(&mut v, self.octets[4]);
        v.push(':');
        push_hex(&mut v, self.octets[5]);
        proof {
            assert(v@ =~= mac_text(self@));
        }
        chars_to_string(&v)
    }
}

impl core::str::FromStr for HardwareAddress {
    type Err = MacParseError;

    fn from_str(s: &str) -> Result<HardwareAddress, MacParseError> {
        HardwareAddress::from_str(s)
    }
}

// ---------------------------------------------------------------------------
// Laws
// ---------------------------------------------------------------------------

/// The two digits of one octet read back to that octet, and are base-16
/// digits free of separators.
proof fn lemma_hex_u8_byte(b: u8)
    ensures
        hex_u8(byte_hex(b)) == Ok::<u8, ParseIntError>(b),
        forall|i: int| 0 <= i < byte_hex(b).len() ==> is_hex_digit(#[trigger] byte_hex(b)[i]),
        forall|i: int|
            0 <= i < byte_hex(b).len() ==> #[trigger] byte_hex(b)[i] != ':' && byte_hex(b)[i]
                != '-',
{
    reveal_with_fuel(hex_scan, 4);
    let t = byte_hex(b);
    let hi = b as nat / 16;
    let lo = b as nat % 16;
    lemma_digit_char(hi);
    lemma_digit_char(lo);
    assert(hi * 16 + lo == b);
    assert(strip_plus(t) == t);
    assert(t.drop_first() =~= seq![digit_char(lo)]);
    assert(t.drop_first().drop_first() =~= Seq::<char>::empty());
    assert(hex_scan(t, 0) == Ok::<u8, ParseIntError>(b));
}

/// Round trip: the canonical text of six octets parses back to the same
/// octets.
pub proof fn lemma_mac_round_trip(o: Seq<u8>)
    requires
        o.len() == 6,
    ensures
        mac_spec(mac_text(o)) == Ok::<Seq<u8>, MacErrorModel>(o),
{
    let h0 = byte_hex(o[0]);
    let h1 = byte_hex(o[1]);
    let h2 = byte_hex(o[2]);
    let h3 = byte_hex(o[3]);
    let h4 = byte_hex(o[4]);
    let h5 = byte_hex(o[5]);
    lemma_hex_u8_byte(o[0]);
    lemma_hex_u8_byte(o[1]);
    lemma_hex_u8_byte(o[2]);
    lemma_hex_u8_byte(o[3]);
    lemma_hex_u8_byte(o[4]);
    lemma_hex_u8_byte(o[5]);
    let s1 = h0;
    let s2 = s1 + seq![':'];
    let s3 = s2 + h1;
    let s4 = s3 + seq![':'];
    let s5 = s4 + h2;
    let s6 = s5 + seq![':'];
    let s7 = s6 + h3;
    let s8 = s7 + seq![':'];
    let s9 = s8 + h4;
    let s10 = s9 + seq![':'];
    let s11 = s10 + h5;
    assert(s11 =~= mac_text(o));
    let e = Seq::<char>::empty();
    lemma_split2_single(s1, ':', '-');
    lemma_split2_push_sep(s1, ':', '-', ':');
    assert(s2 =~= s1.push(':'));
    assert(split2(s2, ':', '-') == seq![h0, e]);
    lemma_split2_append_no_sep(s2, h1, ':', '-');
    assert(split2(s3, ':', '-') =~= seq![h0, h1]) by {
        assert(e + h1 =~= h1);
    }
    lemma_split2_push_sep(s3, ':', '-', ':');
    assert(s4 =~= s3.push(':'));
    lemma_split2_append_no_sep(s4, h2, ':', '-');
    assert(split2(s5, ':', '-') =~= seq![h0, h1, h2]) by {
        assert(e + h2 =~= h2);
        assert(seq![h0, h1].push(e).update(2int, h2) =~= seq![h0, h1, h2]);
    }
    lemma_split2_push_sep(s5, ':', '-', ':');
    assert(s6 =~= s5.push(':'));
    lemma_split2_append_no_sep(s6, h3, ':', '-');
    assert(split2(s7, ':', '-') =~= seq![h0, h1, h2, h3]) by {
        assert(e + h3 =~= h3);
        assert(seq![h0, h1, h2].push(e).update(3int, h3) =~= seq![h0, h1, h2, h3]);
    }
    lemma_split2_push_sep(s7, ':', '-', ':');
    assert(s8 =~= s7.push(':'));
    lemma_split2_append_no_sep(s8, h4, ':', '-');
    assert(split2(s9, ':', '-') =~= seq![h0, h1, h2, h3, h4]) by {
        assert(e + h4 =~= h4);
        assert(seq![h0, h1, h2, h3].push(e).update(4int, h4) =~= seq![h0, h1, h2, h3, h4]);
    }
    lemma_split2_push_sep(s9, ':', '-', ':');
    assert(s10 =~= s9.push(':'));
    lemma_split2_append_no_sep(s10, h5, ':', '-');
    assert(split2(s11, ':', '-') =~= seq![h0, h1, h2, h3, h4, h5]) by {
        assert(e + h5 =~= h5);
        assert(seq![h0, h1, h2, h3, h4].push(e).update(5int, h5) =~= seq![h0, h1, h2, h3, h4, h5]);
    }
    let pm = mac_parts(mac_text(o));
    assert(pm == seq![h0, h1, h2, h3, h4, h5]);
    assert forall|i: int| 0 <= i < 6 implies hex_u8(#[trigger] pm[i]) is Ok by {}
    lemma_first_bad(pm);
    assert(mac_octets(pm) =~= o);
}

/// Writing the separators as dashes instead of colons.
pub open spec fn dashes_to_colons(s: Seq<char>) -> Seq<char> {
    s.map_values(|c: char| if c == '-' { ':' } else { c })
}

proof fn lemma_split2_dashes(s: Seq<char>)
    ensures
        split2(dashes_to_colons(s), ':', '-') == split2(s, ':', '-'),
    decreases s.len(),
{
    if s.len() > 0 {
        lemma_split2_dashes(s.drop_last());
        assert(dashes_to_colons(s).drop_last() =~= dashes_to_colons(s.drop_last()));
        assert(dashes_to_colons(s).last() == (if s.last() == '-' { ':' } else { s.last() }));
    }
}

/// Parsing is insensitive to the separator choice: a dash-delimited text
/// parses exactly as its colon-delimited form does.
pub proof fn lemma_mac_separator_choice(s: Seq<char>)
    ensures
        mac_spec(dashes_to_colons(s)) == mac_spec(s),
{
    lemma_split2_dashes(s);
}

/// Parse-then-display reproduces the canonical uppercase-colon form: the
/// display of a parsed value parses back to the very same value, so display
/// is a canonicalizer on valid texts.
pub proof fn lemma_mac_canonical_form(s: Seq<char>)
    requires
        mac_valid(s),
    ensures
        mac_spec(s)->Ok_0.len() == 6,
        mac_spec(mac_text(mac_spec(s)->Ok_0)) == mac_spec(s),
{
    lemma_mac_round_trip(mac_spec(s)->Ok_0);
}

} // verus!

//! A numeric IPv4 address as four octets, with strict dotted-quad parsing
//! (1 to 3 decimal digits per group, no leading zeros, each group at most
//! 255) and canonical decimal display.

use crate::text::{
    dec_digit_val, dec_digit_value, digit_char, digit_to_char, is_dec_digit,
    lemma_digit_char, lemma_split2_append_no_sep, lemma_split2_chars_class, lemma_split2_push_sep,
    lemma_split2_single, chars_to_string, split2, split_two_seps,
};
use vstd::prelude::*;

verus! {

/// The numeric value of a sequence of decimal digits, most significant first.
pub open spec fn dec_value(p: Seq<char>) -> nat
    decreases p.len(),
{
    if p.len() == 0 {
        0
    } else {
        dec_value(p.drop_last()) * 10 + dec_digit_val(p.last())
    }
}

/// A valid dotted-quad group: 1 to 3 decimal digits, no leading zero unless
/// the group is exactly "0", value at most 255.
pub open spec fn octet_valid(p: Seq<char>) -> bool {
    &&& 1 <= p.len() <= 3
    &&& forall|i: int| 0 <= i < p.len() ==> is_dec_digit(#[trigger] p[i])
    &&& (p.len() > 1 ==> p[0] != '0')
    &&& dec_value(p) <= 255
}

pub open spec fn ipv4_parts(s: Seq<char>) -> Seq<Seq<char>> {
    split2(s, '.', '.')
}

/// Whether `s` is a strict dotted-quad IPv4 address.
pub open spec fn ipv4_valid(s: Seq<char>) -> bool {
    let parts = ipv4_parts(s);
    parts.len() == 4 && (forall|i: int| 0 <= i < 4 ==> octet_valid(#[trigger] parts[i]))
}

/// The four octet values of a valid dotted-quad text.
pub open spec fn ipv4_value(s: Seq<char>) -> Seq<u8>
    recommends
        ipv4_valid(s),
{
    ipv4_parts(s).map_values(|p: Seq<char>| dec_value(p) as u8)
}

/// The canonical decimal text of one octet value.
pub open spec fn dec_text(n: nat) -> Seq<char>
    recommends
        n <= 255,
{
    if n < 10 {
        seq![digit_char(n)]
    } else if n < 100 {
        seq![digit_char(n / 10), digit_char(n % 10)]
    } else {
        seq![digit_char(n / 100), digit_char((n / 10) % 10), digit_char(n % 10)]
    }
}

/// The canonical dotted-quad text of four octets.
pub open spec fn ipv4_text(o: Seq<u8>) -> Seq<char>
    recommends
        o.len() == 4,
{
    dec_text(o[0] as nat) + seq!['.'] + dec_text(o[1] as nat) + seq!['.'] + dec_text(o[2] as nat)
        + seq!['.'] + dec_text(o[3] as nat)
}

/// A validated numeric IPv4 address.
#[derive(Debug, Clone, Copy, PartialEq, Eq)]
pub struct Ipv4 {
    octets: [u8; 4],
}

impl View for Ipv4 {
    type V = Seq<u8>;

    closed spec fn view(&self) -> Seq<u8> {
        self.octets@
    }
}

impl Ipv4 {
    pub fn new(a: u8, b: u8, c: u8, d: u8) -> (r: Ipv4)
        ensures
            r@ == seq![a, b, c, d],
    {
        let r = Ipv4 { octets: [a, b, c, d] };
        proof {
            assert(r@ =~= seq![a, b, c, d]);
        }
        r
    }

    pub fn octets(&self) -> (r: &[u8; 4])
        ensures
            r@ == self@,
    {
        &self.octets
    }

    /// Strict dotted-quad parse; `None` exactly on text that is no IPv4
    /// address.
    pub fn parse(s: &str) -> (r: Option<Ipv4>)
        ensures
            r is Some <==> ipv4_valid(s@),
            r matches Some(ip) ==> ip@ == ipv4_value(s@),
    {
        let parts = split_two_seps(s, '.', '.');
        proof {
            assert(parts@.map_values(|p: Vec<char>| p@) == ipv4_parts(s@));
        }
        if parts.len() != 4 {
            return None;
        }
        let mut octets: [u8; 4] = [0, 0, 0, 0];
        for k in 0..4usize
            invariant
                parts@.map_values(|p: Vec<char>| p@) == ipv4_parts(s@),
                parts@.len() == 4,
                forall|j: int| 0 <= j < k ==> octet_valid(#[trigger] ipv4_parts(s@)[j]),
                forall|j: int|
                    0 <= j < k ==> octets@[j] == dec_value(#[trigger] ipv4_parts(s@)[j]),
        {
            match parse_octet(&parts[k]) {
                Some(v) => {
                    octets[k] = v;
                },
                None => {
                    proof {
                        assert(!octet_valid(ipv4_parts(s@)[k as int]));
                    }
                    return None;
                },
            }
        }
        let r = Ipv4 { octets };
        proof {
            assert(ipv4_valid(s@));
            assert(r@ =~= ipv4_value(s@));
        }
        Some(r)
    }

    /// Canonical dotted-quad display of the address.
    pub fn to_text(&self) -> (s: String)
        ensures
            s@ == ipv4_text(self@),
    {
        let mut v: Vec<char> = Vec::new();
        push_dec(&mut v, self.octets[0]);
        v.push('.');
        push_dec(&mut v, self.octets[1]);
        v.push('.');
        push_dec(&mut v, self.octets[2]);
        v.push('.');
        push_dec(&mut v, self.octets[3]);
        proof {
            assert(v@ =~= ipv4_text(self@));
        }
        chars_to_string(&v)
    }
}

/// Reads one dotted-quad group; `None` exactly on invalid groups.
fn parse_octet(p: &Vec<char>) -> (r: Option<u8>)
    ensures
        r is Some <==> octet_valid(p@),
        r matches Some(v) ==> v == dec_value(p@),
{
    if p.len() < 1 || p.len() > 3 {
        return None;
    }
    if p.len() > 1 && p[0] == '0' {
        return None;
    }
    let mut acc: u32 = 0;
    let n = p.len();
    for i in 0..n
        invariant
            n == p@.len(),
            1 <= n <= 3,
            acc == dec_value(p@.take(i as int)),
            i == 0 ==> acc == 0,
            i == 1 ==> acc <= 9,
            i == 2 ==> acc <= 99,
            acc <= 999,
            forall|j: int| 0 <= j < i ==> is_dec_digit(#[trigger] p@[j]),
    {
        proof {
            assert(p@.take(i + 1).drop_last() =~= p@.take(i as int));
            assert(p@.take(i + 1).last() == p@[i as int]);
        }
        match dec_digit_value(p[i]) {
            None => {
                proof {
                    assert(!octet_valid(p@)) by {
                        assert(!is_dec_digit(p@[i as int]));
                    }
                }
                return None;
            },
            Some(d) => {
                acc = acc * 10 + d as u32;
            },
        }
    }
    proof {
        assert(p@.take(n as int) =~= p@);
    }
    if acc > 255 {
        return None;
    }
    Some(acc as u8)
}

/// Appends the canonical decimal text of `n`.
fn push_dec(v: &mut Vec<char>, n: u8)
    ensures
        final(v)@ == old(v)@ + dec_text(n as nat),
{
    if n < 10 {
        v.push(digit_to_char(n));
    } else if n < 100 {
        v.push(digit_to_char(n / 10));
        v.push(digit_to_char(n % 10));
    } else {
        v.push(digit_to_char(n / 100));
        v.push(digit_to_char((n / 10) % 10));
        v.push(digit_to_char(n % 10));
    }
    proof {
        assert(v@ =~= old(v)@ + dec_text(n as nat));
    }
}

/// The canonical decimal text of an octet value is a valid group and reads
/// back to the same value.
pub proof fn lemma_dec_text(n: nat)
    requires
        n <= 255,
    ensures
        octet_valid(dec_text(n)),
        dec_value(dec_text(n)) == n,
        forall|i: int| 0 <= i < dec_text(n).len() ==> is_dec_digit(#[trigger] dec_text(n)[i]),
{
    reveal_with_fuel(dec_value, 4);
    let t = dec_text(n);
    if n < 10 {
        lemma_digit_char(n);
        assert(t.drop_last() =~= Seq::<char>::empty());
        assert(dec_value(t) == n);
    } else if n < 100 {
        lemma_digit_char(n / 10);
        lemma_digit_char(n % 10);
        assert(t.drop_last() =~= seq![digit_char(n / 10)]);
        assert(t.drop_last().drop_last() =~= Seq::<char>::empty());
        assert(dec_value(t) == (n / 10) * 10 + n % 10);
        assert((n / 10) * 10 + n % 10 == n);
        assert(n / 10 >= 1);
    } else {
        lemma_digit_char(n / 100);
        lemma_digit_char((n / 10) % 10);
        lemma_digit_char(n % 10);
        assert(t.drop_last() =~= seq![digit_char(n / 100), digit_char((n / 10) % 10)]);
        assert(t.drop_last().drop_last() =~= seq![digit_char(n / 100)]);
        assert(t.drop_last().drop_last().drop_last() =~= Seq::<char>::empty());
        assert(dec_value(t) == ((n / 100) * 10 + (n / 10) % 10) * 10 + n % 10);
        assert(((n / 100) * 10 + (n / 10) % 10) * 10 + n % 10 == n) by (nonlinear_arith)
            requires
                100 <= n <= 255,
        ;
        assert(n / 100 >= 1);
    }
}

/// Round trip: the canonical text of four octets is a valid dotted quad and
/// parses back to the same octets.
pub proof fn lemma_ipv4_round_trip(o: Seq<u8>)
    requires
        o.len() == 4,
    ensures
        ipv4_valid(ipv4_text(o)),
        ipv4_value(ipv4_text(o)) == o,
{
    let t0 = dec_text(o[0] as nat);
    let t1 = dec_text(o[1] as nat);
    let t2 = dec_text(o[2] as nat);
    let t3 = dec_text(o[3] as nat);
    lemma_dec_text(o[0] as nat);
    lemma_dec_text(o[1] as nat);
    lemma_dec_text(o[2] as nat);
    lemma_dec_text(o[3] as nat);
    assert forall|i: int| 0 <= i < t0.len() implies t0[i] != '.' by {
        assert(is_dec_digit(t0[i]));
    }
    assert forall|i: int| 0 <= i < t1.len() implies t1[i] != '.' by {
        assert(is_dec_digit(t1[i]));
    }
    assert forall|i: int| 0 <= i < t2.len() implies t2[i] != '.' by {
        assert(is_dec_digit(t2[i]));
    }
    assert forall|i: int| 0 <= i < t3.len() implies t3[i] != '.' by {
        assert(is_dec_digit(t3[i]));
    }
    let s1 = t0;
    let s2 = s1 + seq!['.'];
    let s3 = s2 + t1;
    let s4 = s3 + seq!['.'];
    let s5 = s4 + t2;
    let s6 = s5 + seq!['.'];
    let s7 = s6 + t3;
    assert(s7 =~= ipv4_text(o));
    lemma_split2_single(s1, '.', '.');
    lemma_split2_push_sep(s1, '.', '.', '.');
    assert(s2 =~= s1.push('.'));
    assert(split2(s2, '.', '.') == seq![t0, Seq::<char>::empty()]);
    lemma_split2_append_no_sep(s2, t1, '.', '.');
    assert(split2(s3, '.', '.') =~= seq![t0, t1]) by {
        assert(Seq::<char>::empty() + t1 =~= t1);
    }
    lemma_split2_push_sep(s3, '.', '.', '.');
    assert(s4 =~= s3.push('.'));
    assert(split2(s4, '.', '.') == seq![t0, t1].push(Seq::<char>::empty()));
    lemma_split2_append_no_sep(s4, t2, '.', '.');
    assert(split2(s5, '.', '.') =~= seq![t0, t1, t2]) by {
        assert(Seq::<char>::empty() + t2 =~= t2);
        assert(seq![t0, t1].push(Seq::<char>::empty()).update(2int, t2) =~= seq![t0, t1, t2]);
    }
    lemma_split2_push_sep(s5, '.', '.', '.');
    assert(s6 =~= s5.push('.'));
    assert(split2(s6, '.', '.') == seq![t0, t1, t2].push(Seq::<char>::empty()));
    lemma_split2_append_no_sep(s6, t3, '.', '.');
    assert(split2(s7, '.', '.') =~= seq![t0, t1, t2, t3]) by {
        assert(Seq::<char>::empty() + t3 =~= t3);
        assert(seq![t0, t1, t2].push(Seq::<char>::empty()).update(3int, t3) =~= seq![t0, t1, t2, t3]);
    }
    assert(ipv4_parts(ipv4_text(o)) == seq![t0, t1, t2, t3]);
    assert forall|i: int| 0 <= i < 4 implies octet_valid(#[trigger] ipv4_parts(ipv4_text(o))[i])
        by {}
    assert(ipv4_value(ipv4_text(o)) =~= o);
}

/// A valid dotted-quad text is made of decimal digits and dots alone.
pub proof fn lemma_ipv4_chars(s: Seq<char>)
    requires
        ipv4_valid(s),
    ensures
        forall|i: int| 0 <= i < s.len() ==> is_dec_digit(#[trigger] s[i]) || s[i] == '.',
{
    let cls = |c: char| is_dec_digit(c);
    assert forall|j: int, i: int|
        0 <= j < split2(s, '.', '.').len() && 0 <= i < split2(s, '.', '.')[j].len() implies cls(
        #[trigger] split2(s, '.', '.')[j][i],
    ) by {
        assert(octet_valid(ipv4_parts(s)[j]));
    }
    lemma_split2_chars_class(s, '.', '.', cls);
    assert forall|i: int| 0 <= i < s.len() implies is_dec_digit(#[trigger] s[i]) || s[i] == '.' by {
        assert(cls(s[i]) || s[i] == '.' || s[i] == '.');
    }
}

} // verus!

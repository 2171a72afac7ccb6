//! Character-level building blocks shared by the address parsers: character
//! classes, separator splitting, digit values, and string construction.

use vstd::prelude::*;

verus! {

// ---------------------------------------------------------------------------
// Character classes and digit values
// ---------------------------------------------------------------------------

pub open spec fn is_dec_digit(c: char) -> bool {
    '0' <= c && c <= '9'
}

pub open spec fn dec_digit_val(c: char) -> nat
    recommends
        is_dec_digit(c),
{
    ((c as u32) - ('0' as u32)) as nat
}

pub open spec fn is_hex_digit(c: char) -> bool {
    ||| is_dec_digit(c)
    ||| ('a' <= c && c <= 'f')
    ||| ('A' <= c && c <= 'F')
}

pub open spec fn hex_digit_val(c: char) -> nat
    recommends
        is_hex_digit(c),
{
    if is_dec_digit(c) {
        dec_digit_val(c)
    } else if 'a' <= c && c <= 'f' {
        ((c as u32) - ('a' as u32) + 10) as nat
    } else {
        ((c as u32) - ('A' as u32) + 10) as nat
    }
}

/// The character standing for digit value `d`, hexadecimal digits in upper
/// case; this is the alphabet of the canonical textual forms.
pub open spec fn digit_char(d: nat) -> char
    recommends
        d < 16,
{
    if d == 0 {
        '0'
    } else if d == 1 {
        '1'
    } else if d == 2 {
        '2'
    } else if d == 3 {
        '3'
    } else if d == 4 {
        '4'
    } else if d == 5 {
        '5'
    } else if d == 6 {
        '6'
    } else if d == 7 {
        '7'
    } else if d == 8 {
        '8'
    } else if d == 9 {
        '9'
    } else if d == 10 {
        'A'
    } else if d == 11 {
        'B'
    } else if d == 12 {
        'C'
    } else if d == 13 {
        'D'
    } else if d == 14 {
        'E'
    } else {
        'F'
    }
}

pub proof fn lemma_digit_char(d: nat)
    requires
        d < 16,
    ensures
        is_hex_digit(digit_char(d)),
        hex_digit_val(digit_char(d)) == d,
        d < 10 ==> is_dec_digit(digit_char(d)) && dec_digit_val(digit_char(d)) == d,
        digit_char(d) != ':' && digit_char(d) != '-' && digit_char(d) != '.' && digit_char(d)
            != '+',
        d != 0 ==> digit_char(d) != '0',
{
}

pub fn dec_digit_value(c: char) -> (r: Option<u8>)
    ensures
        r is Some <==> is_dec_digit(c),
        r matches Some(v) ==> v == dec_digit_val(c),
{
    if '0' <= c && c <= '9' {
        Some(((c as u32) - ('0' as u32)) as u8)
    } else {
        None
    }
}

pub fn hex_digit_value(c: char) -> (r: Option<u8>)
    ensures
        r is Some <==> is_hex_digit(c),
        r matches Some(v) ==> v == hex_digit_val(c),
{
    if '0' <= c && c <= '9' {
        Some(((c as u32) - ('0' as u32)) as u8)
    } else if 'a' <= c && c <= 'f' {
        Some(((c as u32) - ('a' as u32) + 10) as u8)
    } else if 'A' <= c && c <= 'F' {
        Some(((c as u32) - ('A' as u32) + 10) as u8)
    } else {
        None
    }
}

pub fn digit_to_char(d: u8) -> (c: char)
    requires
        d < 16,
    ensures
        c == digit_char(d as nat),
{
    if d == 0 {
        '0'
    } else if d == 1 {
        '1'
    } else if d == 2 {
        '2'
    } else if d == 3 {
        '3'
    } else if d == 4 {
        '4'
    } else if d == 5 {
        '5'
    } else if d == 6 {
        '6'
    } else if d == 7 {
        '7'
    } else if d == 8 {
        '8'
    } else if d == 9 {
        '9'
    } else if d == 10 {
        'A'
    } else if d == 11 {
        'B'
    } else if d == 12 {
        'C'
    } else if d == 13 {
        'D'
    } else if d == 14 {
        'E'
    } else {
        'F'
    }
}

/// The decimal text of a number, most significant digit first, no leading
/// zeros; used by the diagnostic messages.
pub open spec fn dec_digits(n: nat) -> Seq<char>
    decreases n,
{
    if n < 10 {
        seq![digit_char(n)]
    } else {
        dec_digits(n / 10).push(digit_char(n % 10))
    }
}

/// Appends the decimal text of `n`.
pub fn push_dec_digits(v: &mut Vec<char>, n: u64)
    ensures
        final(v)@ == old(v)@ + dec_digits(n as nat),
    decreases n,
{
    if n < 10 {
        v.push(digit_to_char(n as u8));
        proof {
            assert(v@ =~= old(v)@ + dec_digits(n as nat));
        }
    } else {
        push_dec_digits(v, n / 10);
        v.push(digit_to_char((n % 10) as u8));
        proof {
            assert(v@ =~= old(v)@ + dec_digits(n as nat));
        }
    }
}

// ---------------------------------------------------------------------------
// Splitting on separator characters
// ---------------------------------------------------------------------------

/// Splitting a character sequence at every occurrence of `a` or `b`, keeping
/// empty pieces, exactly as `str::split` does with a two-character class.
pub open spec fn split2(s: Seq<char>, a: char, b: char) -> Seq<Seq<char>>
    decreases s.len(),
{
    if s.len() == 0 {
        seq![Seq::<char>::empty()]
    } else {
        let init = split2(s.drop_last(), a, b);
        let c = s.last();
        if c == a || c == b {
            init.push(Seq::<char>::empty())
        } else {
            init.update(init.len() - 1, init.last().push(c))
        }
    }
}

pub proof fn lemma_split2_len(s: Seq<char>, a: char, b: char)
    ensures
        split2(s, a, b).len() >= 1,
        split2(s, a, b).len() <= s.len() + 1,
    decreases s.len(),
{
    if s.len() > 0 {
        lemma_split2_len(s.drop_last(), a, b);
    }
}

/// Appending a separator opens a fresh (empty) last piece.
pub proof fn lemma_split2_push_sep(s: Seq<char>, a: char, b: char, c: char)
    requires
        c == a || c == b,
    ensures
        split2(s.push(c), a, b) == split2(s, a, b).push(Seq::<char>::empty()),
{
    assert(s.push(c).drop_last() =~= s);
    assert(s.push(c).last() == c);
}

/// Appending separator-free text extends the last piece and nothing else.
pub proof fn lemma_split2_append_no_sep(s: Seq<char>, p: Seq<char>, a: char, b: char)
    requires
        forall|i: int| 0 <= i < p.len() ==> p[i] != a && p[i] != b,
    ensures
        ({
            let y = split2(s, a, b);
            split2(s + p, a, b) == y.update(y.len() - 1, y.last() + p)
        }),
    decreases p.len(),
{
    lemma_split2_len(s, a, b);
    let y = split2(s, a, b);
    if p.len() == 0 {
        assert(s + p =~= s);
        assert(y.last() + p =~= y.last());
        assert(y.update(y.len() - 1, y.last() + p) =~= y);
    } else {
        lemma_split2_append_no_sep(s, p.drop_last(), a, b);
        let x = split2(s + p.drop_last(), a, b);
        assert((s + p).drop_last() =~= s + p.drop_last());
        assert((s + p).last() == p.last());
        assert(p[p.len() - 1] != a && p[p.len() - 1] != b);
        assert(split2(s + p, a, b) == x.update(x.len() - 1, x.last().push(p.last())));
        assert(x.last() == y.last() + p.drop_last());
        assert((y.last() + p.drop_last()).push(p.last()) =~= y.last() + p);
        assert(x.update(x.len() - 1, x.last().push(p.last())) =~= y.update(
            y.len() - 1,
            y.last() + p,
        ));
    }
}

/// A separator-free text is a single piece.
pub proof fn lemma_split2_single(p: Seq<char>, a: char, b: char)
    requires
        forall|i: int| 0 <= i < p.len() ==> p[i] != a && p[i] != b,
    ensures
        split2(p, a, b) == seq![p],
{
    let e = Seq::<char>::empty();
    lemma_split2_append_no_sep(e, p, a, b);
    assert(e + p =~= p);
    assert(split2(e, a, b) == seq![e]);
    assert(seq![e].update(0int, e + p) =~= seq![p]);
}

/// Every character of the split text is a separator or stands in some piece;
/// so if every piece is drawn from a character class, the whole text is made
/// of that class and the separators.
pub proof fn lemma_split2_chars_class(s: Seq<char>, a: char, b: char, cls: spec_fn(char) -> bool)
    requires
        forall|j: int, i: int|
            0 <= j < split2(s, a, b).len() && 0 <= i < split2(s, a, b)[j].len() ==> cls(
                #[trigger] split2(s, a, b)[j][i],
            ),
    ensures
        forall|i: int| 0 <= i < s.len() ==> cls(#[trigger] s[i]) || s[i] == a || s[i] == b,
    decreases s.len(),
{
    if s.len() > 0 {
        let c = s.last();
        let parts = split2(s, a, b);
        let init = split2(s.drop_last(), a, b);
        lemma_split2_len(s.drop_last(), a, b);
        if c == a || c == b {
            assert forall|j: int, i: int|
                0 <= j < init.len() && 0 <= i < init[j].len() implies cls(init[j][i]) by {
                assert(parts[j] == init[j]);
            }
        } else {
            let k = init.len() - 1;
            assert forall|j: int, i: int|
                0 <= j < init.len() && 0 <= i < init[j].len() implies cls(init[j][i]) by {
                if j < k {
                    assert(parts[j] == init[j]);
                } else {
                    assert(parts[k] == init[k].push(c));
                    assert(parts[k][i] == init[k][i]);
                }
            }
            assert(parts[k] == init[k].push(c));
            assert(cls(parts[k][parts[k].len() - 1]));
        }
        lemma_split2_chars_class(s.drop_last(), a, b, cls);
        assert forall|i: int| 0 <= i < s.len() implies cls(s[i]) || s[i] == a || s[i] == b by {
            if i < s.len() - 1 {
                assert(s[i] == s.drop_last()[i]);
            }
        }
    }
}

pub fn split_two_seps(s: &str, a: char, b: char) -> (parts: Vec<Vec<char>>)
    ensures
        parts@.map_values(|p: Vec<char>| p@) == split2(s@, a, b),
{
    let len = s.unicode_len();
    let mut parts: Vec<Vec<char>> = Vec::new();
    let mut cur: Vec<char> = Vec::new();
    for i in 0..len
        invariant
            len == s@.len(),
            parts@.map_values(|p: Vec<char>| p@).push(cur@) =~= split2(
                s@.take(i as int),
                a,
                b,
            ),
    {
        let c = s.get_char(i);
        proof {
            assert(s@.take(i + 1).drop_last() =~= s@.take(i as int));
            assert(s@.take(i + 1).last() == s@[i as int]);
        }
        if c == a || c == b {
            parts.push(cur);
            cur = Vec::new();
            proof {
                assert(parts@.map_values(|p: Vec<char>| p@).push(cur@) =~= split2(
                    s@.take(i + 1),
                    a,
                    b,
                ));
            }
        } else {
            cur.push(c);
            proof {
                assert(parts@.map_values(|p: Vec<char>| p@).push(cur@) =~= split2(
                    s@.take(i + 1),
                    a,
                    b,
                ));
            }
        }
    }
    proof {
        assert(s@.take(len as int) =~= s@);
    }
    parts.push(cur);
    proof {
        assert(parts@.map_values(|p: Vec<char>| p@) =~= split2(s@, a, b));
    }
    parts
}

// ---------------------------------------------------------------------------
// String comparison and construction
// ---------------------------------------------------------------------------

pub fn str_eq(a: &str, b: &str) -> (r: bool)
    ensures
        r == (a@ == b@),
{
    let la = a.unicode_len();
    let lb = b.unicode_len();
    if la != lb {
        return false;
    }
    for i in 0..la
        invariant
            la == a@.len(),
            la == b@.len(),
            forall|j: int| 0 <= j < i ==> a@[j] == b@[j],
    {
        if a.get_char(i) != b.get_char(i) {
            return false;
        }
    }
    proof {
        assert(a@ =~= b@);
    }
    true
}

/// Relies on `String::push` of std: appending one character to the string.
pub assume_specification[ String::push ](s: &mut String, ch: char)
    ensures
        final(s)@ == old(s)@.push(ch),
;

pub fn chars_to_string(v: &Vec<char>) -> (s: String)
    ensures
        s@ == v@,
{
    let mut s = String::new();
    for i in 0..v.len()
        invariant
            s@ =~= v@.take(i as int),
    {
        s.push(v[i]);
        proof {
            assert(s@ =~= v@.take(i + 1));
        }
    }
    proof {
        assert(v@.take(v@.len() as int) =~= v@);
    }
    s
}

} // verus!

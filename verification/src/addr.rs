use vstd::prelude::*;

use crate::text::{split_keep, split_string_keep};

verus! {

/// An IPv4 address as four plain octets, `a.b.c.d` in dotted-quad notation.
#[derive(Clone, Copy, Debug, PartialEq, Eq, Structural)]
pub struct Ipv4Address {
    pub a: u8,
    pub b: u8,
    pub c: u8,
    pub d: u8,
}

/// True when `c` is an ASCII decimal digit.
pub open spec fn is_digit(c: char) -> bool {
    48 <= c as u32 <= 57
}

/// The value of an ASCII decimal digit.
pub open spec fn digit_val(c: char) -> int {
    c as u32 - 48
}

/// True when every character of `s` is an ASCII decimal digit.
pub open spec fn all_digits(s: Seq<char>) -> bool {
    forall|i: int| 0 <= i < s.len() ==> is_digit(s[i])
}

/// The value of `s` read as a decimal numeral.
pub open spec fn dec_val(s: Seq<char>) -> int
    decreases s.len(),
{
    if s.len() == 0 {
        0
    } else {
        dec_val(s.drop_last()) * 10 + digit_val(s.last())
    }
}

pub open spec fn pow10(n: nat) -> int
    decreases n,
{
    if n == 0 {
        1
    } else {
        10 * pow10((n - 1) as nat)
    }
}

pub proof fn lemma_dec_val_bound(s: Seq<char>)
    requires
        all_digits(s),
    ensures
        0 <= dec_val(s) < pow10(s.len()),
    decreases s.len(),
{
    if s.len() > 0 {
        assert(all_digits(s.drop_last())) by {
            assert(forall|i: int| 0 <= i < s.len() - 1 ==> s.drop_last()[i] == s[i]);
        }
        lemma_dec_val_bound(s.drop_last());
        assert(is_digit(s.last()));
    }
}

pub proof fn lemma_pow10_mono(a: nat, b: nat)
    requires
        a <= b,
    ensures
        1 <= pow10(a) <= pow10(b),
    decreases b,
{
    if a < b {
        lemma_pow10_mono(a, (b - 1) as nat);
    } else if b == 0 {
    } else {
        lemma_pow10_mono((a - 1) as nat, (b - 1) as nat);
    }
}

/// A legal dotted-quad octet: one to three digits, value at most 255, and no
/// leading zero (so `0` is legal but `00` and `01` are not).
pub open spec fn valid_octet(s: Seq<char>) -> bool {
    &&& 1 <= s.len() <= 3
    &&& all_digits(s)
    &&& dec_val(s) <= 255
    &&& (s.len() > 1 ==> s[0] != '0')
}

/// Extending a digit string can only grow its value.
pub proof fn lemma_dec_val_prefix(s: Seq<char>, k: int)
    requires
        all_digits(s),
        0 <= k <= s.len(),
    ensures
        dec_val(s) >= dec_val(s.take(k)),
    decreases s.len() - k,
{
    if k < s.len() {
        lemma_dec_val_prefix(s, k + 1);
        assert(s.take(k + 1).drop_last() =~= s.take(k));
        assert(all_digits(s.take(k))) by {
            assert(forall|m: int| 0 <= m < k ==> s.take(k)[m] == s[m]);
        }
        lemma_dec_val_bound(s.take(k));
        assert(is_digit(s.take(k + 1).last()));
    } else {
        assert(s.take(k) =~= s);
    }
}

/// The digit run of a port numeral: one optional leading `+` sign is
/// allowed, as the standard numeric parser for unsigned integers allows.
pub open spec fn port_digits(s: Seq<char>) -> Seq<char> {
    if s.len() > 0 && s[0] == '+' {
        s.drop_first()
    } else {
        s
    }
}

/// A legal port numeral: optional `+`, then one or more digits of value at
/// most 65535; leading zeros are allowed.
pub open spec fn valid_port(s: Seq<char>) -> bool {
    &&& port_digits(s).len() >= 1
    &&& all_digits(port_digits(s))
    &&& dec_val(port_digits(s)) <= 65535
}

pub open spec fn parse_octet_spec(s: Seq<char>) -> Option<u8> {
    if valid_octet(s) {
        Some(dec_val(s) as u8)
    } else {
        None
    }
}

pub open spec fn parse_port_spec(s: Seq<char>) -> Option<u16> {
    if valid_port(s) {
        Some(dec_val(port_digits(s)) as u16)
    } else {
        None
    }
}

/// An address literal is four octets separated by single dots.
pub open spec fn parse_ipv4_spec(s: Seq<char>) -> Option<Ipv4Address> {
    let ps = split_keep(s, '.');
    if ps.len() == 4 && valid_octet(ps[0]) && valid_octet(ps[1]) && valid_octet(ps[2])
        && valid_octet(ps[3]) {
        Some(
            Ipv4Address {
                a: dec_val(ps[0]) as u8,
                b: dec_val(ps[1]) as u8,
                c: dec_val(ps[2]) as u8,
                d: dec_val(ps[3]) as u8,
            },
        )
    } else {
        None
    }
}

/// Reads a decimal numeral of at most `max_digits` digits; `None` on an
/// empty string, a non-digit, or too many digits.
fn parse_decimal(s: &str, max_digits: usize) -> (r: Option<u32>)
    requires
        1 <= max_digits <= 5,
    ensures
        match r {
            Some(v) => 1 <= s@.len() <= max_digits && all_digits(s@) && v == dec_val(s@),
            None => !(1 <= s@.len() <= max_digits && all_digits(s@)),
        },
{
    let n = s.unicode_len();
    if n < 1 || n > max_digits {
        return None;
    }
    let mut val: u32 = 0;
    let mut i: usize = 0;
    proof {
        assert(s@.subrange(0, 0) =~= Seq::<char>::empty());
    }
    while i < n
        invariant
            n == s@.len(),
            1 <= n <= max_digits <= 5,
            i <= n,
            all_digits(s@.subrange(0, i as int)),
            val == dec_val(s@.subrange(0, i as int)),
            val < pow10(i as nat),
        decreases n - i,
    {
        let ghost pre = s@.subrange(0, i as int);
        let c = s.get_char(i);
        let u = c as u32;
        if u < 48 || u > 57 {
            assert(!is_digit(s@[i as int]));
            return None;
        }
        let d = u - 48;
        proof {
            lemma_pow10_mono(i as nat, 4);
            assert(pow10(0) == 1);
            assert(pow10(1) == 10);
            assert(pow10(2) == 100);
            assert(pow10(3) == 1000);
            assert(pow10(4) == 10000);
            assert(val * 10 + d < 10 * pow10(i as nat));
        }
        val = val * 10 + d;
        i += 1;
        proof {
            let cur = s@.subrange(0, i as int);
            assert(cur.drop_last() =~= pre);
            assert(cur.last() == s@[i - 1]);
        }
    }
    proof {
        assert(s@.subrange(0, n as int) =~= s@);
    }
    Some(val)
}

pub fn parse_octet(s: &str) -> (r: Option<u8>)
    ensures
        r == parse_octet_spec(s@),
{
    let v = match parse_decimal(s, 3) {
        Some(v) => v,
        None => {
            return None;
        },
    };
    if v > 255 {
        return None;
    }
    if s.unicode_len() > 1 && s.get_char(0) == '0' {
        return None;
    }
    Some(v as u8)
}

pub fn parse_port(s: &str) -> (r: Option<u16>)
    ensures
        r == parse_port_spec(s@),
{
    let n = s.unicode_len();
    let mut start: usize = 0;
    if n > 0 && s.get_char(0) == '+' {
        start = 1;
    }
    let ghost d = port_digits(s@);
    proof {
        assert(d =~= s@.skip(start as int));
    }
    if start >= n {
        return None;
    }
    let mut val: u32 = 0;
    let mut i: usize = start;
    proof {
        assert(s@.subrange(start as int, start as int) =~= Seq::<char>::empty());
    }
    while i < n
        invariant
            n == s@.len(),
            start <= i <= n,
            start <= 1,
            d == port_digits(s@),
            d == s@.skip(start as int),
            all_digits(s@.subrange(start as int, i as int)),
            val == dec_val(s@.subrange(start as int, i as int)),
            val <= 65535,
        decreases n - i,
    {
        let ghost pre = s@.subrange(start as int, i as int);
        let c = s.get_char(i);
        let u = c as u32;
        if u < 48 || u > 57 {
            proof {
                assert(d[i - start] == s@[i as int]);
                assert(!is_digit(d[i - start]));
            }
            return None;
        }
        let dig = u - 48;
        let next = val * 10 + dig;
        proof {
            let cur = s@.subrange(start as int, i + 1 as int);
            assert(cur.drop_last() =~= pre);
            assert(cur.last() == s@[i as int]);
            assert(dec_val(cur) == next);
        }
        if next > 65535 {
            proof {
                if all_digits(d) {
                    lemma_dec_val_prefix(d, i + 1 - start);
                    assert(d.take(i + 1 - start) =~= s@.subrange(start as int, i + 1 as int));
                }
            }
            return None;
        }
        val = next;
        i += 1;
    }
    proof {
        assert(s@.subrange(start as int, n as int) =~= d);
    }
    Some(val as u16)
}

/// Parses a dotted-quad IPv4 address literal.
pub fn parse_ipv4(s: &str) -> (r: Option<Ipv4Address>)
    ensures
        r == parse_ipv4_spec(s@),
{
    let pieces = split_string_keep(s, '.');
    let ghost ps = split_keep(s@, '.');
    proof {
        assert(pieces.deep_view() == ps);
        assert(pieces@.len() == ps.len());
    }
    if pieces.len() != 4 {
        return None;
    }
    proof {
        assert(forall|k: int| 0 <= k < 4 ==> pieces@[k]@ == #[trigger] ps[k]);
    }
    let a = match parse_octet(pieces[0].as_str()) {
        Some(v) => v,
        None => {
            return None;
        },
    };
    let b = match parse_octet(pieces[1].as_str()) {
        Some(v) => v,
        None => {
            return None;
        },
    };
    let c = match parse_octet(pieces[2].as_str()) {
        Some(v) => v,
        None => {
            return None;
        },
    };
    let d = match parse_octet(pieces[3].as_str()) {
        Some(v) => v,
        None => {
            return None;
        },
    };
    Some(Ipv4Address { a, b, c, d })
}

} // verus!

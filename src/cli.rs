use vstd::prelude::*;

use crate::text::{chars_of, string_of_range};

verus! {

/// Whether `c` is an ASCII decimal digit.
pub open spec fn is_digit(c: char) -> bool {
    '0' <= c <= '9'
}

/// The number that a string of decimal digits denotes.
pub open spec fn digits_value(d: Seq<char>) -> nat
    decreases d.len(),
{
    if d.len() == 0 {
        0
    } else {
        digits_value(d.drop_last()) * 10 + ((d.last() as u32) - ('0' as u32)) as nat
    }
}

/// `t` without one leading `+`.
pub open spec fn unsigned_part(t: Seq<char>) -> Seq<char> {
    if t.len() > 0 && t[0] == '+' {
        t.drop_first()
    } else {
        t
    }
}

/// Whether every character of `d` is a decimal digit.
pub open spec fn all_digits(d: Seq<char>) -> bool {
    forall|i: int| 0 <= i < d.len() ==> is_digit(#[trigger] d[i])
}

/// A port number as `u16`'s `FromStr` reads it: an optional `+`, then at least
/// one decimal digit, the value at most 65535.
pub open spec fn parse_u16(t: Seq<char>) -> Option<u16> {
    let d = unsigned_part(t);
    if d.len() > 0 && all_digits(d) && digits_value(d) <= 65535 {
        Some(digits_value(d) as u16)
    } else {
        None
    }
}

/// The first position at or after `i` that holds `c`, or the length of `s`.
pub open spec fn find_char(s: Seq<char>, i: nat, c: char) -> nat
    decreases s.len() - i,
{
    if i >= s.len() {
        s.len()
    } else if s[i as int] == c {
        i
    } else {
        find_char(s, i + 1, c)
    }
}

/// The last position that holds `c`, or -1.
pub open spec fn rfind_char(s: Seq<char>, c: char) -> int
    decreases s.len(),
{
    if s.len() == 0 {
        -1
    } else if s.last() == c {
        s.len() - 1
    } else {
        rfind_char(s.drop_last(), c)
    }
}

/// The host and port of a `HOST:PORT` argument, a bracketed IPv6 host
/// written `[HOST]:PORT`, or the reason it is refused.
pub open spec fn host_port(s: Seq<char>) -> Result<(Seq<char>, u16), Seq<char>> {
    if s.len() > 0 && s[0] == '[' {
        let e = find_char(s, 1, ']');
        if e < s.len() {
            let remain = s.subrange((e + 1) as int, s.len() as int);
            if remain.len() > 0 && remain[0] == ':' {
                match parse_u16(remain.drop_first()) {
                    Some(p) => Ok((s.subrange(1, e as int), p)),
                    None => Err("invalid port"@),
                }
            } else {
                Err("missing port after IPv6 host"@)
            }
        } else {
            Err("invalid bracketed IPv6 address"@)
        }
    } else {
        let c = rfind_char(s, ':');
        if c < 0 {
            Err("missing host"@)
        } else {
            match parse_u16(s.subrange(c + 1, s.len() as int)) {
                Some(p) => Ok((s.subrange(0, c), p)),
                None => Err("invalid port"@),
            }
        }
    }
}

/// Reads `v[from..to]` as a port number.
fn parse_port(v: &Vec<char>, from: usize, to: usize) -> (r: Option<u16>)
    requires
        from <= to <= v@.len(),
    ensures
        r == parse_u16(v@.subrange(from as int, to as int)),
{
    let ghost t = v@.subrange(from as int, to as int);
    let mut start = from;
    if from < to && v[from] == '+' {
        start = from + 1;
    }
    let ghost d = v@.subrange(start as int, to as int);
    assert(start > from ==> d =~= t.drop_first());
    assert(start == from ==> d =~= t);
    if start == to {
        return None;
    }
    let mut acc: u32 = 0;
    let mut too_big = false;
    let mut i = start;
    while i < to
        invariant
            from <= start <= i <= to <= v@.len(),
            d == v@.subrange(start as int, to as int),
            t == v@.subrange(from as int, to as int),
            d == unsigned_part(t),
            d.len() > 0,
            forall|j: int| start <= j < i ==> is_digit(#[trigger] v@[j]),
            too_big ==> digits_value(d.take(i - start)) > 65535,
            !too_big ==> acc == digits_value(d.take(i - start)) && acc <= 65535,
        decreases to - i,
    {
        let c = v[i];
        if !('0' <= c && c <= '9') {
            assert(!is_digit(d[i - start]));
            return None;
        }
        assert(d.take(i + 1 - start).drop_last() =~= d.take(i - start));
        if !too_big {
            let next = acc * 10 + ((c as u32) - ('0' as u32));
            if next > 65535 {
                too_big = true;
            } else {
                acc = next;
            }
        }
        i += 1;
    }
    assert(d.take(to - start) =~= d);
    assert forall|j: int| 0 <= j < d.len() implies is_digit(#[trigger] d[j]) by {
        assert(d[j] == v@[start + j]);
    }
    if too_big {
        None
    } else {
        Some(acc as u16)
    }
}

/// Reads a `HOST:PORT` argument; a bracketed IPv6 host is written `[HOST]:PORT`.
pub fn parse_host_port(s: &str) -> (r: Result<(String, u16), String>)
    ensures
        match r {
            Ok((h, p)) => host_port(s@) == Ok::<(Seq<char>, u16), Seq<char>>((h@, p)),
            Err(e) => host_port(s@) == Err::<(Seq<char>, u16), Seq<char>>(e@),
        },
{
    let v = chars_of(s);
    let n = v.len();
    if n > 0 && v[0] == '[' {
        let mut e: usize = 1;
        while e < n && v[e] != ']'
            invariant
                1 <= e <= n,
                n == v@.len(),
                v@ == s@,
                find_char(s@, 1, ']') == find_char(s@, e as nat, ']'),
            decreases n - e,
        {
            e += 1;
        }
        if e < n {
            let ghost remain = s@.subrange(e + 1, n as int);
            if e + 1 < n && v[e + 1] == ':' {
                assert(remain.drop_first() =~= s@.subrange(e + 2, n as int));
                match parse_port(&v, e + 2, n) {
                    Some(p) => Ok((string_of_range(&v, 1, e), p)),
                    None => Err(String::from_str("invalid port")),
                }
            } else {
                Err(String::from_str("missing port after IPv6 host"))
            }
        } else {
            Err(String::from_str("invalid bracketed IPv6 address"))
        }
    } else {
        let mut c = n;
        assert(s@.take(n as int) =~= s@);
        while c > 0 && v[c - 1] != ':'
            invariant
                c <= n,
                n == v@.len(),
                v@ == s@,
                rfind_char(s@, ':') == rfind_char(s@.take(c as int), ':'),
            decreases c,
        {
            assert(s@.take(c as int).drop_last() =~= s@.take(c - 1));
            c -= 1;
        }
        if c == 0 {
            assert(s@.take(0) =~= Seq::<char>::empty());
            Err(String::from_str("missing host"))
        } else {
            let colon = c - 1;
            assert(rfind_char(s@, ':') == colon);
            match parse_port(&v, colon + 1, n) {
                Some(p) => Ok((string_of_range(&v, 0, colon), p)),
                None => Err(String::from_str("invalid port")),
            }
        }
    }
}

} // verus!

//! IPv4 addresses and their strict dotted-quad text form.
//!
//! An address renders to exactly one string (no leading zeros), so parsing
//! is specified as the inverse of rendering: `parse_ipv4` succeeds exactly
//! on the strings some address renders to, and returns that address.

use vstd::prelude::*;
use vstd::string::StrSliceExecFns;

verus! {

/// An IPv4 address as four octets.
#[derive(Copy, Clone, Debug, PartialEq, Eq, Structural)]
pub struct Ipv4 {
    pub a: u8,
    pub b: u8,
    pub c: u8,
    pub d: u8,
}

/// A decimal digit character.
pub open spec fn is_digit(c: char) -> bool {
    '0' as int <= c as int && c as int <= '9' as int
}

/// The numeric value of a decimal digit character.
pub open spec fn digit_val(c: char) -> int {
    c as int - '0' as int
}

/// The character for one decimal digit value.
pub open spec fn digit_char(v: int) -> char {
    if v == 0 {
        '0'
    } else if v == 1 {
        '1'
    } else if v == 2 {
        '2'
    } else if v == 3 {
        '3'
    } else if v == 4 {
        '4'
    } else if v == 5 {
        '5'
    } else if v == 6 {
        '6'
    } else if v == 7 {
        '7'
    } else if v == 8 {
        '8'
    } else {
        '9'
    }
}

/// The decimal rendering of an octet value, without leading zeros, so
/// that every value in 0..=255 has exactly one rendering.
pub open spec fn octet_chars(v: int) -> Seq<char> {
    if v < 10 {
        seq![digit_char(v)]
    } else if v < 100 {
        seq![digit_char(v / 10), digit_char(v % 10)]
    } else {
        seq![digit_char(v / 100), digit_char((v / 10) % 10), digit_char(v % 10)]
    }
}

/// The dotted-quad rendering of an address.
pub open spec fn ipv4_chars(ip: Ipv4) -> Seq<char> {
    octet_chars(ip.a as int) + seq!['.'] + octet_chars(ip.b as int) + seq!['.'] + octet_chars(
        ip.c as int,
    ) + seq!['.'] + octet_chars(ip.d as int)
}

/// The address a character sequence denotes, if it is a strict dotted
/// quad: four decimal octets, each at most 255, no leading zeros.
pub open spec fn spec_parse_ipv4(s: Seq<char>) -> Option<Ipv4> {
    if exists|ip: Ipv4| s == ipv4_chars(ip) {
        Some(choose|ip: Ipv4| s == ipv4_chars(ip))
    } else {
        None
    }
}

/// The rendering of octet value `v` stands at `pos` in `s` and is not
/// followed by a further digit.
pub open spec fn octet_at(s: Seq<char>, pos: int, v: u8) -> bool {
    let end = pos + octet_chars(v as int).len();
    &&& 0 <= pos
    &&& end <= s.len()
    &&& s.subrange(pos, end) == octet_chars(v as int)
    &&& (end == s.len() || !is_digit(s[end]))
}

proof fn lemma_digit_char(v: int)
    requires
        0 <= v <= 9,
    ensures
        is_digit(digit_char(v)),
        digit_val(digit_char(v)) == v,
{
}

proof fn lemma_digit_char_of_val(c: char)
    requires
        is_digit(c),
    ensures
        digit_char(digit_val(c)) == c,
{
}

/// The shape of an octet rendering: one to three digit characters, a
/// leading zero only for the value zero, and the digits give the value back.
proof fn lemma_octet_chars_basic(v: u8)
    ensures
        1 <= octet_chars(v as int).len() <= 3,
        octet_chars(v as int).len() == 1 <==> v < 10,
        octet_chars(v as int).len() == 2 <==> 10 <= v < 100,
        octet_chars(v as int).len() == 3 <==> 100 <= v,
        forall|i: int|
            0 <= i < octet_chars(v as int).len() ==> is_digit(#[trigger] octet_chars(v as int)[i]),
        (octet_chars(v as int)[0] == '0') <==> v == 0,
        octet_chars(v as int).len() == 1 ==> digit_val(octet_chars(v as int)[0]) == v,
        octet_chars(v as int).len() == 2 ==> 10 * digit_val(octet_chars(v as int)[0]) + digit_val(
            octet_chars(v as int)[1],
        ) == v,
        octet_chars(v as int).len() == 3 ==> 100 * digit_val(octet_chars(v as int)[0]) + 10
            * digit_val(octet_chars(v as int)[1]) + digit_val(octet_chars(v as int)[2]) == v,
{
    let vi = v as int;
    if vi < 10 {
        lemma_digit_char(vi);
    } else if vi < 100 {
        lemma_digit_char(vi / 10);
        lemma_digit_char(vi % 10);
        assert(10 * (vi / 10) + vi % 10 == vi);
        assert(1 <= vi / 10 <= 9);
    } else {
        lemma_digit_char(vi / 100);
        lemma_digit_char((vi / 10) % 10);
        lemma_digit_char(vi % 10);
        assert(1 <= vi / 100 <= 2);
        assert((vi / 10) / 10 == vi / 100) by (nonlinear_arith)
            requires
                100 <= vi <= 255,
        ;
        assert(10 * (vi / 10) + vi % 10 == vi);
        assert(10 * ((vi / 10) / 10) + (vi / 10) % 10 == vi / 10);
    }
}

/// At one position of a string, at most one octet rendering can stand.
proof fn lemma_octet_at_unique(s: Seq<char>, pos: int, x: u8, y: u8)
    requires
        octet_at(s, pos, x),
        octet_at(s, pos, y),
    ensures
        x == y,
{
    lemma_octet_chars_basic(x);
    lemma_octet_chars_basic(y);
    let ox = octet_chars(x as int);
    let oy = octet_chars(y as int);
    let lx = ox.len() as int;
    let ly = oy.len() as int;
    if lx == ly {
        assert(s.subrange(pos, pos + lx) == ox);
        assert(s.subrange(pos, pos + ly) == oy);
        assert(forall|i: int| 0 <= i < lx ==> ox[i] == oy[i]);
        if lx == 1 {
            assert(digit_val(ox[0]) == x && digit_val(oy[0]) == y);
        } else if lx == 2 {
            assert(10 * digit_val(ox[0]) + digit_val(ox[1]) == x);
            assert(10 * digit_val(oy[0]) + digit_val(oy[1]) == y);
        } else {
            assert(100 * digit_val(ox[0]) + 10 * digit_val(ox[1]) + digit_val(ox[2]) == x);
            assert(100 * digit_val(oy[0]) + 10 * digit_val(oy[1]) + digit_val(oy[2]) == y);
        }
    } else if lx < ly {
        assert(s.subrange(pos, pos + ly)[lx] == s[pos + lx]);
        assert(is_digit(s[pos + lx]));
        assert(pos + lx < s.len());
        assert(false);
    } else {
        assert(s.subrange(pos, pos + lx)[ly] == s[pos + ly]);
        assert(is_digit(s[pos + ly]));
        assert(pos + ly < s.len());
        assert(false);
    }
}

/// Where each octet rendering and each separator stands inside a
/// rendered address.
proof fn lemma_ipv4_chars_structure(ip: Ipv4)
    ensures
        ({
            let t = ipv4_chars(ip);
            let la = octet_chars(ip.a as int).len() as int;
            let lb = octet_chars(ip.b as int).len() as int;
            let lc = octet_chars(ip.c as int).len() as int;
            let ld = octet_chars(ip.d as int).len() as int;
            &&& t.len() == la + lb + lc + ld + 3
            &&& octet_at(t, 0, ip.a)
            &&& t[la] == '.'
            &&& octet_at(t, la + 1, ip.b)
            &&& t[la + 1 + lb] == '.'
            &&& octet_at(t, la + 1 + lb + 1, ip.c)
            &&& t[la + 1 + lb + 1 + lc] == '.'
            &&& octet_at(t, la + 1 + lb + 1 + lc + 1, ip.d)
        }),
{
    lemma_octet_chars_basic(ip.a);
    lemma_octet_chars_basic(ip.b);
    lemma_octet_chars_basic(ip.c);
    lemma_octet_chars_basic(ip.d);
    let t = ipv4_chars(ip);
    let la = octet_chars(ip.a as int).len() as int;
    let lb = octet_chars(ip.b as int).len() as int;
    let lc = octet_chars(ip.c as int).len() as int;
    let ld = octet_chars(ip.d as int).len() as int;
    assert(t.subrange(0, la) =~= octet_chars(ip.a as int));
    assert(t.subrange(la + 1, la + 1 + lb) =~= octet_chars(ip.b as int));
    assert(t.subrange(la + 1 + lb + 1, la + 1 + lb + 1 + lc) =~= octet_chars(ip.c as int));
    assert(t.subrange(la + 1 + lb + 1 + lc + 1, la + 1 + lb + 1 + lc + 1 + ld) =~= octet_chars(
        ip.d as int,
    ));
    assert(t[la] == '.');
    assert(t[la + 1 + lb] == '.');
    assert(t[la + 1 + lb + 1 + lc] == '.');
}

/// Two different addresses never render to the same string.
proof fn lemma_ipv4_chars_injective(ip1: Ipv4, ip2: Ipv4)
    requires
        ipv4_chars(ip1) == ipv4_chars(ip2),
    ensures
        ip1 == ip2,
{
    lemma_ipv4_chars_structure(ip1);
    lemma_ipv4_chars_structure(ip2);
    let t = ipv4_chars(ip1);
    lemma_octet_at_unique(t, 0, ip1.a, ip2.a);
    lemma_octet_chars_basic(ip1.a);
    let la = octet_chars(ip1.a as int).len() as int;
    lemma_octet_at_unique(t, la + 1, ip1.b, ip2.b);
    lemma_octet_chars_basic(ip1.b);
    let lb = octet_chars(ip1.b as int).len() as int;
    lemma_octet_at_unique(t, la + 1 + lb + 1, ip1.c, ip2.c);
    lemma_octet_chars_basic(ip1.c);
    let lc = octet_chars(ip1.c as int).len() as int;
    lemma_octet_at_unique(t, la + 1 + lb + 1 + lc + 1, ip1.d, ip2.d);
}

/// The digit value of a character, if it is a digit.
fn digit_of(c: char) -> (r: Option<u8>)
    ensures
        r is Some <==> is_digit(c),
        r is Some ==> r->0 as int == digit_val(c) && digit_char(digit_val(c)) == c,
{
    let u = c as u32;
    if 48 <= u && u <= 57 {
        proof {
            lemma_digit_char_of_val(c);
        }
        Some((u - 48) as u8)
    } else {
        None
    }
}

/// Reads one octet of a dotted quad at position `pos`: a digit run of
/// one to three characters, stopping after a single leading zero, and
/// rejecting values above 255.
fn parse_octet(s: &str, pos: usize) -> (r: Option<(u8, usize)>)
    requires
        pos <= s@.len(),
    ensures
        r matches Some(p) ==> {
            &&& pos < p.1 <= s@.len()
            &&& p.1 - pos == octet_chars(p.0 as int).len()
            &&& s@.subrange(pos as int, p.1 as int) == octet_chars(p.0 as int)
            &&& forall|x: u8|
                #[trigger] octet_at(s@, pos as int, x) ==> x == p.0 && pos + octet_chars(
                    x as int,
                ).len() == p.1
        },
        r is None ==> forall|x: u8| !(#[trigger] octet_at(s@, pos as int, x)),
{
    let n = s.unicode_len();
    if pos >= n {
        proof {
            assert forall|x: u8| !(#[trigger] octet_at(s@, pos as int, x)) by {
                lemma_octet_chars_basic(x);
            }
        }
        return None;
    }
    let c0 = s.get_char(pos);
    let d0 = match digit_of(c0) {
        Some(d) => d,
        None => {
            proof {
                assert forall|x: u8| !(#[trigger] octet_at(s@, pos as int, x)) by {
                    lemma_octet_chars_basic(x);
                    if octet_at(s@, pos as int, x) {
                        let ox = octet_chars(x as int);
                        assert(s@.subrange(pos as int, pos + ox.len())[0] == s@[pos as int]);
                        assert(is_digit(c0));
                    }
                }
            }
            return None;
        },
    };
    if d0 == 0 {
        proof {
            lemma_octet_chars_basic(0u8);
            assert(s@.subrange(pos as int, pos as int + 1) =~= octet_chars(0));
            assert forall|x: u8| #[trigger]
                octet_at(s@, pos as int, x) implies x == 0u8 && pos + octet_chars(x as int).len()
                == pos + 1 by {
                lemma_octet_chars_basic(x);
                let ox = octet_chars(x as int);
                assert(s@.subrange(pos as int, pos + ox.len())[0] == s@[pos as int]);
                assert(ox[0] == '0');
            }
        }
        return Some((0, pos + 1));
    }
    // first digit is 1..=9
    let one = (d0, pos + 1);
    if pos + 1 >= n {
        proof {
            lemma_one_digit(s@, pos as int, d0);
        }
        return Some(one);
    }
    let c1 = s.get_char(pos + 1);
    let d1 = match digit_of(c1) {
        Some(d) => d,
        None => {
            proof {
                lemma_one_digit(s@, pos as int, d0);
            }
            return Some(one);
        },
    };
    let two = (10 * d0 + d1, pos + 2);
    if pos + 2 >= n {
        proof {
            lemma_two_digits(s@, pos as int, d0, d1);
        }
        return Some(two);
    }
    let c2 = s.get_char(pos + 2);
    let d2 = match digit_of(c2) {
        Some(d) => d,
        None => {
            proof {
                lemma_two_digits(s@, pos as int, d0, d1);
            }
            return Some(two);
        },
    };
    let v: u32 = 100 * (d0 as u32) + 10 * (d1 as u32) + (d2 as u32);
    if v > 255 {
        proof {
            assert forall|x: u8| !(#[trigger] octet_at(s@, pos as int, x)) by {
                if octet_at(s@, pos as int, x) {
                    lemma_octet_chars_basic(x);
                    let ox = octet_chars(x as int);
                    let lx = ox.len() as int;
                    assert forall|i: int| 0 <= i < lx implies s@[pos + i] == ox[i] by {
                        assert(s@.subrange(pos as int, pos + lx)[i] == s@[pos + i]);
                    }
                    if lx == 1 || lx == 2 {
                        assert(is_digit(s@[pos + lx]));
                        assert(false);
                    } else {
                        assert(100 * digit_val(ox[0]) + 10 * digit_val(ox[1]) + digit_val(ox[2])
                            == x);
                        assert(x as int == v as int);
                        assert(false);
                    }
                }
            }
        }
        return None;
    }
    let r = (v as u8, pos + 3);
    proof {
        lemma_octet_chars_basic(r.0);
        let ov = octet_chars(r.0 as int);
        assert(digit_val(ov[0]) == d0 && digit_val(ov[1]) == d1 && digit_val(ov[2]) == d2);
        lemma_digit_char_of_val(c0);
        lemma_digit_char_of_val(c1);
        lemma_digit_char_of_val(c2);
        lemma_digit_char_of_val(ov[0]);
        lemma_digit_char_of_val(ov[1]);
        lemma_digit_char_of_val(ov[2]);
        assert(s@.subrange(pos as int, pos as int + 3) =~= ov);
        assert forall|x: u8| #[trigger]
            octet_at(s@, pos as int, x) implies x == r.0 && pos + octet_chars(x as int).len()
            == pos + 3 by {
            lemma_octet_chars_basic(x);
            let ox = octet_chars(x as int);
            let lx = ox.len() as int;
            assert forall|i: int| 0 <= i < lx implies s@[pos + i] == ox[i] by {
                assert(s@.subrange(pos as int, pos + lx)[i] == s@[pos + i]);
            }
            if lx == 1 || lx == 2 {
                assert(is_digit(s@[pos + lx]));
                assert(false);
            } else {
                assert(100 * digit_val(ox[0]) + 10 * digit_val(ox[1]) + digit_val(ox[2]) == x);
            }
        }
    }
    Some(r)
}

/// The characters at `pos` form a single digit in 1..=9 followed by a
/// non-digit or the end: exactly the one-digit octet renderings.
proof fn lemma_one_digit(s: Seq<char>, pos: int, d0: u8)
    requires
        0 <= pos < s.len(),
        is_digit(s[pos]),
        digit_val(s[pos]) == d0,
        1 <= d0 <= 9,
        pos + 1 == s.len() || !is_digit(s[pos + 1]),
    ensures
        s.subrange(pos, pos + 1) == octet_chars(d0 as int),
        forall|x: u8|
            #[trigger] octet_at(s, pos, x) ==> x == d0 && pos + octet_chars(x as int).len() == pos
                + 1,
{
    lemma_octet_chars_basic(d0);
    lemma_digit_char_of_val(s[pos]);
    assert(s.subrange(pos, pos + 1) =~= octet_chars(d0 as int));
    assert(octet_at(s, pos, d0));
    assert forall|x: u8| #[trigger] octet_at(s, pos, x) implies x == d0 && pos + octet_chars(
        x as int,
    ).len() == pos + 1 by {
        lemma_octet_at_unique(s, pos, x, d0);
    }
}

/// The characters at `pos` form two digits without a leading zero,
/// followed by a non-digit or the end: exactly the two-digit renderings.
proof fn lemma_two_digits(s: Seq<char>, pos: int, d0: u8, d1: u8)
    requires
        0 <= pos,
        pos + 2 <= s.len(),
        is_digit(s[pos]),
        is_digit(s[pos + 1]),
        digit_val(s[pos]) == d0,
        digit_val(s[pos + 1]) == d1,
        1 <= d0 <= 9,
        0 <= d1 <= 9,
        pos + 2 == s.len() || !is_digit(s[pos + 2]),
    ensures
        s.subrange(pos, pos + 2) == octet_chars(10 * d0 + d1),
        forall|x: u8|
            #[trigger] octet_at(s, pos, x) ==> x as int == 10 * d0 + d1 && pos + octet_chars(
                x as int,
            ).len() == pos + 2,
{
    let v = (10 * d0 + d1) as u8;
    lemma_octet_chars_basic(v);
    let ov = octet_chars(v as int);
    assert(digit_val(ov[0]) == d0 && digit_val(ov[1]) == d1);
    lemma_digit_char_of_val(s[pos]);
    lemma_digit_char_of_val(s[pos + 1]);
    lemma_digit_char_of_val(ov[0]);
    lemma_digit_char_of_val(ov[1]);
    assert(s.subrange(pos, pos + 2) =~= ov);
    assert(octet_at(s, pos, v));
    assert forall|x: u8| #[trigger] octet_at(s, pos, x) implies x as int == 10 * d0 + d1 && pos
        + octet_chars(x as int).len() == pos + 2 by {
        lemma_octet_at_unique(s, pos, x, v);
    }
}

/// Parses a strict dotted quad: four decimal octets separated by dots,
/// each at most 255, with no leading zeros and nothing else around them.
#[verifier::rlimit(100)]
pub fn parse_ipv4(s: &str) -> (r: Option<Ipv4>)
    ensures
        r matches Some(ip) ==> s@ == ipv4_chars(ip),
        r is None ==> forall|ip: Ipv4| s@ != ipv4_chars(ip),
        r == spec_parse_ipv4(s@),
{
    let n = s.unicode_len();
    let (a, p1) = match parse_octet(s, 0) {
        Some(x) => x,
        None => {
            proof {
                assert forall|ip: Ipv4| s@ != ipv4_chars(ip) by {
                    if s@ == ipv4_chars(ip) {
                        lemma_ipv4_chars_structure(ip);
                        assert(octet_at(s@, 0, ip.a));
                    }
                }
            }
            return None;
        },
    };
    if p1 >= n || s.get_char(p1) != '.' {
        proof {
            assert forall|ip: Ipv4| s@ != ipv4_chars(ip) by {
                if s@ == ipv4_chars(ip) {
                    lemma_ipv4_chars_structure(ip);
                    assert(octet_at(s@, 0, ip.a));
                }
            }
        }
        return None;
    }
    let (b, p2) = match parse_octet(s, p1 + 1) {
        Some(x) => x,
        None => {
            proof {
                assert forall|ip: Ipv4| s@ != ipv4_chars(ip) by {
                    if s@ == ipv4_chars(ip) {
                        lemma_ipv4_chars_structure(ip);
                        assert(octet_at(s@, 0, ip.a));
                        assert(octet_at(s@, p1 + 1, ip.b));
                    }
                }
            }
            return None;
        },
    };
    if p2 >= n || s.get_char(p2) != '.' {
        proof {
            assert forall|ip: Ipv4| s@ != ipv4_chars(ip) by {
                if s@ == ipv4_chars(ip) {
                    lemma_ipv4_chars_structure(ip);
                    assert(octet_at(s@, 0, ip.a));
                    assert(octet_at(s@, p1 + 1, ip.b));
                }
            }
        }
        return None;
    }
    let (c, p3) = match parse_octet(s, p2 + 1) {
        Some(x) => x,
        None => {
            proof {
                assert forall|ip: Ipv4| s@ != ipv4_chars(ip) by {
                    if s@ == ipv4_chars(ip) {
                        lemma_ipv4_chars_structure(ip);
                        assert(octet_at(s@, 0, ip.a));
                        assert(octet_at(s@, p1 + 1, ip.b));
                        assert(octet_at(s@, p2 + 1, ip.c));
                    }
                }
            }
            return None;
        },
    };
    if p3 >= n || s.get_char(p3) != '.' {
        proof {
            assert forall|ip: Ipv4| s@ != ipv4_chars(ip) by {
                if s@ == ipv4_chars(ip) {
                    lemma_ipv4_chars_structure(ip);
                    assert(octet_at(s@, 0, ip.a));
                    assert(octet_at(s@, p1 + 1, ip.b));
                    assert(octet_at(s@, p2 + 1, ip.c));
                }
            }
        }
        return None;
    }
    let (d, p4) = match parse_octet(s, p3 + 1) {
        Some(x) => x,
        None => {
            proof {
                assert forall|ip: Ipv4| s@ != ipv4_chars(ip) by {
                    if s@ == ipv4_chars(ip) {
                        lemma_ipv4_chars_structure(ip);
                        assert(octet_at(s@, 0, ip.a));
                        assert(octet_at(s@, p1 + 1, ip.b));
                        assert(octet_at(s@, p2 + 1, ip.c));
                        assert(octet_at(s@, p3 + 1, ip.d));
                    }
                }
            }
            return None;
        },
    };
    if p4 != n {
        proof {
            assert forall|ip: Ipv4| s@ != ipv4_chars(ip) by {
                if s@ == ipv4_chars(ip) {
                    lemma_ipv4_chars_structure(ip);
                    assert(octet_at(s@, 0, ip.a));
                    assert(octet_at(s@, p1 + 1, ip.b));
                    assert(octet_at(s@, p2 + 1, ip.c));
                    assert(octet_at(s@, p3 + 1, ip.d));
                }
            }
        }
        return None;
    }
    let ip = Ipv4 { a, b, c, d };
    proof {
        let t = ipv4_chars(ip);
        lemma_octet_chars_basic(a);
        lemma_octet_chars_basic(b);
        lemma_octet_chars_basic(c);
        lemma_octet_chars_basic(d);
        assert forall|i: int| 0 <= i < s@.len() implies s@[i] == t[i] by {
            if i < p1 {
                assert(s@.subrange(0, p1 as int)[i] == s@[i]);
            } else if i == p1 {
            } else if i < p2 {
                assert(s@.subrange(p1 + 1, p2 as int)[i - p1 - 1] == s@[i]);
            } else if i == p2 {
            } else if i < p3 {
                assert(s@.subrange(p2 + 1, p3 as int)[i - p2 - 1] == s@[i]);
            } else if i == p3 {
            } else {
                assert(s@.subrange(p3 + 1, p4 as int)[i - p3 - 1] == s@[i]);
            }
        }
        assert(s@ =~= t);
        assert(spec_parse_ipv4(s@) == Some(ip)) by {
            let w = choose|w: Ipv4| s@ == ipv4_chars(w);
            lemma_ipv4_chars_injective(w, ip);
        }
    }
    Some(ip)
}

} // verus!

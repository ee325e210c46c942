//! IPv4 addresses as plain dotted-quad octets, with verified conversion
//! between an address and its canonical decimal text.

use vstd::prelude::*;
use vstd::string::StringExecFns;

verus! {

/// One IPv4 address, held as its four dotted-quad octets.
#[derive(Clone, Copy, PartialEq, Eq, Structural, Debug)]
pub struct Ipv4 {
    pub a: u8,
    pub b: u8,
    pub c: u8,
    pub d: u8,
}

/// The decimal digit character for a value below ten.
pub open spec fn digit_char(d: nat) -> char {
    ((('0' as u8) + d) as u8) as char
}

/// Whether a character is a decimal digit.
pub open spec fn is_digit(c: char) -> bool {
    '0' <= c && c <= '9'
}

/// The numeric value of a decimal digit character.
pub open spec fn digit_val(c: char) -> nat {
    ((c as u8) - ('0' as u8)) as nat
}

/// The canonical decimal digits of a number: no leading zeros,
/// a single "0" for zero itself.
pub open spec fn dec_digits(n: nat) -> Seq<char>
    decreases n,
{
    if n < 10 {
        seq![digit_char(n)]
    } else {
        dec_digits(n / 10).push(digit_char(n % 10))
    }
}

/// The canonical dotted-quad text of an address.
pub open spec fn ipv4_chars(x: Ipv4) -> Seq<char> {
    dec_digits(x.a as nat) + seq!['.'] + dec_digits(x.b as nat) + seq!['.'] + dec_digits(
        x.c as nat,
    ) + seq!['.'] + dec_digits(x.d as nat)
}

/// Shape facts about canonical decimal digits: they are digits,
/// never empty, and carry no leading zero.
pub proof fn lemma_dec_digits_shape(n: nat)
    ensures
        1 <= dec_digits(n).len(),
        forall|i: int| 0 <= i < dec_digits(n).len() ==> is_digit(#[trigger] dec_digits(n)[i]),
        n < 10 ==> dec_digits(n).len() == 1,
        n < 100 ==> dec_digits(n).len() <= 2,
        n < 1000 ==> dec_digits(n).len() <= 3,
        dec_digits(n)[0] == '0' ==> n == 0,
    decreases n,
{
    if n < 10 {
    } else {
        lemma_dec_digits_shape(n / 10);
    }
}

/// The one-character string for a decimal digit.
fn digit_str(d: u8) -> (r: &'static str)
    requires
        d < 10,
    ensures
        r@ == seq![digit_char(d as nat)],
{
    match d {
        0 => {
            proof {
                reveal_strlit("0");
                assert("0"@ =~= seq![digit_char(0)]);
            }
            "0"
        },
        1 => {
            proof {
                reveal_strlit("1");
                assert("1"@ =~= seq![digit_char(1)]);
            }
            "1"
        },
        2 => {
            proof {
                reveal_strlit("2");
                assert("2"@ =~= seq![digit_char(2)]);
            }
            "2"
        },
        3 => {
            proof {
                reveal_strlit("3");
                assert("3"@ =~= seq![digit_char(3)]);
            }
            "3"
        },
        4 => {
            proof {
                reveal_strlit("4");
                assert("4"@ =~= seq![digit_char(4)]);
            }
            "4"
        },
        5 => {
            proof {
                reveal_strlit("5");
                assert("5"@ =~= seq![digit_char(5)]);
            }
            "5"
        },
        6 => {
            proof {
                reveal_strlit("6");
                assert("6"@ =~= seq![digit_char(6)]);
            }
            "6"
        },
        7 => {
            proof {
                reveal_strlit("7");
                assert("7"@ =~= seq![digit_char(7)]);
            }
            "7"
        },
        8 => {
            proof {
                reveal_strlit("8");
                assert("8"@ =~= seq![digit_char(8)]);
            }
            "8"
        },
        _ => {
            proof {
                reveal_strlit("9");
                assert("9"@ =~= seq![digit_char(9)]);
            }
            "9"
        },
    }
}

/// The canonical decimal string of a number.
pub fn dec_str(n: u64) -> (r: String)
    ensures
        r@ == dec_digits(n as nat),
    decreases n,
{
    if n < 10 {
        String::from_str(digit_str(n as u8))
    } else {
        let mut s = dec_str(n / 10);
        s.append(digit_str((n % 10) as u8));
        proof {
            assert(s@ =~= dec_digits(n as nat));
        }
        s
    }
}

/// A digit character determines its value and the value its character.
proof fn lemma_digit_char_val(c: char)
    requires
        is_digit(c),
    ensures
        digit_val(c) < 10,
        digit_char(digit_val(c)) == c,
{
}

/// Index of the first separator in canonical dotted-quad text.
spec fn dot1(x: Ipv4) -> int {
    dec_digits(x.a as nat).len() as int
}

/// Index of the second separator.
spec fn dot2(x: Ipv4) -> int {
    dot1(x) + 1 + dec_digits(x.b as nat).len()
}

/// Index of the third separator.
spec fn dot3(x: Ipv4) -> int {
    dot2(x) + 1 + dec_digits(x.c as nat).len()
}

/// Canonical dotted-quad text carries its dots exactly at the three
/// group boundaries, digits everywhere else, and its groups are the
/// four octets' canonical digits.
proof fn lemma_ipv4_chars_structure(x: Ipv4)
    ensures
        ipv4_chars(x).len() == dot3(x) + 1 + dec_digits(x.d as nat).len(),
        0 < dot1(x) < dot2(x) < dot3(x) < ipv4_chars(x).len() - 1,
        ipv4_chars(x)[dot1(x)] == '.',
        ipv4_chars(x)[dot2(x)] == '.',
        ipv4_chars(x)[dot3(x)] == '.',
        forall|j: int|
            0 <= j < ipv4_chars(x).len() && j != dot1(x) && j != dot2(x) && j != dot3(x)
                ==> is_digit(#[trigger] ipv4_chars(x)[j]),
        ipv4_chars(x).subrange(0, dot1(x)) == dec_digits(x.a as nat),
        ipv4_chars(x).subrange(dot1(x) + 1, dot2(x)) == dec_digits(x.b as nat),
        ipv4_chars(x).subrange(dot2(x) + 1, dot3(x)) == dec_digits(x.c as nat),
        ipv4_chars(x).subrange(dot3(x) + 1, ipv4_chars(x).len() as int) == dec_digits(x.d as nat),
{
    let s = ipv4_chars(x);
    lemma_dec_digits_shape(x.a as nat);
    lemma_dec_digits_shape(x.b as nat);
    lemma_dec_digits_shape(x.c as nat);
    lemma_dec_digits_shape(x.d as nat);
    assert(s.subrange(0, dot1(x)) =~= dec_digits(x.a as nat));
    assert(s.subrange(dot1(x) + 1, dot2(x)) =~= dec_digits(x.b as nat));
    assert(s.subrange(dot2(x) + 1, dot3(x)) =~= dec_digits(x.c as nat));
    assert(s.subrange(dot3(x) + 1, s.len() as int) =~= dec_digits(x.d as nat));
    assert forall|j: int|
        0 <= j < s.len() && j != dot1(x) && j != dot2(x) && j != dot3(x) implies is_digit(
        #[trigger] s[j],
    ) by {
        if j < dot1(x) {
            assert(s[j] == dec_digits(x.a as nat)[j]);
        } else if j < dot2(x) {
            assert(s[j] == dec_digits(x.b as nat)[j - dot1(x) - 1]);
        } else if j < dot3(x) {
            assert(s[j] == dec_digits(x.c as nat)[j - dot2(x) - 1]);
        } else {
            assert(s[j] == dec_digits(x.d as nat)[j - dot3(x) - 1]);
        }
    }
}

/// Finds where the group that starts at `start` ends: at the next dot,
/// or at the end of the text.
fn group_end(s: &str, start: usize) -> (e: usize)
    requires
        start <= s@.len(),
    ensures
        start <= e <= s@.len(),
        forall|j: int| start <= j < e ==> s@[j] != '.',
        e < s@.len() ==> s@[e as int] == '.',
{
    let n = s.unicode_len();
    let mut e = start;
    while e < n && s.get_char(e) != '.'
        invariant
            start <= e <= n,
            n == s@.len(),
            forall|j: int| start <= j < e ==> s@[j] != '.',
        decreases n - e,
    {
        e = e + 1;
    }
    e
}

/// Reads one character as a decimal digit.
fn digit_at(s: &str, i: usize) -> (r: Option<u8>)
    requires
        i < s@.len(),
    ensures
        match r {
            Some(d) => d < 10 && is_digit(s@[i as int]) && digit_val(s@[i as int]) == d,
            None => !is_digit(s@[i as int]),
        },
{
    let u = s.get_char(i) as u32;
    if 48 <= u && u <= 57 {
        Some((u - 48) as u8)
    } else {
        None
    }
}

/// Parses one octet group: accepts exactly the canonical decimal
/// digits of a value below 256.
fn parse_group(s: &str, from: usize, to: usize) -> (r: Option<u8>)
    requires
        from <= to <= s@.len(),
    ensures
        match r {
            Some(v) => s@.subrange(from as int, to as int) == dec_digits(v as nat),
            None => forall|v: u8|
                s@.subrange(from as int, to as int) != #[trigger] dec_digits(v as nat),
        },
{
    let g = Ghost(s@.subrange(from as int, to as int));
    let len = to - from;
    if len < 1 || len > 3 {
        proof {
            assert forall|v: u8| g@ != #[trigger] dec_digits(v as nat) by {
                lemma_dec_digits_shape(v as nat);
            }
        }
        return None;
    }
    let d0 = match digit_at(s, from) {
        Some(d) => d,
        None => {
            proof {
                assert forall|v: u8| g@ != #[trigger] dec_digits(v as nat) by {
                    lemma_dec_digits_shape(v as nat);
                    assert(g@[0] == s@[from as int]);
                }
            }
            return None;
        },
    };
    if len == 1 {
        proof {
            lemma_digit_char_val(s@[from as int]);
            assert(g@ =~= dec_digits(d0 as nat));
        }
        return Some(d0);
    }
    if d0 == 0 {
        proof {
            assert forall|v: u8| g@ != #[trigger] dec_digits(v as nat) by {
                lemma_dec_digits_shape(v as nat);
                if g@ == dec_digits(v as nat) {
                    assert(dec_digits(v as nat)[0] == s@[from as int]);
                    assert(digit_val(s@[from as int]) == 0);
                    lemma_digit_char_val(s@[from as int]);
                    assert(v as nat == 0) by {
                        if v as nat >= 10 {
                            assert(dec_digits(v as nat)[0] != '0');
                        } else {
                            assert(dec_digits(v as nat)[0] == digit_char(v as nat));
                            assert(digit_char(v as nat) == digit_char(0));
                        }
                    }
                    assert(dec_digits(0).len() == 1);
                }
            }
        }
        return None;
    }
    let d1 = match digit_at(s, from + 1) {
        Some(d) => d,
        None => {
            proof {
                assert forall|v: u8| g@ != #[trigger] dec_digits(v as nat) by {
                    lemma_dec_digits_shape(v as nat);
                    assert(g@[1] == s@[from + 1]);
                }
            }
            return None;
        },
    };
    if len == 2 {
        let v = 10 * d0 + d1;
        proof {
            lemma_digit_char_val(s@[from as int]);
            lemma_digit_char_val(s@[from + 1]);
            assert((v as nat) / 10 == d0 as nat && (v as nat) % 10 == d1 as nat) by (nonlinear_arith)
                requires
                    d0 < 10,
                    d1 < 10,
                    v == 10 * d0 + d1,
            ;
            assert(dec_digits(v as nat) == dec_digits(d0 as nat).push(digit_char(d1 as nat)));
            assert(dec_digits(d0 as nat) == seq![digit_char(d0 as nat)]);
            assert(g@[0] == s@[from as int] && g@[1] == s@[from + 1]);
            assert(g@ =~= dec_digits(v as nat));
        }
        return Some(v);
    }
    let d2 = match digit_at(s, from + 2) {
        Some(d) => d,
        None => {
            proof {
                assert forall|v: u8| g@ != #[trigger] dec_digits(v as nat) by {
                    lemma_dec_digits_shape(v as nat);
                    assert(g@[2] == s@[from + 2]);
                }
            }
            return None;
        },
    };
    let big: u32 = 100 * (d0 as u32) + 10 * (d1 as u32) + (d2 as u32);
    if big > 255 {
        proof {
            assert forall|v: u8| g@ != #[trigger] dec_digits(v as nat) by {
                lemma_dec_digits_shape(v as nat);
                if g@ == dec_digits(v as nat) {
                    let n = v as nat;
                    assert(dec_digits(n).len() == 3);
                    assert(n >= 100) by {
                        if n < 10 {
                            assert(dec_digits(n).len() == 1);
                        } else if n < 100 {
                            assert(dec_digits(n) == dec_digits(n / 10).push(digit_char(n % 10)));
                            assert(dec_digits(n / 10).len() == 1);
                        }
                    }
                    assert(dec_digits(n) == dec_digits(n / 10).push(digit_char(n % 10)));
                    assert(dec_digits(n / 10) == dec_digits(n / 10 / 10).push(
                        digit_char(n / 10 % 10),
                    ));
                    assert(dec_digits(n / 10 / 10).len() == 1) by {
                        lemma_dec_digits_shape(n / 10 / 10);
                        assert(n / 10 / 10 < 10);
                    }
                    assert(g@[0] == digit_char(n / 10 / 10));
                    assert(g@[1] == digit_char(n / 10 % 10));
                    assert(g@[2] == digit_char(n % 10));
                    lemma_digit_char_val(s@[from as int]);
                    lemma_digit_char_val(s@[from + 1]);
                    lemma_digit_char_val(s@[from + 2]);
                    assert(n == 100 * (n / 10 / 10) + 10 * (n / 10 % 10) + n % 10)
                        by (nonlinear_arith)
                        requires
                            n < 1000,
                    ;
                    assert(n == big);
                }
            }
        }
        return None;
    }
    let v = big as u8;
    proof {
        lemma_digit_char_val(s@[from as int]);
        lemma_digit_char_val(s@[from + 1]);
        lemma_digit_char_val(s@[from + 2]);
        let n = v as nat;
        assert(n / 10 / 10 == d0 as nat && n / 10 % 10 == d1 as nat && n % 10 == d2 as nat)
            by (nonlinear_arith)
            requires
                d0 < 10,
                d1 < 10,
                d2 < 10,
                n == 100 * (d0 as nat) + 10 * (d1 as nat) + (d2 as nat),
        ;
        assert(n >= 100 && n / 10 >= 10) by (nonlinear_arith)
            requires
                1 <= d0 < 10,
                d1 < 10,
                d2 < 10,
                n == 100 * (d0 as nat) + 10 * (d1 as nat) + (d2 as nat),
        ;
        assert(dec_digits(n) == dec_digits(n / 10).push(digit_char(n % 10)));
        assert(dec_digits(n / 10) == dec_digits(n / 10 / 10).push(digit_char(n / 10 % 10)));
        assert(dec_digits(d0 as nat) == seq![digit_char(d0 as nat)]);
        assert(g@[0] == s@[from as int] && g@[1] == s@[from + 1] && g@[2] == s@[from + 2]);
        assert(g@ =~= dec_digits(n));
    }
    Some(v)
}

/// Parses dotted-quad text. Exactly the canonical texts are accepted:
/// four decimal groups below 256 with no leading zeros, joined by
/// single dots — precisely the strings that `format_ipv4` produces.
pub fn parse_ipv4(s: &str) -> (r: Option<Ipv4>)
    ensures
        match r {
            Some(x) => s@ == ipv4_chars(x),
            None => forall|x: Ipv4| s@ != ipv4_chars(x),
        },
{
    let n = s.unicode_len();
    let e0 = group_end(s, 0);
    let e1 = if e0 < n {
        group_end(s, e0 + 1)
    } else {
        n
    };
    let e2 = if e1 < n {
        group_end(s, e1 + 1)
    } else {
        n
    };
    let e3 = if e2 < n {
        group_end(s, e2 + 1)
    } else {
        n
    };
    if e0 == n || e1 == n || e2 == n || e3 < n {
        proof {
            assert forall|x: Ipv4| s@ != ipv4_chars(x) by {
                lemma_ipv4_chars_structure(x);
                if s@ == ipv4_chars(x) {
                    lemma_dots_align(s@, e0 as int, e1 as int, e2 as int, e3 as int, x);
                }
            }
        }
        return None;
    }
    let oa = parse_group(s, 0, e0);
    let ob = parse_group(s, e0 + 1, e1);
    let oc = parse_group(s, e1 + 1, e2);
    let od = parse_group(s, e2 + 1, e3);
    match (oa, ob, oc, od) {
        (Some(a), Some(b), Some(c), Some(d)) => {
            let x = Ipv4 { a, b, c, d };
            proof {
                lemma_ipv4_chars_structure(x);
                assert(s@ =~= ipv4_chars(x));
            }
            Some(x)
        },
        _ => {
            proof {
                assert forall|x: Ipv4| s@ != ipv4_chars(x) by {
                    lemma_ipv4_chars_structure(x);
                    if s@ == ipv4_chars(x) {
                        lemma_dots_align(s@, e0 as int, e1 as int, e2 as int, e3 as int, x);
                    }
                }
            }
            None
        },
    }
}

/// In text that is some address's canonical dotted-quad form, a scan
/// that stops only at dots must find exactly the three separators.
proof fn lemma_dots_align(t: Seq<char>, e0: int, e1: int, e2: int, e3: int, x: Ipv4)
    requires
        t == ipv4_chars(x),
        0 <= e0 <= t.len(),
        forall|j: int| 0 <= j < e0 ==> t[j] != '.',
        e0 < t.len() ==> t[e0] == '.',
        e0 < t.len() ==> e0 < e1 <= t.len(),
        e0 < t.len() ==> forall|j: int| e0 < j < e1 ==> t[j] != '.',
        e0 < t.len() && e1 < t.len() ==> t[e1] == '.',
        e1 < t.len() ==> e1 < e2 <= t.len(),
        e1 < t.len() ==> forall|j: int| e1 < j < e2 ==> t[j] != '.',
        e1 < t.len() && e2 < t.len() ==> t[e2] == '.',
        e2 < t.len() ==> e2 < e3 <= t.len(),
        e2 < t.len() ==> forall|j: int| e2 < j < e3 ==> t[j] != '.',
        e2 < t.len() && e3 < t.len() ==> t[e3] == '.',
    ensures
        e0 == dot1(x),
        e1 == dot2(x),
        e2 == dot3(x),
        e3 == t.len(),
{
    lemma_ipv4_chars_structure(x);
    assert(e0 == dot1(x)) by {
        if e0 < dot1(x) {
            assert(is_digit(t[e0]));
        } else if e0 > dot1(x) {
            assert(t[dot1(x)] != '.');
        }
    }
    assert(e1 == dot2(x)) by {
        if e1 < dot2(x) {
            assert(is_digit(t[e1]));
        } else if e1 > dot2(x) {
            assert(t[dot2(x)] != '.');
        }
    }
    assert(e2 == dot3(x)) by {
        if e2 < dot3(x) {
            assert(is_digit(t[e2]));
        } else if e2 > dot3(x) {
            assert(t[dot3(x)] != '.');
        }
    }
    assert(e3 == t.len()) by {
        if e3 < t.len() {
            assert(is_digit(t[e3]));
        }
    }
}

/// Canonical decimal digits determine their number.
proof fn lemma_dec_digits_injective(m: nat, n: nat)
    requires
        dec_digits(m) == dec_digits(n),
    ensures
        m == n,
    decreases m,
{
    lemma_dec_digits_shape(m);
    lemma_dec_digits_shape(n);
    if m < 10 && n < 10 {
        assert(dec_digits(m)[0] == dec_digits(n)[0]);
        assert(digit_val(digit_char(m)) == m && digit_val(digit_char(n)) == n);
    } else if m >= 10 && n >= 10 {
        assert(dec_digits(m).last() == digit_char(m % 10));
        assert(dec_digits(n).last() == digit_char(n % 10));
        assert(digit_val(digit_char(m % 10)) == m % 10 && digit_val(digit_char(n % 10)) == n % 10);
        assert(dec_digits(m).drop_last() =~= dec_digits(m / 10));
        assert(dec_digits(n).drop_last() =~= dec_digits(n / 10));
        lemma_dec_digits_injective(m / 10, n / 10);
        assert(m == 10 * (m / 10) + m % 10 && n == 10 * (n / 10) + n % 10);
    } else if m < 10 {
        assert(dec_digits(n).len() == dec_digits(n / 10).len() + 1);
        lemma_dec_digits_shape(n / 10);
    } else {
        assert(dec_digits(m).len() == dec_digits(m / 10).len() + 1);
        lemma_dec_digits_shape(m / 10);
    }
}

/// Distinct addresses have distinct canonical texts: parsing the text
/// that `format_ipv4` produced gives back exactly the address it was
/// produced from.
pub proof fn lemma_ipv4_chars_injective(x: Ipv4, y: Ipv4)
    requires
        ipv4_chars(x) == ipv4_chars(y),
    ensures
        x == y,
{
    lemma_ipv4_chars_structure(x);
    lemma_ipv4_chars_structure(y);
    let t = ipv4_chars(x);
    assert(dot1(x) == dot1(y)) by {
        if dot1(x) < dot1(y) {
            assert(is_digit(t[dot1(x)]));
        } else if dot1(y) < dot1(x) {
            assert(is_digit(t[dot1(y)]));
        }
    }
    assert(dot2(x) == dot2(y)) by {
        if dot2(x) < dot2(y) {
            assert(is_digit(t[dot2(x)]));
        } else if dot2(y) < dot2(x) {
            assert(is_digit(t[dot2(y)]));
        }
    }
    assert(dot3(x) == dot3(y)) by {
        if dot3(x) < dot3(y) {
            assert(is_digit(t[dot3(x)]));
        } else if dot3(y) < dot3(x) {
            assert(is_digit(t[dot3(y)]));
        }
    }
    lemma_dec_digits_injective(x.a as nat, y.a as nat);
    lemma_dec_digits_injective(x.b as nat, y.b as nat);
    lemma_dec_digits_injective(x.c as nat, y.c as nat);
    lemma_dec_digits_injective(x.d as nat, y.d as nat);
}

/// The canonical dotted-quad string of an address.
pub fn format_ipv4(x: Ipv4) -> (r: String)
    ensures
        r@ == ipv4_chars(x),
{
    let mut s = dec_str(x.a as u64);
    s.append(".");
    let sb = dec_str(x.b as u64);
    s.append(sb.as_str());
    s.append(".");
    let sc = dec_str(x.c as u64);
    s.append(sc.as_str());
    s.append(".");
    let sd = dec_str(x.d as u64);
    s.append(sd.as_str());
    proof {
        reveal_strlit(".");
        assert("."@ =~= seq!['.']);
        assert(s@ =~= ipv4_chars(x));
    }
    s
}

} // verus!

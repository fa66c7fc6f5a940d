//! A canonical textual record for bodies and systems, with a proved
//! round-trip: decoding an encoded value yields the value back.
//!
//! One body is written as
//! `<name-length>:<name> <mass> <radius> <px> <py> <pz> <vx> <vy> <vz>;`
//! with every number in decimal and the name length counted in characters,
//! so a name may contain any character at all.  A system is the
//! concatenation of its bodies' records, in index order.

use vstd::prelude::*;
use vstd::arithmetic::div_mod::{lemma_div_pos_is_pos, lemma_fundamental_div_mod};
use crate::body::{Body, BodyView};
use crate::system::{sys_wf, System};
use crate::units::{MASS_LIMIT, POS_LIMIT, VEL_LIMIT};
use crate::vec3::Vec3;

verus! {

/// The decimal digit character for `d` in `0..10`.
pub open spec fn digit_char(d: int) -> char {
    if d == 0 {
        '0'
    } else if d == 1 {
        '1'
    } else if d == 2 {
        '2'
    } else if d == 3 {
        '3'
    } else if d == 4 {
        '4'
    } else if d == 5 {
        '5'
    } else if d == 6 {
        '6'
    } else if d == 7 {
        '7'
    } else if d == 8 {
        '8'
    } else {
        '9'
    }
}

/// Whether `c` is a decimal digit.
pub open spec fn is_digit(c: char) -> bool {
    48 <= c as u32 <= 57
}

/// The numeric value of a digit character.
pub open spec fn digit_of(c: char) -> int {
    c as u32 - 48
}

/// The decimal digits of `n`, most significant first, no leading zeros
/// (except for `0` itself).
pub open spec fn dec_digits(n: nat) -> Seq<char>
    decreases n,
{
    if n < 10 {
        seq![digit_char(n as int)]
    } else {
        dec_digits(n / 10).push(digit_char((n % 10) as int))
    }
}

/// The decimal form of `v`, with a leading minus sign when negative.
pub open spec fn int_chars(v: int) -> Seq<char> {
    if v < 0 {
        seq!['-'] + dec_digits((-v) as nat)
    } else {
        dec_digits(v as nat)
    }
}

/// Parsing a digit run left to right with accumulator `acc`, stopping at the
/// first non-digit or the end, failing on 64-bit overflow.
pub open spec fn spec_parse_num(t: Seq<char>, i: int, acc: int) -> Option<(int, int)>
    decreases t.len() - i,
{
    if 0 <= i < t.len() && is_digit(t[i]) {
        let acc2 = acc * 10 + digit_of(t[i]);
        if acc2 <= u64::MAX {
            spec_parse_num(t, i + 1, acc2)
        } else {
            None
        }
    } else {
        Some((acc, i))
    }
}

/// A non-empty digit run starting at `i`, as a 64-bit value.
pub open spec fn spec_parse_u64(t: Seq<char>, i: int) -> Option<(int, int)> {
    if 0 <= i < t.len() && is_digit(t[i]) {
        spec_parse_num(t, i, 0)
    } else {
        None
    }
}

/// An optionally signed 64-bit value starting at `i`.
pub open spec fn spec_parse_i64(t: Seq<char>, i: int) -> Option<(int, int)> {
    if 0 <= i < t.len() && t[i] == '-' {
        match spec_parse_u64(t, i + 1) {
            Some((m, j)) => if m <= 0x8000_0000_0000_0000 {
                Some((-m, j))
            } else {
                None
            },
            None => None,
        }
    } else {
        match spec_parse_u64(t, i) {
            Some((m, j)) => if m <= i64::MAX {
                Some((m, j))
            } else {
                None
            },
            None => None,
        }
    }
}

/// Ten to the `k`.
pub open spec fn pow10(k: nat) -> nat
    decreases k,
{
    if k == 0 {
        1
    } else {
        10 * pow10((k - 1) as nat)
    }
}

/// The digit characters really are digits and carry their value.
proof fn lemma_digit_char_facts(d: int)
    requires
        0 <= d < 10,
    ensures
        is_digit(digit_char(d)),
        digit_of(digit_char(d)) == d,
{
    assert('0' as u32 == 48);
    assert('1' as u32 == 49);
    assert('2' as u32 == 50);
    assert('3' as u32 == 51);
    assert('4' as u32 == 52);
    assert('5' as u32 == 53);
    assert('6' as u32 == 54);
    assert('7' as u32 == 55);
    assert('8' as u32 == 56);
    assert('9' as u32 == 57);
}

/// A decimal rendering starts with a digit.
proof fn lemma_dec_digits_first(n: nat)
    ensures
        dec_digits(n).len() >= 1,
        is_digit(dec_digits(n)[0]),
    decreases n,
{
    if n < 10 {
        lemma_digit_char_facts(n as int);
    } else {
        lemma_dec_digits_first(n / 10);
    }
}

/// Walking the parser over the digits of `n` multiplies the accumulator by
/// the right power of ten and adds `n`.
proof fn lemma_parse_digits(t: Seq<char>, i: int, n: nat, acc: nat)
    requires
        0 <= i,
        i + dec_digits(n).len() <= t.len(),
        t.subrange(i, i + dec_digits(n).len() as int) == dec_digits(n),
        acc * pow10(dec_digits(n).len()) + n <= u64::MAX,
    ensures
        spec_parse_num(t, i, acc as int) == spec_parse_num(
            t,
            i + dec_digits(n).len() as int,
            (acc * pow10(dec_digits(n).len()) + n) as int,
        ),
    decreases n,
{
    let l = dec_digits(n).len() as int;
    if n < 10 {
        lemma_digit_char_facts(n as int);
        assert(t.subrange(i, i + 1)[0] == t[i]);
        assert(t[i] == digit_char(n as int));
        assert(pow10(1) == 10 * pow10(0));
        assert(acc * 10 + n == acc * pow10(1) + n) by (nonlinear_arith)
            requires pow10(1nat) == 10,
        ;
    } else {
        let m = n / 10;
        let d = n % 10;
        lemma_fundamental_div_mod(n as int, 10);
        lemma_div_pos_is_pos(n as int, 10);
        let lm = dec_digits(m).len() as int;
        assert(dec_digits(n) == dec_digits(m).push(digit_char(d as int)));
        assert(l == lm + 1);
        assert(t.subrange(i, i + lm) =~= dec_digits(m)) by {
            assert forall|k: int| 0 <= k < lm implies t.subrange(i, i + lm)[k] == dec_digits(m)[
                k
            ] by {
                assert(t.subrange(i, i + l)[k] == dec_digits(n)[k]);
            }
        }
        // The accumulator after the leading digits.
        let mid = acc * pow10(lm as nat) + m;
        assert(pow10(l as nat) == 10 * pow10(lm as nat));
        assert(mid * 10 + d == acc * pow10(l as nat) + n) by (nonlinear_arith)
            requires
                mid == acc * pow10(lm as nat) + m,
                pow10(l as nat) == 10 * pow10(lm as nat),
                n == 10 * m + d,
        ;
        assert(mid <= mid * 10 + d) by (nonlinear_arith)
            requires mid >= 0, d >= 0,
        ;
        lemma_parse_digits(t, i, m, acc);
        // One more digit: the last one.
        lemma_digit_char_facts(d as int);
        assert(t.subrange(i, i + l)[l - 1] == t[i + l - 1]);
        assert(t[i + l - 1] == digit_char(d as int));
        assert(spec_parse_num(t, i + lm, mid as int) == spec_parse_num(
            t,
            i + l,
            (mid * 10 + d) as int,
        ));
    }
}

/// Parsing a rendered 64-bit value, bounded on the right by a non-digit (or
/// the end), yields the value back and stops right after it.
proof fn lemma_parse_u64_at(t: Seq<char>, i: int, n: nat)
    requires
        0 <= i,
        i + dec_digits(n).len() <= t.len(),
        t.subrange(i, i + dec_digits(n).len() as int) == dec_digits(n),
        n <= u64::MAX,
        i + dec_digits(n).len() == t.len() || !is_digit(t[i + dec_digits(n).len()]),
    ensures
        spec_parse_u64(t, i) == Some((n as int, i + dec_digits(n).len() as int)),
{
    let l = dec_digits(n).len() as int;
    lemma_dec_digits_first(n);
    assert(t.subrange(i, i + l)[0] == t[i]);
    assert(is_digit(t[i]));
    assert(0 * pow10(dec_digits(n).len()) + n <= u64::MAX) by (nonlinear_arith)
        requires n <= u64::MAX,
    ;
    lemma_parse_digits(t, i, n, 0);
    assert(0 * pow10(dec_digits(n).len()) + n == n) by (nonlinear_arith);
    assert(spec_parse_num(t, i + l, n as int) == Some((n as int, i + l)));
}

/// Parsing a rendered signed value, bounded on the right by a non-digit,
/// yields the value back.
proof fn lemma_parse_i64_at(t: Seq<char>, i: int, v: int)
    requires
        0 <= i,
        i64::MIN <= v <= i64::MAX,
        i + int_chars(v).len() <= t.len(),
        t.subrange(i, i + int_chars(v).len() as int) == int_chars(v),
        i + int_chars(v).len() == t.len() || !is_digit(t[i + int_chars(v).len()]),
    ensures
        spec_parse_i64(t, i) == Some((v, i + int_chars(v).len() as int)),
{
    let l = int_chars(v).len() as int;
    if v < 0 {
        let m = (-v) as nat;
        let lm = dec_digits(m).len() as int;
        assert(int_chars(v) == seq!['-'] + dec_digits(m));
        assert(t.subrange(i, i + l)[0] == t[i]);
        assert(t[i] == '-');
        assert(t.subrange(i + 1, i + 1 + lm) =~= dec_digits(m)) by {
            assert forall|k: int| 0 <= k < lm implies t.subrange(i + 1, i + 1 + lm)[k]
                == dec_digits(m)[k] by {
                assert(t.subrange(i, i + l)[k + 1] == dec_digits(m)[k]);
            }
        }
        lemma_parse_u64_at(t, i + 1, m);
        assert(m <= 0x8000_0000_0000_0000);
    } else {
        assert(int_chars(v) == dec_digits(v as nat));
        assert(t.subrange(i, i + l)[0] == t[i]);
        lemma_dec_digits_first(v as nat);
        assert(is_digit(t[i]));
        assert('-' as u32 == 45);
        assert(t[i] != '-');
        lemma_parse_u64_at(t, i, v as nat);
    }
}

/// Append one decimal digit character.
fn push_digit(out: &mut String, d: u64)
    requires
        d < 10,
    ensures
        final(out)@ == old(out)@ + seq![digit_char(d as int)],
{
    if d == 0 {
        out.append("0");
        proof {
            reveal_strlit("0");
            assert("0"@ =~= seq![digit_char(0)]);
        }
    } else if d == 1 {
        out.append("1");
        proof {
            reveal_strlit("1");
            assert("1"@ =~= seq![digit_char(1)]);
        }
    } else if d == 2 {
        out.append("2");
        proof {
            reveal_strlit("2");
            assert("2"@ =~= seq![digit_char(2)]);
        }
    } else if d == 3 {
        out.append("3");
        proof {
            reveal_strlit("3");
            assert("3"@ =~= seq![digit_char(3)]);
        }
    } else if d == 4 {
        out.append("4");
        proof {
            reveal_strlit("4");
            assert("4"@ =~= seq![digit_char(4)]);
        }
    } else if d == 5 {
        out.append("5");
        proof {
            reveal_strlit("5");
            assert("5"@ =~= seq![digit_char(5)]);
        }
    } else if d == 6 {
        out.append("6");
        proof {
            reveal_strlit("6");
            assert("6"@ =~= seq![digit_char(6)]);
        }
    } else if d == 7 {
        out.append("7");
        proof {
            reveal_strlit("7");
            assert("7"@ =~= seq![digit_char(7)]);
        }
    } else if d == 8 {
        out.append("8");
        proof {
            reveal_strlit("8");
            assert("8"@ =~= seq![digit_char(8)]);
        }
    } else {
        out.append("9");
        proof {
            reveal_strlit("9");
            assert("9"@ =~= seq![digit_char(9)]);
        }
    }
}

/// Append the decimal digits of `n`, most significant first.
fn push_digits(out: &mut String, n: u64)
    ensures
        final(out)@ == old(out)@ + dec_digits(n as nat),
    decreases n,
{
    if n < 10 {
        push_digit(out, n);
    } else {
        push_digits(out, n / 10);
        push_digit(out, n % 10);
        proof {
            assert(old(out)@ + dec_digits((n / 10) as nat) + seq![
                digit_char((n % 10) as int),
            ] =~= old(out)@ + dec_digits(n as nat));
        }
    }
}

/// The canonical record of one body.
pub open spec fn num_field(v: int, rest: Seq<char>) -> Seq<char> {
    seq![' '] + (int_chars(v) + rest)
}

pub open spec fn body_chars(b: BodyView) -> Seq<char> {
    dec_digits(b.name.len()) + (seq![':'] + (b.name + num_field(
        b.gravitational_mass as int,
        num_field(
            b.radius as int,
            num_field(
                b.position.x as int,
                num_field(
                    b.position.y as int,
                    num_field(
                        b.position.z as int,
                        num_field(
                            b.velocity.x as int,
                            num_field(
                                b.velocity.y as int,
                                num_field(b.velocity.z as int, seq![';']),
                            ),
                        ),
                    ),
                ),
            ),
        ),
    )))
}

/// The canonical record of a whole system: its bodies' records in index
/// order.
pub open spec fn system_chars(s: Seq<BodyView>) -> Seq<char>
    decreases s.len(),
{
    if s.len() == 0 {
        Seq::empty()
    } else {
        body_chars(s[0]) + system_chars(s.drop_first())
    }
}

/// A space followed by a signed number.
pub open spec fn spec_parse_sep_i64(t: Seq<char>, i: int) -> Option<(int, int)> {
    if 0 <= i < t.len() && t[i] == ' ' {
        spec_parse_i64(t, i + 1)
    } else {
        None
    }
}

/// Parse one body record starting at `i`: the decoded body and the position
/// right after its terminating `;`, or `None` for anything that is not a
/// well-formed record of a body within the working range.
pub open spec fn spec_decode_body(t: Seq<char>, i: int) -> Option<(BodyView, int)> {
    match spec_parse_u64(t, i) {
        None => None,
        Some((nl, j0)) => if j0 < t.len() && t[j0] == ':' && j0 + 1 + nl <= t.len() {
            let name = t.subrange(j0 + 1, j0 + 1 + nl);
            match spec_parse_sep_i64(t, j0 + 1 + nl) {
                None => None,
                Some((mass, k1)) => match spec_parse_sep_i64(t, k1) {
                    None => None,
                    Some((radius, k2)) => match spec_parse_sep_i64(t, k2) {
                        None => None,
                        Some((px, k3)) => match spec_parse_sep_i64(t, k3) {
                            None => None,
                            Some((py, k4)) => match spec_parse_sep_i64(t, k4) {
                                None => None,
                                Some((pz, k5)) => match spec_parse_sep_i64(t, k5) {
                                    None => None,
                                    Some((vx, k6)) => match spec_parse_sep_i64(t, k6) {
                                        None => None,
                                        Some((vy, k7)) => match spec_parse_sep_i64(t, k7) {
                                            None => None,
                                            Some((vz, k8)) => if k8 < t.len() && t[k8] == ';' {
                                                let b = BodyView {
                                                    name,
                                                    gravitational_mass: mass as i64,
                                                    radius: radius as i64,
                                                    position: Vec3 {
                                                        x: px as i64,
                                                        y: py as i64,
                                                        z: pz as i64,
                                                    },
                                                    velocity: Vec3 {
                                                        x: vx as i64,
                                                        y: vy as i64,
                                                        z: vz as i64,
                                                    },
                                                };
                                                if b.wf() {
                                                    Some((b, k8 + 1))
                                                } else {
                                                    None
                                                }
                                            } else {
                                                None
                                            },
                                        },
                                    },
                                },
                            },
                        },
                    },
                },
            }
        } else {
            None
        },
    }
}

/// Parse body records until the end of the text; `None` unless the whole
/// text is a sequence of well-formed records.
pub open spec fn spec_decode_bodies(t: Seq<char>, i: int) -> Option<Seq<BodyView>>
    decreases t.len() - i,
{
    if i >= t.len() {
        Some(Seq::empty())
    } else {
        match spec_decode_body(t, i) {
            None => None,
            Some((b, j)) => if i < j <= t.len() {
                match spec_decode_bodies(t, j) {
                    None => None,
                    Some(rest) => Some(seq![b] + rest),
                }
            } else {
                None
            },
        }
    }
}

/// Append the decimal form of `v`, minus sign included.
fn push_i64(out: &mut String, v: i64)
    ensures
        final(out)@ == old(out)@ + int_chars(v as int),
{
    if v < 0 {
        out.append("-");
        proof {
            reveal_strlit("-");
            assert("-"@ =~= seq!['-']);
        }
        let m = (-(v as i128)) as u64;
        push_digits(out, m);
        proof {
            assert(old(out)@ + seq!['-'] + dec_digits(m as nat) =~= old(out)@ + int_chars(
                v as int,
            ));
        }
    } else {
        push_digits(out, v as u64);
    }
}

/// Read a digit run as a 64-bit value; `total` is the character length of
/// `s`, precomputed by the caller.
fn parse_u64(s: &str, i: usize, total: usize) -> (r: Option<(u64, usize)>)
    requires
        total == s@.len(),
        i <= total,
    ensures
        match r {
            Some(p) => spec_parse_u64(s@, i as int) == Some((p.0 as int, p.1 as int)) && i < p.1
                <= total,
            None => spec_parse_u64(s@, i as int) is None,
        },
{
    if i >= total {
        return None;
    }
    let c0 = s.get_char(i);
    let u0 = c0 as u32;
    if !(48 <= u0 && u0 <= 57) {
        return None;
    }
    let mut k = i;
    let mut acc: u64 = 0;
    loop
        invariant_except_break
            total == s@.len(),
            i <= k <= total,
            i < total,
            is_digit(s@[i as int]),
            spec_parse_num(s@, i as int, 0) == spec_parse_num(s@, k as int, acc as int),
        ensures
            i <= k <= total,
            k == total || !is_digit(s@[k as int]),
            spec_parse_num(s@, i as int, 0) == spec_parse_num(s@, k as int, acc as int),
            total == s@.len(),
            i < total,
            is_digit(s@[i as int]),
        decreases total - k,
    {
        if k == total {
            break;
        }
        let c = s.get_char(k);
        let u = c as u32;
        if !(48 <= u && u <= 57) {
            break;
        }
        let d = (u - 48) as u64;
        let wide = (acc as u128) * 10 + (d as u128);
        if wide > u64::MAX as u128 {
            proof {
                assert(spec_parse_num(s@, k as int, acc as int) is None);
            }
            return None;
        }
        acc = wide as u64;
        k += 1;
    }
    proof {
        assert(spec_parse_num(s@, k as int, acc as int) == Some((acc as int, k as int)));
        if k == i {
            assert(false);
        }
    }
    Some((acc, k))
}

/// Read an optionally signed 64-bit value.
fn parse_i64(s: &str, i: usize, total: usize) -> (r: Option<(i64, usize)>)
    requires
        total == s@.len(),
        i <= total,
    ensures
        match r {
            Some(p) => spec_parse_i64(s@, i as int) == Some((p.0 as int, p.1 as int)) && i < p.1
                <= total,
            None => spec_parse_i64(s@, i as int) is None,
        },
{
    if i < total && s.get_char(i) == '-' {
        match parse_u64(s, i + 1, total) {
            None => None,
            Some((m, j)) => {
                if m <= 0x8000_0000_0000_0000u64 {
                    Some(((-(m as i128)) as i64, j))
                } else {
                    None
                }
            },
        }
    } else {
        match parse_u64(s, i, total) {
            None => None,
            Some((m, j)) => {
                if m <= i64::MAX as u64 {
                    Some((m as i64, j))
                } else {
                    None
                }
            },
        }
    }
}

/// Read a space followed by a signed 64-bit value.
fn parse_sep_i64(s: &str, i: usize, total: usize) -> (r: Option<(i64, usize)>)
    requires
        total == s@.len(),
        i <= total,
    ensures
        match r {
            Some(p) => spec_parse_sep_i64(s@, i as int) == Some((p.0 as int, p.1 as int)) && i
                < p.1 <= total,
            None => spec_parse_sep_i64(s@, i as int) is None,
        },
{
    if i < total && s.get_char(i) == ' ' {
        parse_i64(s, i + 1, total)
    } else {
        None
    }
}

/// Decode one body record starting at character `i`.
pub(crate) fn decode_body_at(s: &str, i: usize, total: usize) -> (r: Option<(Body, usize)>)
    requires
        total == s@.len(),
        i <= total,
    ensures
        match r {
            Some(p) => spec_decode_body(s@, i as int) == Some((p.0@, p.1 as int)) && i < p.1
                <= total && p.0@.wf(),
            None => spec_decode_body(s@, i as int) is None,
        },
{
    let (nl, j0) = match parse_u64(s, i, total) {
        None => {
            return None;
        },
        Some(p) => p,
    };
    if j0 >= total || s.get_char(j0) != ':' {
        return None;
    }
    if nl > (total - (j0 + 1)) as u64 {
        return None;
    }
    let nlu = nl as usize;
    let name_slice = s.substring_char(j0 + 1, j0 + 1 + nlu);
    let name = String::from_str(name_slice);
    let k0 = j0 + 1 + nlu;
    let (mass, k1) = match parse_sep_i64(s, k0, total) {
        None => {
            return None;
        },
        Some(p) => p,
    };
    let (radius, k2) = match parse_sep_i64(s, k1, total) {
        None => {
            return None;
        },
        Some(p) => p,
    };
    let (px, k3) = match parse_sep_i64(s, k2, total) {
        None => {
            return None;
        },
        Some(p) => p,
    };
    let (py, k4) = match parse_sep_i64(s, k3, total) {
        None => {
            return None;
        },
        Some(p) => p,
    };
    let (pz, k5) = match parse_sep_i64(s, k4, total) {
        None => {
            return None;
        },
        Some(p) => p,
    };
    let (vx, k6) = match parse_sep_i64(s, k5, total) {
        None => {
            return None;
        },
        Some(p) => p,
    };
    let (vy, k7) = match parse_sep_i64(s, k6, total) {
        None => {
            return None;
        },
        Some(p) => p,
    };
    let (vz, k8) = match parse_sep_i64(s, k7, total) {
        None => {
            return None;
        },
        Some(p) => p,
    };
    if k8 >= total || s.get_char(k8) != ';' {
        return None;
    }
    if !(0 <= mass && mass <= MASS_LIMIT) {
        return None;
    }
    if !(-POS_LIMIT <= px && px <= POS_LIMIT && -POS_LIMIT <= py && py <= POS_LIMIT && -POS_LIMIT
        <= pz && pz <= POS_LIMIT) {
        return None;
    }
    if !(-VEL_LIMIT <= vx && vx <= VEL_LIMIT && -VEL_LIMIT <= vy && vy <= VEL_LIMIT && -VEL_LIMIT
        <= vz && vz <= VEL_LIMIT) {
        return None;
    }
    let position = Vec3 { x: px, y: py, z: pz };
    let velocity = Vec3 { x: vx, y: vy, z: vz };
    let body = Body::new(name, mass, radius, position, velocity);
    Some((body, k8 + 1))
}

/// Append one ` <number>` field.
fn push_field(out: &mut String, v: i64)
    ensures
        final(out)@ == old(out)@ + (seq![' '] + int_chars(v as int)),
{
    out.append(" ");
    push_i64(out, v);
    proof {
        reveal_strlit(" ");
        assert(" "@ =~= seq![' ']);
        assert(old(out)@ + " "@ + int_chars(v as int) =~= old(out)@ + (seq![' '] + int_chars(
            v as int,
        )));
    }
}

/// Assembling the pieces of a record in build order yields `body_chars`.
#[verifier::rlimit(100)]
proof fn lemma_record_assembly(
    b: BodyView,
    s0: Seq<char>,
    s1: Seq<char>,
    s2: Seq<char>,
    s3: Seq<char>,
    s4: Seq<char>,
    s5: Seq<char>,
    s6: Seq<char>,
    s7: Seq<char>,
    s8: Seq<char>,
    s9: Seq<char>,
    s10: Seq<char>,
)
    requires
        s0 == dec_digits(b.name.len()),
        s1 == s0 + seq![':'],
        s2 == s1 + b.name,
        s3 == s2 + (seq![' '] + int_chars(b.gravitational_mass as int)),
        s4 == s3 + (seq![' '] + int_chars(b.radius as int)),
        s5 == s4 + (seq![' '] + int_chars(b.position.x as int)),
        s6 == s5 + (seq![' '] + int_chars(b.position.y as int)),
        s7 == s6 + (seq![' '] + int_chars(b.position.z as int)),
        s8 == s7 + (seq![' '] + int_chars(b.velocity.x as int)),
        s9 == s8 + (seq![' '] + int_chars(b.velocity.y as int)),
        s10 == s9 + (seq![' '] + int_chars(b.velocity.z as int)),
    ensures
        s10 + seq![';'] == body_chars(b),
{
    let sc = seq![';'];
    let f7 = num_field(b.velocity.z as int, sc);
    let f6 = num_field(b.velocity.y as int, f7);
    let f5 = num_field(b.velocity.x as int, f6);
    let f4 = num_field(b.position.z as int, f5);
    let f3 = num_field(b.position.y as int, f4);
    let f2 = num_field(b.position.x as int, f3);
    let f1 = num_field(b.radius as int, f2);
    let f0 = num_field(b.gravitational_mass as int, f1);
    assert(s10 + sc =~= s9 + f7);
    assert(s9 + f7 =~= s8 + f6);
    assert(s8 + f6 =~= s7 + f5);
    assert(s7 + f5 =~= s6 + f4);
    assert(s6 + f4 =~= s5 + f3);
    assert(s5 + f3 =~= s4 + f2);
    assert(s4 + f2 =~= s3 + f1);
    assert(s3 + f1 =~= s2 + f0);
    assert(s2 + f0 =~= s1 + (b.name + f0));
    assert(s1 + (b.name + f0) =~= s0 + (seq![':'] + (b.name + f0)));
    assert(s0 + (seq![':'] + (b.name + f0)) == body_chars(b));
}

impl Body {
    /// The canonical textual record of this body.
    pub fn encode(&self) -> (r: String)
        ensures
            r@ == body_chars(self@),
    {
        let ghost b = self@;
        let mut out = String::new();
        let nl = self.name().unicode_len();
        push_digits(&mut out, nl as u64);
        proof {
            assert(out@ =~= dec_digits(b.name.len()));
        }
        let ghost s0 = out@;
        out.append(":");
        proof {
            reveal_strlit(":");
            assert(":"@ =~= seq![':']);
        }
        let ghost s1 = out@;
        out.append(self.name());
        let ghost s2 = out@;
        push_field(&mut out, self.mass());
        let ghost s3 = out@;
        push_field(&mut out, self.radius());
        let ghost s4 = out@;
        let p = self.position();
        push_field(&mut out, p.x);
        let ghost s5 = out@;
        push_field(&mut out, p.y);
        let ghost s6 = out@;
        push_field(&mut out, p.z);
        let ghost s7 = out@;
        let v = self.velocity();
        push_field(&mut out, v.x);
        let ghost s8 = out@;
        push_field(&mut out, v.y);
        let ghost s9 = out@;
        push_field(&mut out, v.z);
        let ghost s10 = out@;
        out.append(";");
        proof {
            reveal_strlit(";");
            assert(";"@ =~= seq![';']);
            lemma_record_assembly(b, s0, s1, s2, s3, s4, s5, s6, s7, s8, s9, s10);
        }
        out
    }

    /// Decode a body from its canonical record; `None` unless the whole
    /// string is exactly one well-formed record.
    pub fn decode(s: &str) -> (r: Option<Body>)
        ensures
            match r {
                Some(b) => spec_decode_body(s@, 0) == Some((b@, s@.len() as int)) && b@.wf(),
                None => match spec_decode_body(s@, 0) {
                    Some(p) => p.1 != s@.len(),
                    None => true,
                },
            },
    {
        let total = s.unicode_len();
        match decode_body_at(s, 0, total) {
            Some((b, j)) => {
                if j == total {
                    Some(b)
                } else {
                    None
                }
            },
            None => None,
        }
    }
}

/// Appending one body appends its record.
proof fn lemma_system_chars_push(s: Seq<BodyView>, b: BodyView)
    ensures
        system_chars(s.push(b)) == system_chars(s) + body_chars(b),
    decreases s.len(),
{
    let e = s.push(b);
    assert(e.len() == s.len() + 1);
    assert(e[0] == if s.len() == 0 { b } else { s[0] });
    if s.len() == 0 {
        assert(e.drop_first() =~= Seq::<BodyView>::empty());
        assert(system_chars(e) == body_chars(b) + system_chars(Seq::<BodyView>::empty()));
        assert(system_chars(e) =~= system_chars(s) + body_chars(b));
    } else {
        assert(e.drop_first() =~= s.drop_first().push(b));
        lemma_system_chars_push(s.drop_first(), b);
        assert(system_chars(e) == body_chars(s[0]) + system_chars(e.drop_first()));
        assert(system_chars(e) =~= system_chars(s) + body_chars(b));
    }
}

impl System {
    /// The canonical textual record of the whole system, bodies in index
    /// order.
    pub fn encode(&self) -> (r: String)
        ensures
            r@ == system_chars(self@),
    {
        let mut out = String::new();
        let n = self.size();
        let mut k: usize = 0;
        proof {
            assert(self@.take(0) =~= Seq::<BodyView>::empty());
        }
        while k < n
            invariant
                k <= n,
                n == self@.len(),
                out@ == system_chars(self@.take(k as int)),
            decreases n - k,
        {
            match self.object_from_index(k) {
                Some(b) => {
                    let rec = b.encode();
                    out.append(rec.as_str());
                    proof {
                        assert(self@.take(k as int).push(self@[k as int]) =~= self@.take(
                            k as int + 1,
                        ));
                        lemma_system_chars_push(self@.take(k as int), self@[k as int]);
                    }
                },
                None => {
                    proof {
                        assert(false);
                    }
                },
            }
            k += 1;
        }
        proof {
            assert(self@.take(n as int) =~= self@);
        }
        out
    }

    /// Decode a system from its canonical record; `None` unless the whole
    /// string is a sequence of well-formed body records.
    pub fn decode(s: &str) -> (r: Option<System>)
        ensures
            match r {
                Some(sys) => spec_decode_bodies(s@, 0) == Some(sys@) && sys.wf(),
                None => spec_decode_bodies(s@, 0) is None,
            },
    {
        let total = s.unicode_len();
        let mut sys = System::new();
        let mut k: usize = 0;
        loop
            invariant_except_break
                k <= total,
                total == s@.len(),
                sys.wf(),
                spec_decode_bodies(s@, 0) == (match spec_decode_bodies(s@, k as int) {
                    None => None,
                    Some(rest) => Some(sys@ + rest),
                }),
            ensures
                k == total,
                total == s@.len(),
                sys.wf(),
                spec_decode_bodies(s@, 0) == (match spec_decode_bodies(s@, k as int) {
                    None => None,
                    Some(rest) => Some(sys@ + rest),
                }),
            decreases total - k,
        {
            if k == total {
                break;
            }
            match decode_body_at(s, k, total) {
                None => {
                    proof {
                        assert(spec_decode_bodies(s@, k as int) is None);
                    }
                    return None;
                },
                Some((b, j)) => {
                    proof {
                        let rb = spec_decode_bodies(s@, j as int);
                        if rb is Some {
                            let rest = rb->Some_0;
                            assert(sys@ + (seq![b@] + rest) =~= sys@.push(b@) + rest);
                        }
                        assert(sys_wf(sys@.push(b@)));
                    }
                    sys.add(b);
                    k = j;
                },
            }
        }
        proof {
            assert(spec_decode_bodies(s@, total as int) == Some(Seq::<BodyView>::empty()));
            assert(sys@ + Seq::<BodyView>::empty() =~= sys@);
        }
        Some(sys)
    }
}

/// Splitting an embedded concatenation: when the text holds `a + rest` at
/// position `i`, it holds `a` at `i` and `rest` right after it.
proof fn lemma_split_concat(t: Seq<char>, i: int, a: Seq<char>, rest: Seq<char>)
    requires
        0 <= i,
        i + a.len() + rest.len() <= t.len(),
        t.subrange(i, i + a.len() + rest.len()) == a + rest,
    ensures
        t.subrange(i, i + a.len() as int) == a,
        t.subrange(i + a.len() as int, i + a.len() + rest.len()) == rest,
{
    let al = a.len() as int;
    let rl = rest.len() as int;
    assert(t.subrange(i, i + al) =~= a) by {
        assert forall|k: int| 0 <= k < al implies t.subrange(i, i + al)[k] == a[k] by {
            assert(t.subrange(i, i + al + rl)[k] == (a + rest)[k]);
        }
    }
    assert(t.subrange(i + al, i + al + rl) =~= rest) by {
        assert forall|k: int| 0 <= k < rl implies t.subrange(i + al, i + al + rl)[k] == rest[k] by {
            assert(t.subrange(i, i + al + rl)[al + k] == (a + rest)[al + k]);
        }
    }
}

/// Peeling one ` <number>` field: parsing at its start yields the value and
/// the rest begins right after it.
proof fn lemma_split_num_field(t: Seq<char>, i: int, v: int, rest: Seq<char>)
    requires
        0 <= i,
        i64::MIN <= v <= i64::MAX,
        rest.len() >= 1,
        !is_digit(rest[0]),
        i + num_field(v, rest).len() <= t.len(),
        t.subrange(i, i + num_field(v, rest).len()) == num_field(v, rest),
    ensures
        spec_parse_sep_i64(t, i) == Some((v, i + 1 + int_chars(v).len() as int)),
        t.subrange(
            i + 1 + int_chars(v).len() as int,
            i + num_field(v, rest).len(),
        ) == rest,
        num_field(v, rest).len() == 1 + int_chars(v).len() + rest.len(),
{
    let ic = int_chars(v);
    let tail = ic + rest;
    lemma_split_concat(t, i, seq![' '], tail);
    assert(t.subrange(i, i + 1)[0] == t[i]);
    assert(t[i] == ' ');
    lemma_split_concat(t, i + 1, ic, rest);
    assert(t.subrange(i + 1 + ic.len() as int, i + 1 + ic.len() + rest.len())[0] == t[i + 1
        + ic.len()]);
    assert(!is_digit(t[i + 1 + ic.len()]));
    assert(' ' as u32 == 32);
    lemma_parse_i64_at(t, i + 1, v);
}

/// Decoding an embedded body record yields exactly the body it was made
/// from, ending right after the record.
proof fn lemma_body_record_exact(t: Seq<char>, i: int, b: BodyView)
    requires
        0 <= i,
        b.wf(),
        b.name.len() <= u64::MAX,
        i + body_chars(b).len() <= t.len(),
        t.subrange(i, i + body_chars(b).len() as int) == body_chars(b),
    ensures
        spec_decode_body(t, i) == Some((b, i + body_chars(b).len() as int)),
{
    let w = body_chars(b);
    let bl = w.len() as int;
    let d0 = dec_digits(b.name.len());
    let l0 = d0.len() as int;
    let nl = b.name.len() as int;
    assert('0' as u32 == 48 && '9' as u32 == 57 && ':' as u32 == 58 && ' ' as u32 == 32 && ';'
        as u32 == 59 && '-' as u32 == 45);
    let f7 = num_field(b.velocity.z as int, seq![';']);
    let f6 = num_field(b.velocity.y as int, f7);
    let f5 = num_field(b.velocity.x as int, f6);
    let f4 = num_field(b.position.z as int, f5);
    let f3 = num_field(b.position.y as int, f4);
    let f2 = num_field(b.position.x as int, f3);
    let f1 = num_field(b.radius as int, f2);
    let f0 = num_field(b.gravitational_mass as int, f1);
    // Peel the name length, the ':' and the name.
    lemma_split_concat(t, i, d0, seq![':'] + (b.name + f0));
    let j0 = i + l0;
    assert(t.subrange(j0, i + bl)[0] == t[j0]);
    assert(t[j0] == ':');
    lemma_parse_u64_at(t, i, b.name.len());
    lemma_split_concat(t, j0, seq![':'], b.name + f0);
    lemma_split_concat(t, j0 + 1, b.name, f0);
    assert(t.subrange(j0 + 1, j0 + 1 + nl) == b.name);
    let k0 = j0 + 1 + nl;
    // Peel the eight numbers.
    assert(f0[0] == ' ' && f1[0] == ' ' && f2[0] == ' ' && f3[0] == ' ' && f4[0] == ' ' && f5[0]
        == ' ' && f6[0] == ' ' && f7[0] == ' ');
    lemma_split_num_field(t, k0, b.gravitational_mass as int, f1);
    let k1 = k0 + 1 + int_chars(b.gravitational_mass as int).len() as int;
    lemma_split_num_field(t, k1, b.radius as int, f2);
    let k2 = k1 + 1 + int_chars(b.radius as int).len() as int;
    lemma_split_num_field(t, k2, b.position.x as int, f3);
    let k3 = k2 + 1 + int_chars(b.position.x as int).len() as int;
    lemma_split_num_field(t, k3, b.position.y as int, f4);
    let k4 = k3 + 1 + int_chars(b.position.y as int).len() as int;
    lemma_split_num_field(t, k4, b.position.z as int, f5);
    let k5 = k4 + 1 + int_chars(b.position.z as int).len() as int;
    lemma_split_num_field(t, k5, b.velocity.x as int, f6);
    let k6 = k5 + 1 + int_chars(b.velocity.x as int).len() as int;
    lemma_split_num_field(t, k6, b.velocity.y as int, f7);
    let k7 = k6 + 1 + int_chars(b.velocity.y as int).len() as int;
    lemma_split_num_field(t, k7, b.velocity.z as int, seq![';']);
    let k8 = k7 + 1 + int_chars(b.velocity.z as int).len() as int;
    assert(t.subrange(k8, k8 + 1)[0] == t[k8]);
    assert(t[k8] == ';');
    assert(k8 + 1 == i + bl);
    match spec_decode_body(t, i) {
        Some((bb, j)) => {
            assert(bb == b && j == i + bl);
        },
        None => {
            assert(false);
        },
    }
}

/// Round-trip for one body: decoding the canonical record of a well-formed
/// body yields the body back, consuming the whole record.
#[verifier::rlimit(60)]
pub proof fn lemma_body_round_trip(b: BodyView)
    requires
        b.wf(),
        b.name.len() <= u64::MAX,
    ensures
        spec_decode_body(body_chars(b), 0) == Some((b, body_chars(b).len() as int)),
{
    let t = body_chars(b);
    assert(t.subrange(0, t.len() as int) =~= t);
    lemma_body_record_exact(t, 0, b);
}

/// Decoding the records of a body sequence embedded at the tail of `t`
/// yields the sequence back.
proof fn lemma_decode_bodies_at(t: Seq<char>, i: int, s: Seq<BodyView>)
    requires
        0 <= i <= t.len(),
        sys_wf(s),
        forall|k: int| 0 <= k < s.len() ==> (#[trigger] s[k]).name.len() <= u64::MAX,
        t.subrange(i, t.len() as int) == system_chars(s),
    ensures
        spec_decode_bodies(t, i) == Some(s),
    decreases s.len(),
{
    if s.len() == 0 {
        assert(t.len() - i == system_chars(s).len());
        assert(s =~= Seq::<BodyView>::empty());
    } else {
        let b = s[0];
        let bl = body_chars(b).len() as int;
        let rest = system_chars(s.drop_first());
        let rl = rest.len() as int;
        assert(b.wf());
        assert(system_chars(s) == body_chars(b) + rest);
        assert(t.len() - i == bl + rl);
        assert(t.subrange(i, i + bl + rl) == system_chars(s));
        lemma_split_concat(t, i, body_chars(b), rest);
        lemma_body_record_exact(t, i, b);
        assert(bl >= 1);
        assert(t.subrange(i + bl, t.len() as int) == rest);
        lemma_decode_bodies_at(t, i + bl, s.drop_first());
        assert(seq![b] + s.drop_first() =~= s);
    }
}

/// Round-trip for a whole system: decoding the canonical record of a
/// well-formed body collection yields the collection back.
pub proof fn lemma_system_round_trip(s: Seq<BodyView>)
    requires
        sys_wf(s),
        forall|k: int| 0 <= k < s.len() ==> (#[trigger] s[k]).name.len() <= u64::MAX,
    ensures
        spec_decode_bodies(system_chars(s), 0) == Some(s),
{
    let t = system_chars(s);
    assert(t.subrange(0, t.len() as int) =~= t);
    lemma_decode_bodies_at(t, 0, s);
}

} // verus!


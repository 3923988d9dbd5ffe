//! Numbers are IEEE-754 double-precision values, carried as their raw
//! 64-bit patterns so that every rule about them can be stated over plain
//! integers.  The arithmetic itself is done by `rustc_apfloat`, a software
//! implementation of IEEE-754; each call stands behind a trusted wrapper
//! whose result is named by an uninterpreted spec function.

use vstd::prelude::*;
use rustc_apfloat::Float;
use rustc_apfloat::Round;
use rustc_apfloat::ieee::Double;

verus! {

/// Sign bit of a double's bit pattern.
pub const SIGN_MASK: u64 = 0x8000_0000_0000_0000;

/// Exponent field of a double's bit pattern.
pub const EXP_MASK: u64 = 0x7FF0_0000_0000_0000;

/// Mantissa field of a double's bit pattern.
pub const FRAC_MASK: u64 = 0x000F_FFFF_FFFF_FFFF;

/// Bit pattern of 1.0.
pub const ONE_BITS: u64 = 0x3FF0_0000_0000_0000;

/// Bit pattern of 0.0.
pub const ZERO_BITS: u64 = 0;

pub uninterp spec fn add_bits(a: u64, b: u64) -> u64;

pub uninterp spec fn sub_bits(a: u64, b: u64) -> u64;

pub uninterp spec fn mul_bits(a: u64, b: u64) -> u64;

pub uninterp spec fn div_bits(a: u64, b: u64) -> u64;

pub uninterp spec fn rem_bits(a: u64, b: u64) -> u64;

pub uninterp spec fn floor_of(a: u64) -> i64;

pub uninterp spec fn parse_of(text: Seq<char>) -> Option<u64>;

pub uninterp spec fn sci_of(a: u64, p: usize) -> Seq<char>;

/// Relies on rustc_apfloat's IEEE-754 double addition (`Add for IeeeFloat`,
/// round to nearest, ties to even), applied to raw bit patterns.
#[verifier::external_body]
pub(crate) fn num_add(a: u64, b: u64) -> (r: u64)
    ensures
        r == add_bits(a, b),
{
    (Double::from_bits(a as u128) + Double::from_bits(b as u128)).value.to_bits() as u64
}

/// Relies on rustc_apfloat's IEEE-754 double subtraction.
#[verifier::external_body]
pub(crate) fn num_sub(a: u64, b: u64) -> (r: u64)
    ensures
        r == sub_bits(a, b),
{
    (Double::from_bits(a as u128) - Double::from_bits(b as u128)).value.to_bits() as u64
}

/// Relies on rustc_apfloat's IEEE-754 double multiplication.
#[verifier::external_body]
pub(crate) fn num_mul(a: u64, b: u64) -> (r: u64)
    ensures
        r == mul_bits(a, b),
{
    (Double::from_bits(a as u128) * Double::from_bits(b as u128)).value.to_bits() as u64
}

/// Relies on rustc_apfloat's IEEE-754 double division.
#[verifier::external_body]
pub(crate) fn num_div(a: u64, b: u64) -> (r: u64)
    ensures
        r == div_bits(a, b),
{
    (Double::from_bits(a as u128) / Double::from_bits(b as u128)).value.to_bits() as u64
}

/// Relies on rustc_apfloat's `c_fmod` (the `Rem` impl), whose result keeps
/// the sign of the dividend, like `%` on hardware doubles.
#[verifier::external_body]
pub(crate) fn num_rem(a: u64, b: u64) -> (r: u64)
    ensures
        r == rem_bits(a, b),
{
    (Double::from_bits(a as u128) % Double::from_bits(b as u128)).value.to_bits() as u64
}

/// Relies on rustc_apfloat's `round_to_integral` toward negative infinity
/// and `to_i128`, which clamps out-of-range values and maps NaN to 0, as a
/// hardware `as` cast would.
#[verifier::external_body]
pub(crate) fn num_floor_i64(a: u64) -> (r: i64)
    ensures
        r == floor_of(a),
{
    let d = Double::from_bits(a as u128);
    let f = d.round_to_integral(Round::TowardNegative).value;
    f.to_i128(64).value as i64
}

/// Relies on rustc_apfloat's `from_str` (a correctly rounded decimal
/// parse, matching what a hardware parse of the same text yields).
#[verifier::external_body]
pub(crate) fn num_parse(text: &Vec<char>) -> (r: Option<u64>)
    ensures
        r == parse_of(text@),
{
    let s: String = text.iter().collect();
    match s.parse::<Double>() {
        Ok(d) => Some(d.to_bits() as u64),
        Err(_) => None,
    }
}

/// Relies on rustc_apfloat's `Display` with field width 0, which always
/// renders in scientific notation `d[.ddd]E<sign><exp>`, rounded to the
/// given number of significant digits.
#[verifier::external_body]
pub(crate) fn num_fmt_sci(a: u64, p: usize) -> (r: Vec<char>)
    ensures
        r@ == sci_of(a, p),
{
    let d = Double::from_bits(a as u128);
    format!("{:1$.2$}", d, 0usize, p).chars().collect()
}

/// Relies on `String::from_iter` collecting the characters in order.
#[verifier::external_body]
pub(crate) fn chars_to_string(v: &Vec<char>) -> (r: String)
    ensures
        r@ == v@,
{
    v.iter().collect()
}

/// Relies on `str::chars` yielding exactly the characters of the text.
#[verifier::external_body]
pub(crate) fn str_to_chars(s: &str) -> (r: Vec<char>)
    ensures
        r@ == s@,
{
    s.chars().collect()
}

/// IEEE-754 negation is exactly a flip of the sign bit, so it needs no
/// outside call.
pub open spec fn neg_bits(a: u64) -> u64 {
    a ^ SIGN_MASK
}

pub(crate) fn num_neg(a: u64) -> (r: u64)
    ensures
        r == neg_bits(a),
{
    a ^ SIGN_MASK
}

/// True of the bit patterns that denote NaN.
pub open spec fn nan_bits(a: u64) -> bool {
    a & EXP_MASK == EXP_MASK && a & FRAC_MASK != 0
}

pub(crate) fn is_nan_bits(a: u64) -> (r: bool)
    ensures
        r == nan_bits(a),
{
    a & EXP_MASK == EXP_MASK && a & FRAC_MASK != 0
}

/// Maps a double's bit pattern to a key whose unsigned order is the
/// IEEE-754 total order of the doubles themselves: for a negative sign all
/// bits flip, otherwise only the sign bit is set.
pub open spec fn num_key(a: u64) -> u64 {
    if a & SIGN_MASK != 0 {
        !a
    } else {
        a | SIGN_MASK
    }
}

pub(crate) fn num_key_of(a: u64) -> (r: u64)
    ensures
        r == num_key(a),
{
    if a & SIGN_MASK != 0 {
        !a
    } else {
        a | SIGN_MASK
    }
}

pub open spec fn is_digit(c: char) -> bool {
    '0' <= c && c <= '9'
}

/// The digit characters of `s` before the first `E`, in order; every
/// other character (the sign, the decimal point) is passed over.
pub open spec fn digits_before_e(s: Seq<char>, i: int) -> Seq<char>
    decreases s.len() - i,
{
    if i < 0 || i >= s.len() || s[i] == 'E' {
        Seq::empty()
    } else if is_digit(s[i]) {
        seq![s[i]] + digits_before_e(s, i + 1)
    } else {
        digits_before_e(s, i + 1)
    }
}

/// Index of the first `E` in `s` at or after `i`, or `s.len()`.
pub open spec fn find_e(s: Seq<char>, i: int) -> int
    decreases s.len() - i,
{
    if i < 0 || i >= s.len() {
        s.len() as int
    } else if s[i] == 'E' {
        i
    } else {
        find_e(s, i + 1)
    }
}

/// Decimal value of the digit run starting at `i`, folded onto `acc` and
/// clamped once it reaches six digits.
pub open spec fn exp_num(s: Seq<char>, i: int, acc: int) -> int
    decreases s.len() - i,
{
    if i < 0 || i >= s.len() || !is_digit(s[i]) {
        acc
    } else if acc >= 100000 {
        exp_num(s, i + 1, acc)
    } else {
        exp_num(s, i + 1, acc * 10 + (s[i] as u32 - '0' as u32))
    }
}

pub open spec fn zeroes(k: int) -> Seq<char>
    decreases k,
{
    if k <= 0 {
        Seq::empty()
    } else {
        seq!['0'] + zeroes(k - 1)
    }
}

/// `d` with its trailing zero digits removed.
pub open spec fn strip0(d: Seq<char>) -> Seq<char>
    decreases d.len(),
{
    if d.len() > 0 && d.last() == '0' {
        strip0(d.drop_last())
    } else {
        d
    }
}

/// The smallest precision from `p` up that parses back to exactly `a`;
/// seventeen digits always suffice for a double.
pub open spec fn best_p(a: u64, p: int) -> int
    decreases 17 - p,
{
    if p >= 17 {
        17
    } else if parse_of(sci_of(a, p as usize)) == Some(a) {
        p
    } else {
        best_p(a, p + 1)
    }
}

/// Positional rendering of the scientific form `sci_of(a, p)`, the way a
/// host would print a double: no exponent, a point only where needed.
pub open spec fn render_sci(a: u64, p: usize) -> Seq<char> {
    let s = sci_of(a, p);
    let neg = s.len() > 0 && s[0] == '-';
    let digs = strip0(digits_before_e(s, 0));
    let epos = find_e(s, 0);
    let q = if epos + 1 < s.len() && (s[epos + 1] == '+' || s[epos + 1] == '-') {
        epos + 2
    } else {
        epos + 1
    };
    let esign = epos + 1 < s.len() && s[epos + 1] == '-';
    let ev = exp_num(s, q, 0);
    let e = if esign {
        -ev
    } else {
        ev
    };
    let n = digs.len() as int;
    let body = if n == 0 {
        seq!['0']
    } else if e >= n - 1 {
        digs + zeroes(e - (n - 1))
    } else if e >= 0 {
        digs.take(e + 1) + seq!['.'] + digs.skip(e + 1)
    } else {
        seq!['0', '.'] + zeroes(-e - 1) + digs
    };
    if neg {
        seq!['-'] + body
    } else {
        body
    }
}

/// What printing the double with bit pattern `a` yields: the shortest
/// decimal that parses back to the same bits, rendered positionally.
pub open spec fn decimal_of(a: u64) -> Seq<char> {
    if a == 0 {
        seq!['0']
    } else if a == SIGN_MASK {
        seq!['-', '0']
    } else if a & EXP_MASK == EXP_MASK {
        if a & FRAC_MASK == 0 {
            if a & SIGN_MASK != 0 {
                seq!['-', 'i', 'n', 'f']
            } else {
                seq!['i', 'n', 'f']
            }
        } else {
            seq!['N', 'a', 'N']
        }
    } else {
        render_sci(a, best_p(a, 1) as usize)
    }
}

/// Copy of `v[a..b]`.
pub(crate) fn seq_sub(v: &Vec<char>, a: usize, b: usize) -> (r: Vec<char>)
    requires
        a <= b <= v@.len(),
    ensures
        r@ == v@.subrange(a as int, b as int),
{
    let mut r: Vec<char> = Vec::new();
    let mut i: usize = a;
    while i < b
        invariant
            a <= i <= b <= v@.len(),
            r@ == v@.subrange(a as int, i as int),
        decreases b - i,
    {
        r.push(v[i]);
        proof {
            assert(v@.subrange(a as int, i + 1 as int) =~= v@.subrange(a as int, i as int).push(
                v@[i as int],
            ));
        }
        i = i + 1;
    }
    r
}

fn push_zeroes(v: &mut Vec<char>, k: usize)
    ensures
        final(v)@ == old(v)@ + zeroes(k as int),
{
    let mut j: usize = 0;
    proof {
        assert(v@ =~= v@ + zeroes(0));
    }
    while j < k
        invariant
            0 <= j <= k,
            v@ == old(v)@ + zeroes(j as int),
        decreases k - j,
    {
        v.push('0');
        proof {
            lemma_zeroes_snoc(j + 1);
            assert(old(v)@ + zeroes(j as int).push('0') =~= old(v)@ + zeroes(j + 1));
        }
        j = j + 1;
    }
}

proof fn lemma_zeroes_snoc(k: int)
    requires
        k > 0,
    ensures
        zeroes(k) == zeroes(k - 1).push('0'),
    decreases k,
{
    if k == 1 {
        assert(zeroes(1) =~= zeroes(0).push('0'));
    } else {
        lemma_zeroes_snoc(k - 1);
        assert(zeroes(k) =~= zeroes(k - 1).push('0'));
    }
}

pub(crate) fn push_all(v: &mut Vec<char>, w: &Vec<char>)
    ensures
        final(v)@ == old(v)@ + w@,
{
    let mut j: usize = 0;
    proof {
        assert(v@ =~= v@ + w@.subrange(0, 0));
    }
    while j < w.len()
        invariant
            0 <= j <= w@.len(),
            v@ == old(v)@ + w@.subrange(0, j as int),
        decreases w@.len() - j,
    {
        v.push(w[j]);
        proof {
            assert(w@.subrange(0, j + 1) =~= w@.subrange(0, j as int).push(w@[j as int]));
        }
        j = j + 1;
    }
    proof {
        assert(w@.subrange(0, w@.len() as int) =~= w@);
    }
}

/// True exactly when `c` is a decimal digit.
pub(crate) fn digit_ch(c: char) -> (r: bool)
    ensures
        r == is_digit(c),
{
    '0' <= c && c <= '9'
}

/// Renders the double with bit pattern `a` the way the host's default
/// float printing does.
pub(crate) fn decimal_text(a: u64) -> (r: Vec<char>)
    ensures
        r@ == decimal_of(a),
{
    if a == 0 {
        let r = vec!['0'];
        proof {
            assert(r@ =~= decimal_of(a));
        }
        return r;
    }
    if a == SIGN_MASK {
        let r = vec!['-', '0'];
        proof {
            assert(r@ =~= decimal_of(a));
        }
        return r;
    }
    if a & EXP_MASK == EXP_MASK {
        let r = if a & FRAC_MASK == 0 {
            if a & SIGN_MASK != 0 {
                vec!['-', 'i', 'n', 'f']
            } else {
                vec!['i', 'n', 'f']
            }
        } else {
            vec!['N', 'a', 'N']
        };
        proof {
            assert(r@ =~= decimal_of(a));
        }
        return r;
    }
    let mut p: usize = 1;
    let mut found = false;
    while !found && p < 17
        invariant
            1 <= p <= 17,
            found ==> best_p(a, 1) == p as int,
            !found ==> best_p(a, 1) == best_p(a, p as int),
        decreases 17 - p, (if found { 0int } else { 1int }),
    {
        let s = num_fmt_sci(a, p);
        if num_parse(&s) == Some(a) {
            found = true;
        } else {
            p = p + 1;
        }
    }
    proof {
        assert(best_p(a, 1) == p as int);
    }
    render_text(a, p)
}

/// Turns `sci_of(a, p)` into positional decimal notation.
fn render_text(a: u64, p: usize) -> (r: Vec<char>)
    ensures
        r@ == render_sci(a, p),
{
    let s = num_fmt_sci(a, p);
    let ghost sv = s@;
    let n = s.len();
    let neg = n > 0 && s[0] == '-';
    // collect the mantissa digits up to the exponent marker
    let mut digs: Vec<char> = Vec::new();
    let mut i: usize = 0;
    proof {
        assert(digits_before_e(sv, 0) =~= Seq::<char>::empty() + digits_before_e(sv, 0));
    }
    while i < n && s[i] != 'E'
        invariant
            0 <= i <= n == sv.len(),
            s@ == sv,
            digits_before_e(sv, 0) == digs@ + digits_before_e(sv, i as int),
            forall|k: int| 0 <= k < i ==> sv[k] != 'E',
        decreases n - i,
    {
        if digit_ch(s[i]) {
            let ghost dpre = digs@;
            digs.push(s[i]);
            proof {
                assert(digits_before_e(sv, i as int) == seq![sv[i as int]] + digits_before_e(
                    sv,
                    i + 1,
                ));
                assert(dpre + (seq![sv[i as int]] + digits_before_e(sv, i + 1)) =~= digs@
                    + digits_before_e(sv, i + 1));
            }
        } else {
            proof {
                assert(digits_before_e(sv, i as int) == digits_before_e(sv, i + 1));
            }
        }
        i = i + 1;
    }
    proof {
        assert(digits_before_e(sv, i as int) =~= Seq::<char>::empty());
        assert(digs@ =~= digs@ + Seq::<char>::empty());
        assert(digs@ == digits_before_e(sv, 0));
        lemma_find_e_scan(sv, 0, i as int);
        assert(find_e(sv, 0) == i as int);
    }
    let ghost digs0 = digs@;
    while digs.len() > 0 && digs[digs.len() - 1] == '0'
        invariant
            strip0(digs0) == strip0(digs@),
        decreases digs@.len(),
    {
        proof {
            assert(digs@.last() == '0');
        }
        digs.pop();
    }
    proof {
        assert(strip0(digs@) == digs@);
        assert(digs@ == strip0(digs0));
    }
    let epos = i;
    // exponent sign, then its decimal value
    let mut q = epos;
    let mut esign = false;
    if q < n {
        q = q + 1;
        if q < n && (s[q] == '+' || s[q] == '-') {
            esign = s[q] == '-';
            q = q + 1;
        }
    }
    let ghost qstart = q as int;
    let mut ev: usize = 0;
    while q < n && digit_ch2(&s, q)
        invariant
            0 <= q <= n == sv.len(),
            s@ == sv,
            0 <= ev <= 1000000,
            exp_num(sv, qstart, 0) == exp_num(sv, q as int, ev as int),
        decreases n - q,
    {
        if ev >= 100000 {
        } else {
            ev = ev * 10 + ((s[q] as u32 - '0' as u32) as usize);
        }
        q = q + 1;
    }
    let ghost specq: int = if find_e(sv, 0) + 1 < sv.len() && (sv[find_e(sv, 0) + 1] == '+'
        || sv[find_e(sv, 0) + 1] == '-') {
        find_e(sv, 0) + 2
    } else {
        find_e(sv, 0) + 1
    };
    proof {
        assert(exp_num(sv, q as int, ev as int) == ev as int);
        if epos < n {
            assert(qstart == specq);
        } else {
            assert(exp_num(sv, specq, 0) == 0);
        }
        assert(exp_num(sv, specq, 0) == ev as int);
    }
    let nd = digs.len();
    let ghost e: int = if esign {
        -(ev as int)
    } else {
        ev as int
    };
    let mut r: Vec<char> = Vec::new();
    if neg {
        r.push('-');
    }
    let ghost pre = r@;
    if nd == 0 {
        r.push('0');
        proof {
            assert(r@ =~= render_sci(a, p));
        }
        return r;
    }
    if !esign || ev == 0 {
        let eu: usize = if esign {
            0
        } else {
            ev
        };
        proof {
            assert(e == eu as int);
        }
        if nd <= eu + 1 {
            // every digit, then padding zeroes
            push_all(&mut r, &digs);
            push_zeroes(&mut r, eu + 1 - nd);
            proof {
                assert(e >= nd - 1);
                assert(r@ =~= pre + (digs@ + zeroes(e - (nd - 1))));
                assert(r@ =~= render_sci(a, p));
            }
            r
        } else {
            // the point falls inside the digits
            let cut = eu + 1;
            let head = seq_sub(&digs, 0, cut);
            let tail = seq_sub(&digs, cut, nd);
            push_all(&mut r, &head);
            r.push('.');
            push_all(&mut r, &tail);
            proof {
                assert(digs@.take(e + 1) == head@);
                assert(digs@.skip(e + 1) == tail@);
                assert(r@ =~= pre + (digs@.take(e + 1) + seq!['.'] + digs@.skip(e + 1)));
                assert(r@ =~= render_sci(a, p));
            }
            r
        }
    } else {
        // a negative exponent: a leading "0." and zeroes
        r.push('0');
        r.push('.');
        push_zeroes(&mut r, ev - 1);
        push_all(&mut r, &digs);
        proof {
            assert(e < 0);
            assert(r@ =~= pre + (seq!['0', '.'] + zeroes(-e - 1) + digs@));
            assert(r@ =~= render_sci(a, p));
        }
        r
    }
}

/// True exactly when `s[q]` is a decimal digit.
fn digit_ch2(s: &Vec<char>, q: usize) -> (r: bool)
    requires
        q < s@.len(),
    ensures
        r == is_digit(s@[q as int]),
{
    digit_ch(s[q])
}

proof fn lemma_find_e_scan(s: Seq<char>, from: int, at: int)
    requires
        0 <= from <= at <= s.len(),
        forall|k: int| from <= k < at ==> s[k] != 'E',
        at == s.len() || s[at] == 'E',
    ensures
        find_e(s, from) == at,
    decreases at - from,
{
    if from < at {
        lemma_find_e_scan(s, from + 1, at);
    }
}

} // verus!

//! The dynamically typed runtime value: a double (by bit pattern), a text,
//! or the null singleton, with the operator semantics of the language.

use vstd::prelude::*;
use crate::num::{
    add_bits, sub_bits, mul_bits, div_bits, rem_bits, neg_bits, floor_of, decimal_of, num_key, nan_bits,
    num_add, num_sub, num_mul, num_div, num_rem, num_neg, num_floor_i64, num_key_of,
    decimal_text, seq_sub, push_all, ONE_BITS, ZERO_BITS,
};

verus! {

/// Mathematical model of a runtime value.
pub enum ValV {
    Num(u64),
    Str(Seq<char>),
    Null,
}

/// A runtime value.  Numbers carry the bit pattern of a double.
pub enum Value {
    Num(u64),
    Str(Vec<char>),
    Null,
}

impl View for Value {
    type V = ValV;

    open spec fn view(&self) -> ValV {
        match self {
            Value::Num(n) => ValV::Num(*n),
            Value::Str(s) => ValV::Str(s@),
            Value::Null => ValV::Null,
        }
    }
}

/// The comparison operators of the language.
#[derive(Clone, Copy, PartialEq, Eq, Structural)]
pub enum Cmp {
    Lt,
    Le,
    Eq,
    Ne,
    Gt,
    Ge,
}

/// Outcome of ordering two values.
#[derive(Clone, Copy, PartialEq, Eq, Structural)]
pub enum Ord3 {
    Lt,
    Eq,
    Gt,
}

/// Null is the only falsy value.
pub open spec fn truthy(v: ValV) -> bool {
    !(v is Null)
}

/// Numeric coercion: a number is itself, any text counts as one unit, and
/// null falls back to the operator's unit value.
pub open spec fn coerce(v: ValV, unit: u64) -> u64 {
    match v {
        ValV::Num(n) => n,
        ValV::Str(_) => ONE_BITS,
        ValV::Null => unit,
    }
}

/// Text form of a value: the printed double, the text itself, or nothing.
pub open spec fn text_of(v: ValV) -> Seq<char> {
    match v {
        ValV::Num(n) => decimal_of(n),
        ValV::Str(s) => s,
        ValV::Null => Seq::empty(),
    }
}

/// What `print` emits for a value: null is shown as `NULL`.
pub open spec fn display_of(v: ValV) -> Seq<char> {
    match v {
        ValV::Null => seq!['N', 'U', 'L', 'L'],
        _ => text_of(v),
    }
}

/// `s` repeated `k` times.
pub open spec fn rep_app(s: Seq<char>, k: nat) -> Seq<char>
    decreases k,
{
    if k == 0 {
        Seq::empty()
    } else {
        rep_app(s, (k - 1) as nat) + s
    }
}

/// `s` reversed.
pub open spec fn rev_seq(s: Seq<char>) -> Seq<char>
    decreases s.len(),
{
    if s.len() == 0 {
        Seq::empty()
    } else {
        seq![s.last()] + rev_seq(s.drop_last())
    }
}

/// One pass over `s` from `i`, dropping each occurrence of `p` as soon as
/// it starts; an empty pattern never matches.
pub open spec fn remove_pat(s: Seq<char>, p: Seq<char>, i: int) -> Seq<char>
    decreases s.len() - i,
{
    if i < 0 || i >= s.len() {
        Seq::empty()
    } else if p.len() > 0 && i + p.len() <= s.len() && s.subrange(i, i + p.len() as int) == p {
        remove_pat(s, p, i + p.len() as int)
    } else {
        seq![s[i]] + remove_pat(s, p, i + 1)
    }
}

/// Result of the string `-` operator: every occurrence of `p` removed.
pub open spec fn sub_str(s: Seq<char>, p: Seq<char>) -> Seq<char> {
    remove_pat(s, p, 0)
}

/// The count the string `/` and `%` operators use, clamped to the text.
pub open spec fn clamp_idx(k: i64, len: nat) -> int {
    if k < 0 {
        0
    } else if k as int > len {
        len as int
    } else {
        k as int
    }
}

/// Unary minus: negate a number, reverse a text, leave null.
pub open spec fn neg_v(v: ValV) -> ValV {
    match v {
        ValV::Num(n) => ValV::Num(neg_bits(n)),
        ValV::Str(s) => ValV::Str(rev_seq(s)),
        ValV::Null => ValV::Null,
    }
}

/// Boolean complement: truthy becomes null, null becomes one.
pub open spec fn not_v(v: ValV) -> ValV {
    if truthy(v) {
        ValV::Null
    } else {
        ValV::Num(ONE_BITS)
    }
}

pub open spec fn add_v(a: ValV, b: ValV) -> ValV {
    match a {
        ValV::Num(n) => ValV::Num(add_bits(n, coerce(b, ZERO_BITS))),
        ValV::Str(s) => ValV::Str(s + text_of(b)),
        ValV::Null => b,
    }
}

pub open spec fn sub_v(a: ValV, b: ValV) -> ValV {
    match a {
        ValV::Num(n) => ValV::Num(sub_bits(n, coerce(b, ZERO_BITS))),
        ValV::Str(s) => ValV::Str(sub_str(s, text_of(b))),
        ValV::Null => b,
    }
}

pub open spec fn mul_v(a: ValV, b: ValV) -> ValV {
    match a {
        ValV::Num(n) => ValV::Num(mul_bits(n, coerce(b, ONE_BITS))),
        ValV::Str(s) => {
            let u = coerce(b, ZERO_BITS);
            if nan_bits(u) {
                ValV::Str(s)
            } else {
                let k = floor_of(u);
                if k >= 0 {
                    ValV::Str(rep_app(s, k as nat))
                } else {
                    ValV::Str(rep_app(rev_seq(s), (-(k as int)) as nat))
                }
            }
        },
        ValV::Null => b,
    }
}

pub open spec fn div_v(a: ValV, b: ValV) -> ValV {
    match a {
        ValV::Num(n) => ValV::Num(div_bits(n, coerce(b, ONE_BITS))),
        ValV::Str(s) => ValV::Str(s.skip(clamp_idx(floor_of(coerce(b, ZERO_BITS)), s.len()))),
        ValV::Null => b,
    }
}

pub open spec fn rem_v(a: ValV, b: ValV) -> ValV {
    match a {
        ValV::Num(n) => ValV::Num(rem_bits(n, coerce(b, ONE_BITS))),
        ValV::Str(s) => ValV::Str(s.take(clamp_idx(floor_of(coerce(b, ZERO_BITS)), s.len()))),
        ValV::Null => ValV::Num(ZERO_BITS),
    }
}

/// Lexicographic order on texts, by code point.
pub open spec fn lex_cmp(a: Seq<char>, b: Seq<char>) -> Ord3
    decreases a.len(),
{
    if a.len() == 0 && b.len() == 0 {
        Ord3::Eq
    } else if a.len() == 0 {
        Ord3::Lt
    } else if b.len() == 0 {
        Ord3::Gt
    } else if a[0] < b[0] {
        Ord3::Lt
    } else if a[0] > b[0] {
        Ord3::Gt
    } else {
        lex_cmp(a.skip(1), b.skip(1))
    }
}

/// The total order on values: null below numbers, numbers below texts;
/// numbers by the IEEE total order of their doubles, texts
/// lexicographically.
pub open spec fn cmp3(a: ValV, b: ValV) -> Ord3 {
    match (a, b) {
        (ValV::Null, ValV::Null) => Ord3::Eq,
        (ValV::Null, _) => Ord3::Lt,
        (_, ValV::Null) => Ord3::Gt,
        (ValV::Num(x), ValV::Num(y)) => if num_key(x) < num_key(y) {
            Ord3::Lt
        } else if num_key(x) > num_key(y) {
            Ord3::Gt
        } else {
            Ord3::Eq
        },
        (ValV::Num(_), ValV::Str(_)) => Ord3::Lt,
        (ValV::Str(_), ValV::Num(_)) => Ord3::Gt,
        (ValV::Str(x), ValV::Str(y)) => lex_cmp(x, y),
    }
}

/// Whether the comparison operator `op` holds of the ordering `o`.
pub open spec fn cmp_holds(o: Ord3, op: Cmp) -> bool {
    match op {
        Cmp::Lt => o is Lt,
        Cmp::Le => !(o is Gt),
        Cmp::Eq => o is Eq,
        Cmp::Ne => !(o is Eq),
        Cmp::Gt => o is Gt,
        Cmp::Ge => !(o is Lt),
    }
}

/// Result of a comparison operator: one when it holds, else null.
pub open spec fn cmp_v(a: ValV, b: ValV, op: Cmp) -> ValV {
    if cmp_holds(cmp3(a, b), op) {
        ValV::Num(ONE_BITS)
    } else {
        ValV::Null
    }
}

/// Copy of a character vector.
pub(crate) fn clone_chars(v: &Vec<char>) -> (r: Vec<char>)
    ensures
        r@ == v@,
{
    let r = seq_sub(v, 0, v.len());
    proof {
        assert(v@.subrange(0, v@.len() as int) =~= v@);
    }
    r
}

impl Clone for Value {
    fn clone(&self) -> (r: Self)
        ensures
            r@ == self@,
    {
        match self {
            Value::Num(n) => Value::Num(*n),
            Value::Str(s) => Value::Str(clone_chars(s)),
            Value::Null => Value::Null,
        }
    }
}

impl Value {
    /// Everything but null is truthy.
    pub fn is_truthy(&self) -> (r: bool)
        ensures
            r == truthy(self@),
    {
        !matches!(self, Value::Null)
    }

    pub fn coerce_num(&self, unit: u64) -> (r: u64)
        ensures
            r == coerce(self@, unit),
    {
        match self {
            Value::Num(n) => *n,
            Value::Str(_) => ONE_BITS,
            Value::Null => unit,
        }
    }

    /// The text form of the value.
    pub fn into_text(self) -> (r: Vec<char>)
        ensures
            r@ == text_of(self@),
    {
        match self {
            Value::Num(n) => decimal_text(n),
            Value::Str(s) => s,
            Value::Null => Vec::new(),
        }
    }

    /// The printed form of the value.
    pub fn into_display(self) -> (r: Vec<char>)
        ensures
            r@ == display_of(self@),
    {
        match self {
            Value::Null => vec!['N', 'U', 'L', 'L'],
            v => v.into_text(),
        }
    }

    pub fn op_neg(self) -> (r: Value)
        ensures
            r@ == neg_v(self@),
    {
        match self {
            Value::Num(n) => Value::Num(num_neg(n)),
            Value::Str(s) => Value::Str(rev_text(&s)),
            Value::Null => Value::Null,
        }
    }

    pub fn op_not(self) -> (r: Value)
        ensures
            r@ == not_v(self@),
    {
        if self.is_truthy() {
            Value::Null
        } else {
            Value::Num(ONE_BITS)
        }
    }

    pub fn op_add(self, rhs: Value) -> (r: Value)
        ensures
            r@ == add_v(self@, rhs@),
    {
        match self {
            Value::Num(n) => {
                let u = rhs.coerce_num(ZERO_BITS);
                Value::Num(num_add(n, u))
            },
            Value::Str(mut s) => {
                let t = rhs.into_text();
                push_all(&mut s, &t);
                Value::Str(s)
            },
            Value::Null => rhs,
        }
    }

    pub fn op_sub(self, rhs: Value) -> (r: Value)
        ensures
            r@ == sub_v(self@, rhs@),
    {
        match self {
            Value::Num(n) => {
                let u = rhs.coerce_num(ZERO_BITS);
                Value::Num(num_sub(n, u))
            },
            Value::Str(s) => {
                let p = rhs.into_text();
                Value::Str(sub_text(&s, &p))
            },
            Value::Null => rhs,
        }
    }

    pub fn op_mul(self, rhs: Value) -> (r: Value)
        ensures
            r@ == mul_v(self@, rhs@),
    {
        match self {
            Value::Num(n) => {
                let u = rhs.coerce_num(ONE_BITS);
                Value::Num(num_mul(n, u))
            },
            Value::Str(s) => {
                let u = rhs.coerce_num(ZERO_BITS);
                if crate::num::is_nan_bits(u) {
                    Value::Str(s)
                } else {
                    let k = num_floor_i64(u);
                    if k >= 0 {
                        Value::Str(rep_text(&s, k as u64))
                    } else {
                        let mag = ((-(k + 1)) as u64) + 1;
                        proof {
                            assert(mag as int == -(k as int));
                        }
                        let rs = rev_text(&s);
                        Value::Str(rep_text(&rs, mag))
                    }
                }
            },
            Value::Null => rhs,
        }
    }

    pub fn op_div(self, rhs: Value) -> (r: Value)
        ensures
            r@ == div_v(self@, rhs@),
    {
        match self {
            Value::Num(n) => {
                let u = rhs.coerce_num(ONE_BITS);
                Value::Num(num_div(n, u))
            },
            Value::Str(s) => {
                let k = num_floor_i64(rhs.coerce_num(ZERO_BITS));
                let kk = clamp_exec(k, s.len());
                let r = seq_sub(&s, kk, s.len());
                proof {
                    assert(s@.subrange(kk as int, s@.len() as int) =~= s@.skip(
                        clamp_idx(k, s@.len()),
                    ));
                }
                Value::Str(r)
            },
            Value::Null => rhs,
        }
    }

    pub fn op_rem(self, rhs: Value) -> (r: Value)
        ensures
            r@ == rem_v(self@, rhs@),
    {
        match self {
            Value::Num(n) => {
                let u = rhs.coerce_num(ONE_BITS);
                Value::Num(num_rem(n, u))
            },
            Value::Str(s) => {
                let k = num_floor_i64(rhs.coerce_num(ZERO_BITS));
                let kk = clamp_exec(k, s.len());
                let r = seq_sub(&s, 0, kk);
                proof {
                    assert(s@.subrange(0, kk as int) =~= s@.take(clamp_idx(k, s@.len())));
                }
                Value::Str(r)
            },
            Value::Null => Value::Num(ZERO_BITS),
        }
    }

    pub fn op_cmp(self, rhs: Value, op: Cmp) -> (r: Value)
        ensures
            r@ == cmp_v(self@, rhs@, op),
    {
        let o = cmp3_exec(&self, &rhs);
        let holds = match op {
            Cmp::Lt => matches!(o, Ord3::Lt),
            Cmp::Le => !matches!(o, Ord3::Gt),
            Cmp::Eq => matches!(o, Ord3::Eq),
            Cmp::Ne => !matches!(o, Ord3::Eq),
            Cmp::Gt => matches!(o, Ord3::Gt),
            Cmp::Ge => !matches!(o, Ord3::Lt),
        };
        if holds {
            Value::Num(ONE_BITS)
        } else {
            Value::Null
        }
    }
}

fn clamp_exec(k: i64, len: usize) -> (r: usize)
    ensures
        r as int == clamp_idx(k, len as nat),
{
    if k < 0 {
        0
    } else if (k as u64) > (len as u64) {
        len
    } else {
        k as usize
    }
}

/// True when `p` occurs in `s` starting at `i`.
fn match_at(s: &Vec<char>, p: &Vec<char>, i: usize) -> (r: bool)
    requires
        i <= s@.len(),
    ensures
        r == (p@.len() > 0 && i + p@.len() <= s@.len() && s@.subrange(
            i as int,
            i + p@.len() as int,
        ) == p@),
{
    if p.len() == 0 || p.len() > s.len() - i {
        return false;
    }
    proof {
        assert(i + p@.len() <= s@.len());
    }
    let mut j: usize = 0;
    while j < p.len()
        invariant
            0 <= j <= p@.len(),
            i + p@.len() <= s@.len() <= usize::MAX,
            forall|t: int| 0 <= t < j ==> s@[i + t] == p@[t],
        decreases p@.len() - j,
    {
        if s[i + j] != p[j] {
            return false;
        }
        j = j + 1;
    }
    proof {
        assert(s@.subrange(i as int, i + p@.len() as int) =~= p@);
    }
    true
}

/// Drops every occurrence of `p` from `s`, scanning once left to right.
fn sub_text(s: &Vec<char>, p: &Vec<char>) -> (r: Vec<char>)
    ensures
        r@ == sub_str(s@, p@),
{
    let mut r: Vec<char> = Vec::new();
    let mut i: usize = 0;
    proof {
        assert(remove_pat(s@, p@, 0) =~= Seq::<char>::empty() + remove_pat(s@, p@, 0));
    }
    while i < s.len()
        invariant
            0 <= i <= s@.len(),
            remove_pat(s@, p@, 0) == r@ + remove_pat(s@, p@, i as int),
        decreases s@.len() - i,
    {
        if match_at(s, p, i) {
            proof {
                assert(remove_pat(s@, p@, i as int) == remove_pat(s@, p@, i + p@.len() as int));
            }
            i = i + p.len();
        } else {
            let ghost rpre = r@;
            r.push(s[i]);
            proof {
                assert(remove_pat(s@, p@, i as int) == seq![s@[i as int]] + remove_pat(
                    s@,
                    p@,
                    i + 1,
                ));
                assert(rpre + (seq![s@[i as int]] + remove_pat(s@, p@, i + 1)) =~= r@ + remove_pat(
                    s@,
                    p@,
                    i + 1,
                ));
            }
            i = i + 1;
        }
    }
    proof {
        assert(remove_pat(s@, p@, i as int) =~= Seq::<char>::empty());
        assert(r@ =~= r@ + Seq::<char>::empty());
    }
    r
}

/// `s` repeated `k` times.
fn rep_text(s: &Vec<char>, k: u64) -> (r: Vec<char>)
    ensures
        r@ == rep_app(s@, k as nat),
{
    let mut r: Vec<char> = Vec::new();
    let mut c: u64 = 0;
    while c < k
        invariant
            0 <= c <= k,
            r@ == rep_app(s@, c as nat),
        decreases k - c,
    {
        push_all(&mut r, s);
        c = c + 1;
    }
    r
}

proof fn lemma_rev_pointwise(s: Seq<char>)
    ensures
        rev_seq(s).len() == s.len(),
        forall|i: int| 0 <= i < s.len() ==> rev_seq(s)[i] == s[s.len() - 1 - i],
    decreases s.len(),
{
    if s.len() > 0 {
        lemma_rev_pointwise(s.drop_last());
    }
}

/// `s` reversed.
fn rev_text(s: &Vec<char>) -> (r: Vec<char>)
    ensures
        r@ == rev_seq(s@),
{
    let n = s.len();
    let mut r: Vec<char> = Vec::new();
    let mut j: usize = 0;
    while j < n
        invariant
            0 <= j <= n == s@.len(),
            r@.len() == j,
            forall|t: int| 0 <= t < j ==> r@[t] == s@[n - 1 - t],
        decreases n - j,
    {
        r.push(s[n - 1 - j]);
        j = j + 1;
    }
    proof {
        lemma_rev_pointwise(s@);
        assert(r@ =~= rev_seq(s@));
    }
    r
}

/// Orders two texts lexicographically.
fn lex_exec(a: &Vec<char>, b: &Vec<char>) -> (r: Ord3)
    ensures
        r == lex_cmp(a@, b@),
{
    let mut i: usize = 0;
    proof {
        assert(a@.skip(0) =~= a@);
        assert(b@.skip(0) =~= b@);
    }
    loop
        invariant
            0 <= i <= a@.len(),
            i <= b@.len(),
            lex_cmp(a@, b@) == lex_cmp(a@.skip(i as int), b@.skip(i as int)),
        decreases a@.len() - i,
    {
        if i == a.len() && i == b.len() {
            return Ord3::Eq;
        }
        if i == a.len() {
            return Ord3::Lt;
        }
        if i == b.len() {
            return Ord3::Gt;
        }
        if a[i] < b[i] {
            return Ord3::Lt;
        }
        if a[i] > b[i] {
            return Ord3::Gt;
        }
        proof {
            assert(a@.skip(i as int).skip(1) =~= a@.skip(i + 1));
            assert(b@.skip(i as int).skip(1) =~= b@.skip(i + 1));
        }
        i = i + 1;
    }
}

/// Orders two values per the language's total order.
fn cmp3_exec(a: &Value, b: &Value) -> (r: Ord3)
    ensures
        r == cmp3(a@, b@),
{
    match (a, b) {
        (Value::Null, Value::Null) => Ord3::Eq,
        (Value::Null, _) => Ord3::Lt,
        (_, Value::Null) => Ord3::Gt,
        (Value::Num(x), Value::Num(y)) => {
            let kx = num_key_of(*x);
            let ky = num_key_of(*y);
            if kx < ky {
                Ord3::Lt
            } else if kx > ky {
                Ord3::Gt
            } else {
                Ord3::Eq
            }
        },
        (Value::Num(_), Value::Str(_)) => Ord3::Lt,
        (Value::Str(_), Value::Num(_)) => Ord3::Gt,
        (Value::Str(x), Value::Str(y)) => lex_exec(x, y),
    }
}

/// True when `p` occurs somewhere in `s`.
pub open spec fn occurs(s: Seq<char>, p: Seq<char>) -> bool {
    exists|j: int|
        0 <= j && j + p.len() <= s.len() && #[trigger] s.subrange(j, j + p.len() as int) == p
}

proof fn lemma_rp_all(s: Seq<char>, p: Seq<char>, i: int)
    requires
        0 <= i <= s.len(),
        p.len() == 0 || !occurs(s, p),
    ensures
        remove_pat(s, p, i) == s.skip(i),
    decreases s.len() - i,
{
    if i >= s.len() {
        assert(remove_pat(s, p, i) =~= s.skip(i));
    } else {
        if p.len() > 0 && i + p.len() <= s.len() && s.subrange(i, i + p.len() as int) == p {
            assert(occurs(s, p));
            assert(false);
        }
        lemma_rp_all(s, p, i + 1);
        assert(seq![s[i]] + s.skip(i + 1) =~= s.skip(i));
    }
}

/// Law: removing a pattern that does not occur in the text, or an empty
/// pattern, leaves the text unchanged.  In particular a second removal of
/// the same pattern is a no-op whenever the first removal left no new
/// occurrence behind.
pub proof fn lemma_sub_absent(s: Seq<char>, p: Seq<char>)
    requires
        p.len() == 0 || !occurs(s, p),
    ensures
        sub_str(s, p) == s,
{
    lemma_rp_all(s, p, 0);
    assert(s.skip(0) =~= s);
}

/// Law: double boolean complement keeps truthiness: `!!x` is truthy
/// exactly when `x` is.
pub proof fn lemma_double_not(v: ValV)
    ensures
        truthy(not_v(not_v(v))) == truthy(v),
{
}

/// Law: unary minus is an involution: negating a number twice gives the
/// number back, and reversing a text twice gives the text back.
pub proof fn lemma_neg_involution(v: ValV)
    ensures
        neg_v(neg_v(v)) == v,
{
    match v {
        ValV::Num(n) => {
            assert((n ^ 0x8000_0000_0000_0000u64) ^ 0x8000_0000_0000_0000u64 == n)
                by (bit_vector);
        },
        ValV::Str(s) => {
            lemma_rev_pointwise(s);
            lemma_rev_pointwise(rev_seq(s));
            assert(rev_seq(rev_seq(s)) =~= s);
        },
        ValV::Null => {},
    }
}

proof fn lemma_lex_eq(a: Seq<char>, b: Seq<char>)
    ensures
        (lex_cmp(a, b) == Ord3::Eq) <==> a == b,
    decreases a.len(),
{
    if a.len() == 0 && b.len() == 0 {
        assert(a =~= b);
    } else if a.len() == 0 || b.len() == 0 {
    } else if a[0] < b[0] || a[0] > b[0] {
    } else {
        assert(a[0] == b[0]);
        lemma_lex_eq(a.skip(1), b.skip(1));
        if lex_cmp(a, b) == Ord3::Eq {
            assert forall|i: int| 0 <= i < a.len() implies a[i] == b[i] by {
                if i > 0 {
                    assert(a[i] == a.skip(1)[i - 1]);
                    assert(b[i] == b.skip(1)[i - 1]);
                }
            }
            assert(a =~= b);
        }
        if a == b {
            assert(a.skip(1) =~= b.skip(1));
        }
    }
}

proof fn lemma_lex_flip(a: Seq<char>, b: Seq<char>)
    ensures
        lex_cmp(b, a) == (match lex_cmp(a, b) {
            Ord3::Lt => Ord3::Gt,
            Ord3::Eq => Ord3::Eq,
            Ord3::Gt => Ord3::Lt,
        }),
    decreases a.len(),
{
    if a.len() == 0 || b.len() == 0 {
    } else if a[0] < b[0] || a[0] > b[0] {
    } else {
        lemma_lex_flip(a.skip(1), b.skip(1));
    }
}

proof fn lemma_lex_trans(a: Seq<char>, b: Seq<char>, c: Seq<char>)
    requires
        lex_cmp(a, b) == Ord3::Lt,
        lex_cmp(b, c) == Ord3::Lt,
    ensures
        lex_cmp(a, c) == Ord3::Lt,
    decreases a.len(),
{
    if a.len() == 0 {
        assert(b.len() != 0);
        assert(c.len() != 0);
    } else {
        assert(b.len() != 0);
        assert(c.len() != 0);
        if a[0] == b[0] && b[0] == c[0] {
            lemma_lex_trans(a.skip(1), b.skip(1), c.skip(1));
        }
    }
}

proof fn lemma_key_inj(x: u64, y: u64)
    ensures
        (num_key(x) == num_key(y)) <==> x == y,
{
    assert(((if x & 0x8000_0000_0000_0000u64 != 0 {
        !x
    } else {
        x | 0x8000_0000_0000_0000u64
    }) == (if y & 0x8000_0000_0000_0000u64 != 0 {
        !y
    } else {
        y | 0x8000_0000_0000_0000u64
    })) <==> x == y) by (bit_vector);
}

/// Law: the six comparison operators all answer from one total order.
/// Equality holds exactly between identical values, the order flips with
/// its arguments, it is transitive, and every number sorts below every
/// text.
pub proof fn lemma_order_total(a: ValV, b: ValV, c: ValV)
    ensures
        (cmp3(a, b) == Ord3::Eq) <==> a == b,
        (cmp3(a, b) == Ord3::Lt) <==> (cmp3(b, a) == Ord3::Gt),
        (cmp3(a, b) == Ord3::Lt && cmp3(b, c) == Ord3::Lt) ==> cmp3(a, c) == Ord3::Lt,
        (a is Num && b is Str) ==> cmp3(a, b) == Ord3::Lt,
{
    match (a, b) {
        (ValV::Num(x), ValV::Num(y)) => {
            lemma_key_inj(x, y);
        },
        (ValV::Str(x), ValV::Str(y)) => {
            lemma_lex_eq(x, y);
            lemma_lex_flip(x, y);
        },
        _ => {},
    }
    if cmp3(a, b) == Ord3::Lt && cmp3(b, c) == Ord3::Lt {
        match (a, b, c) {
            (ValV::Str(x), ValV::Str(y), ValV::Str(z)) => {
                lemma_lex_trans(x, y, z);
            },
            _ => {},
        }
    }
}

/// Law: `<=` holds exactly when `<` or `==` holds, `>=` exactly when `>`
/// or `==`, `!=` is the complement of `==`, and `>` mirrors `<`.
pub proof fn lemma_cmp_ops(a: ValV, b: ValV)
    ensures
        truthy(cmp_v(a, b, Cmp::Le)) == (truthy(cmp_v(a, b, Cmp::Lt)) || truthy(
            cmp_v(a, b, Cmp::Eq),
        )),
        truthy(cmp_v(a, b, Cmp::Ge)) == (truthy(cmp_v(a, b, Cmp::Gt)) || truthy(
            cmp_v(a, b, Cmp::Eq),
        )),
        truthy(cmp_v(a, b, Cmp::Ne)) == !truthy(cmp_v(a, b, Cmp::Eq)),
        truthy(cmp_v(a, b, Cmp::Gt)) == truthy(cmp_v(b, a, Cmp::Lt)),
{
    match (a, b) {
        (ValV::Str(x), ValV::Str(y)) => {
            lemma_lex_flip(x, y);
        },
        _ => {},
    }
}

} // verus!

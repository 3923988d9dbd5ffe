//! The fused parser and evaluator.  A mathematical interpreter over the
//! source's character sequence gives the meaning of every construct; the
//! runtime walks the same steps and is proved to agree with it, one
//! function to one function.
//!
//! Evaluation is fuel-bounded: every re-entry into a statement, loop
//! iteration or operand costs one unit, so the walk always terminates.
//! The public entry point supplies so much fuel that no real program
//! exhausts it; a run that would is reported as an error.

use vstd::prelude::*;
use crate::Kind;
use crate::lex::{
    skip1, skip_comment, kind_at, tok_at, run_end, Class, scan_run, token_at, text_eq, chars_eq,
};
use crate::num::{parse_of, seq_sub, push_all};
use crate::value::{
    ValV, Value, Cmp, truthy, display_of, neg_v, not_v, add_v, sub_v, mul_v, div_v, rem_v, cmp_v,
};

verus! {

/// The evaluator's state: cursor, variables, suppression depth, output.
pub struct StS {
    pub i: int,
    pub env: Seq<(Seq<char>, ValV)>,
    pub depth: nat,
    pub out: Seq<char>,
}

/// A fatal diagnostic: its text and the character offset it points at.
pub struct ErrS {
    pub msg: Seq<char>,
    pub at: int,
}

/// Outcome of a walk: a result, a fatal error, or exhausted fuel.
pub enum Flow<T> {
    Done(T),
    Fail(ErrS),
    Stop,
}

pub open spec fn fail_at<T>(msg: Seq<char>, at: int) -> Flow<T> {
    Flow::Fail(ErrS { msg, at })
}

/// First index at or after `j` whose binding's name is `k`, else the length.
pub open spec fn env_find(e: Seq<(Seq<char>, ValV)>, k: Seq<char>, j: int) -> int
    decreases e.len() - j,
{
    if j < 0 || j >= e.len() {
        e.len() as int
    } else if e[j].0 == k {
        j
    } else {
        env_find(e, k, j + 1)
    }
}

pub open spec fn env_get(e: Seq<(Seq<char>, ValV)>, k: Seq<char>) -> Option<ValV> {
    let m = env_find(e, k, 0);
    if m < e.len() {
        Some(e[m].1)
    } else {
        None
    }
}

/// Binds `k` to `v`: in place when `k` is already bound, else at the end.
pub open spec fn env_set(e: Seq<(Seq<char>, ValV)>, k: Seq<char>, v: ValV) -> Seq<
    (Seq<char>, ValV),
> {
    let m = env_find(e, k, 0);
    if m < e.len() {
        e.update(m, (k, v))
    } else {
        e.push((k, v))
    }
}

proof fn lemma_find_props(e: Seq<(Seq<char>, ValV)>, k: Seq<char>, j: int)
    requires
        0 <= j <= e.len(),
    ensures
        j <= env_find(e, k, j) <= e.len(),
        env_find(e, k, j) < e.len() ==> e[env_find(e, k, j)].0 == k,
        forall|t: int| j <= t < env_find(e, k, j) ==> e[t].0 != k,
    decreases e.len() - j,
{
    if j < e.len() && e[j].0 != k {
        lemma_find_props(e, k, j + 1);
    }
}

proof fn lemma_find_at(e: Seq<(Seq<char>, ValV)>, k: Seq<char>, from: int, at: int)
    requires
        0 <= from <= at <= e.len(),
        forall|t: int| from <= t < at ==> e[t].0 != k,
        at == e.len() || e[at].0 == k,
    ensures
        env_find(e, k, from) == at,
    decreases at - from,
{
    if from < at {
        lemma_find_at(e, k, from + 1, at);
    }
}

/// No name is bound twice.
pub open spec fn env_uniq(e: Seq<(Seq<char>, ValV)>) -> bool {
    forall|i: int, j: int| 0 <= i < j < e.len() ==> e[i].0 != e[j].0
}

/// Law: the variables behave as a mapping.  After binding `k` to `v`,
/// `k` reads back as `v`, every other name is unchanged, and names stay
/// unique.
pub proof fn lemma_env_set_get(e: Seq<(Seq<char>, ValV)>, k: Seq<char>, v: ValV)
    ensures
        env_get(env_set(e, k, v), k) == Some(v),
        forall|k2: Seq<char>| k2 != k ==> env_get(env_set(e, k, v), k2) == env_get(e, k2),
        env_uniq(e) ==> env_uniq(env_set(e, k, v)),
{
    lemma_find_props(e, k, 0);
    let m = env_find(e, k, 0);
    let u = env_set(e, k, v);
    if m < e.len() {
        assert(u =~= e.update(m, (k, v)));
        assert(e[m].0 == k);
        lemma_find_at(u, k, 0, m);
        assert(env_get(u, k) == Some(v));
        assert forall|k2: Seq<char>| k2 != k implies env_get(u, k2) == env_get(e, k2) by {
            lemma_find_eq_update(e, u, k2, 0);
            lemma_find_props(e, k2, 0);
            lemma_find_props(u, k2, 0);
            let f = env_find(e, k2, 0);
            if f < e.len() {
                assert(e[f].0 == k2);
                assert(f != m);
            }
        }
    } else {
        assert(u =~= e.push((k, v)));
        lemma_find_at(u, k, 0, e.len() as int);
        assert(env_get(u, k) == Some(v));
        assert forall|k2: Seq<char>| k2 != k implies env_get(u, k2) == env_get(e, k2) by {
            lemma_find_props(e, k2, 0);
            let f = env_find(e, k2, 0);
            if f < e.len() {
                lemma_find_at(u, k2, 0, f);
            } else {
                lemma_find_at(u, k2, 0, u.len() as int);
            }
        }
    }
}

/// Two environments with the same names at every index find any name at
/// the same index.
proof fn lemma_find_eq_update(
    e: Seq<(Seq<char>, ValV)>,
    u: Seq<(Seq<char>, ValV)>,
    k: Seq<char>,
    j: int,
)
    requires
        0 <= j <= e.len(),
        u.len() == e.len(),
        forall|t: int| 0 <= t < e.len() ==> u[t].0 == e[t].0,
    ensures
        env_find(u, k, j) == env_find(e, k, j),
    decreases e.len() - j,
{
    if j < e.len() {
        lemma_find_eq_update(e, u, k, j + 1);
    }
}

/// One less, stopping at zero.
pub open spec fn dec(d: nat) -> nat {
    if d > 0 {
        (d - 1) as nat
    } else {
        0
    }
}

/// Cursor moved over `n` characters and the trivia after them.
pub open spec fn bump_to(s: Seq<char>, st: StS, n: int) -> StS {
    StS { i: skip1(s, st.i + n), ..st }
}

/// Cursor moved past the token at the cursor, if any.
pub open spec fn bump_tok(s: Seq<char>, st: StS) -> StS {
    match tok_at(s, st.i) {
        Some(t) => bump_to(s, st, t.len() as int),
        None => st,
    }
}

/// Consumes the token `t` or fails with `msg`.
pub open spec fn expect_s(s: Seq<char>, st: StS, t: Seq<char>, msg: Seq<char>) -> Flow<StS> {
    match tok_at(s, st.i) {
        None => fail_at("String literal not terminated"@, st.i),
        Some(tk) => if tk == t {
            Flow::Done(bump_tok(s, st))
        } else {
            fail_at(msg, st.i)
        },
    }
}

/// Decodes a soft string's escapes; None marks an invalid escape.
pub open spec fn decode_soft(s: Seq<char>, i: int) -> Option<Seq<char>>
    decreases s.len() - i,
{
    if i < 0 || i >= s.len() {
        Some(Seq::empty())
    } else if s[i] == '\\' {
        if i + 1 >= s.len() {
            Some(Seq::empty())
        } else {
            let c = s[i + 1];
            let m = if c == 'n' {
                '\n'
            } else if c == 'r' {
                '\r'
            } else if c == 't' {
                '\t'
            } else if c == '"' {
                '"'
            } else {
                '\\'
            };
            if c == 'n' || c == 'r' || c == 't' || c == '"' || c == '\\' {
                match decode_soft(s, i + 2) {
                    Some(r) => Some(seq![m] + r),
                    None => None,
                }
            } else {
                None
            }
        }
    } else {
        match decode_soft(s, i + 1) {
            Some(r) => Some(seq![s[i]] + r),
            None => None,
        }
    }
}

/// A literal or identifier.  Under suppression it is consumed but yields
/// null, with no variable lookup and no literal parsing.
pub open spec fn atom_s(s: Seq<char>, st: StS) -> Flow<(StS, ValV)> {
    match tok_at(s, st.i) {
        None => fail_at("String literal not terminated"@, st.i),
        Some(t) => {
            if st.depth > 0 {
                Flow::Done((bump_tok(s, st), ValV::Null))
            } else {
                match kind_at(s, st.i) {
                    Kind::Ident => match env_get(st.env, t) {
                        Some(v) => Flow::Done((bump_tok(s, st), v)),
                        None => fail_at("Unknown variable"@, st.i),
                    },
                    Kind::Number => match parse_of(t) {
                        Some(bits) => Flow::Done((bump_tok(s, st), ValV::Num(bits))),
                        None => fail_at("Invalid number"@, st.i),
                    },
                    Kind::StringLit => {
                        let content = t.subrange(1, t.len() - 1);
                        if t[0] == '"' {
                            match decode_soft(content, 0) {
                                Some(d) => Flow::Done((bump_tok(s, st), ValV::Str(d))),
                                None => fail_at("Invalid soft string escape"@, st.i),
                            }
                        } else {
                            Flow::Done((bump_tok(s, st), ValV::Str(content)))
                        }
                    },
                    _ => fail_at("Invalid expression"@, st.i),
                }
            }
        },
    }
}

/// Binding powers of the infix operators; the close parenthesis carries
/// power zero so that it stops any expression.
pub open spec fn prec_of(t: Seq<char>) -> Option<(u32, u32)> {
    if t == ")"@ {
        Some((0u32, 1u32))
    } else if t == "||"@ {
        Some((2u32, 3u32))
    } else if t == "&&"@ {
        Some((3u32, 4u32))
    } else if t == "=="@ || t == "!="@ {
        Some((4u32, 5u32))
    } else if t == "<"@ || t == ">"@ || t == "<="@ || t == ">="@ {
        Some((5u32, 6u32))
    } else if t == "+"@ || t == "-"@ {
        Some((6u32, 7u32))
    } else if t == "*"@ || t == "/"@ || t == "%"@ {
        Some((7u32, 8u32))
    } else {
        None
    }
}

/// What an infix operator makes of its two operands; `&&` and `||`, when
/// they did not short-circuit, keep the right operand.
pub open spec fn apply_bin(t: Seq<char>, a: ValV, b: ValV) -> ValV {
    if t == "+"@ {
        add_v(a, b)
    } else if t == "-"@ {
        sub_v(a, b)
    } else if t == "*"@ {
        mul_v(a, b)
    } else if t == "/"@ {
        div_v(a, b)
    } else if t == "%"@ {
        rem_v(a, b)
    } else if t == "<"@ {
        cmp_v(a, b, Cmp::Lt)
    } else if t == "<="@ {
        cmp_v(a, b, Cmp::Le)
    } else if t == ">"@ {
        cmp_v(a, b, Cmp::Gt)
    } else if t == ">="@ {
        cmp_v(a, b, Cmp::Ge)
    } else if t == "=="@ {
        cmp_v(a, b, Cmp::Eq)
    } else if t == "!="@ {
        cmp_v(a, b, Cmp::Ne)
    } else {
        b
    }
}

/// An expression at minimum binding power `min_bp`: a prefix part, then
/// the chain of infix operators.
pub open spec fn mixed_s(s: Seq<char>, st: StS, min_bp: u32, fuel: nat) -> Flow<(StS, ValV)>
    decreases fuel, 3int,
{
    if fuel == 0 {
        Flow::Stop
    } else {
        match prefix_s(s, st, min_bp, fuel) {
            Flow::Done((st1, v)) => infix_s(s, st1, v, min_bp, fuel),
            e => e,
        }
    }
}

/// A prefix operator, a parenthesized expression, or an atom.
pub open spec fn prefix_s(s: Seq<char>, st: StS, min_bp: u32, fuel: nat) -> Flow<(StS, ValV)>
    decreases fuel, 1int,
{
    if fuel == 0 {
        Flow::Stop
    } else {
        match tok_at(s, st.i) {
            None => fail_at("String literal not terminated"@, st.i),
            Some(t) => {
                let pb: u32 = if t == "("@ {
                    1
                } else {
                    8
                };
                if t == "-"@ && pb >= min_bp {
                    match mixed_s(s, bump_tok(s, st), pb, (fuel - 1) as nat) {
                        Flow::Done((st2, v)) => Flow::Done((st2, neg_v(v))),
                        e => e,
                    }
                } else if t == "!"@ && pb >= min_bp {
                    match mixed_s(s, bump_tok(s, st), pb, (fuel - 1) as nat) {
                        Flow::Done((st2, v)) => Flow::Done((st2, not_v(v))),
                        e => e,
                    }
                } else if t == "("@ {
                    match mixed_s(s, bump_tok(s, st), pb, (fuel - 1) as nat) {
                        Flow::Done((st2, v)) => match expect_s(
                            s,
                            st2,
                            ")"@,
                            "Expected a close parentheses"@,
                        ) {
                            Flow::Done(st3) => Flow::Done((st3, v)),
                            Flow::Fail(e) => Flow::Fail(e),
                            Flow::Stop => Flow::Stop,
                        },
                        e => e,
                    }
                } else {
                    atom_s(s, st)
                }
            },
        }
    }
}

/// The infix chain: consume operators of power at least `min_bp`.  A
/// short-circuiting `&&` or `||` walks its right operand suppressed and
/// keeps the left value.
pub open spec fn infix_s(s: Seq<char>, st: StS, v: ValV, min_bp: u32, fuel: nat) -> Flow<
    (StS, ValV),
>
    decreases fuel, 2int,
{
    if fuel == 0 {
        Flow::Stop
    } else {
        match tok_at(s, st.i) {
            None => fail_at("String literal not terminated"@, st.i),
            Some(t) => match prec_of(t) {
                None => Flow::Done((st, v)),
                Some((bp, rbp)) => {
                    if bp < min_bp {
                        Flow::Done((st, v))
                    } else if (t == "||"@ && truthy(v)) || (t == "&&"@ && !truthy(v)) {
                        if st.depth >= 0xFFFF_FFFF {
                            Flow::Stop
                        } else {
                            let st1 = StS { depth: st.depth + 1, ..bump_tok(s, st) };
                            match mixed_s(s, st1, rbp, (fuel - 1) as nat) {
                                Flow::Done((st2, _)) => infix_s(
                                    s,
                                    StS { depth: dec(st2.depth), ..st2 },
                                    v,
                                    min_bp,
                                    (fuel - 1) as nat,
                                ),
                                e => e,
                            }
                        }
                    } else if t == ")"@ {
                        fail_at("Invalid operator"@, st.i)
                    } else {
                        match mixed_s(s, bump_tok(s, st), rbp, (fuel - 1) as nat) {
                            Flow::Done((st2, rhs)) => {
                                let v2 = if st2.depth == 0 {
                                    apply_bin(t, v, rhs)
                                } else {
                                    v
                                };
                                infix_s(s, st2, v2, min_bp, (fuel - 1) as nat)
                            },
                            e => e,
                        }
                    }
                },
            },
        }
    }
}

/// A command: `print` with an expression, or an assignment.  Suppressed,
/// it still walks the expression but neither prints nor binds.
pub open spec fn cmd_s(s: Seq<char>, st: StS, fuel: nat) -> Flow<StS> {
    match tok_at(s, st.i) {
        None => fail_at("String literal not terminated"@, st.i),
        Some(t) => {
            if t == "print"@ {
                match mixed_s(s, bump_tok(s, st), 0, fuel) {
                    Flow::Done((st2, v)) => Flow::Done(
                        if st2.depth == 0 {
                            StS { out: st2.out + display_of(v) + seq!['\n'], ..st2 }
                        } else {
                            st2
                        },
                    ),
                    Flow::Fail(e) => Flow::Fail(e),
                    Flow::Stop => Flow::Stop,
                }
            } else if kind_at(s, st.i) == Kind::Ident {
                match expect_s(s, bump_tok(s, st), "="@, "Expected a `=`"@) {
                    Flow::Done(st2) => match mixed_s(s, st2, 0, fuel) {
                        Flow::Done((st3, v)) => Flow::Done(
                            if st3.depth == 0 {
                                StS { env: env_set(st3.env, t, v), ..st3 }
                            } else {
                                st3
                            },
                        ),
                        Flow::Fail(e) => Flow::Fail(e),
                        Flow::Stop => Flow::Stop,
                    },
                    Flow::Fail(e) => Flow::Fail(e),
                    Flow::Stop => Flow::Stop,
                }
            } else {
                fail_at("Expected a command or assign"@, st.i)
            }
        },
    }
}

/// The body of a brace block: statements until the closing brace.
pub open spec fn body_s(s: Seq<char>, st: StS, fuel: nat) -> Flow<StS>
    decreases fuel, 0int,
{
    if fuel == 0 {
        Flow::Stop
    } else {
        match tok_at(s, st.i) {
            None => fail_at("String literal not terminated"@, st.i),
            Some(t) => {
                if t == "}"@ {
                    Flow::Done(st)
                } else {
                    match stmt_s(s, st, (fuel - 1) as nat) {
                        Flow::Done(st1) => body_s(s, st1, (fuel - 1) as nat),
                        e => e,
                    }
                }
            },
        }
    }
}

/// A brace-delimited block.
pub open spec fn block_s(s: Seq<char>, st: StS, fuel: nat) -> Flow<StS>
    decreases fuel, 1int,
{
    if fuel == 0 {
        Flow::Stop
    } else {
        match expect_s(s, st, "{"@, "Expected a left brace"@) {
            Flow::Done(st1) => match body_s(s, st1, fuel) {
                Flow::Done(st2) => expect_s(s, st2, "}"@, "Expected a right brace"@),
                e => e,
            },
            e => e,
        }
    }
}

/// `if`: evaluate the condition, then walk the block — suppressed when
/// the condition is falsy, so the cursor still crosses it.
pub open spec fn if_s(s: Seq<char>, st: StS, fuel: nat) -> Flow<StS>
    decreases fuel, 3int,
{
    if fuel == 0 {
        Flow::Stop
    } else {
        match mixed_s(s, bump_tok(s, st), 0, fuel) {
            Flow::Done((st2, v)) => {
                if st2.depth == 0 && !truthy(v) {
                    match block_s(s, StS { depth: st2.depth + 1, ..st2 }, fuel) {
                        Flow::Done(st4) => Flow::Done(StS { depth: dec(st4.depth), ..st4 }),
                        e => e,
                    }
                } else {
                    block_s(s, st2, fuel)
                }
            },
            Flow::Fail(e) => Flow::Fail(e),
            Flow::Stop => Flow::Stop,
        }
    }
}

/// `while`: the condition is re-tokenized on every pass; the final pass
/// walks the body once suppressed, so nothing is left unparsed.
pub open spec fn while_s(s: Seq<char>, st: StS, fuel: nat) -> Flow<StS>
    decreases fuel, 3int,
{
    if fuel == 0 {
        Flow::Stop
    } else {
        let st1 = bump_tok(s, st);
        while_loop_s(s, st1, st1.i, fuel)
    }
}

pub open spec fn while_loop_s(s: Seq<char>, st: StS, mark: int, fuel: nat) -> Flow<StS>
    decreases fuel, 2int,
{
    if fuel == 0 {
        Flow::Stop
    } else {
        match mixed_s(s, st, 0, fuel) {
            Flow::Done((st1, v)) => {
                if st1.depth == 0 && truthy(v) {
                    match block_s(s, st1, fuel) {
                        Flow::Done(st2) => while_loop_s(
                            s,
                            StS { i: mark, ..st2 },
                            mark,
                            (fuel - 1) as nat,
                        ),
                        e => e,
                    }
                } else {
                    if st1.depth >= 0xFFFF_FFFF {
                        Flow::Stop
                    } else {
                        match block_s(s, StS { depth: st1.depth + 1, ..st1 }, fuel) {
                            Flow::Done(st3) => Flow::Done(StS { depth: dec(st3.depth), ..st3 }),
                            e => e,
                        }
                    }
                }
            },
            Flow::Fail(e) => Flow::Fail(e),
            Flow::Stop => Flow::Stop,
        }
    }
}

/// One statement.
pub open spec fn stmt_s(s: Seq<char>, st: StS, fuel: nat) -> Flow<StS>
    decreases fuel, 4int,
{
    if fuel == 0 {
        Flow::Stop
    } else {
        match tok_at(s, st.i) {
            None => fail_at("String literal not terminated"@, st.i),
            Some(t) => {
                if t == "if"@ {
                    if_s(s, st, fuel)
                } else if t == "while"@ {
                    while_s(s, st, fuel)
                } else if t == "{"@ {
                    block_s(s, st, fuel)
                } else {
                    match cmd_s(s, st, fuel) {
                        Flow::Done(st1) => expect_s(s, st1, ";"@, "Expected a semicolon"@),
                        e => e,
                    }
                }
            },
        }
    }
}

/// Statements until end of input; anything unrecognized at statement
/// position is fatal unless it is exactly the end.
pub open spec fn proc_s(s: Seq<char>, st: StS, fuel: nat) -> Flow<StS>
    decreases fuel, 5int,
{
    if fuel == 0 {
        Flow::Stop
    } else {
        if kind_at(s, st.i) == Kind::Unknown {
            if st.i == s.len() {
                Flow::Done(st)
            } else {
                fail_at("Invalid input"@, st.i)
            }
        } else {
            match stmt_s(s, st, fuel) {
                Flow::Done(st1) => proc_s(s, st1, (fuel - 1) as nat),
                e => e,
            }
        }
    }
}

/// A whole run from state `st`: skip leading trivia, then the statements.
pub open spec fn proc_entry(s: Seq<char>, st: StS, fuel: nat) -> Flow<StS> {
    proc_s(s, StS { i: skip1(s, st.i), ..st }, fuel)
}

/// The variables a run starts with: only `null`.
pub open spec fn init_env() -> Seq<(Seq<char>, ValV)> {
    seq![("null"@, ValV::Null)]
}

/// Saturating increment.
pub open spec fn sat_inc(x: usize) -> usize {
    if x == usize::MAX {
        x
    } else {
        (x + 1) as usize
    }
}

/// Count of line breaks before position `i`, saturating.
pub open spec fn count_nl(s: Seq<char>, i: int) -> usize
    decreases i,
{
    if i <= 0 {
        0
    } else {
        let c = count_nl(s, i - 1);
        if 0 <= i - 1 < s.len() && s[i - 1] == '\n' {
            sat_inc(c)
        } else {
            c
        }
    }
}

/// Start of the line that position `i` lies on.
pub open spec fn line_start(s: Seq<char>, i: int) -> int
    decreases i,
{
    if i <= 0 {
        0
    } else if 0 <= i - 1 < s.len() && s[i - 1] == '\n' {
        i
    } else {
        line_start(s, i - 1)
    }
}

/// One-based line of position `i`.
pub open spec fn line_of(s: Seq<char>, i: int) -> usize {
    sat_inc(count_nl(s, i))
}

/// One-based column of position `i` on its line.
pub open spec fn col_of(s: Seq<char>, i: int) -> usize {
    let d = i - line_start(s, i);
    if d >= usize::MAX {
        usize::MAX
    } else {
        sat_inc(d as usize)
    }
}

/// The rest of the line at position `i`: everything up to a line break.
pub open spec fn preview_of(s: Seq<char>, i: int) -> Seq<char> {
    s.subrange(i, run_end(s, i, Class::NonCrLf))
}

/// A fatal diagnostic with the position rendered as line, column and a
/// preview of the unconsumed text on that line.
#[derive(Debug)]
pub struct Error {
    pub msg: &'static str,
    pub line: usize,
    pub col: usize,
    pub preview: Vec<char>,
}

/// The runtime error matches the mathematical one.
pub open spec fn err_ok(s: Seq<char>, e: ErrS, er: Error) -> bool {
    er.msg@ == e.msg && er.line == line_of(s, e.at) && er.col == col_of(s, e.at) && er.preview@
        == preview_of(s, e.at)
}

impl Error {
    /// The preview as an owned string, for reporting.
    pub fn preview_string(&self) -> (r: String)
        ensures
            r@ == self.preview@,
    {
        crate::num::chars_to_string(&self.preview)
    }
}

/// The host sink: receives each printed line, newline included.
pub trait Config {
    fn print(&mut self, text: &str);
}

/// A recorded cursor position, used to rewind a loop to its condition.
#[derive(Clone, Copy)]
pub struct Mark(usize);

impl Mark {
    pub closed spec fn pos(&self) -> int {
        self.0 as int
    }
}

/// Model of the runtime's variable bindings.
pub open spec fn env_v(es: Seq<(Vec<char>, Value)>) -> Seq<(Seq<char>, ValV)> {
    es.map(|j: int, p: (Vec<char>, Value)| (p.0@, p.1@))
}

/// The interpreter: owns the source text, the cursor, the variables, the
/// suppression depth, the collected output, and the host sink.
pub struct Rt<Cfg> {
    src: Vec<char>,
    i: usize,
    vars: Vec<(Vec<char>, Value)>,
    depth: u32,
    out: Vec<char>,
    pub cfg: Cfg,
}

impl<Cfg> Rt<Cfg> {
    /// The source as a character sequence.
    pub closed spec fn src_v(&self) -> Seq<char> {
        self.src@
    }

    /// The evaluator state.
    pub closed spec fn stv(&self) -> StS {
        StS {
            i: self.i as int,
            env: env_v(self.vars@),
            depth: self.depth as nat,
            out: self.out@,
        }
    }

    /// The cursor never leaves the source.
    pub closed spec fn wf(&self) -> bool {
        self.i as int <= self.src@.len()
    }

    /// The installed host sink.
    pub closed spec fn sink(&self) -> Cfg {
        self.cfg
    }

    /// A fresh interpreter over an empty source, with only `null` bound.
    pub fn with_config(cfg: Cfg) -> (r: Self)
        ensures
            r.wf(),
            r.src_v() == Seq::<char>::empty(),
            r.stv() == (StS { i: 0, env: init_env(), depth: 0, out: Seq::<char>::empty() }),
            r.sink() == cfg,
    {
        let mut vars: Vec<(Vec<char>, Value)> = Vec::new();
        vars.push((vec!['n', 'u', 'l', 'l'], Value::Null));
        let r = Rt { src: Vec::new(), i: 0, vars, depth: 0, out: Vec::new(), cfg };
        proof {
            reveal_strlit("null");
            assert("null"@ =~= seq!['n', 'u', 'l', 'l']);
            assert(env_v(r.vars@) =~= init_env());
            assert(r.stv() =~= (StS {
                i: 0,
                env: init_env(),
                depth: 0,
                out: Seq::<char>::empty(),
            }));
        }
        r
    }

    /// Replaces the source text and rewinds the cursor.
    pub fn load_source(&mut self, src: &str)
        ensures
            final(self).wf(),
            final(self).src_v() == src@,
            final(self).stv() == (StS { i: 0, ..old(self).stv() }),
    {
        self.src = crate::num::str_to_chars(src);
        self.i = 0;
    }

    /// Records the cursor.
    pub(crate) fn mark(&self) -> (r: Mark)
        ensures
            r.pos() == self.stv().i,
    {
        Mark(self.i)
    }

    /// Rewinds the cursor to a recorded position.
    pub(crate) fn back(&mut self, mark: Mark)
        requires
            0 <= mark.pos() <= old(self).src_v().len(),
        ensures
            final(self).wf(),
            final(self).src_v() == old(self).src_v(),
            final(self).stv() == (StS { i: mark.pos(), ..old(self).stv() }),
    {
        self.i = mark.0;
    }

    /// The collected output of every print so far.
    pub fn output(&self) -> (r: String)
        ensures
            r@ == self.stv().out,
    {
        crate::num::chars_to_string(&self.out)
    }

    fn make_error(&self, msg: &'static str) -> (er: Error)
        requires
            self.wf(),
        ensures
            err_ok(self.src_v(), ErrS { msg: msg@, at: self.stv().i }, er),
    {
        let ghost s = self.src@;
        let n = self.src.len();
        let mut cnt: usize = 0;
        let mut start: usize = 0;
        let mut j: usize = 0;
        while j < self.i
            invariant
                0 <= j <= self.i <= n == s.len(),
                self.src@ == s,
                self.i <= n,
                start <= j,
                cnt == count_nl(s, j as int),
                start as int == line_start(s, j as int),
            decreases self.i - j,
        {
            if self.src[j] == '\n' {
                if cnt < usize::MAX {
                    cnt = cnt + 1;
                }
                start = j + 1;
            }
            j = j + 1;
        }
        let line = if cnt == usize::MAX {
            cnt
        } else {
            cnt + 1
        };
        let d = self.i - start;
        let col = if d == usize::MAX {
            d
        } else {
            d + 1
        };
        let e = scan_run(&self.src, self.i, Class::NonCrLf);
        let preview = seq_sub(&self.src, self.i, e);
        Error { msg, line, col, preview }
    }

    /// Skips whitespace and line comments after the cursor.
    fn skip_trivias(&mut self)
        requires
            old(self).wf(),
        ensures
            final(self).wf(),
            final(self).src_v() == old(self).src_v(),
            final(self).stv() == (StS { i: skip1(old(self).src_v(), old(self).stv().i), ..old(
                self,
            ).stv() }),
    {
        let ghost s = self.src@;
        let ghost i0 = self.i as int;
        let mut inc = false;
        loop
            invariant
                self.src@ == s,
                self.i as int <= s.len(),
                self.vars@ == old(self).vars@,
                self.depth == old(self).depth,
                self.out@ == old(self).out@,
                self.cfg == old(self).cfg,
                skip1(s, i0) == (if inc {
                    skip_comment(s, self.i as int)
                } else {
                    skip1(s, self.i as int)
                }),
            ensures
                self.src@ == s,
                self.i as int == skip1(s, i0),
                self.i as int <= s.len(),
                self.vars@ == old(self).vars@,
                self.depth == old(self).depth,
                self.out@ == old(self).out@,
                self.cfg == old(self).cfg,
            decreases s.len() - self.i, (if inc {
                1int
            } else {
                0int
            }),
        {
            let n = self.src.len();
            if inc {
                if self.i < n && self.src[self.i] != '\n' {
                    self.i = self.i + 1;
                } else {
                    inc = false;
                }
            } else {
                if self.i < n && is_ws_ch(self.src[self.i]) {
                    self.i = self.i + 1;
                } else if n - self.i >= 2 && self.src[self.i] == '/' && self.src[self.i + 1]
                    == '/' {
                    self.i = self.i + 2;
                    inc = true;
                } else {
                    break ;
                }
            }
        }
    }

    /// The lexeme at the cursor, or the unterminated-string error.
    fn tok(&self) -> (r: Result<Vec<char>, Error>)
        requires
            self.wf(),
        ensures
            match tok_at(self.src_v(), self.stv().i) {
                Some(t) => r matches Ok(v) && v@ == t && self.stv().i + t.len()
                    <= self.src_v().len(),
                None => r matches Err(er) && err_ok(
                    self.src_v(),
                    ErrS { msg: "String literal not terminated"@, at: self.stv().i },
                    er,
                ),
            },
    {
        match token_at(&self.src, self.i) {
            Some(v) => Ok(v),
            None => Err(self.make_error("String literal not terminated")),
        }
    }

    /// The token kind at the cursor.
    fn kind(&self) -> (r: Kind)
        requires
            self.wf(),
        ensures
            r == kind_at(self.src_v(), self.stv().i),
    {
        crate::lex::kind_ch(&self.src, self.i)
    }

    /// Advances over `n` characters and the trivia after them.
    fn bump_n(&mut self, n: usize)
        requires
            old(self).wf(),
            old(self).stv().i + n <= old(self).src_v().len(),
        ensures
            final(self).wf(),
            final(self).src_v() == old(self).src_v(),
            final(self).stv() == bump_to(old(self).src_v(), old(self).stv(), n as int),
    {
        let total = self.src.len();
        proof {
            assert(self.i + n <= total);
        }
        self.i = self.i + n;
        self.skip_trivias();
    }

    /// Consumes exactly the token `t` or reports `msg`.
    fn expect_tok(&mut self, t: &str, msg: &'static str) -> (r: Result<(), Error>)
        requires
            old(self).wf(),
        ensures
            final(self).wf(),
            final(self).src_v() == old(self).src_v(),
            match expect_s(old(self).src_v(), old(self).stv(), t@, msg@) {
                Flow::Done(st) => r is Ok && final(self).stv() == st,
                Flow::Fail(e) => r matches Err(er) && err_ok(old(self).src_v(), e, er),
                Flow::Stop => r is Err,
            },
    {
        let tk = match self.tok() {
            Ok(tk) => tk,
            Err(er) => {
                return Err(er);
            },
        };
        if text_eq(&tk, t) {
            self.bump_n(tk.len());
            Ok(())
        } else {
            Err(self.make_error(msg))
        }
    }

    /// Looks a name up among the variables.
    fn env_lookup(&self, name: &Vec<char>) -> (r: Option<Value>)
        ensures
            match env_get(self.stv().env, name@) {
                Some(v) => r matches Some(rv) && rv@ == v,
                None => r is None,
            },
    {
        let ghost ev = env_v(self.vars@);
        let mut j: usize = 0;
        while j < self.vars.len()
            invariant
                0 <= j <= self.vars@.len(),
                ev == env_v(self.vars@),
                ev.len() == self.vars@.len(),
                env_find(ev, name@, 0) == env_find(ev, name@, j as int),
            decreases self.vars@.len() - j,
        {
            let p = &self.vars[j];
            if chars_eq(&p.0, name) {
                proof {
                    assert(ev[j as int] == (self.vars@[j as int].0@, self.vars@[j as int].1@));
                }
                return Some(p.1.clone());
            }
            proof {
                assert(ev[j as int] == (self.vars@[j as int].0@, self.vars@[j as int].1@));
            }
            j = j + 1;
        }
        None
    }

    /// Binds a name, replacing an existing binding in place.
    fn env_insert(&mut self, name: Vec<char>, v: Value)
        ensures
            final(self).wf() == old(self).wf(),
            final(self).src_v() == old(self).src_v(),
            final(self).stv() == (StS {
                env: env_set(old(self).stv().env, name@, v@),
                ..old(self).stv()
            }),
    {
        let ghost ev = env_v(self.vars@);
        let mut j: usize = 0;
        while j < self.vars.len()
            invariant
                0 <= j <= self.vars@.len(),
                ev == env_v(self.vars@),
                ev.len() == self.vars@.len(),
                env_find(ev, name@, 0) == env_find(ev, name@, j as int),
                self.src@ == old(self).src@,
                self.i == old(self).i,
                self.depth == old(self).depth,
                self.out@ == old(self).out@,
                self.cfg == old(self).cfg,
                self.vars@ == old(self).vars@,
            decreases self.vars@.len() - j,
        {
            let hit = chars_eq(&self.vars[j].0, &name);
            proof {
                assert(ev[j as int] == (self.vars@[j as int].0@, self.vars@[j as int].1@));
            }
            if hit {
                self.vars.set(j, (name, v));
                proof {
                    assert(env_v(self.vars@) =~= ev.update(j as int, (name@, v@)));
                    assert(env_set(ev, name@, v@) == ev.update(j as int, (name@, v@)));
                }
                return ;
            }
            j = j + 1;
        }
        self.vars.push((name, v));
        proof {
            assert(env_v(self.vars@) =~= ev.push((name@, v@)));
            assert(env_set(ev, name@, v@) == ev.push((name@, v@)));
        }
    }
}

fn is_ws_ch(c: char) -> (r: bool)
    ensures
        r == crate::lex::is_ws(c),
{
    c == ' ' || c == '\t' || c == '\r' || c == '\n'
}

/// Helper for assembling an option of prepended text.
pub open spec fn opt_pre(acc: Seq<char>, o: Option<Seq<char>>) -> Option<Seq<char>> {
    match o {
        Some(t) => Some(acc + t),
        None => None,
    }
}

/// Decodes the escapes of a soft string's content.
fn decode(content: &Vec<char>) -> (r: Option<Vec<char>>)
    ensures
        match decode_soft(content@, 0) {
            Some(d) => r matches Some(v) && v@ == d,
            None => r is None,
        },
{
    let ghost cv = content@;
    let n = content.len();
    let mut acc: Vec<char> = Vec::new();
    let mut i: usize = 0;
    proof {
        assert(opt_pre(acc@, decode_soft(cv, 0)) == decode_soft(cv, 0));
    }
    while i < n
        invariant
            0 <= i <= n == cv.len(),
            content@ == cv,
            decode_soft(cv, 0) == opt_pre(acc@, decode_soft(cv, i as int)),
        decreases n - i,
    {
        let c = content[i];
        if c == '\\' {
            if i + 1 >= n {
                proof {
                    assert(decode_soft(cv, i as int) == Some(Seq::<char>::empty()));
                    assert(acc@ + Seq::<char>::empty() =~= acc@);
                }
                return Some(acc);
            }
            let e = content[i + 1];
            let m = if e == 'n' {
                '\n'
            } else if e == 'r' {
                '\r'
            } else if e == 't' {
                '\t'
            } else if e == '"' {
                '"'
            } else {
                '\\'
            };
            if e == 'n' || e == 'r' || e == 't' || e == '"' || e == '\\' {
                let ghost apre = acc@;
                acc.push(m);
                proof {
                    assert(decode_soft(cv, i as int) == (match decode_soft(cv, i + 2) {
                        Some(r) => Some(seq![m] + r),
                        None => None,
                    }));
                    match decode_soft(cv, i + 2) {
                        Some(r) => {
                            assert(apre + (seq![m] + r) =~= acc@ + r);
                        },
                        None => {},
                    }
                }
                i = i + 2;
            } else {
                proof {
                    assert(decode_soft(cv, i as int) is None);
                }
                return None;
            }
        } else {
            let ghost apre = acc@;
            acc.push(c);
            proof {
                assert(decode_soft(cv, i as int) == (match decode_soft(cv, i + 1) {
                    Some(r) => Some(seq![cv[i as int]] + r),
                    None => None,
                }));
                match decode_soft(cv, i + 1) {
                    Some(r) => {
                        assert(apre + (seq![cv[i as int]] + r) =~= acc@ + r);
                    },
                    None => {},
                }
            }
            i = i + 1;
        }
    }
    proof {
        assert(decode_soft(cv, i as int) == Some(Seq::<char>::empty()));
        assert(acc@ + Seq::<char>::empty() =~= acc@);
    }
    Some(acc)
}

/// The binding powers of the infix operator `t`.
fn prec_exec(t: &Vec<char>) -> (r: Option<(u32, u32)>)
    ensures
        r == prec_of(t@),
{
    if text_eq(t, ")") {
        Some((0, 1))
    } else if text_eq(t, "||") {
        Some((2, 3))
    } else if text_eq(t, "&&") {
        Some((3, 4))
    } else if text_eq(t, "==") || text_eq(t, "!=") {
        Some((4, 5))
    } else if text_eq(t, "<") || text_eq(t, ">") || text_eq(t, "<=") || text_eq(t, ">=") {
        Some((5, 6))
    } else if text_eq(t, "+") || text_eq(t, "-") {
        Some((6, 7))
    } else if text_eq(t, "*") || text_eq(t, "/") || text_eq(t, "%") {
        Some((7, 8))
    } else {
        None
    }
}

/// Applies the infix operator `t` to two evaluated operands.
fn apply_bin_exec(t: &Vec<char>, a: Value, b: Value) -> (r: Value)
    ensures
        r@ == apply_bin(t@, a@, b@),
{
    if text_eq(t, "+") {
        a.op_add(b)
    } else if text_eq(t, "-") {
        a.op_sub(b)
    } else if text_eq(t, "*") {
        a.op_mul(b)
    } else if text_eq(t, "/") {
        a.op_div(b)
    } else if text_eq(t, "%") {
        a.op_rem(b)
    } else if text_eq(t, "<") {
        a.op_cmp(b, Cmp::Lt)
    } else if text_eq(t, "<=") {
        a.op_cmp(b, Cmp::Le)
    } else if text_eq(t, ">") {
        a.op_cmp(b, Cmp::Gt)
    } else if text_eq(t, ">=") {
        a.op_cmp(b, Cmp::Ge)
    } else if text_eq(t, "==") {
        a.op_cmp(b, Cmp::Eq)
    } else if text_eq(t, "!=") {
        a.op_cmp(b, Cmp::Ne)
    } else {
        b
    }
}

impl<Cfg: Config> Rt<Cfg> {
    /// A literal or identifier, as the suppression depth allows.
    fn atom(&mut self) -> (r: Result<Value, Error>)
        requires
            old(self).wf(),
        ensures
            final(self).wf(),
            final(self).src_v() == old(self).src_v(),
            match atom_s(old(self).src_v(), old(self).stv()) {
                Flow::Done((st, v)) => r matches Ok(val) && final(self).stv() == st && val@ == v,
                Flow::Fail(e) => r matches Err(er) && err_ok(old(self).src_v(), e, er),
                Flow::Stop => r is Err,
            },
    {
        let t = match self.tok() {
            Ok(t) => t,
            Err(er) => {
                return Err(er);
            },
        };
        if self.depth > 0 {
            self.bump_n(t.len());
            return Ok(Value::Null);
        }
        match self.kind() {
            Kind::Ident => match self.env_lookup(&t) {
                Some(v) => {
                    self.bump_n(t.len());
                    Ok(v)
                },
                None => Err(self.make_error("Unknown variable")),
            },
            Kind::Number => match crate::num::num_parse(&t) {
                Some(bits) => {
                    self.bump_n(t.len());
                    Ok(Value::Num(bits))
                },
                None => Err(self.make_error("Invalid number")),
            },
            Kind::StringLit => {
                proof {
                    crate::lex::lemma_str_end_bounds(
                        old(self).src_v(),
                        old(self).stv().i + 1,
                        old(self).src_v()[old(self).stv().i],
                        false,
                    );
                }
                let content = seq_sub(&t, 1, t.len() - 1);
                if t[0] == '"' {
                    match decode(&content) {
                        Some(d) => {
                            self.bump_n(t.len());
                            Ok(Value::Str(d))
                        },
                        None => Err(self.make_error("Invalid soft string escape")),
                    }
                } else {
                    self.bump_n(t.len());
                    Ok(Value::Str(content))
                }
            },
            _ => Err(self.make_error("Invalid expression")),
        }
    }

    /// A prefix operator, a parenthesized expression, or an atom.
    fn prefix(&mut self, min_bp: u32, fuel: u64) -> (r: Result<Value, Error>)
        requires
            old(self).wf(),
        ensures
            final(self).wf(),
            final(self).src_v() == old(self).src_v(),
            match prefix_s(old(self).src_v(), old(self).stv(), min_bp, fuel as nat) {
                Flow::Done((st, v)) => r matches Ok(val) && final(self).stv() == st && val@ == v,
                Flow::Fail(e) => r matches Err(er) && err_ok(old(self).src_v(), e, er),
                Flow::Stop => r is Err,
            },
        decreases fuel, 1int,
    {
        if fuel == 0 {
            return Err(self.make_error("Interpreter step limit reached"));
        }
        let t = match self.tok() {
            Ok(t) => t,
            Err(er) => {
                return Err(er);
            },
        };
        let pb: u32 = if text_eq(&t, "(") {
            1
        } else {
            8
        };
        if text_eq(&t, "-") && pb >= min_bp {
            self.bump_n(t.len());
            match self.mixed(pb, fuel - 1) {
                Ok(v) => Ok(v.op_neg()),
                Err(er) => Err(er),
            }
        } else if text_eq(&t, "!") && pb >= min_bp {
            self.bump_n(t.len());
            match self.mixed(pb, fuel - 1) {
                Ok(v) => Ok(v.op_not()),
                Err(er) => Err(er),
            }
        } else if text_eq(&t, "(") {
            self.bump_n(t.len());
            match self.mixed(pb, fuel - 1) {
                Ok(v) => match self.expect_tok(")", "Expected a close parentheses") {
                    Ok(()) => Ok(v),
                    Err(er) => Err(er),
                },
                Err(er) => Err(er),
            }
        } else {
            self.atom()
        }
    }

    /// An expression at minimum binding power `min_bp`.
    fn mixed(&mut self, min_bp: u32, fuel: u64) -> (r: Result<Value, Error>)
        requires
            old(self).wf(),
        ensures
            final(self).wf(),
            final(self).src_v() == old(self).src_v(),
            match mixed_s(old(self).src_v(), old(self).stv(), min_bp, fuel as nat) {
                Flow::Done((st, v)) => r matches Ok(val) && final(self).stv() == st && val@ == v,
                Flow::Fail(e) => r matches Err(er) && err_ok(old(self).src_v(), e, er),
                Flow::Stop => r is Err,
            },
        decreases fuel, 3int,
    {
        if fuel == 0 {
            return Err(self.make_error("Interpreter step limit reached"));
        }
        match self.prefix(min_bp, fuel) {
            Ok(v) => self.infix(v, min_bp, fuel),
            Err(er) => Err(er),
        }
    }

    /// The chain of infix operators over an evaluated left operand.
    fn infix(&mut self, v: Value, min_bp: u32, fuel: u64) -> (r: Result<Value, Error>)
        requires
            old(self).wf(),
        ensures
            final(self).wf(),
            final(self).src_v() == old(self).src_v(),
            match infix_s(old(self).src_v(), old(self).stv(), v@, min_bp, fuel as nat) {
                Flow::Done((st, vr)) => r matches Ok(val) && final(self).stv() == st && val@ == vr,
                Flow::Fail(e) => r matches Err(er) && err_ok(old(self).src_v(), e, er),
                Flow::Stop => r is Err,
            },
        decreases fuel, 2int,
    {
        if fuel == 0 {
            return Err(self.make_error("Interpreter step limit reached"));
        }
        let t = match self.tok() {
            Ok(t) => t,
            Err(er) => {
                return Err(er);
            },
        };
        let (bp, rbp) = match prec_exec(&t) {
            Some(p) => p,
            None => {
                return Ok(v);
            },
        };
        if bp < min_bp {
            return Ok(v);
        }
        let truthy_left = v.is_truthy();
        if (text_eq(&t, "||") && truthy_left) || (text_eq(&t, "&&") && !truthy_left) {
            if self.depth >= 0xFFFF_FFFFu32 {
                return Err(self.make_error("Interpreter step limit reached"));
            }
            self.bump_n(t.len());
            self.depth = self.depth + 1;
            match self.mixed(rbp, fuel - 1) {
                Ok(_) => {
                    if self.depth > 0 {
                        self.depth = self.depth - 1;
                    }
                    self.infix(v, min_bp, fuel - 1)
                },
                Err(er) => Err(er),
            }
        } else if text_eq(&t, ")") {
            Err(self.make_error("Invalid operator"))
        } else {
            self.bump_n(t.len());
            match self.mixed(rbp, fuel - 1) {
                Ok(rhs) => {
                    let v2 = if self.depth == 0 {
                        apply_bin_exec(&t, v, rhs)
                    } else {
                        v
                    };
                    self.infix(v2, min_bp, fuel - 1)
                },
                Err(er) => Err(er),
            }
        }
    }

    /// Emits one printed line: collected, and handed to the sink.
    fn do_print(&mut self, v: Value)
        requires
            old(self).wf(),
        ensures
            final(self).wf(),
            final(self).src_v() == old(self).src_v(),
            final(self).stv() == (StS {
                out: old(self).stv().out + display_of(v@) + seq!['\n'],
                ..old(self).stv()
            }),
    {
        let ghost vv = v@;
        let mut line = v.into_display();
        line.push('\n');
        push_all(&mut self.out, &line);
        proof {
            assert(old(self).out@ + (display_of(vv).push('\n')) =~= old(self).out@ + display_of(
                vv,
            ) + seq!['\n']);
        }
        let text = crate::num::chars_to_string(&line);
        self.cfg.print(text.as_str());
    }

    /// A command: `print`, or an assignment.
    fn cmd(&mut self, fuel: u64) -> (r: Result<(), Error>)
        requires
            old(self).wf(),
        ensures
            final(self).wf(),
            final(self).src_v() == old(self).src_v(),
            match cmd_s(old(self).src_v(), old(self).stv(), fuel as nat) {
                Flow::Done(st) => r is Ok && final(self).stv() == st,
                Flow::Fail(e) => r matches Err(er) && err_ok(old(self).src_v(), e, er),
                Flow::Stop => r is Err,
            },
    {
        let t = match self.tok() {
            Ok(t) => t,
            Err(er) => {
                return Err(er);
            },
        };
        if text_eq(&t, "print") {
            self.bump_n(t.len());
            match self.mixed(0, fuel) {
                Ok(v) => {
                    if self.depth == 0 {
                        self.do_print(v);
                    }
                    Ok(())
                },
                Err(er) => Err(er),
            }
        } else if matches!(self.kind(), Kind::Ident) {
            self.bump_n(t.len());
            match self.expect_tok("=", "Expected a `=`") {
                Ok(()) => {},
                Err(er) => {
                    return Err(er);
                },
            }
            match self.mixed(0, fuel) {
                Ok(v) => {
                    if self.depth == 0 {
                        self.env_insert(t, v);
                    }
                    Ok(())
                },
                Err(er) => Err(er),
            }
        } else {
            Err(self.make_error("Expected a command or assign"))
        }
    }

    /// The statements of a block, up to its closing brace.
    fn body(&mut self, fuel: u64) -> (r: Result<(), Error>)
        requires
            old(self).wf(),
        ensures
            final(self).wf(),
            final(self).src_v() == old(self).src_v(),
            match body_s(old(self).src_v(), old(self).stv(), fuel as nat) {
                Flow::Done(st) => r is Ok && final(self).stv() == st,
                Flow::Fail(e) => r matches Err(er) && err_ok(old(self).src_v(), e, er),
                Flow::Stop => r is Err,
            },
        decreases fuel, 0int,
    {
        if fuel == 0 {
            return Err(self.make_error("Interpreter step limit reached"));
        }
        let t = match self.tok() {
            Ok(t) => t,
            Err(er) => {
                return Err(er);
            },
        };
        if text_eq(&t, "}") {
            return Ok(());
        }
        match self.stmt(fuel - 1) {
            Ok(()) => self.body(fuel - 1),
            Err(er) => Err(er),
        }
    }

    /// A brace-delimited block.
    fn block(&mut self, fuel: u64) -> (r: Result<(), Error>)
        requires
            old(self).wf(),
        ensures
            final(self).wf(),
            final(self).src_v() == old(self).src_v(),
            match block_s(old(self).src_v(), old(self).stv(), fuel as nat) {
                Flow::Done(st) => r is Ok && final(self).stv() == st,
                Flow::Fail(e) => r matches Err(er) && err_ok(old(self).src_v(), e, er),
                Flow::Stop => r is Err,
            },
        decreases fuel, 1int,
    {
        if fuel == 0 {
            return Err(self.make_error("Interpreter step limit reached"));
        }
        match self.expect_tok("{", "Expected a left brace") {
            Ok(()) => {},
            Err(er) => {
                return Err(er);
            },
        }
        match self.body(fuel) {
            Ok(()) => {},
            Err(er) => {
                return Err(er);
            },
        }
        self.expect_tok("}", "Expected a right brace")
    }

    /// `if`: a condition, then the block, suppressed when falsy.
    fn if_(&mut self, fuel: u64) -> (r: Result<(), Error>)
        requires
            old(self).wf(),
        ensures
            final(self).wf(),
            final(self).src_v() == old(self).src_v(),
            match if_s(old(self).src_v(), old(self).stv(), fuel as nat) {
                Flow::Done(st) => r is Ok && final(self).stv() == st,
                Flow::Fail(e) => r matches Err(er) && err_ok(old(self).src_v(), e, er),
                Flow::Stop => r is Err,
            },
        decreases fuel, 3int,
    {
        if fuel == 0 {
            return Err(self.make_error("Interpreter step limit reached"));
        }
        let t = match self.tok() {
            Ok(t) => t,
            Err(er) => {
                return Err(er);
            },
        };
        self.bump_n(t.len());
        let v = match self.mixed(0, fuel) {
            Ok(v) => v,
            Err(er) => {
                return Err(er);
            },
        };
        if self.depth == 0 && !v.is_truthy() {
            self.depth = self.depth + 1;
            match self.block(fuel) {
                Ok(()) => {
                    if self.depth > 0 {
                        self.depth = self.depth - 1;
                    }
                    Ok(())
                },
                Err(er) => Err(er),
            }
        } else {
            self.block(fuel)
        }
    }

    /// `while`: re-evaluate the condition each pass; the last pass walks
    /// the body once suppressed.
    fn while_(&mut self, fuel: u64) -> (r: Result<(), Error>)
        requires
            old(self).wf(),
        ensures
            final(self).wf(),
            final(self).src_v() == old(self).src_v(),
            match while_s(old(self).src_v(), old(self).stv(), fuel as nat) {
                Flow::Done(st) => r is Ok && final(self).stv() == st,
                Flow::Fail(e) => r matches Err(er) && err_ok(old(self).src_v(), e, er),
                Flow::Stop => r is Err,
            },
        decreases fuel, 3int,
    {
        if fuel == 0 {
            return Err(self.make_error("Interpreter step limit reached"));
        }
        let t = match self.tok() {
            Ok(t) => t,
            Err(er) => {
                return Err(er);
            },
        };
        self.bump_n(t.len());
        let mark = self.mark();
        self.while_loop(mark, fuel)
    }

    fn while_loop(&mut self, mark: Mark, fuel: u64) -> (r: Result<(), Error>)
        requires
            old(self).wf(),
            0 <= mark.pos() <= old(self).src_v().len(),
        ensures
            final(self).wf(),
            final(self).src_v() == old(self).src_v(),
            match while_loop_s(old(self).src_v(), old(self).stv(), mark.pos(), fuel as nat) {
                Flow::Done(st) => r is Ok && final(self).stv() == st,
                Flow::Fail(e) => r matches Err(er) && err_ok(old(self).src_v(), e, er),
                Flow::Stop => r is Err,
            },
        decreases fuel, 2int,
    {
        if fuel == 0 {
            return Err(self.make_error("Interpreter step limit reached"));
        }
        let v = match self.mixed(0, fuel) {
            Ok(v) => v,
            Err(er) => {
                return Err(er);
            },
        };
        if self.depth == 0 && v.is_truthy() {
            match self.block(fuel) {
                Ok(()) => {},
                Err(er) => {
                    return Err(er);
                },
            }
            self.back(mark);
            self.while_loop(mark, fuel - 1)
        } else {
            if self.depth >= 0xFFFF_FFFFu32 {
                return Err(self.make_error("Interpreter step limit reached"));
            }
            self.depth = self.depth + 1;
            match self.block(fuel) {
                Ok(()) => {
                    if self.depth > 0 {
                        self.depth = self.depth - 1;
                    }
                    Ok(())
                },
                Err(er) => Err(er),
            }
        }
    }

    /// One statement.
    fn stmt(&mut self, fuel: u64) -> (r: Result<(), Error>)
        requires
            old(self).wf(),
        ensures
            final(self).wf(),
            final(self).src_v() == old(self).src_v(),
            match stmt_s(old(self).src_v(), old(self).stv(), fuel as nat) {
                Flow::Done(st) => r is Ok && final(self).stv() == st,
                Flow::Fail(e) => r matches Err(er) && err_ok(old(self).src_v(), e, er),
                Flow::Stop => r is Err,
            },
        decreases fuel, 4int,
    {
        if fuel == 0 {
            return Err(self.make_error("Interpreter step limit reached"));
        }
        let t = match self.tok() {
            Ok(t) => t,
            Err(er) => {
                return Err(er);
            },
        };
        if text_eq(&t, "if") {
            self.if_(fuel)
        } else if text_eq(&t, "while") {
            self.while_(fuel)
        } else if text_eq(&t, "{") {
            self.block(fuel)
        } else {
            match self.cmd(fuel) {
                Ok(()) => self.expect_tok(";", "Expected a semicolon"),
                Err(er) => Err(er),
            }
        }
    }

    fn proc_loop(&mut self, fuel: u64) -> (r: Result<(), Error>)
        requires
            old(self).wf(),
        ensures
            final(self).wf(),
            final(self).src_v() == old(self).src_v(),
            match proc_s(old(self).src_v(), old(self).stv(), fuel as nat) {
                Flow::Done(st) => r is Ok && final(self).stv() == st,
                Flow::Fail(e) => r matches Err(er) && err_ok(old(self).src_v(), e, er),
                Flow::Stop => r is Err,
            },
        decreases fuel, 5int,
    {
        if fuel == 0 {
            return Err(self.make_error("Interpreter step limit reached"));
        }
        if matches!(self.kind(), Kind::Unknown) {
            if self.i == self.src.len() {
                Ok(())
            } else {
                Err(self.make_error("Invalid input"))
            }
        } else {
            match self.stmt(fuel) {
                Ok(()) => self.proc_loop(fuel - 1),
                Err(er) => Err(er),
            }
        }
    }

    /// Runs the loaded program to the end of its input, or to its first
    /// fatal error.
    pub fn proc(&mut self) -> (r: Result<(), Error>)
        requires
            old(self).wf(),
        ensures
            final(self).wf(),
            final(self).src_v() == old(self).src_v(),
            match proc_entry(old(self).src_v(), old(self).stv(), 0xFFFF_FFFF_FFFF_FFFFu64 as nat) {
                Flow::Done(st) => r is Ok && final(self).stv() == st,
                Flow::Fail(e) => r matches Err(er) && err_ok(old(self).src_v(), e, er),
                Flow::Stop => r is Err,
            },
    {
        self.skip_trivias();
        self.proc_loop(0xFFFF_FFFF_FFFF_FFFFu64)
    }
}

/// Law: evaluating any expression changes no variable, prints nothing,
/// and leaves the suppression depth where it was.  In particular the
/// right operand of a short-circuited `&&` or `||`, which is walked with
/// the depth raised, can have no effect on the program's state.
pub proof fn lemma_expr_no_effects(s: Seq<char>, st: StS, min_bp: u32, fuel: nat)
    ensures
        match mixed_s(s, st, min_bp, fuel) {
            Flow::Done((st1, _)) => st1.env == st.env && st1.out == st.out && st1.depth
                == st.depth,
            _ => true,
        },
    decreases fuel, 3int,
{
    if fuel > 0 {
        lemma_prefix_no_effects(s, st, min_bp, fuel);
        match prefix_s(s, st, min_bp, fuel) {
            Flow::Done((st1, v)) => {
                lemma_infix_no_effects(s, st1, v, min_bp, fuel);
            },
            _ => {},
        }
    }
}

proof fn lemma_prefix_no_effects(s: Seq<char>, st: StS, min_bp: u32, fuel: nat)
    ensures
        match prefix_s(s, st, min_bp, fuel) {
            Flow::Done((st1, _)) => st1.env == st.env && st1.out == st.out && st1.depth
                == st.depth,
            _ => true,
        },
    decreases fuel, 1int,
{
    if fuel > 0 {
        match tok_at(s, st.i) {
            Some(t) => {
                lemma_expr_no_effects(s, bump_tok(s, st), 1, (fuel - 1) as nat);
                lemma_expr_no_effects(s, bump_tok(s, st), 8, (fuel - 1) as nat);
            },
            None => {},
        }
    }
}

proof fn lemma_infix_no_effects(s: Seq<char>, st: StS, v: ValV, min_bp: u32, fuel: nat)
    ensures
        match infix_s(s, st, v, min_bp, fuel) {
            Flow::Done((st1, _)) => st1.env == st.env && st1.out == st.out && st1.depth
                == st.depth,
            _ => true,
        },
    decreases fuel, 2int,
{
    if fuel > 0 {
        match tok_at(s, st.i) {
            Some(t) => {
                match prec_of(t) {
                    Some((bp, rbp)) => {
                        if bp >= min_bp {
                            if (t == "||"@ && truthy(v)) || (t == "&&"@ && !truthy(v)) {
                                if st.depth < 0xFFFF_FFFF {
                                    let st1 = StS { depth: st.depth + 1, ..bump_tok(s, st) };
                                    lemma_expr_no_effects(s, st1, rbp, (fuel - 1) as nat);
                                    match mixed_s(s, st1, rbp, (fuel - 1) as nat) {
                                        Flow::Done((st2, _)) => {
                                            lemma_infix_no_effects(
                                                s,
                                                StS { depth: dec(st2.depth), ..st2 },
                                                v,
                                                min_bp,
                                                (fuel - 1) as nat,
                                            );
                                        },
                                        _ => {},
                                    }
                                }
                            } else if t != ")"@ {
                                lemma_expr_no_effects(s, bump_tok(s, st), rbp, (fuel - 1) as nat);
                                match mixed_s(s, bump_tok(s, st), rbp, (fuel - 1) as nat) {
                                    Flow::Done((st2, rhs)) => {
                                        let v2 = if st2.depth == 0 {
                                            apply_bin(t, v, rhs)
                                        } else {
                                            v
                                        };
                                        lemma_infix_no_effects(
                                            s,
                                            st2,
                                            v2,
                                            min_bp,
                                            (fuel - 1) as nat,
                                        );
                                    },
                                    _ => {},
                                }
                            }
                        }
                    },
                    None => {},
                }
            },
            None => {},
        }
    }
}

/// What a completed statement walk promises of the state: the
/// suppression depth comes back to exactly what it was, and a suppressed
/// walk leaves the variables and the output untouched.
pub open spec fn balanced(st: StS, st1: StS) -> bool {
    st1.depth == st.depth && (st.depth > 0 ==> st1.env == st.env && st1.out == st.out)
}

proof fn lemma_cmd_effects(s: Seq<char>, st: StS, fuel: nat)
    ensures
        match cmd_s(s, st, fuel) {
            Flow::Done(st1) => balanced(st, st1),
            _ => true,
        },
{
    match tok_at(s, st.i) {
        Some(t) => {
            lemma_expr_no_effects(s, bump_tok(s, st), 0, fuel);
            match expect_s(s, bump_tok(s, st), "="@, "Expected a `=`"@) {
                Flow::Done(st2) => {
                    lemma_expr_no_effects(s, st2, 0, fuel);
                },
                _ => {},
            }
        },
        None => {},
    }
}

proof fn lemma_body_effects(s: Seq<char>, st: StS, fuel: nat)
    ensures
        match body_s(s, st, fuel) {
            Flow::Done(st1) => balanced(st, st1),
            _ => true,
        },
    decreases fuel, 0int,
{
    if fuel > 0 {
        match tok_at(s, st.i) {
            Some(t) => {
                if t != "}"@ {
                    lemma_stmt_effects(s, st, (fuel - 1) as nat);
                    match stmt_s(s, st, (fuel - 1) as nat) {
                        Flow::Done(st1) => {
                            lemma_body_effects(s, st1, (fuel - 1) as nat);
                        },
                        _ => {},
                    }
                }
            },
            None => {},
        }
    }
}

proof fn lemma_block_effects(s: Seq<char>, st: StS, fuel: nat)
    ensures
        match block_s(s, st, fuel) {
            Flow::Done(st1) => balanced(st, st1),
            _ => true,
        },
    decreases fuel, 1int,
{
    if fuel > 0 {
        match expect_s(s, st, "{"@, "Expected a left brace"@) {
            Flow::Done(st1) => {
                lemma_body_effects(s, st1, fuel);
            },
            _ => {},
        }
    }
}

proof fn lemma_if_effects(s: Seq<char>, st: StS, fuel: nat)
    ensures
        match if_s(s, st, fuel) {
            Flow::Done(st1) => balanced(st, st1),
            _ => true,
        },
    decreases fuel, 3int,
{
    if fuel > 0 {
        lemma_expr_no_effects(s, bump_tok(s, st), 0, fuel);
        match mixed_s(s, bump_tok(s, st), 0, fuel) {
            Flow::Done((st2, v)) => {
                if st2.depth == 0 && !truthy(v) {
                    lemma_block_effects(s, StS { depth: st2.depth + 1, ..st2 }, fuel);
                } else {
                    lemma_block_effects(s, st2, fuel);
                }
            },
            _ => {},
        }
    }
}

proof fn lemma_while_loop_effects(s: Seq<char>, st: StS, mark: int, fuel: nat)
    ensures
        match while_loop_s(s, st, mark, fuel) {
            Flow::Done(st1) => balanced(st, st1),
            _ => true,
        },
    decreases fuel, 2int,
{
    if fuel > 0 {
        lemma_expr_no_effects(s, st, 0, fuel);
        match mixed_s(s, st, 0, fuel) {
            Flow::Done((st1, v)) => {
                if st1.depth == 0 && truthy(v) {
                    lemma_block_effects(s, st1, fuel);
                    match block_s(s, st1, fuel) {
                        Flow::Done(st2) => {
                            lemma_while_loop_effects(
                                s,
                                StS { i: mark, ..st2 },
                                mark,
                                (fuel - 1) as nat,
                            );
                        },
                        _ => {},
                    }
                } else {
                    if st1.depth < 0xFFFF_FFFF {
                        lemma_block_effects(s, StS { depth: st1.depth + 1, ..st1 }, fuel);
                    }
                }
            },
            _ => {},
        }
    }
}

proof fn lemma_while_effects(s: Seq<char>, st: StS, fuel: nat)
    ensures
        match while_s(s, st, fuel) {
            Flow::Done(st1) => balanced(st, st1),
            _ => true,
        },
    decreases fuel, 3int,
{
    if fuel > 0 {
        let st1 = bump_tok(s, st);
        lemma_while_loop_effects(s, st1, st1.i, fuel);
    }
}

/// Law: a completed statement restores the suppression depth exactly,
/// and under suppression it neither assigns nor prints.
pub proof fn lemma_stmt_effects(s: Seq<char>, st: StS, fuel: nat)
    ensures
        match stmt_s(s, st, fuel) {
            Flow::Done(st1) => balanced(st, st1),
            _ => true,
        },
    decreases fuel, 4int,
{
    if fuel > 0 {
        match tok_at(s, st.i) {
            Some(t) => {
                if t == "if"@ {
                    lemma_if_effects(s, st, fuel);
                } else if t == "while"@ {
                    lemma_while_effects(s, st, fuel);
                } else if t == "{"@ {
                    lemma_block_effects(s, st, fuel);
                } else {
                    lemma_cmd_effects(s, st, fuel);
                }
            },
            None => {},
        }
    }
}

/// Law: a complete program leaves the suppression depth exactly where it
/// began — zero, for a run from the initial state — both before and
/// after every top-level statement.
pub proof fn lemma_suppression_balanced(s: Seq<char>, st: StS, fuel: nat)
    ensures
        match proc_s(s, st, fuel) {
            Flow::Done(st1) => balanced(st, st1),
            _ => true,
        },
    decreases fuel, 5int,
{
    if fuel > 0 {
        if kind_at(s, st.i) != Kind::Unknown {
            lemma_stmt_effects(s, st, fuel);
            match stmt_s(s, st, fuel) {
                Flow::Done(st1) => {
                    lemma_suppression_balanced(s, st1, (fuel - 1) as nat);
                },
                _ => {},
            }
        }
    }
}

} // verus!

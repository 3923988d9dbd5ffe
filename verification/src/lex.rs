//! The tokenizer: classifies the character under the cursor, extracts the
//! lexeme's extent, and skips whitespace and line comments.  The source is
//! held as its character sequence, so every position is a character index.

use vstd::prelude::*;
use crate::Kind;
use crate::num::is_digit;

verus! {

pub open spec fn is_ws(c: char) -> bool {
    c == ' ' || c == '\t' || c == '\r' || c == '\n'
}

pub open spec fn is_ident_start(c: char) -> bool {
    ('a' <= c && c <= 'z') || ('A' <= c && c <= 'Z') || c == '_'
}

pub open spec fn is_ident_cont(c: char) -> bool {
    is_ident_start(c) || is_digit(c)
}

pub open spec fn is_num_ch(c: char) -> bool {
    is_digit(c) || c == '.'
}

pub open spec fn is_punct_ch(c: char) -> bool {
    c == '-' || c == '+' || c == '*' || c == '/' || c == '%' || c == '<' || c == '=' || c == '>'
        || c == '!' || c == '&' || c == '|' || c == '{' || c == '}' || c == '(' || c == ')'
        || c == '[' || c == ']' || c == ';'
}

pub open spec fn is_quote(c: char) -> bool {
    c == '\'' || c == '"'
}

/// Character classes whose runs the tokenizer scans over.
#[derive(Clone, Copy)]
pub enum Class {
    IdentCont,
    NumCh,
    NonNl,
    NonCrLf,
}

pub open spec fn in_class(c: char, k: Class) -> bool {
    match k {
        Class::IdentCont => is_ident_cont(c),
        Class::NumCh => is_num_ch(c),
        Class::NonNl => c != '\n',
        Class::NonCrLf => c != '\r' && c != '\n',
    }
}

/// End of the run of `k`-class characters that starts at `i`.
pub open spec fn run_end(s: Seq<char>, i: int, k: Class) -> int
    decreases s.len() - i,
{
    if i < 0 || i >= s.len() || !in_class(s[i], k) {
        i
    } else {
        run_end(s, i + 1, k)
    }
}

pub proof fn lemma_run_bounds(s: Seq<char>, i: int, k: Class)
    requires
        0 <= i <= s.len(),
    ensures
        i <= run_end(s, i, k) <= s.len(),
    decreases s.len() - i,
{
    if i < s.len() && in_class(s[i], k) {
        lemma_run_bounds(s, i + 1, k);
    }
}

fn class_ch(c: char, k: Class) -> (r: bool)
    ensures
        r == in_class(c, k),
{
    match k {
        Class::IdentCont => ('a' <= c && c <= 'z') || ('A' <= c && c <= 'Z') || c == '_' || ('0'
            <= c && c <= '9'),
        Class::NumCh => ('0' <= c && c <= '9') || c == '.',
        Class::NonNl => c != '\n',
        Class::NonCrLf => c != '\r' && c != '\n',
    }
}

/// Scans to the end of the `k`-class run starting at `i`.
pub(crate) fn scan_run(src: &Vec<char>, i: usize, k: Class) -> (r: usize)
    requires
        i <= src@.len(),
    ensures
        r == run_end(src@, i as int, k),
        i <= r <= src@.len(),
{
    let mut j = i;
    while j < src.len() && class_ch(src[j], k)
        invariant
            i <= j <= src@.len(),
            run_end(src@, i as int, k) == run_end(src@, j as int, k),
        decreases src@.len() - j,
    {
        j = j + 1;
    }
    j
}

/// Position after the whitespace and line comments that start at `i`.
pub open spec fn skip1(s: Seq<char>, i: int) -> int
    decreases s.len() - i, 0int,
{
    if 0 <= i && i < s.len() && is_ws(s[i]) {
        skip1(s, i + 1)
    } else if 0 <= i && i + 1 < s.len() && s[i] == '/' && s[i + 1] == '/' {
        skip_comment(s, i + 2)
    } else {
        i
    }
}

/// Position after the rest of a line comment, and whatever trivia follows.
pub open spec fn skip_comment(s: Seq<char>, i: int) -> int
    decreases s.len() - i, 1int,
{
    if 0 <= i && i < s.len() && s[i] != '\n' {
        skip_comment(s, i + 1)
    } else {
        skip1(s, i)
    }
}

pub proof fn lemma_skip_bounds(s: Seq<char>, i: int)
    requires
        0 <= i <= s.len(),
    ensures
        i <= skip1(s, i) <= s.len(),
        i <= skip_comment(s, i) <= s.len(),
    decreases s.len() - i, 2int,
{
    if i < s.len() {
        lemma_skip_bounds(s, i + 1);
    }
    if i + 1 < s.len() {
        lemma_skip_bounds(s, i + 2);
    }
}

/// The token kind at position `i`: decided by the single character there.
pub open spec fn kind_at(s: Seq<char>, i: int) -> Kind {
    if i < 0 || i >= s.len() {
        Kind::Unknown
    } else if is_ident_start(s[i]) {
        Kind::Ident
    } else if is_digit(s[i]) {
        Kind::Number
    } else if is_punct_ch(s[i]) {
        Kind::Punct
    } else if is_quote(s[i]) {
        Kind::StringLit
    } else {
        Kind::Unknown
    }
}

pub open spec fn is_double_op(a: char, b: char) -> bool {
    (a == '&' && b == '&') || (a == '|' && b == '|') || ((a == '<' || a == '>' || a == '=' || a
        == '!') && b == '=')
}

/// Length of the punctuation token at `i`: two for the double operators.
pub open spec fn punct_len(s: Seq<char>, i: int) -> int {
    if 0 <= i && i + 1 < s.len() && is_double_op(s[i], s[i + 1]) {
        2
    } else {
        1
    }
}

/// Position just after the quote that closes the string opened with `q`,
/// scanning from `j` with escape state `esc`; None when it never closes.
pub open spec fn str_end(s: Seq<char>, j: int, q: char, esc: bool) -> Option<int>
    decreases s.len() - j,
{
    if j < 0 || j >= s.len() {
        None
    } else if esc {
        str_end(s, j + 1, q, false)
    } else if s[j] == '\\' {
        str_end(s, j + 1, q, true)
    } else if s[j] == q {
        Some(j + 1)
    } else {
        str_end(s, j + 1, q, false)
    }
}

pub proof fn lemma_str_end_bounds(s: Seq<char>, j: int, q: char, esc: bool)
    requires
        0 <= j,
    ensures
        str_end(s, j, q, esc) matches Some(e) ==> j < e <= s.len(),
    decreases s.len() - j,
{
    if j < s.len() {
        lemma_str_end_bounds(s, j + 1, q, false);
        lemma_str_end_bounds(s, j + 1, q, true);
    }
}

/// The lexeme starting at `i`: None only for an unterminated string
/// literal.  An `Unknown` position carries the empty lexeme.
pub open spec fn tok_at(s: Seq<char>, i: int) -> Option<Seq<char>> {
    match kind_at(s, i) {
        Kind::Ident => Some(s.subrange(i, run_end(s, i, Class::IdentCont))),
        Kind::Number => Some(s.subrange(i, run_end(s, i, Class::NumCh))),
        Kind::Punct => Some(s.subrange(i, i + punct_len(s, i))),
        Kind::StringLit => match str_end(s, i + 1, s[i], false) {
            Some(e) => Some(s.subrange(i, e)),
            None => None,
        },
        Kind::Unknown => Some(Seq::empty()),
    }
}

/// The token's lexeme is never longer than the source's remainder.
pub proof fn lemma_tok_bounds(s: Seq<char>, i: int)
    requires
        0 <= i <= s.len(),
    ensures
        tok_at(s, i) matches Some(t) ==> i + t.len() <= s.len(),
{
    lemma_run_bounds(s, i, Class::IdentCont);
    lemma_run_bounds(s, i, Class::NumCh);
    if kind_at(s, i) == Kind::StringLit {
        lemma_str_end_bounds(s, i + 1, s[i], false);
    }
}

pub(crate) fn kind_ch(src: &Vec<char>, i: usize) -> (r: Kind)
    requires
        i <= src@.len(),
    ensures
        r == kind_at(src@, i as int),
{
    if i >= src.len() {
        return Kind::Unknown;
    }
    let c = src[i];
    if ('a' <= c && c <= 'z') || ('A' <= c && c <= 'Z') || c == '_' {
        Kind::Ident
    } else if '0' <= c && c <= '9' {
        Kind::Number
    } else if c == '-' || c == '+' || c == '*' || c == '/' || c == '%' || c == '<' || c == '='
        || c == '>' || c == '!' || c == '&' || c == '|' || c == '{' || c == '}' || c == '(' || c
        == ')' || c == '[' || c == ']' || c == ';' {
        Kind::Punct
    } else if c == '\'' || c == '"' {
        Kind::StringLit
    } else {
        Kind::Unknown
    }
}

/// Extracts the lexeme at `i`; None for an unterminated string literal.
pub(crate) fn token_at(src: &Vec<char>, i: usize) -> (r: Option<Vec<char>>)
    requires
        i <= src@.len(),
    ensures
        match tok_at(src@, i as int) {
            Some(t) => r matches Some(v) && v@ == t && i + t.len() <= src@.len(),
            None => r is None,
        },
{
    proof {
        lemma_tok_bounds(src@, i as int);
    }
    match kind_ch(src, i) {
        Kind::Ident => {
            let e = scan_run(src, i, Class::IdentCont);
            Some(crate::num::seq_sub(src, i, e))
        },
        Kind::Number => {
            let e = scan_run(src, i, Class::NumCh);
            Some(crate::num::seq_sub(src, i, e))
        },
        Kind::Punct => {
            let n = src.len();
            let two = i + 1 < n && double_op_ch(src[i], src[i + 1]);
            let e = if two {
                i + 2
            } else {
                i + 1
            };
            Some(crate::num::seq_sub(src, i, e))
        },
        Kind::StringLit => {
            let n = src.len();
            let q = src[i];
            let mut j = i + 1;
            let mut esc = false;
            loop
                invariant
                    i < src@.len(),
                    i + 1 <= j <= src@.len(),
                    kind_at(src@, i as int) == Kind::StringLit,
                    q == src@[i as int],
                    str_end(src@, i + 1, q, false) == str_end(src@, j as int, q, esc),
                decreases src@.len() - j, (if esc {
                    0int
                } else {
                    1int
                }),
            {
                if j >= src.len() {
                    return None;
                }
                let c = src[j];
                if esc {
                    esc = false;
                    j = j + 1;
                } else if c == '\\' {
                    esc = true;
                    j = j + 1;
                } else if c == q {
                    proof {
                        lemma_str_end_bounds(src@, i + 1, q, false);
                    }
                    return Some(crate::num::seq_sub(src, i, j + 1));
                } else {
                    j = j + 1;
                }
            }
        },
        Kind::Unknown => {
            let r: Vec<char> = Vec::new();
            proof {
                assert(r@ =~= Seq::<char>::empty());
            }
            Some(r)
        },
    }
}

fn double_op_ch(a: char, b: char) -> (r: bool)
    ensures
        r == is_double_op(a, b),
{
    (a == '&' && b == '&') || (a == '|' && b == '|') || ((a == '<' || a == '>' || a == '=' || a
        == '!') && b == '=')
}

/// True when `t` holds exactly the characters of `s`.
pub(crate) fn text_eq(t: &Vec<char>, s: &str) -> (r: bool)
    ensures
        r == (t@ == s@),
{
    let n = s.unicode_len();
    if t.len() != n {
        return false;
    }
    let mut i: usize = 0;
    while i < n
        invariant
            0 <= i <= n == s@.len(),
            t@.len() == n,
            forall|j: int| 0 <= j < i ==> t@[j] == s@[j],
        decreases n - i,
    {
        if t[i] != s.get_char(i) {
            return false;
        }
        i = i + 1;
    }
    proof {
        assert(t@ =~= s@);
    }
    true
}

/// True when the two hold the same characters.
pub(crate) fn chars_eq(a: &Vec<char>, b: &Vec<char>) -> (r: bool)
    ensures
        r == (a@ == b@),
{
    if a.len() != b.len() {
        return false;
    }
    let mut i: usize = 0;
    while i < a.len()
        invariant
            0 <= i <= a@.len() == b@.len(),
            forall|j: int| 0 <= j < i ==> a@[j] == b@[j],
        decreases a@.len() - i,
    {
        if a[i] != b[i] {
            return false;
        }
        i = i + 1;
    }
    proof {
        assert(a@ =~= b@);
    }
    true
}

} // verus!

//! A small scripting-language interpreter, verified end to end: the
//! tokenizer, the fused parse-and-evaluate walker, and the dynamically
//! typed value model are all proved to agree with a mathematical
//! interpreter over the source's character sequence.
//!
//! A program is a sequence of `print`, assignment, `if`, `while` and
//! block statements.  Untaken branches and short-circuited operands are
//! still walked — with their side effects suppressed — so the cursor
//! always crosses them; that suppression discipline is part of the
//! proved specification.

use vstd::prelude::*;

pub mod interp;
pub mod lex;
pub mod num;
pub mod value;

pub use interp::{Config, Error, Mark, Rt};

verus! {

/// Token categories of the scripting language.
#[derive(Debug, Clone, Copy, PartialEq, Eq)]
pub enum Kind {
    Ident,
    Number,
    StringLit,
    Punct,
    Unknown,
}

impl Kind {
    /// Returns `true` if the kind is `Ident`.
    pub fn is_ident(&self) -> (r: bool)
        ensures
            r == (*self is Ident),
    {
        matches!(self, Kind::Ident)
    }
}

} // verus!

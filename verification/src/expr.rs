//! Expression-tree scaffolding for the downstream parser, which consumes the
//! token sequence the scanner produces. Only the shape is fixed here; no
//! parsing logic belongs to this crate.

use vstd::prelude::*;
use crate::token::Token;

verus! {

/// An expression node over scanned tokens.
pub enum Expr {
    Binary(Box<Expr>, Token, Box<Expr>),
    Grouping,
    Literal,
    Unary,
}

} // verus!

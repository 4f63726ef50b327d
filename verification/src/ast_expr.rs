//! Leaf expressions with their byte positions.
use vstd::prelude::*;

verus! {

/// A leaf expression: its kind and where it stands.
#[derive(Debug, Clone, Copy, PartialEq, Eq, Structural)]
pub struct Expr {
    pub kind: ExprKind,
    pub position: Position,
}

/// Leaf expression kinds.
#[derive(Debug, Clone, Copy, PartialEq, Eq, Structural)]
pub enum ExprKind {
    Variable,
    Atom,
    Integer,
}

/// Half-open byte range `[start, end)`.
#[derive(Debug, Clone, Copy, PartialEq, Eq, Structural)]
pub struct Position {
    pub start: usize,
    pub end: usize,
}

} // verus!

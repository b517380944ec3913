//! Kinds of syntax tokens and nodes that the editing helpers tell apart.
use vstd::prelude::*;

verus! {

#[derive(PartialEq, Eq, Structural, Clone, Copy, Debug)]
pub enum SyntaxKind {
    Whitespace,
    Comment,
    Ident,
    IntNumber,
    FloatNumber,
    String,
    ByteString,
    Char,
    Byte,
    Comma,
    Dot,
    Colon,
    Colon2,
    Semicolon,
    Eq,
    Eq2,
    Neq,
    LAngle,
    RAngle,
    LtEq,
    GtEq,
    Bang,
    Star,
    LParen,
    RParen,
    LBrack,
    RBrack,
    LCurly,
    RCurly,
    ConstKw,
    TrueKw,
    FalseKw,
    UseTree,
    IfExpr,
    ExprStmt,
    BlockExpr,
}

} // verus!

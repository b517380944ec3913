//! Decisions of the line-joining edit: what replaces a removed newline.
use vstd::prelude::*;
use crate::syntax_kind::SyntaxKind;

verus! {

/// A comma between these two is a trailing comma, which joining drops.
pub open spec fn trailing_comma(left: SyntaxKind, right: SyntaxKind) -> bool {
    left == SyntaxKind::Comma && (right == SyntaxKind::RParen || right == SyntaxKind::RBrack)
}

pub fn is_trailing_comma(left: SyntaxKind, right: SyntaxKind) -> (r: bool)
    ensures
        r == trailing_comma(left, right),
{
    left == SyntaxKind::Comma && (right == SyntaxKind::RParen || right == SyntaxKind::RBrack)
}

/// The white space that joins a token of kind `left` to one of kind
/// `right`: none inside brackets, before a dot, or round a use tree in
/// braces; one space otherwise.
pub open spec fn ws_between(left: SyntaxKind, right: SyntaxKind) -> Seq<char> {
    if left == SyntaxKind::LParen || left == SyntaxKind::LBrack {
        ""@
    } else if left == SyntaxKind::LCurly && right == SyntaxKind::UseTree {
        ""@
    } else if right == SyntaxKind::RParen || right == SyntaxKind::RBrack {
        ""@
    } else if right == SyntaxKind::RCurly && left == SyntaxKind::UseTree {
        ""@
    } else if right == SyntaxKind::Dot {
        ""@
    } else {
        " "@
    }
}

pub fn compute_ws(left: SyntaxKind, right: SyntaxKind) -> (r: &'static str)
    ensures
        r@ == ws_between(left, right),
{
    match left {
        SyntaxKind::LParen | SyntaxKind::LBrack => return "",
        SyntaxKind::LCurly => {
            if let SyntaxKind::UseTree = right {
                return "";
            }
        },
        _ => {},
    }
    match right {
        SyntaxKind::RParen | SyntaxKind::RBrack => return "",
        SyntaxKind::RCurly => {
            if let SyntaxKind::UseTree = left {
                return "";
            }
        },
        SyntaxKind::Dot => return "",
        _ => {},
    }
    " "
}

pub open spec fn is_trivia(k: SyntaxKind) -> bool {
    k == SyntaxKind::Whitespace || k == SyntaxKind::Comment
}

/// The index of the first sibling from `j` on that is not trivia.
pub open spec fn next_non_trivia(siblings: Seq<SyntaxKind>, j: int) -> Option<int>
    decreases siblings.len() - j,
{
    if j < 0 || j >= siblings.len() {
        None
    } else if !is_trivia(siblings[j]) {
        Some(j)
    } else {
        next_non_trivia(siblings, j + 1)
    }
}

/// Whether the element at index `i` among `siblings` (their kinds, in
/// order) is followed, past trivia, by a comma.
pub fn has_comma_after(siblings: &Vec<SyntaxKind>, i: usize) -> (r: bool)
    requires
        i < siblings@.len(),
    ensures
        r == match next_non_trivia(siblings@, i + 1) {
            Some(k) => siblings@[k] == SyntaxKind::Comma,
            None => false,
        },
{
    let n = siblings.len();
    let mut j: usize = i + 1;
    while j < n
        invariant
            n == siblings@.len(),
            i < j <= siblings@.len(),
            next_non_trivia(siblings@, i + 1) == next_non_trivia(siblings@, j as int),
        decreases siblings@.len() - j,
    {
        let k = siblings[j];
        if k != SyntaxKind::Whitespace && k != SyntaxKind::Comment {
            return k == SyntaxKind::Comma;
        }
        j = j + 1;
    }
    false
}

} // verus!

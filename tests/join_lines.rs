use closure_deduce::join_lines::{compute_ws, has_comma_after, is_trailing_comma};
use closure_deduce::range::{RangeInfo, TextRange};
use closure_deduce::syntax_kind::SyntaxKind;

#[test]
fn trailing_commas() {
    assert!(is_trailing_comma(SyntaxKind::Comma, SyntaxKind::RParen));
    assert!(is_trailing_comma(SyntaxKind::Comma, SyntaxKind::RBrack));
    assert!(!is_trailing_comma(SyntaxKind::Comma, SyntaxKind::RCurly));
    assert!(!is_trailing_comma(SyntaxKind::Dot, SyntaxKind::RParen));
}

#[test]
fn joining_whitespace() {
    assert_eq!(compute_ws(SyntaxKind::LParen, SyntaxKind::Ident), "");
    assert_eq!(compute_ws(SyntaxKind::LBrack, SyntaxKind::Ident), "");
    assert_eq!(compute_ws(SyntaxKind::LCurly, SyntaxKind::UseTree), "");
    assert_eq!(compute_ws(SyntaxKind::LCurly, SyntaxKind::Ident), " ");
    assert_eq!(compute_ws(SyntaxKind::Ident, SyntaxKind::RParen), "");
    assert_eq!(compute_ws(SyntaxKind::Ident, SyntaxKind::RBrack), "");
    assert_eq!(compute_ws(SyntaxKind::UseTree, SyntaxKind::RCurly), "");
    assert_eq!(compute_ws(SyntaxKind::Ident, SyntaxKind::RCurly), " ");
    assert_eq!(compute_ws(SyntaxKind::RParen, SyntaxKind::Dot), "");
    assert_eq!(compute_ws(SyntaxKind::Ident, SyntaxKind::Ident), " ");
}

#[test]
fn comma_after_past_trivia() {
    let s = vec![SyntaxKind::BlockExpr, SyntaxKind::Whitespace, SyntaxKind::Comment, SyntaxKind::Comma];
    assert!(has_comma_after(&s, 0));
    let t = vec![SyntaxKind::BlockExpr, SyntaxKind::Whitespace, SyntaxKind::RCurly, SyntaxKind::Comma];
    assert!(!has_comma_after(&t, 0));
    let u = vec![SyntaxKind::BlockExpr, SyntaxKind::Whitespace];
    assert!(!has_comma_after(&u, 0));
    assert!(!has_comma_after(&u, 1));
}

#[test]
fn range_info() {
    let r = TextRange::new(3, 7);
    assert_eq!(r.len(), 4);
    let info = RangeInfo::new(r, "x");
    assert_eq!(info.range, TextRange { start: 3, end: 7 });
    assert_eq!(info.info, "x");
}

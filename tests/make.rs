use closure_deduce::make::{
    arg_list, assoc_item_list, blank_line, doc_comment, literal, block_expr, condition, empty_block_expr, expr_assignment,
    expr_break, expr_call, expr_continue, expr_empty_block, expr_for_loop, expr_if, expr_literal,
    expr_match, expr_method_call, expr_paren, expr_path, expr_prefix, expr_ref, expr_return,
    expr_stmt, expr_todo, expr_try, expr_tuple, expr_unit, expr_unreachable, fn_, generic_param_list,
    ident_pat, ident_path, impl_trait, let_stmt, lifetime, lifetime_param, literal_pat, match_arm,
    match_arm_list, match_arm_with_guard, name, name_ref, param, param_list, path_concat,
    path_from_segments, path_from_text, path_pat, path_qualified, path_segment, path_segment_crate,
    path_segment_self, path_segment_super, path_unqualified, record_expr, record_expr_field,
    record_expr_field_list, record_field, record_field_list, record_pat, record_pat_field,
    record_pat_field_list, record_pat_with_fields, ret_type, simple_ident_pat, single_newline,
    single_space, struct_, token, tuple_field, tuple_field_list, tuple_pat, tuple_struct_pat, ty,
    ty_bool, ty_option, ty_path, ty_ref, ty_result, ty_tuple, ty_unit, type_param, use_, use_tree,
    use_tree_glob, use_tree_list, variant, visibility_pub, visibility_pub_crate, where_clause,
    where_pred, whitespace, wildcard_pat, ElseBranch, FieldList, Node, WsBuilder,
};
use closure_deduce::syntax_kind::SyntaxKind;

fn t(n: &Node) -> &str {
    n.as_str()
}

#[test]
fn names_escape_keywords() {
    assert_eq!(t(&name("foo")), "foo");
    assert_eq!(t(&name("fn")), "r#fn");
    assert_eq!(t(&name("self")), "self");
    assert_eq!(t(&name_ref("type")), "r#type");
    assert_eq!(t(&name_ref("Self")), "Self");
    assert_eq!(t(&ident_path("match")), "r#match");
    assert_eq!(t(&simple_ident_pat(name("x"))), "x");
}

#[test]
fn types() {
    assert_eq!(t(&ty_bool()), "bool");
    assert_eq!(t(&ty_unit()), "()");
    assert_eq!(t(&ty_option(ty("i32"))), "Option<i32>");
    assert_eq!(t(&ty_result(ty("T"), ty("E"))), "Result<T, E>");
    assert_eq!(t(&ty_tuple(vec![])), "()");
    assert_eq!(t(&ty_tuple(vec![ty("i32")])), "(i32,)");
    assert_eq!(t(&ty_tuple(vec![ty("i32"), ty("bool")])), "(i32, bool)");
    assert_eq!(t(&ty_ref(ty("u8"), true)), "&mut u8");
    assert_eq!(t(&ty_ref(ty("u8"), false)), "&u8");
    assert_eq!(t(&ty_path(path_from_text("a::B"))), "a::B");
}

#[test]
fn paths() {
    assert_eq!(t(&path_segment(name_ref("foo"))), "foo");
    assert_eq!(t(&path_segment_self()), "self");
    assert_eq!(t(&path_segment_super()), "super");
    assert_eq!(t(&path_segment_crate()), "crate");
    assert_eq!(t(&path_unqualified(path_segment(name_ref("a")))), "a");
    assert_eq!(t(&path_qualified(path_from_text("a::b"), path_segment(name_ref("c")))), "a::b::c");
    assert_eq!(t(&path_concat(path_from_text("a"), path_from_text("b::c"))), "a::b::c");
    let segs = || vec![path_segment(name_ref("std")), path_segment(name_ref("fmt"))];
    assert_eq!(t(&path_from_segments(segs(), false)), "std::fmt");
    assert_eq!(t(&path_from_segments(segs(), true)), "::std::fmt");
}

#[test]
fn imports() {
    assert_eq!(t(&use_tree_glob()), "*");
    let list = use_tree_list(vec![use_tree(path_from_text("a"), None, None, false), use_tree_glob()]);
    assert_eq!(t(&list), "{a, *}");
    assert_eq!(t(&use_tree(path_from_text("std"), Some(list), None, false)), "std::{a, *}");
    assert_eq!(t(&use_tree(path_from_text("m"), None, Some(Node::from_text("as n")), true)), "m::* as n");
    assert_eq!(t(&use_(None, use_tree(path_from_text("a::b"), None, None, false))), "use a::b;");
    assert_eq!(t(&use_(Some(visibility_pub_crate()), use_tree_glob())), "pub(crate) use *;");
}

#[test]
fn simple_expressions() {
    assert_eq!(t(&expr_unreachable()), "unreachable!()");
    assert_eq!(t(&expr_todo()), "todo!()");
    assert_eq!(t(&expr_unit()), "()");
    assert_eq!(t(&expr_literal("92")), "92");
    assert_eq!(t(&expr_path(path_from_text("x"))), "x");
    assert_eq!(t(&expr_continue()), "continue");
    assert_eq!(t(&expr_break(None)), "break");
    assert_eq!(t(&expr_break(Some(expr_literal("1")))), "break 1");
    assert_eq!(t(&expr_return(None)), "return");
    assert_eq!(t(&expr_return(Some(expr_unit()))), "return ()");
    assert_eq!(t(&expr_try(expr_path(path_from_text("f")))), "f?");
    assert_eq!(t(&expr_ref(expr_literal("1"), true)), "&mut 1");
    assert_eq!(t(&expr_ref(expr_literal("1"), false)), "&1");
    assert_eq!(t(&expr_paren(expr_literal("1"))), "(1)");
    assert_eq!(t(&expr_tuple(vec![expr_literal("1")])), "(1)");
    assert_eq!(t(&expr_tuple(vec![expr_literal("1"), expr_literal("2")])), "(1, 2)");
    assert_eq!(t(&expr_assignment(expr_path(path_from_text("a")), expr_literal("3"))), "a = 3");
    assert_eq!(t(&expr_call(expr_path(path_from_text("f")), arg_list(vec![]))), "f()");
    assert_eq!(
        t(&expr_method_call(expr_path(path_from_text("v")), "push", arg_list(vec![expr_literal("1"), expr_literal("2")]))),
        "v.push(1, 2)"
    );
    assert_eq!(t(&expr_prefix(SyntaxKind::Bang, expr_literal("true"))), "!true");
    assert_eq!(t(&expr_prefix(SyntaxKind::Star, expr_path(path_from_text("p")))), "*p");
}

#[test]
fn block_expressions() {
    assert_eq!(t(&empty_block_expr()), "{\n}");
    assert!(empty_block_expr().is_block_like());
    assert_eq!(t(&expr_empty_block()), "{}");
    let b = block_expr(vec![Node::from_text("let x = 1;")], Some(expr_path(path_from_text("x"))));
    assert_eq!(t(&b), "{\n    let x = 1;\n    x\n}");
    let cond = condition(expr_path(path_from_text("c")), None);
    assert_eq!(t(&cond), "c");
    let cond_let = condition(expr_path(path_from_text("o")), Some(Node::from_text("Some(x)")));
    assert_eq!(t(&cond_let), "let Some(x) = o");
    let e = expr_if(cond, expr_empty_block(), None);
    assert_eq!(t(&e), "if c {}");
    assert!(e.is_block_like());
    let e2 = expr_if(cond_let, expr_empty_block(), Some(ElseBranch::Block(expr_empty_block())));
    assert_eq!(t(&e2), "if let Some(x) = o {} else {}");
    let f = expr_for_loop(wildcard_pat(), expr_path(path_from_text("it")), expr_empty_block());
    assert_eq!(t(&f), "for _ in it {}");
}

#[test]
fn statements() {
    assert_eq!(t(&let_stmt(ident_pat(false, true, name("x")), Some(expr_literal("1")))), "let mut x = 1;");
    assert_eq!(t(&let_stmt(wildcard_pat(), None)), "let _;");
    assert_eq!(t(&expr_stmt(expr_literal("1"))), "1;");
    assert_eq!(t(&expr_stmt(expr_empty_block())), "{}");
}

#[test]
fn patterns() {
    assert_eq!(t(&ident_pat(true, true, name("x"))), "ref mut x");
    assert_eq!(t(&ident_pat(false, false, name("x"))), "x");
    assert_eq!(t(&wildcard_pat()), "_");
    assert_eq!(t(&literal_pat("'a'")), "'a'");
    assert_eq!(t(&tuple_pat(vec![wildcard_pat()])), "(_,)");
    assert_eq!(t(&tuple_pat(vec![wildcard_pat(), wildcard_pat()])), "(_, _)");
    assert_eq!(t(&tuple_struct_pat(path_from_text("Some"), vec![wildcard_pat()])), "Some(_)");
    assert_eq!(t(&record_pat(path_from_text("S"), vec![ident_pat(false, false, name("a"))])), "S { a }");
    let fields = record_pat_field_list(vec![record_pat_field(name_ref("a"), wildcard_pat())]);
    assert_eq!(t(&fields), "{ a: _ }");
    assert_eq!(t(&record_pat_with_fields(path_from_text("S"), fields)), "S { a: _ }");
    assert_eq!(t(&path_pat(path_from_text("E::A"))), "E::A");
}

#[test]
fn match_arms() {
    let arm = match_arm(vec![literal_pat("1"), literal_pat("2")], None, expr_unit());
    assert_eq!(t(&arm), "1 | 2 => ()");
    let guarded = match_arm(vec![wildcard_pat()], Some(expr_path(path_from_text("g"))), expr_empty_block());
    assert_eq!(t(&guarded), "_ if g => {}");
    let g2 = match_arm_with_guard(vec![wildcard_pat()], expr_path(path_from_text("g")), expr_unit());
    assert_eq!(t(&g2), "_ if g => ()");
    let list = match_arm_list(vec![arm, guarded]);
    assert_eq!(t(&list), "{\n    1 | 2 => (),\n    _ if g => {}\n}");
    let m = expr_match(expr_path(path_from_text("x")), list);
    assert_eq!(t(&m), "match x {\n    1 | 2 => (),\n    _ if g => {}\n}");
    assert!(m.is_block_like());
}

#[test]
fn records() {
    let f = record_expr_field(name_ref("a"), Some(expr_literal("1")));
    assert_eq!(t(&f), "a: 1");
    let short = record_expr_field(name_ref("b"), None);
    assert_eq!(t(&short), "b");
    let list = record_expr_field_list(vec![f, short]);
    assert_eq!(t(&list), "{ a: 1, b }");
    assert_eq!(t(&record_expr(path_from_text("S"), list)), "S { a: 1, b }");
    assert_eq!(t(&record_field(Some(visibility_pub()), name("x"), ty("u32"))), "pub x: u32");
    assert_eq!(t(&record_field(None, name("x"), ty("u32"))), "x: u32");
}

#[test]
fn items() {
    assert_eq!(t(&assoc_item_list()), "{}");
    assert_eq!(t(&impl_trait(path_from_text("Tr"), path_from_text("S"))), "impl Tr for S {}");
    assert_eq!(t(&where_pred(path_from_text("T"), vec![Node::from_text("Clone"), Node::from_text("Copy")])), "T: Clone + Copy");
    assert_eq!(t(&where_clause(vec![Node::from_text("T: A"), Node::from_text("U: B")])), "where T: A, U: B");
    assert_eq!(t(&param(ident_pat(false, false, name("x")), ty("i32"))), "x: i32");
    assert_eq!(t(&ret_type(ty("bool"))), "-> bool");
    let p = || param(wildcard_pat(), ty("u8"));
    assert_eq!(t(&param_list(None, vec![p(), p()])), "(_: u8, _: u8)");
    assert_eq!(t(&param_list(Some(Node::from_text("&self")), vec![])), "(&self)");
    assert_eq!(t(&param_list(Some(Node::from_text("&self")), vec![p()])), "(&self, _: u8)");
    assert_eq!(t(&type_param(name("T"), None)), "T");
    assert_eq!(t(&type_param(name("T"), Some(Node::from_text("Clone")))), "T: Clone");
    assert_eq!(t(&lifetime("'a")), "'a");
    assert_eq!(t(&lifetime("a")), "'a");
    assert_eq!(t(&lifetime_param(lifetime("'b"))), "'b");
    assert_eq!(t(&generic_param_list(vec![type_param(name("T"), None), lifetime_param(lifetime("a"))])), "<T, 'a>");
    assert_eq!(t(&visibility_pub()), "pub");
    assert_eq!(t(&visibility_pub_crate()), "pub(crate)");
}

#[test]
fn structs_and_functions() {
    let tfl = || tuple_field_list(vec![tuple_field(None, ty("u8")), tuple_field(Some(visibility_pub()), ty("i8"))]);
    assert_eq!(t(&tfl()), "(u8, pub i8)");
    let rfl = || record_field_list(vec![record_field(None, name("a"), ty("u8"))]);
    assert_eq!(t(&rfl()), "{ a: u8 }");
    assert_eq!(t(&variant(name("A"), None)), "A");
    assert_eq!(t(&variant(name("B"), Some(FieldList::TupleFieldList(tfl())))), "B(u8, pub i8)");
    assert_eq!(t(&struct_(None, name("S"), None, FieldList::TupleFieldList(tfl()))), "struct S(u8, pub i8);");
    assert_eq!(
        t(&struct_(Some(visibility_pub()), name("S"), Some(generic_param_list(vec![type_param(name("T"), None)])), FieldList::RecordFieldList(rfl()))),
        "pub struct S<T>{ a: u8 }"
    );
    let f = fn_(None, name("f"), None, param_list(None, vec![]), expr_empty_block(), None);
    assert_eq!(t(&f), "fn f() {}");
    let g = fn_(
        Some(visibility_pub()),
        name("g"),
        Some(Node::from_text("T")),
        param_list(None, vec![param(wildcard_pat(), ty("T"))]),
        expr_empty_block(),
        Some(ret_type(ty("T"))),
    );
    assert_eq!(t(&g), "pub fn g<T>(_: T) -> T {}");
}

#[test]
fn tokens() {
    let tok = token(SyntaxKind::Eq2);
    assert_eq!(tok.kind(), SyntaxKind::Eq2);
    assert_eq!(tok.text(), "==");
    assert_eq!(token(SyntaxKind::ConstKw).text(), "const");
    assert_eq!(token(SyntaxKind::Semicolon).text(), ";");
    assert_eq!(single_space().text(), " ");
    assert_eq!(single_newline().text(), "\n");
    assert_eq!(blank_line().text(), "\n\n");
    assert_eq!(whitespace("\t ").text(), "\t ");
    assert_eq!(whitespace("\t ").kind(), SyntaxKind::Whitespace);
    let b = WsBuilder::new("    ");
    assert_eq!(b.ws().text(), "    ");
    assert_eq!(b.ws().kind(), SyntaxKind::Whitespace);
}

#[test]
fn node_text_accessors() {
    let n = Node::from_text("abc");
    assert_eq!(n.to_string(), String::from("abc"));
    assert!(!n.is_block_like());
}

#[test]
fn comment_and_literal_tokens() {
    let c = doc_comment("/// Docs here\nfn f() {}");
    assert_eq!(c.kind(), SyntaxKind::Comment);
    assert_eq!(c.text(), "/// Docs here");
    assert_eq!(doc_comment("//! inner").text(), "//! inner");
    assert_eq!(literal("92").kind(), SyntaxKind::IntNumber);
    assert_eq!(literal("92").text(), "92");
    assert_eq!(literal("1.5").kind(), SyntaxKind::FloatNumber);
    assert_eq!(literal("\"hi\"").kind(), SyntaxKind::String);
    assert_eq!(literal("'c'").kind(), SyntaxKind::Char);
    assert_eq!(literal("b'c'").kind(), SyntaxKind::Byte);
    assert_eq!(literal("b\"x\"").kind(), SyntaxKind::ByteString);
    assert_eq!(literal("true").kind(), SyntaxKind::TrueKw);
    assert_eq!(literal("false").kind(), SyntaxKind::FalseKw);
}

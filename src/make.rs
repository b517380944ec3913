//! Builders of syntax fragments out of smaller pieces.
//!
//! A fragment is held as its source text; each builder assembles the text of
//! a node from the texts of its immediate children, exactly as the node reads
//! in source, and records whether an expression ends in a block.
use vstd::prelude::*;
use vstd::string::*;
use crate::syntax_kind::SyntaxKind;

verus! {

/// A syntax fragment: its source text, and for an expression (or a match
/// arm, for its expression) whether it ends in a block.
#[derive(Debug)]
pub struct Node {
    text: String,
    block_like: bool,
}

impl View for Node {
    type V = Seq<char>;

    closed spec fn view(&self) -> Seq<char> {
        self.text@
    }
}

pub type Name = Node;
pub type NameRef = Node;
pub type Lifetime = Node;
pub type Type = Node;
pub type Path = Node;
pub type PathSegment = Node;
pub type UseTree = Node;
pub type UseTreeList = Node;
pub type Use = Node;
pub type Rename = Node;
pub type Visibility = Node;
pub type AssocItemList = Node;
pub type Impl = Node;
pub type RecordExpr = Node;
pub type RecordExprFieldList = Node;
pub type RecordExprField = Node;
pub type RecordField = Node;
pub type Expr = Node;
pub type BlockExpr = Node;
pub type Literal = Node;
pub type Stmt = Node;
pub type Condition = Node;
pub type ArgList = Node;
pub type Pat = Node;
pub type IdentPat = Node;
pub type WildcardPat = Node;
pub type LiteralPat = Node;
pub type TuplePat = Node;
pub type TupleStructPat = Node;
pub type RecordPat = Node;
pub type RecordPatFieldList = Node;
pub type RecordPatField = Node;
pub type MatchArm = Node;
pub type MatchArmList = Node;
pub type TypeBound = Node;
pub type TypeBoundList = Node;
pub type WherePred = Node;
pub type WhereClause = Node;
pub type LetStmt = Node;
pub type ExprStmt = Node;
pub type Param = Node;
pub type SelfParam = Node;
pub type RetType = Node;
pub type ParamList = Node;
pub type TypeParam = Node;
pub type LifetimeParam = Node;
pub type GenericParam = Node;
pub type GenericParamList = Node;
pub type TupleFieldList = Node;
pub type RecordFieldList = Node;
pub type TupleField = Node;
pub type Variant = Node;
pub type Fn = Node;
pub type Struct = Node;

/// The field list of a struct or variant.
#[derive(Debug)]
pub enum FieldList {
    RecordFieldList(RecordFieldList),
    TupleFieldList(TupleFieldList),
}

/// The `else` part of an `if`.
#[derive(Debug)]
pub enum ElseBranch {
    Block(BlockExpr),
    IfExpr(Expr),
}

impl FieldList {
    pub closed spec fn text(&self) -> Seq<char> {
        match self {
            FieldList::RecordFieldList(n) => n@,
            FieldList::TupleFieldList(n) => n@,
        }
    }
}

impl ElseBranch {
    pub closed spec fn text(&self) -> Seq<char> {
        match self {
            ElseBranch::Block(n) => n@,
            ElseBranch::IfExpr(n) => n@,
        }
    }
}

impl Node {
    /// Whether the expression ends in a block (or, for a match arm, its
    /// expression does).
    pub closed spec fn ends_in_block(&self) -> bool {
        self.block_like
    }

    /// A fragment with the given text.
    pub fn from_text(text: &str) -> (r: Node)
        ensures
            r@ == text@,
            !r.ends_in_block(),
    {
        Node { text: String::from_str(text), block_like: false }
    }

    /// The source text of the fragment.
    pub fn as_str(&self) -> (r: &str)
        ensures
            r@ == self@,
    {
        self.text.as_str()
    }

    /// The source text of the fragment, owned.
    pub fn to_string(&self) -> (r: String)
        ensures
            r@ == self@,
    {
        self.text.clone()
    }

    /// Whether the expression ends in a block.
    pub fn is_block_like(&self) -> (r: bool)
        ensures
            r == self.ends_in_block(),
    {
        self.block_like
    }
}

/// A syntax token: its kind and text.
#[derive(Debug)]
pub struct SyntaxToken {
    kind: SyntaxKind,
    text: String,
}

impl View for SyntaxToken {
    type V = (SyntaxKind, Seq<char>);

    closed spec fn view(&self) -> (SyntaxKind, Seq<char>) {
        (self.kind, self.text@)
    }
}

impl SyntaxToken {
    pub fn kind(&self) -> (r: SyntaxKind)
        ensures
            r == self@.0,
    {
        self.kind
    }

    pub fn text(&self) -> (r: &str)
        ensures
            r@ == self@.1,
    {
        self.text.as_str()
    }
}

// ---------------------------------------------------------------------------
// Text helpers
// ---------------------------------------------------------------------------

pub open spec fn texts(ns: Seq<Node>) -> Seq<Seq<char>> {
    ns.map_values(|n: Node| n@)
}

/// The parts, with `sep` between each two.
pub open spec fn join(parts: Seq<Seq<char>>, sep: Seq<char>) -> Seq<char>
    decreases parts.len(),
{
    if parts.len() == 0 {
        Seq::empty()
    } else if parts.len() == 1 {
        parts[0]
    } else {
        join(parts.drop_last(), sep) + sep + parts.last()
    }
}

/// The text of `o`, or nothing.
pub open spec fn opt_text(o: Option<Node>) -> Seq<char> {
    match o {
        Some(n) => n@,
        None => Seq::empty(),
    }
}

/// The text of `o` followed by a space, or nothing.
pub open spec fn opt_text_space(o: Option<Node>) -> Seq<char> {
    match o {
        Some(n) => n@ + " "@,
        None => Seq::empty(),
    }
}

fn join_texts(parts: &Vec<Node>, sep: &str) -> (r: String)
    ensures
        r@ == join(texts(parts@), sep@),
{
    let mut out = String::from_str("");
    proof {
        reveal_strlit("");
    }
    let mut i: usize = 0;
    while i < parts.len()
        invariant
            i <= parts@.len(),
            out@ == join(texts(parts@).take(i as int), sep@),
        decreases parts@.len() - i,
    {
        let ghost before = out@;
        if i > 0 {
            out.append(sep);
        }
        out.append(parts[i].as_str());
        proof {
            let ts = texts(parts@);
            assert(ts.take(i + 1).drop_last() =~= ts.take(i as int));
            if i == 0 {
                assert(out@ =~= ts.take(1)[0]);
            }
        }
        i = i + 1;
    }
    assert(texts(parts@).take(parts@.len() as int) =~= texts(parts@));
    out
}

fn cat(a: &str, b: &str) -> (r: String)
    ensures
        r@ == a@ + b@,
{
    let mut s = String::from_str(a);
    s.append(b);
    s
}

fn cat3(a: &str, b: &str, c: &str) -> (r: String)
    ensures
        r@ == a@ + b@ + c@,
{
    let mut s = String::from_str(a);
    s.append(b);
    s.append(c);
    s
}

fn opt_space(o: &Option<Node>) -> (r: String)
    ensures
        r@ == opt_text_space(*o),
{
    match o {
        Some(n) => cat(n.as_str(), " "),
        None => {
            proof {
                reveal_strlit("");
            }
            String::from_str("")
        },
    }
}

fn node(text: String) -> (r: Node)
    ensures
        r@ == text@,
        !r.ends_in_block(),
{
    Node { text, block_like: false }
}

fn block_node(text: String) -> (r: Node)
    ensures
        r@ == text@,
        r.ends_in_block(),
{
    Node { text, block_like: true }
}

/// `s` is a keyword of the language.
pub open spec fn is_keyword(s: Seq<char>) -> bool {
    ||| s == "as"@ ||| s == "async"@ ||| s == "await"@ ||| s == "box"@ ||| s == "break"@
    ||| s == "const"@ ||| s == "continue"@ ||| s == "crate"@ ||| s == "dyn"@ ||| s == "else"@
    ||| s == "enum"@ ||| s == "extern"@ ||| s == "false"@ ||| s == "fn"@ ||| s == "for"@
    ||| s == "if"@ ||| s == "impl"@ ||| s == "in"@ ||| s == "let"@ ||| s == "loop"@
    ||| s == "macro"@ ||| s == "match"@ ||| s == "mod"@ ||| s == "move"@ ||| s == "mut"@
    ||| s == "pub"@ ||| s == "ref"@ ||| s == "return"@ ||| s == "self"@ ||| s == "static"@
    ||| s == "struct"@ ||| s == "super"@ ||| s == "trait"@ ||| s == "true"@ ||| s == "try"@
    ||| s == "type"@ ||| s == "unsafe"@ ||| s == "use"@ ||| s == "where"@ ||| s == "while"@
    ||| s == "yield"@
}

/// The prefix that makes `s` usable as an identifier: `r#` for a keyword
/// other than the path keywords.
pub open spec fn raw_prefix(s: Seq<char>) -> Seq<char> {
    if is_keyword(s) && !(s == "self"@ || s == "crate"@ || s == "super"@ || s == "Self"@) {
        "r#"@
    } else {
        ""@
    }
}

pub(crate) fn str_eq(a: &str, b: &str) -> (r: bool)
    ensures
        r == (a@ == b@),
{
    let n = a.unicode_len();
    if n != b.unicode_len() {
        return false;
    }
    let mut i: usize = 0;
    while i < n
        invariant
            n == a@.len(),
            a@.len() == b@.len(),
            i <= n,
            forall|k: int| 0 <= k < i ==> a@[k] == b@[k],
        decreases n - i,
    {
        if a.get_char(i) != b.get_char(i) {
            return false;
        }
        i = i + 1;
    }
    assert(a@ =~= b@);
    true
}

fn is_keyword_exec(s: &str) -> (r: bool)
    ensures
        r == is_keyword(s@),
{
    str_eq(s, "as") || str_eq(s, "async") || str_eq(s, "await") || str_eq(s, "box") || str_eq(s, "break")
        || str_eq(s, "const") || str_eq(s, "continue") || str_eq(s, "crate") || str_eq(s, "dyn")
        || str_eq(s, "else") || str_eq(s, "enum") || str_eq(s, "extern") || str_eq(s, "false")
        || str_eq(s, "fn") || str_eq(s, "for") || str_eq(s, "if") || str_eq(s, "impl") || str_eq(s, "in")
        || str_eq(s, "let") || str_eq(s, "loop") || str_eq(s, "macro") || str_eq(s, "match")
        || str_eq(s, "mod") || str_eq(s, "move") || str_eq(s, "mut") || str_eq(s, "pub")
        || str_eq(s, "ref") || str_eq(s, "return") || str_eq(s, "self") || str_eq(s, "static")
        || str_eq(s, "struct") || str_eq(s, "super") || str_eq(s, "trait") || str_eq(s, "true")
        || str_eq(s, "try") || str_eq(s, "type") || str_eq(s, "unsafe") || str_eq(s, "use")
        || str_eq(s, "where") || str_eq(s, "while") || str_eq(s, "yield")
}

fn raw_ident_esc(ident: &str) -> (r: &'static str)
    ensures
        r@ == raw_prefix(ident@),
{
    let is_keyword = is_keyword_exec(ident);
    if is_keyword && !(str_eq(ident, "self") || str_eq(ident, "crate") || str_eq(ident, "super") || str_eq(ident, "Self")) {
        "r#"
    } else {
        ""
    }
}

/// Unicode white space, as `char::is_whitespace` has it.
pub open spec fn is_ws(c: char) -> bool {
    ||| c == '\t' ||| c == '\n' ||| c == '\x0B' ||| c == '\x0C' ||| c == '\r' ||| c == ' '
    ||| c == '\u{85}' ||| c == '\u{A0}' ||| c == '\u{1680}'
    ||| ('\u{2000}' <= c && c <= '\u{200A}')
    ||| c == '\u{2028}' ||| c == '\u{2029}' ||| c == '\u{202F}' ||| c == '\u{205F}' ||| c == '\u{3000}'
}

/// Non-empty, and neither starts nor ends with white space.
pub open spec fn is_trimmed(s: Seq<char>) -> bool {
    s.len() > 0 && !is_ws(s[0]) && !is_ws(s.last())
}

/// Non-empty and all white space.
pub open spec fn is_blank(s: Seq<char>) -> bool {
    s.len() > 0 && forall|i: int| 0 <= i < s.len() ==> is_ws(#[trigger] s[i])
}

// ---------------------------------------------------------------------------
// Shortcuts
// ---------------------------------------------------------------------------

pub fn simple_ident_pat(name: Name) -> (r: IdentPat)
    ensures
        r@ == name@,
{
    node(name.to_string())
}

pub fn ident_path(ident: &str) -> (r: Path)
    ensures
        r@ == raw_prefix(ident@) + ident@,
{
    path_unqualified(path_segment(name_ref(ident)))
}

pub fn expr_unreachable() -> (r: Expr)
    ensures
        r@ == "unreachable!()"@,
{
    node(String::from_str("unreachable!()"))
}

pub fn expr_todo() -> (r: Expr)
    ensures
        r@ == "todo!()"@,
{
    node(String::from_str("todo!()"))
}

pub fn empty_block_expr() -> (r: BlockExpr)
    ensures
        r@ == "{\n}"@,
        r.ends_in_block(),
{
    let r = block_expr(Vec::new(), None);
    proof {
        reveal_strlit("{\n");
        reveal_strlit("}");
        reveal_strlit("{\n}");
        reveal_strlit("");
    }
    assert(texts(Seq::<Node>::empty()) =~= Seq::<Seq<char>>::empty());
    assert(block_lines(Seq::<Seq<char>>::empty()) =~= Seq::<char>::empty());
    assert(r@ =~= "{\n}"@);
    r
}

pub fn ty_bool() -> (r: Type)
    ensures
        r@ == "bool"@,
{
    ty("bool")
}

pub fn ty_option(t: Type) -> (r: Type)
    ensures
        r@ == "Option<"@ + t@ + ">"@,
{
    node(cat3("Option<", t.as_str(), ">"))
}

pub fn ty_result(t: Type, e: Type) -> (r: Type)
    ensures
        r@ == "Result<"@ + t@ + ", "@ + e@ + ">"@,
{
    let mut s = cat3("Result<", t.as_str(), ", ");
    s.append(e.as_str());
    s.append(">");
    node(s)
}

// ---------------------------------------------------------------------------
// Names, types and paths
// ---------------------------------------------------------------------------

pub fn name(text: &str) -> (r: Name)
    ensures
        r@ == raw_prefix(text@) + text@,
{
    node(cat(raw_ident_esc(text), text))
}

pub fn name_ref(text: &str) -> (r: NameRef)
    ensures
        r@ == raw_prefix(text@) + text@,
{
    node(cat(raw_ident_esc(text), text))
}

/// A lifetime; the leading `'` is added when missing.
pub fn lifetime(text: &str) -> (r: Lifetime)
    ensures
        text@.len() > 0 && text@[0] == '\'' ==> r@ == text@,
        !(text@.len() > 0 && text@[0] == '\'') ==> r@ == "'"@ + text@,
{
    if text.unicode_len() > 0 && text.get_char(0) == '\'' {
        node(String::from_str(text))
    } else {
        node(cat("'", text))
    }
}

pub fn ty(text: &str) -> (r: Type)
    ensures
        r@ == text@,
{
    node(String::from_str(text))
}

pub fn ty_unit() -> (r: Type)
    ensures
        r@ == "()"@,
{
    node(String::from_str("()"))
}

/// A tuple type; a single element gets a trailing comma.
pub fn ty_tuple(types: Vec<Type>) -> (r: Type)
    ensures
        r@ == "("@ + join(texts(types@), ", "@) + (if types@.len() == 1 { ","@ } else { ""@ }) + ")"@,
{
    let mut contents = join_texts(&types, ", ");
    if types.len() == 1 {
        contents.append(",");
    } else {
        proof {
            reveal_strlit("");
        }
        assert(contents@ + ""@ =~= contents@);
    }
    node(cat3("(", contents.as_str(), ")"))
}

pub fn ty_ref(target: Type, exclusive: bool) -> (r: Type)
    ensures
        r@ == (if exclusive { "&mut "@ } else { "&"@ }) + target@,
{
    if exclusive {
        node(cat("&mut ", target.as_str()))
    } else {
        node(cat("&", target.as_str()))
    }
}

pub fn ty_path(path: Path) -> (r: Type)
    ensures
        r@ == path@,
{
    node(path.to_string())
}

pub fn assoc_item_list() -> (r: AssocItemList)
    ensures
        r@ == "{}"@,
{
    node(String::from_str("{}"))
}

pub fn impl_trait(trait_: Path, ty: Path) -> (r: Impl)
    ensures
        r@ == "impl "@ + trait_@ + " for "@ + ty@ + " {}"@,
{
    let mut s = cat3("impl ", trait_.as_str(), " for ");
    s.append(ty.as_str());
    s.append(" {}");
    node(s)
}

pub fn path_segment(name_ref: NameRef) -> (r: PathSegment)
    ensures
        r@ == name_ref@,
{
    node(name_ref.to_string())
}

pub fn path_segment_self() -> (r: PathSegment)
    ensures
        r@ == "self"@,
{
    node(String::from_str("self"))
}

pub fn path_segment_super() -> (r: PathSegment)
    ensures
        r@ == "super"@,
{
    node(String::from_str("super"))
}

pub fn path_segment_crate() -> (r: PathSegment)
    ensures
        r@ == "crate"@,
{
    node(String::from_str("crate"))
}

pub fn path_unqualified(segment: PathSegment) -> (r: Path)
    ensures
        r@ == segment@,
{
    node(segment.to_string())
}

pub fn path_qualified(qual: Path, segment: PathSegment) -> (r: Path)
    ensures
        r@ == qual@ + "::"@ + segment@,
{
    node(cat3(qual.as_str(), "::", segment.as_str()))
}

pub fn path_concat(first: Path, second: Path) -> (r: Path)
    ensures
        r@ == first@ + "::"@ + second@,
{
    node(cat3(first.as_str(), "::", second.as_str()))
}

pub fn path_from_segments(segments: Vec<PathSegment>, is_abs: bool) -> (r: Path)
    ensures
        r@ == (if is_abs { "::"@ } else { ""@ }) + join(texts(segments@), "::"@),
{
    let segs = join_texts(&segments, "::");
    if is_abs {
        node(cat("::", segs.as_str()))
    } else {
        proof {
            reveal_strlit("");
        }
        assert(""@ + segs@ =~= segs@);
        node(segs)
    }
}

pub fn path_from_text(text: &str) -> (r: Path)
    ensures
        r@ == text@,
{
    node(String::from_str(text))
}

// ---------------------------------------------------------------------------
// Imports
// ---------------------------------------------------------------------------

pub fn use_tree_glob() -> (r: UseTree)
    ensures
        r@ == "*"@,
{
    node(String::from_str("*"))
}

pub fn use_tree(path: Path, use_tree_list: Option<UseTreeList>, alias: Option<Rename>, add_star: bool) -> (r: UseTree)
    ensures
        r@ == path@ + (match use_tree_list {
            Some(l) => "::"@ + l@,
            None => ""@,
        }) + (if add_star { "::*"@ } else { ""@ }) + (match alias {
            Some(a) => " "@ + a@,
            None => ""@,
        }),
{
    proof {
        reveal_strlit("");
    }
    let mut buf = path.to_string();
    let ghost b0 = buf@;
    match &use_tree_list {
        Some(l) => {
            buf.append("::");
            buf.append(l.as_str());
        },
        None => {},
    }
    let ghost b1 = buf@;
    if add_star {
        buf.append("::*");
    }
    let ghost b2 = buf@;
    match &alias {
        Some(a) => {
            buf.append(" ");
            buf.append(a.as_str());
        },
        None => {},
    }
    assert(buf@ =~= path@ + (match use_tree_list {
        Some(l) => "::"@ + l@,
        None => ""@,
    }) + (if add_star { "::*"@ } else { ""@ }) + (match alias {
        Some(a) => " "@ + a@,
        None => ""@,
    }));
    node(buf)
}

pub fn use_tree_list(use_trees: Vec<UseTree>) -> (r: UseTreeList)
    ensures
        r@ == "{"@ + join(texts(use_trees@), ", "@) + "}"@,
{
    let trees = join_texts(&use_trees, ", ");
    node(cat3("{", trees.as_str(), "}"))
}

pub fn use_(visibility: Option<Visibility>, use_tree: UseTree) -> (r: Use)
    ensures
        r@ == opt_text_space(visibility) + "use "@ + use_tree@ + ";"@,
{
    let mut s = opt_space(&visibility);
    s.append("use ");
    s.append(use_tree.as_str());
    s.append(";");
    node(s)
}

// ---------------------------------------------------------------------------
// Expressions
// ---------------------------------------------------------------------------

pub fn record_expr(path: Path, fields: RecordExprFieldList) -> (r: RecordExpr)
    ensures
        r@ == path@ + " "@ + fields@,
{
    node(cat3(path.as_str(), " ", fields.as_str()))
}

pub fn record_expr_field_list(fields: Vec<RecordExprField>) -> (r: RecordExprFieldList)
    ensures
        r@ == "{ "@ + join(texts(fields@), ", "@) + " }"@,
{
    let fs = join_texts(&fields, ", ");
    node(cat3("{ ", fs.as_str(), " }"))
}

pub fn record_expr_field(name: NameRef, expr: Option<Expr>) -> (r: RecordExprField)
    ensures
        r@ == name@ + (match expr {
            Some(e) => ": "@ + e@,
            None => ""@,
        }),
{
    match &expr {
        Some(e) => node(cat3(name.as_str(), ": ", e.as_str())),
        None => {
            proof {
                reveal_strlit("");
            }
            assert(name@ + ""@ =~= name@);
            node(name.to_string())
        },
    }
}

pub fn record_field(visibility: Option<Visibility>, name: Name, ty: Type) -> (r: RecordField)
    ensures
        r@ == opt_text_space(visibility) + name@ + ": "@ + ty@,
{
    let mut s = opt_space(&visibility);
    s.append(name.as_str());
    s.append(": ");
    s.append(ty.as_str());
    node(s)
}

/// A block: each statement, then the tail expression, on a line of its own
/// indented by four spaces.
pub fn block_expr(stmts: Vec<Stmt>, tail_expr: Option<Expr>) -> (r: BlockExpr)
    ensures
        r@ == "{\n"@ + block_lines(texts(stmts@)) + (match tail_expr {
            Some(e) => "    "@ + e@ + "\n"@,
            None => ""@,
        }) + "}"@,
        r.ends_in_block(),
{
    let mut buf = String::from_str("{\n");
    let mut i: usize = 0;
    while i < stmts.len()
        invariant
            i <= stmts@.len(),
            buf@ == "{\n"@ + block_lines(texts(stmts@).take(i as int)),
        decreases stmts@.len() - i,
    {
        buf.append("    ");
        buf.append(stmts[i].as_str());
        buf.append("\n");
        proof {
            assert(texts(stmts@).take(i + 1).drop_last() =~= texts(stmts@).take(i as int));
        }
        i = i + 1;
    }
    assert(texts(stmts@).take(stmts@.len() as int) =~= texts(stmts@));
    let ghost b1 = buf@;
    match &tail_expr {
        Some(e) => {
            buf.append("    ");
            buf.append(e.as_str());
            buf.append("\n");
        },
        None => {},
    }
    buf.append("}");
    proof {
        reveal_strlit("");
    }
    assert(buf@ =~= "{\n"@ + block_lines(texts(stmts@)) + (match tail_expr {
        Some(e) => "    "@ + e@ + "\n"@,
        None => ""@,
    }) + "}"@);
    block_node(buf)
}

/// Each part on a line of its own, indented by four spaces.
pub open spec fn block_lines(parts: Seq<Seq<char>>) -> Seq<char>
    decreases parts.len(),
{
    if parts.len() == 0 {
        Seq::empty()
    } else {
        block_lines(parts.drop_last()) + "    "@ + parts.last() + "\n"@
    }
}

pub fn expr_unit() -> (r: Expr)
    ensures
        r@ == "()"@,
{
    node(String::from_str("()"))
}

/// A literal expression; `text` must be the literal alone.
pub fn expr_literal(text: &str) -> (r: Literal)
    requires
        is_trimmed(text@),
    ensures
        r@ == text@,
{
    node(String::from_str(text))
}

pub fn expr_empty_block() -> (r: Expr)
    ensures
        r@ == "{}"@,
        r.ends_in_block(),
{
    block_node(String::from_str("{}"))
}

pub fn expr_path(path: Path) -> (r: Expr)
    ensures
        r@ == path@,
{
    node(path.to_string())
}

pub fn expr_continue() -> (r: Expr)
    ensures
        r@ == "continue"@,
{
    node(String::from_str("continue"))
}

pub fn expr_break(expr: Option<Expr>) -> (r: Expr)
    ensures
        r@ == match expr {
            Some(e) => "break "@ + e@,
            None => "break"@,
        },
{
    match &expr {
        Some(e) => node(cat("break ", e.as_str())),
        None => node(String::from_str("break")),
    }
}

pub fn expr_return(expr: Option<Expr>) -> (r: Expr)
    ensures
        r@ == match expr {
            Some(e) => "return "@ + e@,
            None => "return"@,
        },
{
    match &expr {
        Some(e) => node(cat("return ", e.as_str())),
        None => node(String::from_str("return")),
    }
}

pub fn expr_try(expr: Expr) -> (r: Expr)
    ensures
        r@ == expr@ + "?"@,
{
    node(cat(expr.as_str(), "?"))
}

pub fn expr_match(expr: Expr, match_arm_list: MatchArmList) -> (r: Expr)
    ensures
        r@ == "match "@ + expr@ + " "@ + match_arm_list@,
        r.ends_in_block(),
{
    let mut s = cat3("match ", expr.as_str(), " ");
    s.append(match_arm_list.as_str());
    block_node(s)
}

pub fn expr_if(condition: Condition, then_branch: BlockExpr, else_branch: Option<ElseBranch>) -> (r: Expr)
    ensures
        r@ == "if "@ + condition@ + " "@ + then_branch@ + (match else_branch {
            Some(b) => " else "@ + b.text(),
            None => ""@,
        }),
        r.ends_in_block(),
{
    let mut s = cat3("if ", condition.as_str(), " ");
    s.append(then_branch.as_str());
    let ghost s0 = s@;
    match &else_branch {
        Some(ElseBranch::Block(b)) => {
            s.append(" else ");
            s.append(b.as_str());
        },
        Some(ElseBranch::IfExpr(b)) => {
            s.append(" else ");
            s.append(b.as_str());
        },
        None => {
            proof {
                reveal_strlit("");
            }
            assert(s@ + ""@ =~= s@);
        },
    }
    block_node(s)
}

pub fn expr_for_loop(pat: Pat, expr: Expr, block: BlockExpr) -> (r: Expr)
    ensures
        r@ == "for "@ + pat@ + " in "@ + expr@ + " "@ + block@,
        r.ends_in_block(),
{
    let mut s = cat3("for ", pat.as_str(), " in ");
    s.append(expr.as_str());
    s.append(" ");
    s.append(block.as_str());
    block_node(s)
}

/// A prefix operator applied to `expr`; `op` is the operator's token kind.
pub fn expr_prefix(op: SyntaxKind, expr: Expr) -> (r: Expr)
    requires
        token_text(op) is Some,
    ensures
        r@ == token_text(op)->0 + expr@,
{
    let token = token(op);
    node(cat(token.text(), expr.as_str()))
}

pub fn expr_call(f: Expr, arg_list: ArgList) -> (r: Expr)
    ensures
        r@ == f@ + arg_list@,
{
    node(cat(f.as_str(), arg_list.as_str()))
}

pub fn expr_method_call(receiver: Expr, method: &str, arg_list: ArgList) -> (r: Expr)
    ensures
        r@ == receiver@ + "."@ + method@ + arg_list@,
{
    let mut s = cat3(receiver.as_str(), ".", method);
    s.append(arg_list.as_str());
    node(s)
}

pub fn expr_ref(expr: Expr, exclusive: bool) -> (r: Expr)
    ensures
        r@ == (if exclusive { "&mut "@ } else { "&"@ }) + expr@,
{
    if exclusive {
        node(cat("&mut ", expr.as_str()))
    } else {
        node(cat("&", expr.as_str()))
    }
}

pub fn expr_paren(expr: Expr) -> (r: Expr)
    ensures
        r@ == "("@ + expr@ + ")"@,
{
    node(cat3("(", expr.as_str(), ")"))
}

/// A tuple expression; unlike a tuple type, a single element gets no
/// trailing comma.
pub fn expr_tuple(elements: Vec<Expr>) -> (r: Expr)
    ensures
        r@ == "("@ + join(texts(elements@), ", "@) + ")"@,
{
    let es = join_texts(&elements, ", ");
    node(cat3("(", es.as_str(), ")"))
}

pub fn expr_assignment(lhs: Expr, rhs: Expr) -> (r: Expr)
    ensures
        r@ == lhs@ + " = "@ + rhs@,
{
    node(cat3(lhs.as_str(), " = ", rhs.as_str()))
}

pub fn condition(expr: Expr, pattern: Option<Pat>) -> (r: Condition)
    ensures
        r@ == match pattern {
            Some(p) => "let "@ + p@ + " = "@ + expr@,
            None => expr@,
        },
{
    match &pattern {
        None => node(expr.to_string()),
        Some(p) => {
            let mut s = cat3("let ", p.as_str(), " = ");
            s.append(expr.as_str());
            node(s)
        },
    }
}

pub fn arg_list(args: Vec<Expr>) -> (r: ArgList)
    ensures
        r@ == "("@ + join(texts(args@), ", "@) + ")"@,
{
    let a = join_texts(&args, ", ");
    node(cat3("(", a.as_str(), ")"))
}

// ---------------------------------------------------------------------------
// Patterns
// ---------------------------------------------------------------------------

pub fn ident_pat(ref_: bool, mut_: bool, name: Name) -> (r: IdentPat)
    ensures
        r@ == (if ref_ { "ref "@ } else { ""@ }) + (if mut_ { "mut "@ } else { ""@ }) + name@,
{
    proof {
        reveal_strlit("");
    }
    let mut s = String::from_str("");
    if ref_ {
        s.append("ref ");
    }
    if mut_ {
        s.append("mut ");
    }
    s.append(name.as_str());
    assert(s@ =~= (if ref_ { "ref "@ } else { ""@ }) + (if mut_ { "mut "@ } else { ""@ }) + name@);
    node(s)
}

pub fn wildcard_pat() -> (r: WildcardPat)
    ensures
        r@ == "_"@,
{
    node(String::from_str("_"))
}

pub fn literal_pat(lit: &str) -> (r: LiteralPat)
    ensures
        r@ == lit@,
{
    node(String::from_str(lit))
}

/// A tuple of patterns; a single element gets a trailing comma.
pub fn tuple_pat(pats: Vec<Pat>) -> (r: TuplePat)
    ensures
        r@ == "("@ + join(texts(pats@), ", "@) + (if pats@.len() == 1 { ","@ } else { ""@ }) + ")"@,
{
    let mut pats_str = join_texts(&pats, ", ");
    if pats.len() == 1 {
        pats_str.append(",");
    } else {
        proof {
            reveal_strlit("");
        }
        assert(pats_str@ + ""@ =~= pats_str@);
    }
    node(cat3("(", pats_str.as_str(), ")"))
}

pub fn tuple_struct_pat(path: Path, pats: Vec<Pat>) -> (r: TupleStructPat)
    ensures
        r@ == path@ + "("@ + join(texts(pats@), ", "@) + ")"@,
{
    let pats_str = join_texts(&pats, ", ");
    let mut s = cat3(path.as_str(), "(", pats_str.as_str());
    s.append(")");
    node(s)
}

pub fn record_pat(path: Path, pats: Vec<Pat>) -> (r: RecordPat)
    ensures
        r@ == path@ + " { "@ + join(texts(pats@), ", "@) + " }"@,
{
    let pats_str = join_texts(&pats, ", ");
    let mut s = cat3(path.as_str(), " { ", pats_str.as_str());
    s.append(" }");
    node(s)
}

pub fn record_pat_with_fields(path: Path, fields: RecordPatFieldList) -> (r: RecordPat)
    ensures
        r@ == path@ + " "@ + fields@,
{
    node(cat3(path.as_str(), " ", fields.as_str()))
}

pub fn record_pat_field_list(fields: Vec<RecordPatField>) -> (r: RecordPatFieldList)
    ensures
        r@ == "{ "@ + join(texts(fields@), ", "@) + " }"@,
{
    let fs = join_texts(&fields, ", ");
    node(cat3("{ ", fs.as_str(), " }"))
}

pub fn record_pat_field(name_ref: NameRef, pat: Pat) -> (r: RecordPatField)
    ensures
        r@ == name_ref@ + ": "@ + pat@,
{
    node(cat3(name_ref.as_str(), ": ", pat.as_str()))
}

/// A path pattern; one of a single segment reads as a binding.
pub fn path_pat(path: Path) -> (r: Pat)
    ensures
        r@ == path@,
{
    node(path.to_string())
}

// ---------------------------------------------------------------------------
// Match arms
// ---------------------------------------------------------------------------

pub fn match_arm(pats: Vec<Pat>, guard: Option<Expr>, expr: Expr) -> (r: MatchArm)
    ensures
        r@ == join(texts(pats@), " | "@) + (match guard {
            Some(g) => " if "@ + g@,
            None => ""@,
        }) + " => "@ + expr@,
        r.ends_in_block() == expr.ends_in_block(),
{
    let mut s = join_texts(&pats, " | ");
    let ghost s0 = s@;
    match &guard {
        Some(g) => {
            s.append(" if ");
            s.append(g.as_str());
        },
        None => {
            proof {
                reveal_strlit("");
            }
            assert(s@ + ""@ =~= s@);
        },
    }
    s.append(" => ");
    s.append(expr.as_str());
    Node { text: s, block_like: expr.is_block_like() }
}

pub fn match_arm_with_guard(pats: Vec<Pat>, guard: Expr, expr: Expr) -> (r: MatchArm)
    ensures
        r@ == join(texts(pats@), " | "@) + " if "@ + guard@ + " => "@ + expr@,
        r.ends_in_block() == expr.ends_in_block(),
{
    let mut s = join_texts(&pats, " | ");
    s.append(" if ");
    s.append(guard.as_str());
    s.append(" => ");
    s.append(expr.as_str());
    Node { text: s, block_like: expr.is_block_like() }
}

/// The text of one arm in an arm list: indented, with a comma unless its
/// expression ends in a block.
pub open spec fn arm_line(arm: Node) -> Seq<char> {
    "    "@ + arm@ + (if arm.ends_in_block() { ""@ } else { ","@ }) + "\n"@
}

pub open spec fn arm_lines(arms: Seq<Node>) -> Seq<char>
    decreases arms.len(),
{
    if arms.len() == 0 {
        Seq::empty()
    } else {
        arm_lines(arms.drop_last()) + arm_line(arms.last())
    }
}

pub fn match_arm_list(arms: Vec<MatchArm>) -> (r: MatchArmList)
    ensures
        r@ == "{\n"@ + arm_lines(arms@) + "}"@,
{
    let mut s = String::from_str("{\n");
    let mut i: usize = 0;
    proof {
        reveal_strlit("");
    }
    while i < arms.len()
        invariant
            i <= arms@.len(),
            s@ == "{\n"@ + arm_lines(arms@.take(i as int)),
        decreases arms@.len() - i,
    {
        s.append("    ");
        s.append(arms[i].as_str());
        if arms[i].is_block_like() {
            s.append("");
        } else {
            s.append(",");
        }
        s.append("\n");
        proof {
            assert(arms@.take(i + 1).drop_last() =~= arms@.take(i as int));
            assert(arms@.take(i + 1).last() == arms@[i as int]);
        }
        i = i + 1;
    }
    assert(arms@.take(arms@.len() as int) =~= arms@);
    s.append("}");
    node(s)
}

// ---------------------------------------------------------------------------
// Items and their parts
// ---------------------------------------------------------------------------

pub fn where_pred(path: Path, bounds: Vec<TypeBound>) -> (r: WherePred)
    ensures
        r@ == path@ + ": "@ + join(texts(bounds@), " + "@),
{
    let bs = join_texts(&bounds, " + ");
    node(cat3(path.as_str(), ": ", bs.as_str()))
}

pub fn where_clause(preds: Vec<WherePred>) -> (r: WhereClause)
    ensures
        r@ == "where "@ + join(texts(preds@), ", "@),
{
    let ps = join_texts(&preds, ", ");
    node(cat("where ", ps.as_str()))
}

pub fn let_stmt(pattern: Pat, initializer: Option<Expr>) -> (r: LetStmt)
    ensures
        r@ == match initializer {
            Some(e) => "let "@ + pattern@ + " = "@ + e@ + ";"@,
            None => "let "@ + pattern@ + ";"@,
        },
{
    match &initializer {
        Some(e) => {
            let mut s = cat3("let ", pattern.as_str(), " = ");
            s.append(e.as_str());
            s.append(";");
            node(s)
        },
        None => node(cat3("let ", pattern.as_str(), ";")),
    }
}

/// An expression statement: a semicolon follows unless the expression ends
/// in a block.
pub fn expr_stmt(expr: Expr) -> (r: ExprStmt)
    ensures
        r@ == expr@ + (if expr.ends_in_block() { ""@ } else { ";"@ }),
{
    let semi = if expr.is_block_like() {
        ""
    } else {
        ";"
    };
    node(cat(expr.as_str(), semi))
}

pub fn param(pat: Pat, ty: Type) -> (r: Param)
    ensures
        r@ == pat@ + ": "@ + ty@,
{
    node(cat3(pat.as_str(), ": ", ty.as_str()))
}

pub fn ret_type(ty: Type) -> (r: RetType)
    ensures
        r@ == "-> "@ + ty@,
{
    node(cat("-> ", ty.as_str()))
}

pub fn param_list(self_param: Option<SelfParam>, pats: Vec<Param>) -> (r: ParamList)
    ensures
        r@ == "("@ + (match self_param {
            Some(s) => if pats@.len() == 0 { s@ } else { s@ + ", "@ + join(texts(pats@), ", "@) },
            None => join(texts(pats@), ", "@),
        }) + ")"@,
{
    let args = join_texts(&pats, ", ");
    match &self_param {
        Some(sp) => {
            if pats.len() == 0 {
                node(cat3("(", sp.as_str(), ")"))
            } else {
                let mut s = cat3("(", sp.as_str(), ", ");
                s.append(args.as_str());
                s.append(")");
                node(s)
            }
        },
        None => node(cat3("(", args.as_str(), ")")),
    }
}

pub fn type_param(name: Name, ty: Option<TypeBoundList>) -> (r: TypeParam)
    ensures
        r@ == name@ + (match ty {
            Some(b) => ": "@ + b@,
            None => ""@,
        }),
{
    match &ty {
        Some(b) => node(cat3(name.as_str(), ": ", b.as_str())),
        None => {
            proof {
                reveal_strlit("");
            }
            assert(name@ + ""@ =~= name@);
            node(name.to_string())
        },
    }
}

pub fn lifetime_param(lifetime: Lifetime) -> (r: LifetimeParam)
    ensures
        r@ == lifetime@,
{
    node(lifetime.to_string())
}

pub fn generic_param_list(pats: Vec<GenericParam>) -> (r: GenericParamList)
    ensures
        r@ == "<"@ + join(texts(pats@), ", "@) + ">"@,
{
    let args = join_texts(&pats, ", ");
    node(cat3("<", args.as_str(), ">"))
}

pub fn visibility_pub_crate() -> (r: Visibility)
    ensures
        r@ == "pub(crate)"@,
{
    node(String::from_str("pub(crate)"))
}

pub fn visibility_pub() -> (r: Visibility)
    ensures
        r@ == "pub"@,
{
    node(String::from_str("pub"))
}

pub fn tuple_field_list(fields: Vec<TupleField>) -> (r: TupleFieldList)
    ensures
        r@ == "("@ + join(texts(fields@), ", "@) + ")"@,
{
    let fs = join_texts(&fields, ", ");
    node(cat3("(", fs.as_str(), ")"))
}

pub fn record_field_list(fields: Vec<RecordField>) -> (r: RecordFieldList)
    ensures
        r@ == "{ "@ + join(texts(fields@), ", "@) + " }"@,
{
    let fs = join_texts(&fields, ", ");
    node(cat3("{ ", fs.as_str(), " }"))
}

pub fn tuple_field(visibility: Option<Visibility>, ty: Type) -> (r: TupleField)
    ensures
        r@ == opt_text_space(visibility) + ty@,
{
    let mut s = opt_space(&visibility);
    s.append(ty.as_str());
    node(s)
}

pub fn variant(name: Name, field_list: Option<FieldList>) -> (r: Variant)
    ensures
        r@ == name@ + (match field_list {
            Some(f) => f.text(),
            None => ""@,
        }),
{
    match &field_list {
        Some(FieldList::RecordFieldList(f)) => node(cat(name.as_str(), f.as_str())),
        Some(FieldList::TupleFieldList(f)) => node(cat(name.as_str(), f.as_str())),
        None => {
            proof {
                reveal_strlit("");
            }
            assert(name@ + ""@ =~= name@);
            node(name.to_string())
        },
    }
}

pub fn fn_(
    visibility: Option<Visibility>,
    fn_name: Name,
    type_params: Option<GenericParamList>,
    params: ParamList,
    body: BlockExpr,
    ret_type: Option<RetType>,
) -> (r: Fn)
    ensures
        r@ == opt_text_space(visibility) + "fn "@ + fn_name@ + (match type_params {
            Some(t) => "<"@ + t@ + ">"@,
            None => ""@,
        }) + params@ + " "@ + opt_text_space(ret_type) + body@,
{
    proof {
        reveal_strlit("");
    }
    let mut s = opt_space(&visibility);
    s.append("fn ");
    s.append(fn_name.as_str());
    let ghost s0 = s@;
    match &type_params {
        Some(t) => {
            s.append("<");
            s.append(t.as_str());
            s.append(">");
        },
        None => {},
    }
    let ghost s1 = s@;
    s.append(params.as_str());
    s.append(" ");
    let rt = opt_space(&ret_type);
    s.append(rt.as_str());
    s.append(body.as_str());
    assert(s@ =~= opt_text_space(visibility) + "fn "@ + fn_name@ + (match type_params {
        Some(t) => "<"@ + t@ + ">"@,
        None => ""@,
    }) + params@ + " "@ + opt_text_space(ret_type) + body@);
    node(s)
}

pub fn struct_(
    visibility: Option<Visibility>,
    strukt_name: Name,
    generic_param_list: Option<GenericParamList>,
    field_list: FieldList,
) -> (r: Struct)
    ensures
        r@ == opt_text_space(visibility) + "struct "@ + strukt_name@ + opt_text(generic_param_list)
            + field_list.text() + (if field_list is TupleFieldList { ";"@ } else { ""@ }),
{
    proof {
        reveal_strlit("");
    }
    let mut s = opt_space(&visibility);
    s.append("struct ");
    s.append(strukt_name.as_str());
    let ghost s0 = s@;
    match &generic_param_list {
        Some(g) => s.append(g.as_str()),
        None => {},
    }
    let ghost s1 = s@;
    match &field_list {
        FieldList::RecordFieldList(f) => {
            s.append(f.as_str());
        },
        FieldList::TupleFieldList(f) => {
            s.append(f.as_str());
            s.append(";");
        },
    }
    assert(s@ =~= opt_text_space(visibility) + "struct "@ + strukt_name@ + opt_text(generic_param_list)
        + field_list.text() + (if field_list is TupleFieldList { ";"@ } else { ""@ }));
    node(s)
}

// ---------------------------------------------------------------------------
// Tokens
// ---------------------------------------------------------------------------

/// The text of the first token of each kind in
/// `const C: <()>::Item = (1 != 1, 2 == 2, 3 < 3, 4 <= 4, 5 > 5, 6 >= 6, !true, *p)\n;\n\n`,
/// the source that tokens are taken from.
pub open spec fn token_text(kind: SyntaxKind) -> Option<Seq<char>> {
    match kind {
        SyntaxKind::ConstKw => Some("const"@),
        SyntaxKind::Whitespace => Some(" "@),
        SyntaxKind::Ident => Some("C"@),
        SyntaxKind::Colon => Some(":"@),
        SyntaxKind::LAngle => Some("<"@),
        SyntaxKind::LParen => Some("("@),
        SyntaxKind::RParen => Some(")"@),
        SyntaxKind::RAngle => Some(">"@),
        SyntaxKind::Colon2 => Some("::"@),
        SyntaxKind::Eq => Some("="@),
        SyntaxKind::IntNumber => Some("1"@),
        SyntaxKind::Neq => Some("!="@),
        SyntaxKind::Comma => Some(","@),
        SyntaxKind::Eq2 => Some("=="@),
        SyntaxKind::LtEq => Some("<="@),
        SyntaxKind::GtEq => Some(">="@),
        SyntaxKind::Bang => Some("!"@),
        SyntaxKind::TrueKw => Some("true"@),
        SyntaxKind::Star => Some("*"@),
        SyntaxKind::Semicolon => Some(";"@),
        _ => None,
    }
}

/// A token of the given kind.
pub fn token(kind: SyntaxKind) -> (r: SyntaxToken)
    requires
        token_text(kind) is Some,
    ensures
        r@ == (kind, token_text(kind)->0),
{
    let text = match kind {
        SyntaxKind::ConstKw => "const",
        SyntaxKind::Whitespace => " ",
        SyntaxKind::Ident => "C",
        SyntaxKind::Colon => ":",
        SyntaxKind::LAngle => "<",
        SyntaxKind::LParen => "(",
        SyntaxKind::RParen => ")",
        SyntaxKind::RAngle => ">",
        SyntaxKind::Colon2 => "::",
        SyntaxKind::Eq => "=",
        SyntaxKind::IntNumber => "1",
        SyntaxKind::Neq => "!=",
        SyntaxKind::Comma => ",",
        SyntaxKind::Eq2 => "==",
        SyntaxKind::LtEq => "<=",
        SyntaxKind::GtEq => ">=",
        SyntaxKind::Bang => "!",
        SyntaxKind::TrueKw => "true",
        SyntaxKind::Star => "*",
        _ => ";",
    };
    SyntaxToken { kind, text: String::from_str(text) }
}

pub fn single_space() -> (r: SyntaxToken)
    ensures
        r@ == (SyntaxKind::Whitespace, " "@),
{
    SyntaxToken { kind: SyntaxKind::Whitespace, text: String::from_str(" ") }
}

/// A white-space token of the given text.
pub fn whitespace(text: &str) -> (r: SyntaxToken)
    requires
        is_blank(text@),
    ensures
        r@ == (SyntaxKind::Whitespace, text@),
{
    SyntaxToken { kind: SyntaxKind::Whitespace, text: String::from_str(text) }
}

pub fn single_newline() -> (r: SyntaxToken)
    ensures
        r@ == (SyntaxKind::Whitespace, "\n"@),
{
    SyntaxToken { kind: SyntaxKind::Whitespace, text: String::from_str("\n") }
}

pub fn blank_line() -> (r: SyntaxToken)
    ensures
        r@ == (SyntaxKind::Whitespace, "\n\n"@),
{
    SyntaxToken { kind: SyntaxKind::Whitespace, text: String::from_str("\n\n") }
}

/// The index of the first newline of `s` at or after `i`, or its length.
pub open spec fn line_end(s: Seq<char>, i: int) -> int
    decreases s.len() - i,
{
    if i < 0 || i >= s.len() {
        s.len() as int
    } else if s[i] == '\n' {
        i
    } else {
        line_end(s, i + 1)
    }
}

/// A comment token: the text up to its first newline. `text` starts with
/// `//`, as a doc comment does.
pub fn doc_comment(text: &str) -> (r: SyntaxToken)
    requires
        text@.len() >= 2,
        text@[0] == '/',
        text@[1] == '/',
    ensures
        r@ == (SyntaxKind::Comment, text@.subrange(0, line_end(text@, 0))),
{
    let n = text.unicode_len();
    let mut k: usize = 0;
    while k < n && text.get_char(k) != '\n'
        invariant
            n == text@.len(),
            k <= n,
            line_end(text@, 0) == line_end(text@, k as int),
        decreases n - k,
    {
        k = k + 1;
    }
    SyntaxToken { kind: SyntaxKind::Comment, text: String::from_str(text.substring_char(0, k)) }
}

/// The kind of the literal token that `s` spells.
pub open spec fn literal_kind(s: Seq<char>) -> SyntaxKind {
    if s == "true"@ {
        SyntaxKind::TrueKw
    } else if s == "false"@ {
        SyntaxKind::FalseKw
    } else if s.len() > 0 && '0' <= s[0] && s[0] <= '9' {
        if s.contains('.') {
            SyntaxKind::FloatNumber
        } else {
            SyntaxKind::IntNumber
        }
    } else if s.len() > 1 && s[0] == 'b' && s[1] == '\'' {
        SyntaxKind::Byte
    } else if s.len() > 1 && s[0] == 'b' && (s[1] == '"' || s[1] == 'r') {
        SyntaxKind::ByteString
    } else if s.len() > 0 && s[0] == '\'' {
        SyntaxKind::Char
    } else {
        SyntaxKind::String
    }
}

/// A literal token of the given text; `text` must be the literal alone.
pub fn literal(text: &str) -> (r: SyntaxToken)
    requires
        is_trimmed(text@),
    ensures
        r@ == (literal_kind(text@), text@),
{
    let n = text.unicode_len();
    let first = text.get_char(0);
    let kind = if str_eq(text, "true") {
        SyntaxKind::TrueKw
    } else if str_eq(text, "false") {
        SyntaxKind::FalseKw
    } else if '0' <= first && first <= '9' {
        let mut k: usize = 0;
        let mut dot = false;
        while k < n
            invariant
                n == text@.len(),
                k <= n,
                dot == (exists|j: int| 0 <= j < k && text@[j] == '.'),
            decreases n - k,
        {
            if text.get_char(k) == '.' {
                dot = true;
            }
            k = k + 1;
        }
        if dot {
            SyntaxKind::FloatNumber
        } else {
            SyntaxKind::IntNumber
        }
    } else if n > 1 && first == 'b' && text.get_char(1) == '\'' {
        SyntaxKind::Byte
    } else if n > 1 && first == 'b' && (text.get_char(1) == '"' || text.get_char(1) == 'r') {
        SyntaxKind::ByteString
    } else if first == '\'' {
        SyntaxKind::Char
    } else {
        SyntaxKind::String
    };
    SyntaxToken { kind, text: String::from_str(text) }
}

/// Builds white-space tokens of one text.
#[derive(Debug)]
pub struct WsBuilder {
    text: String,
}

impl View for WsBuilder {
    type V = Seq<char>;

    closed spec fn view(&self) -> Seq<char> {
        self.text@
    }
}

impl WsBuilder {
    pub fn new(text: &str) -> (r: WsBuilder)
        requires
            is_blank(text@),
        ensures
            r@ == text@,
    {
        WsBuilder { text: String::from_str(text) }
    }

    pub fn ws(&self) -> (r: SyntaxToken)
        ensures
            r@ == (SyntaxKind::Whitespace, self@),
    {
        SyntaxToken { kind: SyntaxKind::Whitespace, text: self.text.clone() }
    }
}

} // verus!

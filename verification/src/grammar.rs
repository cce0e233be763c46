//! The grammar of `.nono` source, as a specification.
//!
//! The `g_*` functions below define, by recursive descent over the characters
//! of a source, what `parser::parse` returns: the syntax tree (through the
//! views `v_*` of `ast.rs`'s types) or the first error, as what was expected
//! and the character offset where. Whitespace and `//` line comments separate
//! tokens; binary operators have no precedence and fold left to right.
//!
//! Each function takes the position where it starts and gives back the
//! position after what it read. A few branches guard that a sub-parse moved
//! forward; the parser always does, so they never fire.

use vstd::prelude::*;
use crate::ast::{File, Item, Stylesheet, StyleRule, ConstDecl, Component, Function, Param, Node, Element, Arg, ArgValue,
    Slot, ForNode, IfNode, MatchNode, MatchArm, Pattern, Expr, BinOp, StrTemplate, StrPart};
use crate::text::occurs_at;

verus! {

// ---- views of the syntax tree ----

pub enum VExpr {
    Number(int),
    Bool(bool),
    Nil,
    Str(Seq<VPart>),
    Path(Seq<Seq<char>>),
    Call(Seq<Seq<char>>, Seq<VArg>),
    Field(Box<VExpr>, Seq<char>),
    Index(Box<VExpr>, Box<VExpr>),
    Binary(Box<VExpr>, BinOp, Box<VExpr>),
    List(Seq<VExpr>),
    Dict(Seq<(Seq<char>, VExpr)>),
}

pub enum VPart {
    Lit(Seq<char>),
    Interp(VExpr),
}

pub enum VArg {
    Named(Seq<char>, VArgValue),
    Positional(VExpr),
}

pub enum VArgValue {
    Expr(VExpr),
    Block(Seq<VNode>),
}

pub enum VNode {
    Text(Seq<VPart>),
    Element(Seq<char>, Seq<VArg>, Seq<VNode>),
    Slot(Option<Seq<char>>, Option<VExpr>),
    NamedFill(Seq<char>, Seq<VNode>),
    LocalConst(Seq<char>, VExpr),
    RawHtml(Seq<char>),
    For(Seq<char>, VExpr, Seq<VNode>),
    If(VExpr, Seq<VNode>, Option<Seq<VNode>>),
    Match(VExpr, Seq<VArm>),
}

/// A match arm: its tag, its binding, its body.
pub struct VArm {
    pub tag: Seq<char>,
    pub binding: Option<Seq<char>>,
    pub body: Seq<VNode>,
}

/// A parameter: its name, its type, whether it may be omitted.
pub struct VParam {
    pub name: Seq<char>,
    pub ty: Seq<char>,
    pub optional: bool,
}

/// A stylesheet rule: its selector and its `(property, value)` declarations.
pub struct VRule {
    pub selector: Seq<char>,
    pub decls: Seq<(Seq<char>, Seq<char>)>,
}

pub enum VItem {
    Stylesheet(Seq<VRule>),
    Component(Seq<char>, Seq<VParam>, Seq<VNode>),
    Function(Seq<char>, Seq<VParam>, VExpr),
    Const(Seq<char>, VExpr),
}

pub open spec fn opt_chars(o: Option<String>) -> Option<Seq<char>> {
    match o {
        Some(s) => Some(s@),
        None => None,
    }
}

pub open spec fn v_names(s: Seq<String>) -> Seq<Seq<char>> {
    s.map_values(|x: String| x@)
}

pub open spec fn v_expr(e: Expr) -> VExpr
    decreases e,
{
    match e {
        Expr::Number(n) => VExpr::Number(n as int),
        Expr::Bool(b) => VExpr::Bool(b),
        Expr::Nil => VExpr::Nil,
        Expr::Str(t) => VExpr::Str(v_parts(t.parts@)),
        Expr::Path(p) => VExpr::Path(v_names(p@)),
        Expr::Call(p, args) => VExpr::Call(v_names(p@), v_args(args@)),
        Expr::Field(b, f) => VExpr::Field(Box::new(v_expr(*b)), f@),
        Expr::Index(b, k) => VExpr::Index(Box::new(v_expr(*b)), Box::new(v_expr(*k))),
        Expr::Binary(l, op, r) => VExpr::Binary(Box::new(v_expr(*l)), op, Box::new(v_expr(*r))),
        Expr::List(xs) => VExpr::List(v_exprs(xs@)),
        Expr::Dict(es) => VExpr::Dict(v_entries(es@)),
    }
}

pub open spec fn v_exprs(s: Seq<Expr>) -> Seq<VExpr>
    decreases s,
{
    if s.len() == 0 {
        Seq::empty()
    } else {
        v_exprs(s.drop_last()).push(v_expr(s.last()))
    }
}

pub open spec fn v_entries(s: Seq<(String, Expr)>) -> Seq<(Seq<char>, VExpr)>
    decreases s,
{
    if s.len() == 0 {
        Seq::empty()
    } else {
        v_entries(s.drop_last()).push((s.last().0@, v_expr(s.last().1)))
    }
}

pub open spec fn v_part(p: StrPart) -> VPart
    decreases p,
{
    match p {
        StrPart::Lit(s) => VPart::Lit(s@),
        StrPart::Interp(e) => VPart::Interp(v_expr(e)),
    }
}

pub open spec fn v_parts(s: Seq<StrPart>) -> Seq<VPart>
    decreases s,
{
    if s.len() == 0 {
        Seq::empty()
    } else {
        v_parts(s.drop_last()).push(v_part(s.last()))
    }
}

pub open spec fn v_arg(a: Arg) -> VArg
    decreases a,
{
    match a {
        Arg::Named(n, ArgValue::Expr(e)) => VArg::Named(n@, VArgValue::Expr(v_expr(e))),
        Arg::Named(n, ArgValue::Block(b)) => VArg::Named(n@, VArgValue::Block(v_nodes(b@))),
        Arg::Positional(e) => VArg::Positional(v_expr(e)),
    }
}

pub open spec fn v_args(s: Seq<Arg>) -> Seq<VArg>
    decreases s,
{
    if s.len() == 0 {
        Seq::empty()
    } else {
        v_args(s.drop_last()).push(v_arg(s.last()))
    }
}

pub open spec fn v_opt_expr(o: Option<Expr>) -> Option<VExpr>
    decreases o,
{
    match o {
        Some(e) => Some(v_expr(e)),
        None => None,
    }
}

pub open spec fn v_opt_nodes(o: Option<Vec<Node>>) -> Option<Seq<VNode>>
    decreases o,
{
    match o {
        Some(ns) => Some(v_nodes(ns@)),
        None => None,
    }
}

pub open spec fn v_node(n: Node) -> VNode
    decreases n,
{
    match n {
        Node::Text(t) => VNode::Text(v_parts(t.parts@)),
        Node::Element(el) => VNode::Element(el.name@, v_args(el.args@), v_nodes(el.children@)),
        Node::Slot(s) => VNode::Slot(opt_chars(s.name), v_opt_expr(s.or)),
        Node::NamedFill(n, b) => VNode::NamedFill(n@, v_nodes(b@)),
        Node::LocalConst(n, e) => VNode::LocalConst(n@, v_expr(e)),
        Node::RawHtml(h) => VNode::RawHtml(h@),
        Node::For(f) => VNode::For(f.binding@, v_expr(f.iter), v_nodes(f.body@)),
        Node::If(i) => VNode::If(v_expr(i.cond), v_nodes(i.then_body@), v_opt_nodes(i.otherwise)),
        Node::Match(m) => VNode::Match(v_expr(m.scrutinee), v_arms(m.arms@)),
    }
}

pub open spec fn v_nodes(s: Seq<Node>) -> Seq<VNode>
    decreases s,
{
    if s.len() == 0 {
        Seq::empty()
    } else {
        v_nodes(s.drop_last()).push(v_node(s.last()))
    }
}

pub open spec fn v_arm(a: MatchArm) -> VArm
    decreases a,
{
    VArm { tag: a.pattern.tag@, binding: opt_chars(a.pattern.binding), body: v_nodes(a.body@) }
}

pub open spec fn v_arms(s: Seq<MatchArm>) -> Seq<VArm>
    decreases s,
{
    if s.len() == 0 {
        Seq::empty()
    } else {
        v_arms(s.drop_last()).push(v_arm(s.last()))
    }
}

pub open spec fn v_param(p: Param) -> VParam {
    VParam { name: p.name@, ty: p.ty@, optional: p.optional }
}

pub open spec fn v_params(s: Seq<Param>) -> Seq<VParam> {
    s.map_values(|p: Param| v_param(p))
}

pub open spec fn v_rule(r: StyleRule) -> VRule {
    VRule { selector: r.selector@, decls: r.decls@.map_values(|d: (String, String)| (d.0@, d.1@)) }
}

pub open spec fn v_item(i: Item) -> VItem {
    match i {
        Item::Stylesheet(s) => VItem::Stylesheet(s.rules@.map_values(|r: StyleRule| v_rule(r))),
        Item::Component(c) => VItem::Component(c.name@, v_params(c.params@), v_nodes(c.body@)),
        Item::Function(f) => VItem::Function(f.name@, v_params(f.params@), v_expr(f.body)),
        Item::Const(c) => VItem::Const(c.name@, v_expr(c.value)),
    }
}

pub open spec fn v_items(s: Seq<Item>) -> Seq<VItem> {
    s.map_values(|i: Item| v_item(i))
}

// ---- results ----

/// A parse result: what was read and where reading stopped, or what was
/// expected and at which offset.
pub type GRes<T> = Result<(T, int), (Seq<char>, int)>;

/// The result of a sub-parse that failed to move forward.
pub open spec fn stuck<T>(p: int) -> GRes<T> {
    Err(("progress"@, p))
}

// ---- characters and tokens ----

pub open spec fn ident_start(c: char) -> bool {
    ('a' <= c && c <= 'z') || ('A' <= c && c <= 'Z') || c == '_'
}

pub open spec fn ident_char(c: char) -> bool {
    ident_start(c) || ('0' <= c && c <= '9')
}


pub open spec fn digit(c: char) -> bool {
    '0' <= c && c <= '9'
}

pub open spec fn ws_char(c: char) -> bool {
    c == ' ' || c == '\t' || c == '\n' || c == '\r'
}

/// Whether `c` stands at `p`.
pub open spec fn at(cs: Seq<char>, p: int, c: char) -> bool {
    0 <= p < cs.len() && cs[p] == c
}

/// The end of the line that `p` is on (the position of its `\n`, or the end).
pub open spec fn line_end(cs: Seq<char>, p: int) -> int
    decreases cs.len() - p,
{
    if p < 0 || p >= cs.len() || cs[p] == '\n' {
        p
    } else {
        line_end(cs, p + 1)
    }
}

pub proof fn lemma_line_end(cs: Seq<char>, p: int)
    requires
        0 <= p,
    ensures
        p <= line_end(cs, p),
        p <= cs.len() ==> line_end(cs, p) <= cs.len(),
    decreases cs.len() - p,
{
    if p < cs.len() && cs[p] != '\n' {
        lemma_line_end(cs, p + 1);
    }
}

/// The position after the whitespace and `//` comments at `p`.
pub open spec fn g_ws(cs: Seq<char>, p: int) -> int
    decreases cs.len() - p,
{
    if p < 0 || p >= cs.len() {
        p
    } else if ws_char(cs[p]) {
        g_ws(cs, p + 1)
    } else if cs[p] == '/' && at(cs, p + 1, '/') {
        proof {
            lemma_line_end(cs, p + 2);
        }
        g_ws(cs, line_end(cs, p + 2))
    } else {
        p
    }
}

pub proof fn lemma_ws(cs: Seq<char>, p: int)
    requires
        0 <= p,
    ensures
        p <= g_ws(cs, p),
        p <= cs.len() ==> g_ws(cs, p) <= cs.len(),
    decreases cs.len() - p,
{
    if p < cs.len() {
        if ws_char(cs[p]) {
            lemma_ws(cs, p + 1);
        } else if cs[p] == '/' && at(cs, p + 1, '/') {
            lemma_line_end(cs, p + 2);
            lemma_ws(cs, line_end(cs, p + 2));
        }
    }
}

/// The position after `lit` (non-empty), when it stands at `p`.
pub open spec fn g_lit(cs: Seq<char>, p: int, lit: Seq<char>) -> Option<int> {
    if lit.len() > 0 && occurs_at(cs, lit, p) {
        Some(p + lit.len())
    } else {
        None
    }
}

/// The position after the keyword `kw`, when it stands at `p` and is not the
/// start of a longer name.
pub open spec fn g_keyword(cs: Seq<char>, p: int, kw: Seq<char>) -> Option<int> {
    match g_lit(cs, p, kw) {
        Some(e) => if e >= cs.len() || !ident_char(cs[e]) {
            Some(e)
        } else {
            None
        },
        None => None,
    }
}

/// The position after `lit`, or the error that it was expected.
pub open spec fn g_expect(cs: Seq<char>, p: int, lit: Seq<char>) -> Result<int, (Seq<char>, int)> {
    match g_lit(cs, p, lit) {
        Some(e) => Ok(e),
        None => Err((lit, p)),
    }
}

/// The classes of characters that runs are made of.
#[derive(Clone, Copy)]
pub enum Class {
    /// Letters, digits and `_`: the rest of an identifier.
    Ident,
    /// Letters, digits, `_` and `-`: the rest of an attribute name.
    Attr,
    Digit,
    Space,
    /// Anything but whitespace and braces: a stylesheet selector.
    Selector,
    /// Anything but a line feed and `}`: a stylesheet value.
    Value,
}

pub open spec fn in_class(k: Class, c: char) -> bool {
    match k {
        Class::Ident => ident_char(c),
        Class::Attr => ident_char(c) || c == '-',
        Class::Digit => digit(c),
        Class::Space => ws_char(c),
        Class::Selector => !ws_char(c) && c != '{' && c != '}',
        Class::Value => c != '\n' && c != '}',
    }
}

/// The end of the run of characters of class `k` that starts at `p`.
pub open spec fn run_end(cs: Seq<char>, p: int, k: Class) -> int
    decreases cs.len() - p,
{
    if p < 0 || p >= cs.len() || !in_class(k, cs[p]) {
        p
    } else {
        run_end(cs, p + 1, k)
    }
}

pub proof fn lemma_run_end(cs: Seq<char>, p: int, k: Class)
    requires
        0 <= p <= cs.len(),
    ensures
        p <= run_end(cs, p, k) <= cs.len(),
        forall|j: int| p <= j < run_end(cs, p, k) ==> in_class(k, #[trigger] cs[j]),
        run_end(cs, p, k) < cs.len() ==> !in_class(k, cs[run_end(cs, p, k)]),
    decreases cs.len() - p,
{
    if p < cs.len() && in_class(k, cs[p]) {
        lemma_run_end(cs, p + 1, k);
    }
}

/// An identifier: a letter or `_`, then letters, digits and `_`.
pub open spec fn g_ident(cs: Seq<char>, p: int) -> GRes<Seq<char>> {
    if p < 0 || p >= cs.len() || !ident_start(cs[p]) {
        Err(("a name"@, p))
    } else {
        let e = run_end(cs, p + 1, Class::Ident);
        Ok((cs.subrange(p, e), e))
    }
}

/// An attribute name: an identifier that may also hold `-` (`data-level`).
pub open spec fn g_attr_name(cs: Seq<char>, p: int) -> GRes<Seq<char>> {
    if p < 0 || p >= cs.len() || !ident_start(cs[p]) {
        Err(("a name"@, p))
    } else {
        let e = run_end(cs, p + 1, Class::Attr);
        Ok((cs.subrange(p, e), e))
    }
}

pub open spec fn reserved(s: Seq<char>) -> bool {
    s == "component"@ || s == "const"@ || s == "fn"@ || s == "for"@ || s == "in"@ || s == "if"@ || s == "else"@
        || s == "match"@ || s == "stylesheet"@ || s == "true"@ || s == "false"@ || s == "nil"@
}

/// A name that is not a keyword.
pub open spec fn g_name(cs: Seq<char>, p: int) -> GRes<Seq<char>> {
    match g_ident(cs, p) {
        Err(e) => Err(e),
        Ok((s, e)) => if reserved(s) {
            Err(("a name that is not a keyword"@, p))
        } else {
            Ok((s, e))
        },
    }
}

/// The value of a run of decimal digits.
pub open spec fn digits_value(s: Seq<char>) -> int
    decreases s.len(),
{
    if s.len() == 0 {
        0
    } else {
        digits_value(s.drop_last()) * 10 + (s.last() as int - '0' as int)
    }
}

/// A whole number that fits in 64 bits; a fractional number is refused.
pub open spec fn g_number(cs: Seq<char>, p: int) -> GRes<int> {
    if p < 0 || p >= cs.len() || !digit(cs[p]) {
        Err(("a number"@, p))
    } else {
        let e = run_end(cs, p, Class::Digit);
        let v = digits_value(cs.subrange(p, e));
        if v > i64::MAX {
            Err(("a number that fits in 64 bits"@, p))
        } else if at(cs, e, '.') && e + 1 < cs.len() && digit(cs[e + 1]) {
            Err(("a whole number (fractional numbers are not supported)"@, p))
        } else {
            Ok((v, e))
        }
    }
}

/// The binary operator that starts at `p`, one of the ten, longest first. With
/// none there, the expression simply ends at `p`: operators are recognised
/// where they stand, so no text ever reaches an "unknown operator" case.
pub open spec fn g_binop(cs: Seq<char>, p: int) -> Option<(BinOp, int)> {
    if g_lit(cs, p, "=="@) is Some {
        Some((BinOp::Eq, p + 2))
    } else if g_lit(cs, p, "!="@) is Some {
        Some((BinOp::Ne, p + 2))
    } else if g_lit(cs, p, "<="@) is Some {
        Some((BinOp::Le, p + 2))
    } else if g_lit(cs, p, ">="@) is Some {
        Some((BinOp::Ge, p + 2))
    } else if at(cs, p, '<') {
        Some((BinOp::Lt, p + 1))
    } else if at(cs, p, '>') {
        Some((BinOp::Gt, p + 1))
    } else if at(cs, p, '+') {
        Some((BinOp::Add, p + 1))
    } else if at(cs, p, '-') {
        Some((BinOp::Sub, p + 1))
    } else if at(cs, p, '*') {
        Some((BinOp::Mul, p + 1))
    } else if at(cs, p, '/') && !at(cs, p + 1, '/') {
        Some((BinOp::Div, p + 1))
    } else {
        None
    }
}

/// `a.b.c`: the dotted segments after a first name, up to where they stop.
pub open spec fn g_path(cs: Seq<char>, q: int, acc: Seq<Seq<char>>) -> (Seq<Seq<char>>, int)
    decreases cs.len() - q,
{
    if at(cs, q, '.') && q + 1 < cs.len() && ident_start(cs[q + 1]) {
        match g_ident(cs, q + 1) {
            Ok((seg, e)) => if q < e <= cs.len() {
                g_path(cs, e, acc.push(seg))
            } else {
                (acc, q)
            },
            Err(_) => (acc, q),
        }
    } else {
        (acc, q)
    }
}

/// Whether `name =` (and not `==` or `=>`) follows at `p`: a named argument.
pub open spec fn g_named_ahead(cs: Seq<char>, p: int) -> Option<(Seq<char>, int)> {
    match g_attr_name(cs, p) {
        Err(_) => None,
        Ok((n, e)) => {
            let q = g_ws(cs, e);
            if at(cs, q, '=') && !at(cs, q + 1, '=') && !at(cs, q + 1, '>') {
                Some((n, q + 1))
            } else {
                None
            }
        },
    }
}

/// The escaped character a `\` sequence stands for.
pub open spec fn escaped(e: char) -> Option<char> {
    if e == '"' {
        Some('"')
    } else if e == '\\' {
        Some('\\')
    } else if e == 'n' {
        Some('\n')
    } else if e == 't' {
        Some('\t')
    } else if e == '{' {
        Some('{')
    } else if e == '}' {
        Some('}')
    } else {
        None
    }
}

/// The literal text of a string with no interpolation.
pub open spec fn plain_text(parts: Seq<VPart>) -> Option<Seq<char>>
    decreases parts.len(),
{
    if parts.len() == 0 {
        Some(Seq::empty())
    } else {
        match (plain_text(parts.drop_last()), parts.last()) {
            (Some(t), VPart::Lit(l)) => Some(t + l),
            _ => None,
        }
    }
}

/// The parts of a string, with a pending literal run `buf` flushed.
pub open spec fn flush(parts: Seq<VPart>, buf: Seq<char>) -> Seq<VPart> {
    if buf.len() > 0 {
        parts.push(VPart::Lit(buf))
    } else {
        parts
    }
}

// ---- expressions, strings, arguments and nodes ----

/// `expr = primary (binop primary)*`, folded left to right.
pub open spec fn g_expr(cs: Seq<char>, p: int) -> GRes<VExpr>
    decreases cs.len() - p, 10int,
{
    match g_primary(cs, p) {
        Err(e) => Err(e),
        Ok((lhs, e)) => if e <= p || e > cs.len() {
            stuck(p)
        } else {
            g_binops(cs, lhs, e)
        },
    }
}

pub open spec fn g_binops(cs: Seq<char>, lhs: VExpr, p: int) -> GRes<VExpr>
    decreases cs.len() - p, 10int,
{
    if p < 0 {
        stuck(p)
    } else {
        let q = g_ws(cs, p);
        match g_binop(cs, q) {
            None => Ok((lhs, p)),
            Some((op, q2)) => {
                let q3 = g_ws(cs, q2);
                proof {
                    lemma_ws(cs, p);
                    lemma_ws(cs, q2);
                }
                if q3 > cs.len() {
                    stuck(p)
                } else {
                match g_primary(cs, q3) {
                    Err(e) => Err(e),
                    Ok((rhs, p2)) => if p2 <= p || p2 > cs.len() {
                        stuck(p)
                    } else {
                        g_binops(cs, VExpr::Binary(Box::new(lhs), op, Box::new(rhs)), p2)
                    },
                }
                }
            },
        }
    }
}

/// A number, `true`, `false`, `nil`, a string, a list, a dictionary, or a
/// call, path or parenthesised expression; then any accessors.
pub open spec fn g_primary(cs: Seq<char>, p: int) -> GRes<VExpr>
    decreases cs.len() - p, 9int,
{
    if p < 0 || p >= cs.len() {
        Err(("an expression"@, p))
    } else if digit(cs[p]) {
        match g_number(cs, p) {
            Err(e) => Err(e),
            Ok((n, e)) => Ok((VExpr::Number(n), e)),
        }
    } else if g_keyword(cs, p, "true"@) is Some {
        Ok((VExpr::Bool(true), g_keyword(cs, p, "true"@)->0))
    } else if g_keyword(cs, p, "false"@) is Some {
        Ok((VExpr::Bool(false), g_keyword(cs, p, "false"@)->0))
    } else if g_keyword(cs, p, "nil"@) is Some {
        Ok((VExpr::Nil, g_keyword(cs, p, "nil"@)->0))
    } else if cs[p] == '"' {
        match g_string(cs, p) {
            Err(e) => Err(e),
            Ok((t, e)) => if e <= p || e > cs.len() {
                stuck(p)
            } else {
                g_accessors(cs, VExpr::Str(t), e)
            },
        }
    } else if cs[p] == '[' {
        match g_list(cs, p) {
            Err(e) => Err(e),
            Ok((l, e)) => if e <= p || e > cs.len() {
                stuck(p)
            } else {
                g_accessors(cs, l, e)
            },
        }
    } else if cs[p] == '{' {
        match g_dict(cs, p) {
            Err(e) => Err(e),
            Ok((d, e)) => if e <= p || e > cs.len() {
                stuck(p)
            } else {
                g_accessors(cs, d, e)
            },
        }
    } else {
        g_postfix(cs, p)
    }
}

/// `[a, b, c]`
pub open spec fn g_list(cs: Seq<char>, p: int) -> GRes<VExpr>
    decreases cs.len() - p, 1int,
{
    if at(cs, p, '[') {
        g_list_items(cs, p + 1, Seq::empty())
    } else {
        Err(("["@, p))
    }
}

pub open spec fn g_list_items(cs: Seq<char>, p: int, acc: Seq<VExpr>) -> GRes<VExpr>
    decreases cs.len() - p, 11int,
{
    if p < 0 {
        stuck(p)
    } else {
        let q = g_ws(cs, p);
        proof {
            lemma_ws(cs, p);
        }
        if at(cs, q, ']') {
            Ok((VExpr::List(acc), q + 1))
        } else {
            match g_expr(cs, q) {
                Err(e) => Err(e),
                Ok((x, e)) => if e <= q {
                    stuck(q)
                } else {
                    let r = g_ws(cs, e);
                    proof {
                        lemma_ws(cs, e);
                    }
                    if at(cs, r, ',') {
                        g_list_items(cs, r + 1, acc.push(x))
                    } else if at(cs, r, ']') {
                        Ok((VExpr::List(acc.push(x)), r + 1))
                    } else {
                        Err(("`,` or `]`"@, r))
                    }
                },
            }
        }
    }
}

/// `{ name = expr, ... }`
pub open spec fn g_dict(cs: Seq<char>, p: int) -> GRes<VExpr>
    decreases cs.len() - p, 1int,
{
    if at(cs, p, '{') {
        g_dict_entries(cs, p + 1, Seq::empty())
    } else {
        Err(("{"@, p))
    }
}

pub open spec fn g_dict_entries(cs: Seq<char>, p: int, acc: Seq<(Seq<char>, VExpr)>) -> GRes<VExpr>
    decreases cs.len() - p, 1int,
{
    if p < 0 {
        stuck(p)
    } else {
        let q = g_ws(cs, p);
        proof {
            lemma_ws(cs, p);
        }
        if at(cs, q, '}') {
            Ok((VExpr::Dict(acc), q + 1))
        } else {
            match g_ident(cs, q) {
                Err(e) => Err(e),
                Ok((k, e)) => {
                    let q1 = g_ws(cs, e);
                    if !at(cs, q1, '=') {
                        Err(("="@, q1))
                    } else if at(cs, q1 + 1, '=') {
                        Err(("`=`"@, q1))
                    } else {
                        let q2 = g_ws(cs, q1 + 1);
                        proof {
                            lemma_run_end(cs, q + 1, Class::Ident);
                            lemma_ws(cs, e);
                            lemma_ws(cs, q1 + 1);
                        }
                        match g_expr(cs, q2) {
                            Err(er) => Err(er),
                            Ok((x, e2)) => if e2 <= q2 || e2 > cs.len() {
                                stuck(q2)
                            } else {
                                let r = g_ws(cs, e2);
                                proof {
                                    lemma_ws(cs, e2);
                                }
                                g_dict_entries(cs, if at(cs, r, ',') { r + 1 } else { r }, acc.push((k, x)))
                            },
                        }
                    }
                },
            }
        }
    }
}

/// A call, a path or a parenthesised expression, then any accessors.
pub open spec fn g_postfix(cs: Seq<char>, p: int) -> GRes<VExpr>
    decreases cs.len() - p, 1int,
{
    if at(cs, p, '(') {
        let q = g_ws(cs, p + 1);
        proof {
            lemma_ws(cs, p + 1);
        }
        match g_expr(cs, q) {
            Err(e) => Err(e),
            Ok((x, e)) => {
                let e1 = g_ws(cs, e);
                if at(cs, e1, ')') && e1 > p {
                    g_accessors(cs, x, e1 + 1)
                } else if at(cs, e1, ')') {
                    stuck(p)
                } else {
                    Err((")"@, e1))
                }
            },
        }
    } else {
        match g_name(cs, p) {
            Err(e) => Err(e),
            Ok((first, e)) => {
                proof {
                    lemma_run_end(cs, p + 1, Class::Ident);
                }
                let (path, q) = g_path(cs, e, seq![first]);
                if at(cs, q, '(') && q > p {
                    match g_call_args(cs, q) {
                        Err(er) => Err(er),
                        Ok((args, e3)) => if e3 <= p || e3 > cs.len() {
                            stuck(p)
                        } else {
                            g_accessors(cs, VExpr::Call(path, args), e3)
                        },
                    }
                } else if p < q <= cs.len() {
                    g_accessors(cs, VExpr::Path(path), q)
                } else {
                    stuck(p)
                }
            },
        }
    }
}

/// Any chain of `.field` and `[key]` accessors, folded left to right.
pub open spec fn g_accessors(cs: Seq<char>, cur: VExpr, p: int) -> GRes<VExpr>
    decreases cs.len() - p, 1int,
{
    if p < 0 {
        stuck(p)
    } else if at(cs, p, '.') && p + 1 < cs.len() && ident_start(cs[p + 1]) {
        match g_ident(cs, p + 1) {
            Err(e) => Err(e),
            Ok((f, e)) => if e <= p || e > cs.len() {
                stuck(p)
            } else {
                g_accessors(cs, VExpr::Field(Box::new(cur), f), e)
            },
        }
    } else if at(cs, p, '[') {
        let q = g_ws(cs, p + 1);
        proof {
            lemma_ws(cs, p + 1);
        }
        match g_expr(cs, q) {
            Err(e) => Err(e),
            Ok((k, e)) => {
                let e1 = g_ws(cs, e);
                if !at(cs, e1, ']') {
                    Err(("]"@, e1))
                } else if e1 + 1 <= p {
                    stuck(p)
                } else {
                    g_accessors(cs, VExpr::Index(Box::new(cur), Box::new(k)), e1 + 1)
                }
            },
        }
    } else {
        Ok((cur, p))
    }
}

/// A string literal with `{expr}` interpolation and `\"`, `\\`, `\n`, `\t`,
/// `\{`, `\}` escapes.
pub open spec fn g_string(cs: Seq<char>, p: int) -> GRes<Seq<VPart>>
    decreases cs.len() - p, 1int,
{
    if at(cs, p, '"') {
        g_string_parts(cs, p + 1, Seq::empty(), Seq::empty())
    } else {
        Err(("\""@, p))
    }
}

pub open spec fn g_string_parts(cs: Seq<char>, p: int, parts: Seq<VPart>, buf: Seq<char>) -> GRes<Seq<VPart>>
    decreases cs.len() - p, 1int,
{
    if p < 0 {
        stuck(p)
    } else if p >= cs.len() {
        Err(("a closing `\"`"@, p))
    } else if cs[p] == '"' {
        Ok((flush(parts, buf), p + 1))
    } else if cs[p] == '\\' {
        if p + 1 >= cs.len() {
            Err(("an escape"@, p))
        } else {
            match escaped(cs[p + 1]) {
                Some(ch) => g_string_parts(cs, p + 2, parts, buf.push(ch)),
                None => Err(("a known escape"@, p)),
            }
        }
    } else if cs[p] == '{' {
        let q = g_ws(cs, p + 1);
        proof {
            lemma_ws(cs, p + 1);
        }
        match g_expr(cs, q) {
            Err(e) => Err(e),
            Ok((x, e)) => {
                let e1 = g_ws(cs, e);
                if !at(cs, e1, '}') {
                    Err(("}"@, e1))
                } else if e1 + 1 <= p {
                    stuck(p)
                } else {
                    g_string_parts(cs, e1 + 1, flush(parts, buf).push(VPart::Interp(x)), Seq::empty())
                }
            },
        }
    } else {
        g_string_parts(cs, p + 1, parts, buf.push(cs[p]))
    }
}

/// `(arg, ...)` where an argument is `name = value` or a bare expression.
pub open spec fn g_call_args(cs: Seq<char>, p: int) -> GRes<Seq<VArg>>
    decreases cs.len() - p, 1int,
{
    if at(cs, p, '(') {
        g_args_items(cs, p + 1, Seq::empty())
    } else {
        Err(("("@, p))
    }
}

pub open spec fn g_args_items(cs: Seq<char>, p: int, acc: Seq<VArg>) -> GRes<Seq<VArg>>
    decreases cs.len() - p, 13int,
{
    if p < 0 {
        stuck(p)
    } else {
        let q = g_ws(cs, p);
        proof {
            lemma_ws(cs, p);
        }
        if at(cs, q, ')') {
            Ok((acc, q + 1))
        } else {
            match g_arg(cs, q) {
                Err(e) => Err(e),
                Ok((a, e)) => if e <= q {
                    stuck(q)
                } else {
                    let r = g_ws(cs, e);
                    proof {
                        lemma_ws(cs, e);
                    }
                    if at(cs, r, ',') {
                        g_args_items(cs, r + 1, acc.push(a))
                    } else if at(cs, r, ')') {
                        Ok((acc.push(a), r + 1))
                    } else {
                        Err(("`,` or `)`"@, r))
                    }
                },
            }
        }
    }
}

/// A named argument (`name = value`, the value an expression or a block) or
/// a positional one. A `{` after `name =` is a block when it reads as one,
/// and otherwise a dictionary.
pub open spec fn g_arg(cs: Seq<char>, p: int) -> GRes<VArg>
    decreases cs.len() - p, 12int,
{
    match g_named_ahead(cs, p) {
        Some((n, q0)) => if q0 <= p {
            stuck(p)
        } else {
            let q = g_ws(cs, q0);
            proof {
                lemma_ws(cs, q0);
            }
            match (if at(cs, q, '{') { g_block(cs, q) } else { Err(("{"@, q)) }) {
                Ok((b, e)) => Ok((VArg::Named(n, VArgValue::Block(b)), e)),
                Err(_) => match g_expr(cs, q) {
                    Err(e) => Err(e),
                    Ok((x, e)) => Ok((VArg::Named(n, VArgValue::Expr(x)), e)),
                },
            }
        },
        None => match g_expr(cs, p) {
            Err(e) => Err(e),
            Ok((x, e)) => Ok((VArg::Positional(x), e)),
        },
    }
}

/// `{ node* }`
pub open spec fn g_block(cs: Seq<char>, p: int) -> GRes<Seq<VNode>>
    decreases cs.len() - p, 1int,
{
    if at(cs, p, '{') {
        g_block_nodes(cs, p + 1, Seq::empty())
    } else {
        Err(("{"@, p))
    }
}

pub open spec fn g_block_nodes(cs: Seq<char>, p: int, acc: Seq<VNode>) -> GRes<Seq<VNode>>
    decreases cs.len() - p, 15int,
{
    if p < 0 {
        stuck(p)
    } else {
        let q = g_ws(cs, p);
        proof {
            lemma_ws(cs, p);
        }
        if at(cs, q, '}') {
            Ok((acc, q + 1))
        } else {
            match g_node(cs, q) {
                Err(e) => Err(e),
                Ok((n, e)) => if e <= q || e > cs.len() {
                    stuck(q)
                } else {
                    g_block_nodes(cs, e, acc.push(n))
                },
            }
        }
    }
}

/// Whether `=` (and not `==` or `=>`) stands at `q`.
pub open spec fn single_eq(cs: Seq<char>, q: int) -> bool {
    at(cs, q, '=') && !at(cs, q + 1, '=') && !at(cs, q + 1, '>')
}

/// A node: a text string, a `for`, `if` or `match`, a block `const`, a
/// `Slot(...)`, a named slot fill `name = { ... }`, or an element or
/// component invocation `Name(args) { children }`.
pub open spec fn g_node(cs: Seq<char>, p: int) -> GRes<VNode>
    decreases cs.len() - p, 14int,
{
    if p < 0 || p >= cs.len() {
        Err(("a node"@, p))
    } else if cs[p] == '"' {
        match g_string(cs, p) {
            Err(e) => Err(e),
            Ok((t, e)) => Ok((VNode::Text(t), e)),
        }
    } else if g_keyword(cs, p, "for"@) is Some {
        let k0 = g_keyword(cs, p, "for"@)->0;
        let q = g_ws(cs, k0);
        proof {
            lemma_ws(cs, k0);
        }
        match g_name(cs, q) {
            Err(e) => Err(e),
            Ok((binding, e)) => {
                let q1 = g_ws(cs, e);
                match g_keyword(cs, q1, "in"@) {
                    None => Err(("`in`"@, q1)),
                    Some(k) => {
                        let q2 = g_ws(cs, k);
                        proof {
                            lemma_run_end(cs, q + 1, Class::Ident);
                            lemma_ws(cs, e);
                            lemma_ws(cs, k);
                        }
                        match g_expr(cs, q2) {
                            Err(er) => Err(er),
                            Ok((iter, e2)) => {
                                let q3 = g_ws(cs, e2);
                                if q3 <= p || q3 > cs.len() {
                                    stuck(p)
                                } else {
                                    match g_block(cs, q3) {
                                        Err(er) => Err(er),
                                        Ok((body, e3)) => Ok((VNode::For(binding, iter, body), e3)),
                                    }
                                }
                            },
                        }
                    },
                }
            },
        }
    } else if g_keyword(cs, p, "if"@) is Some {
        g_if(cs, g_keyword(cs, p, "if"@)->0)
    } else if g_keyword(cs, p, "match"@) is Some {
        g_match(cs, g_keyword(cs, p, "match"@)->0)
    } else if g_keyword(cs, p, "const"@) is Some {
        let k0 = g_keyword(cs, p, "const"@)->0;
        let q = g_ws(cs, k0);
        proof {
            lemma_ws(cs, k0);
        }
        match g_name(cs, q) {
            Err(e) => Err(e),
            Ok((name, e)) => {
                let q1 = g_ws(cs, e);
                proof {
                    lemma_run_end(cs, q + 1, Class::Ident);
                    lemma_ws(cs, e);
                }
                match g_expect(cs, q1, "="@) {
                    Err(er) => Err(er),
                    Ok(q2) => {
                        let q3 = g_ws(cs, q2);
                        proof {
                            lemma_ws(cs, q2);
                        }
                        match g_expr(cs, q3) {
                            Err(er) => Err(er),
                            Ok((value, e2)) => Ok((VNode::LocalConst(name, value), e2)),
                        }
                    },
                }
            },
        }
    } else if g_keyword(cs, p, "Slot"@) is Some {
        g_slot(cs, g_keyword(cs, p, "Slot"@)->0)
    } else {
        match g_name(cs, p) {
            Err(e) => Err(e),
            Ok((name, e)) => {
                let q = g_ws(cs, e);
                proof {
                    lemma_run_end(cs, p + 1, Class::Ident);
                    lemma_ws(cs, e);
                }
                if single_eq(cs, q) {
                    let q1 = g_ws(cs, q + 1);
                    proof {
                        lemma_ws(cs, q + 1);
                    }
                    match g_block(cs, q1) {
                        Err(er) => Err(er),
                        Ok((nodes, e2)) => Ok((VNode::NamedFill(name, nodes), e2)),
                    }
                } else {
                    match (if at(cs, e, '(') { g_call_args(cs, e) } else { Ok((Seq::empty(), e)) }) {
                        Err(er) => Err(er),
                        Ok((args, e2)) => {
                            let q2 = g_ws(cs, e2);
                            if q2 <= p {
                                stuck(p)
                            } else if at(cs, q2, '{') {
                                match g_block(cs, q2) {
                                    Err(er) => Err(er),
                                    Ok((children, e3)) => Ok((VNode::Element(name, args, children), e3)),
                                }
                            } else {
                                Ok((VNode::Element(name, args, Seq::empty()), e2))
                            }
                        },
                    }
                }
            },
        }
    }
}

/// `if cond { ... }`, optionally `else { ... }` or `else if ...`, read after
/// the `if` keyword (which ends at `after`).
pub open spec fn g_if(cs: Seq<char>, after: int) -> GRes<VNode>
    decreases cs.len() - after, 11int,
{
    if after < 0 {
        stuck(after)
    } else {
        let q = g_ws(cs, after);
        proof {
            lemma_ws(cs, after);
        }
        match g_expr(cs, q) {
            Err(e) => Err(e),
            Ok((cond, e)) => {
                let q1 = g_ws(cs, e);
                if q1 <= after || q1 > cs.len() {
                    stuck(after)
                } else {
                    match g_block(cs, q1) {
                        Err(er) => Err(er),
                        Ok((then_body, e2)) => {
                            let q2 = g_ws(cs, e2);
                            match g_keyword(cs, q2, "else"@) {
                                None => Ok((VNode::If(cond, then_body, None), e2)),
                                Some(k) => {
                                    let q3 = g_ws(cs, k);
                                    if q3 <= after || q3 > cs.len() {
                                        stuck(after)
                                    } else {
                                        match g_keyword(cs, q3, "if"@) {
                                            Some(k2) => match g_if(cs, k2) {
                                                Err(er) => Err(er),
                                                Ok((n, e3)) => Ok((VNode::If(cond, then_body, Some(seq![n])), e3)),
                                            },
                                            None => match g_block(cs, q3) {
                                                Err(er) => Err(er),
                                                Ok((o, e3)) => Ok((VNode::If(cond, then_body, Some(o)), e3)),
                                            },
                                        }
                                    }
                                },
                            }
                        },
                    }
                }
            },
        }
    }
}

/// `match scrutinee { Tag => node, Tag(x) => { ... }, _ => ... }`, read after
/// the `match` keyword (which ends at `after`).
pub open spec fn g_match(cs: Seq<char>, after: int) -> GRes<VNode>
    decreases cs.len() - after, 11int,
{
    if after < 0 {
        stuck(after)
    } else {
        let q = g_ws(cs, after);
        proof {
            lemma_ws(cs, after);
        }
        match g_expr(cs, q) {
            Err(e) => Err(e),
            Ok((scrutinee, e)) => {
                let q1 = g_ws(cs, e);
                if !at(cs, q1, '{') {
                    Err(("{"@, q1))
                } else if q1 + 1 <= after {
                    stuck(after)
                } else {
                    g_match_arms(cs, q1 + 1, scrutinee, Seq::empty())
                }
            },
        }
    }
}

pub open spec fn g_match_arms(cs: Seq<char>, p: int, scrutinee: VExpr, acc: Seq<VArm>) -> GRes<VNode>
    decreases cs.len() - p, 1int,
{
    if p < 0 {
        stuck(p)
    } else {
        let q = g_ws(cs, p);
        proof {
            lemma_ws(cs, p);
        }
        if at(cs, q, '}') {
            Ok((VNode::Match(scrutinee, acc), q + 1))
        } else {
            match g_ident(cs, q) {
                Err(e) => Err(e),
                Ok((tag, e)) => {
                    let q1 = g_ws(cs, e);
                    proof {
                        lemma_run_end(cs, q + 1, Class::Ident);
                        lemma_ws(cs, e);
                    }
                    let bound: Result<(Option<Seq<char>>, int), (Seq<char>, int)> = if at(cs, q1, '(') {
                        match g_name(cs, g_ws(cs, q1 + 1)) {
                            Err(er) => Err(er),
                            Ok((b, e2)) => {
                                let q3 = g_ws(cs, e2);
                                if at(cs, q3, ')') {
                                    Ok((Some(b), g_ws(cs, q3 + 1)))
                                } else {
                                    Err((")"@, q3))
                                }
                            },
                        }
                    } else {
                        Ok((None, q1))
                    };
                    match bound {
                        Err(er) => Err(er),
                        Ok((binding, q4)) => match g_expect(cs, q4, "=>"@) {
                            Err(er) => Err(er),
                            Ok(q5) => {
                                let q6 = g_ws(cs, q5);
                                if q6 <= p || q6 > cs.len() {
                                    stuck(p)
                                } else {
                                    let body: GRes<Seq<VNode>> = if at(cs, q6, '{') {
                                        g_block(cs, q6)
                                    } else {
                                        match g_node(cs, q6) {
                                            Err(er) => Err(er),
                                            Ok((n, e3)) => Ok((seq![n], e3)),
                                        }
                                    };
                                    match body {
                                        Err(er) => Err(er),
                                        Ok((b, e4)) => if e4 <= p || e4 > cs.len() {
                                            stuck(p)
                                        } else {
                                            g_match_arms(
                                                cs,
                                                e4,
                                                scrutinee,
                                                acc.push(VArm { tag, binding, body: b }),
                                            )
                                        },
                                    }
                                }
                            },
                        },
                    }
                },
            }
        }
    }
}

/// `Slot()` or `Slot(named = "x", or = expr)`, read after `Slot` (which ends
/// at `after`).
pub open spec fn g_slot(cs: Seq<char>, after: int) -> GRes<VNode>
    decreases cs.len() - after, 1int,
{
    if after < 0 {
        stuck(after)
    } else {
        let q = g_ws(cs, after);
        proof {
            lemma_ws(cs, after);
        }
        if !at(cs, q, '(') {
            Err(("("@, q))
        } else {
            g_slot_fields(cs, q + 1, None, None)
        }
    }
}

pub open spec fn g_slot_fields(cs: Seq<char>, p: int, name: Option<Seq<char>>, or: Option<VExpr>) -> GRes<VNode>
    decreases cs.len() - p, 1int,
{
    if p < 0 {
        stuck(p)
    } else {
        let q = g_ws(cs, p);
        proof {
            lemma_ws(cs, p);
        }
        if at(cs, q, ')') {
            Ok((VNode::Slot(name, or), q + 1))
        } else {
            match g_ident(cs, q) {
                Err(e) => Err(e),
                Ok((key, e)) => {
                    let q1 = g_ws(cs, e);
                    proof {
                        lemma_run_end(cs, q + 1, Class::Ident);
                        lemma_ws(cs, e);
                    }
                    match g_expect(cs, q1, "="@) {
                        Err(er) => Err(er),
                        Ok(q2) => {
                            let q3 = g_ws(cs, q2);
                            proof {
                                lemma_ws(cs, q2);
                            }
                            match g_expr(cs, q3) {
                                Err(er) => Err(er),
                                Ok((val, e2)) => {
                                    let fields: Result<(Option<Seq<char>>, Option<VExpr>), (Seq<char>, int)> =
                                        if key == "named"@ {
                                        match val {
                                            VExpr::Str(t) => match plain_text(t) {
                                                Some(s) => Ok((Some(s), or)),
                                                None => Err(("a plain string for `named`"@, q3)),
                                            },
                                            _ => Err(("a string for `named`"@, q3)),
                                        }
                                    } else if key == "or"@ {
                                        Ok((name, Some(val)))
                                    } else {
                                        Err(("`named` or `or`"@, q))
                                    };
                                    match fields {
                                        Err(er) => Err(er),
                                        Ok((name2, or2)) => {
                                            let r = g_ws(cs, e2);
                                            if r <= p {
                                                stuck(p)
                                            } else if at(cs, r, ',') {
                                                g_slot_fields(cs, r + 1, name2, or2)
                                            } else if at(cs, r, ')') {
                                                Ok((VNode::Slot(name2, or2), r + 1))
                                            } else {
                                                Err(("`,` or `)`"@, r))
                                            }
                                        },
                                    }
                                },
                            }
                        },
                    }
                },
            }
        }
    }
}

// ---- items ----

/// `(name: type, name?: type, ...)`
pub open spec fn g_params(cs: Seq<char>, p: int) -> GRes<Seq<VParam>> {
    if at(cs, p, '(') {
        g_params_items(cs, p + 1, Seq::empty())
    } else {
        Err(("("@, p))
    }
}

pub open spec fn g_params_items(cs: Seq<char>, p: int, acc: Seq<VParam>) -> GRes<Seq<VParam>>
    decreases cs.len() - p,
{
    if p < 0 {
        stuck(p)
    } else {
        let q = g_ws(cs, p);
        if at(cs, q, ')') {
            Ok((acc, q + 1))
        } else {
            match g_name(cs, q) {
                Err(e) => Err(e),
                Ok((name, e)) => {
                    let q1 = g_ws(cs, e);
                    let optional = at(cs, q1, '?');
                    let q2 = if optional { g_ws(cs, q1 + 1) } else { q1 };
                    match g_expect(cs, q2, ":"@) {
                        Err(er) => Err(er),
                        Ok(q3) => match g_ident(cs, g_ws(cs, q3)) {
                            Err(er) => Err(er),
                            Ok((ty, e2)) => {
                                let r = g_ws(cs, e2);
                                let acc2 = acc.push(VParam { name, ty, optional });
                                if r <= p || r > cs.len() {
                                    stuck(p)
                                } else if at(cs, r, ',') {
                                    g_params_items(cs, r + 1, acc2)
                                } else if at(cs, r, ')') {
                                    Ok((acc2, r + 1))
                                } else {
                                    Err(("`,` or `)`"@, r))
                                }
                            },
                        },
                    }
                },
            }
        }
    }
}



/// `s` without leading and trailing whitespace.
pub open spec fn trim_ws(s: Seq<char>) -> Seq<char> {
    let a = run_end(s, 0, Class::Space);
    s.subrange(a, a + trailing_start(s.skip(a)))
}

/// The length of `s` without its trailing whitespace.
pub open spec fn trailing_start(s: Seq<char>) -> int
    decreases s.len(),
{
    if s.len() > 0 && ws_char(s.last()) {
        trailing_start(s.drop_last())
    } else {
        s.len() as int
    }
}

/// `stylesheet { Selector { prop = value ... } ... }`, read after the keyword
/// (which ends at `after`).
pub open spec fn g_stylesheet(cs: Seq<char>, after: int) -> GRes<Seq<VRule>> {
    let q = g_ws(cs, after);
    if at(cs, q, '{') {
        g_rules(cs, q + 1, Seq::empty())
    } else {
        Err(("{"@, q))
    }
}

pub open spec fn g_rules(cs: Seq<char>, p: int, acc: Seq<VRule>) -> GRes<Seq<VRule>>
    decreases cs.len() - p,
{
    if p < 0 {
        stuck(p)
    } else {
        let q = g_ws(cs, p);
        if at(cs, q, '}') {
            Ok((acc, q + 1))
        } else {
            let e = run_end(cs, q, Class::Selector);
            if e == q {
                Err(("a selector"@, q))
            } else {
                let q1 = g_ws(cs, e);
                if !at(cs, q1, '{') {
                    Err(("{"@, q1))
                } else {
                    match g_decls(cs, q1 + 1, Seq::empty()) {
                        Err(er) => Err(er),
                        Ok((decls, d)) => if d <= p || d > cs.len() {
                            stuck(p)
                        } else {
                            g_rules(cs, d, acc.push(VRule { selector: cs.subrange(q, e), decls }))
                        },
                    }
                }
            }
        }
    }
}

pub open spec fn g_decls(cs: Seq<char>, d: int, acc: Seq<(Seq<char>, Seq<char>)>) -> GRes<Seq<(Seq<char>, Seq<char>)>>
    decreases cs.len() - d,
{
    if d < 0 {
        stuck(d)
    } else {
        let q = g_ws(cs, d);
        if at(cs, q, '}') {
            Ok((acc, q + 1))
        } else {
            match g_attr_name(cs, q) {
                Err(e) => Err(e),
                Ok((prop, e)) => {
                    let v = g_ws(cs, e);
                    if !at(cs, v, '=') {
                        Err(("="@, v))
                    } else {
                        let v1 = run_end(cs, v + 1, Class::Value);
                        if v1 <= d || v1 > cs.len() {
                            stuck(d)
                        } else {
                            g_decls(cs, v1, acc.push((prop, trim_ws(cs.subrange(v + 1, v1)))))
                        }
                    }
                },
            }
        }
    }
}

/// `name(params)`, the parameters optional, then what follows them.
pub open spec fn g_header(cs: Seq<char>, p: int) -> Result<(Seq<char>, Seq<VParam>, int), (Seq<char>, int)> {
    match g_name(cs, g_ws(cs, p)) {
        Err(e) => Err(e),
        Ok((name, e)) => {
            let q = g_ws(cs, e);
            if at(cs, q, '(') {
                match g_params(cs, q) {
                    Err(er) => Err(er),
                    Ok((ps, e2)) => Ok((name, ps, g_ws(cs, e2))),
                }
            } else {
                Ok((name, Seq::empty(), q))
            }
        },
    }
}

/// A top-level item: a stylesheet, a component, a function or a constant.
pub open spec fn g_item(cs: Seq<char>, p: int) -> GRes<VItem> {
    if g_keyword(cs, p, "stylesheet"@) is Some {
        match g_stylesheet(cs, g_keyword(cs, p, "stylesheet"@)->0) {
            Err(e) => Err(e),
            Ok((rules, e)) => Ok((VItem::Stylesheet(rules), e)),
        }
    } else if g_keyword(cs, p, "component"@) is Some {
        match g_header(cs, g_keyword(cs, p, "component"@)->0) {
            Err(e) => Err(e),
            Ok((name, params, q)) => match g_block(cs, q) {
                Err(e) => Err(e),
                Ok((body, e)) => Ok((VItem::Component(name, params, body), e)),
            },
        }
    } else if g_keyword(cs, p, "fn"@) is Some {
        match g_header(cs, g_keyword(cs, p, "fn"@)->0) {
            Err(e) => Err(e),
            Ok((name, params, q)) => match g_expect(cs, q, "="@) {
                Err(e) => Err(e),
                Ok(q1) => match g_expr(cs, g_ws(cs, q1)) {
                    Err(e) => Err(e),
                    Ok((body, e)) => Ok((VItem::Function(name, params, body), e)),
                },
            },
        }
    } else if g_keyword(cs, p, "const"@) is Some {
        let q = g_ws(cs, g_keyword(cs, p, "const"@)->0);
        match g_name(cs, q) {
            Err(e) => Err(e),
            Ok((name, e)) => match g_expect(cs, g_ws(cs, e), "="@) {
                Err(er) => Err(er),
                Ok(q1) => match g_expr(cs, g_ws(cs, q1)) {
                    Err(er) => Err(er),
                    Ok((value, e2)) => Ok((VItem::Const(name, value), e2)),
                },
            },
        }
    } else {
        Err(("`component`, `fn`, `const` or `stylesheet`"@, p))
    }
}

pub open spec fn g_items(cs: Seq<char>, p: int, acc: Seq<VItem>) -> Result<Seq<VItem>, (Seq<char>, int)>
    decreases cs.len() - p,
{
    if p < 0 || p >= cs.len() {
        Ok(acc)
    } else {
        match g_item(cs, p) {
            Err(e) => Err(e),
            Ok((item, e)) => if e <= p || e > cs.len() {
                Err(("progress"@, p))
            } else {
                proof {
                    lemma_ws(cs, e);
                }
                g_items(cs, g_ws(cs, e), acc.push(item))
            },
        }
    }
}

/// A source file: its items, separated by whitespace and comments.
pub open spec fn g_file(cs: Seq<char>) -> Result<Seq<VItem>, (Seq<char>, int)> {
    g_items(cs, g_ws(cs, 0), Seq::empty())
}

/// The source text of each binary operator.
pub open spec fn op_text(op: BinOp) -> Seq<char> {
    match op {
        BinOp::Eq => seq!['=', '='],
        BinOp::Ne => seq!['!', '='],
        BinOp::Lt => seq!['<'],
        BinOp::Le => seq!['<', '='],
        BinOp::Gt => seq!['>'],
        BinOp::Ge => seq!['>', '='],
        BinOp::Add => seq!['+'],
        BinOp::Sub => seq!['-'],
        BinOp::Mul => seq!['*'],
        BinOp::Div => seq!['/'],
    }
}

/// Law: each operator's text reads as that operator, the two-character ones
/// taking precedence over their one-character prefixes (`>=` is `Ge`, a `>`
/// not followed by `=` is `Gt`, and so on); a `//` starts a comment, not a
/// division; whatever is read, the text consumed is that operator's own text.
pub proof fn lemma_operator_text(cs: Seq<char>, p: int)
    requires
        0 <= p < cs.len(),
    ensures
        ({
            let two = p + 1 < cs.len();
            let next_is_eq = two && cs[p + 1] == '=';
            &&& cs[p] == '=' && next_is_eq ==> g_binop(cs, p) == Some((BinOp::Eq, p + 2))
            &&& cs[p] == '!' && next_is_eq ==> g_binop(cs, p) == Some((BinOp::Ne, p + 2))
            &&& cs[p] == '<' && next_is_eq ==> g_binop(cs, p) == Some((BinOp::Le, p + 2))
            &&& cs[p] == '>' && next_is_eq ==> g_binop(cs, p) == Some((BinOp::Ge, p + 2))
            &&& cs[p] == '<' && !next_is_eq ==> g_binop(cs, p) == Some((BinOp::Lt, p + 1))
            &&& cs[p] == '>' && !next_is_eq ==> g_binop(cs, p) == Some((BinOp::Gt, p + 1))
            &&& cs[p] == '+' ==> g_binop(cs, p) == Some((BinOp::Add, p + 1))
            &&& cs[p] == '-' ==> g_binop(cs, p) == Some((BinOp::Sub, p + 1))
            &&& cs[p] == '*' ==> g_binop(cs, p) == Some((BinOp::Mul, p + 1))
            &&& cs[p] == '/' && !(two && cs[p + 1] == '/') ==> g_binop(cs, p) == Some((BinOp::Div, p + 1))
            &&& cs[p] == '/' && two && cs[p + 1] == '/' ==> g_binop(cs, p) is None
            &&& !(cs[p] == '=' || cs[p] == '!' || cs[p] == '<' || cs[p] == '>' || cs[p] == '+' || cs[p] == '-'
                || cs[p] == '*' || cs[p] == '/') ==> g_binop(cs, p) is None
            &&& g_binop(cs, p) matches Some((op, q)) ==> q <= cs.len() && cs.subrange(p, q) == op_text(op)
        }),
{
    reveal_strlit("==");
    reveal_strlit("!=");
    reveal_strlit("<=");
    reveal_strlit(">=");
    let two = p + 1 < cs.len();
    if two {
        let w = cs.subrange(p, p + 2);
        assert(w[0] == cs[p] && w[1] == cs[p + 1]);
        assert(w.len() == 2);
        if cs[p + 1] == '=' {
            assert(w =~= seq![cs[p], '=']);
        }
        assert("=="@ =~= seq!['=', '=']);
        assert("!="@ =~= seq!['!', '=']);
        assert("<="@ =~= seq!['<', '=']);
        assert(">="@ =~= seq!['>', '=']);
    }
    assert(cs.subrange(p, p + 1) =~= seq![cs[p]]);
    if two {
        assert(cs.subrange(p, p + 2) =~= seq![cs[p], cs[p + 1]]);
    }
}

} // verus!

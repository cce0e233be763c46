//! Parsing: `.nono` source text -> `ast::File`.
//!
//! A hand-written recursive-descent parser over the characters of the source,
//! proved to compute what `grammar.rs` specifies: each function below returns
//! exactly what its `g_*` counterpart says, tree and end position, or error.

use vstd::prelude::*;
use crate::ast::{File, Item, Stylesheet, StyleRule, ConstDecl, Component, Function, Param, Node, Element, Arg, ArgValue,
    Slot, ForNode, IfNode, MatchNode, MatchArm, Pattern, Expr, BinOp, StrTemplate, StrPart};
use crate::text::{chars_of, push_str, push_chars, string_from_chars, nat_to_chars, chars_slice, chars_occur_at, owned,
    str_eq, occurs_at};
use crate::grammar::{VExpr, VPart, VArg, VArgValue, VNode, VArm, VParam, VRule, VItem, opt_chars, v_names, v_expr, v_exprs, v_entries, v_part, v_parts, v_arg, v_args, v_opt_expr, v_opt_nodes, v_node, v_nodes, v_arm, v_arms, v_param, v_params, v_rule, v_item, v_items, GRes, stuck, ident_start, ident_char, digit, ws_char, at, line_end, lemma_line_end, g_ws, lemma_ws, g_lit, g_keyword, g_expect, Class, in_class, run_end, lemma_run_end, g_ident, g_attr_name, reserved, g_name, digits_value, g_number, g_binop, g_path, g_named_ahead, escaped, plain_text, flush, g_expr, g_binops, g_primary, g_list, g_list_items, g_dict, g_dict_entries, g_postfix, g_accessors, g_string, g_string_parts, g_call_args, g_args_items, g_arg, g_block, g_block_nodes, single_eq, g_node, g_if, g_match, g_match_arms, g_slot, g_slot_fields, g_params, g_params_items, trim_ws, trailing_start, g_stylesheet, g_rules, g_decls, g_header, g_item, g_items, g_file};

verus! {

/// A parse failure: what was expected, and where: a character offset, and the
/// 1-based line and column it falls on.
#[derive(Debug)]
pub struct ParseError {
    pub expected: String,
    pub offset: usize,
    pub line: usize,
    pub column: usize,
}

/// The 1-based line and column of the character at offset `k`.
pub open spec fn line_col(cs: Seq<char>, k: int) -> (int, int)
    decreases k,
{
    if k <= 0 {
        (1, 1)
    } else {
        let (l, c) = line_col(cs, k - 1);
        if cs[k - 1] == '\n' {
            (l + 1, 1)
        } else {
            (l, c + 1)
        }
    }
}

/// The text of a parse error's message.
pub open spec fn parse_message(e: ParseError) -> Seq<char> {
    "expected "@ + e.expected@ + " at line "@ + crate::text::nat_text(e.line as nat) + ", column "@
        + crate::text::nat_text(e.column as nat)
}

impl ParseError {
    /// A human-readable description: what was expected, and at which line and column.
    pub fn message(&self) -> (r: String)
        ensures
            r@ == parse_message(*self),
    {
        let mut out: Vec<char> = Vec::new();
        push_str(&mut out, "expected ");
        let e = chars_of(self.expected.as_str());
        push_chars(&mut out, &e);
        push_str(&mut out, " at line ");
        let l = nat_to_chars(self.line as u64);
        push_chars(&mut out, &l);
        push_str(&mut out, ", column ");
        let c = nat_to_chars(self.column as u64);
        push_chars(&mut out, &c);
        string_from_chars(&out)
    }
}

fn locate(cs: &Vec<char>, offset: usize) -> (r: (usize, usize))
    requires
        offset <= cs.len(),
        offset < usize::MAX,
    ensures
        (r.0 as int, r.1 as int) == line_col(cs@, offset as int),
{
    let mut line: usize = 1;
    let mut col: usize = 1;
    let mut i: usize = 0;
    while i < offset
        invariant
            i <= offset <= cs.len(),
            (line as int, col as int) == line_col(cs@, i as int),
            offset < usize::MAX,
            1 <= line,
            1 <= col,
            line + col <= i + 2,
        decreases offset - i,
    {
        if cs[i] == '\n' {
            line = line + 1;
            col = 1;
        } else {
            col = col + 1;
        }
        i = i + 1;
    }
    (line, col)
}

// ---- results and their views ----

type PResult<T> = Result<(T, usize), ParseError>;

pub open spec fn perr(e: ParseError) -> (Seq<char>, int) {
    (e.expected@, e.offset as int)
}

pub open spec fn r_chars(r: Result<(String, usize), ParseError>) -> GRes<Seq<char>> {
    match r {
        Ok((s, e)) => Ok((s@, e as int)),
        Err(er) => Err(perr(er)),
    }
}

pub open spec fn r_expr(r: Result<(Expr, usize), ParseError>) -> GRes<VExpr> {
    match r {
        Ok((x, e)) => Ok((v_expr(x), e as int)),
        Err(er) => Err(perr(er)),
    }
}

pub open spec fn r_parts(r: Result<(StrTemplate, usize), ParseError>) -> GRes<Seq<VPart>> {
    match r {
        Ok((t, e)) => Ok((v_parts(t.parts@), e as int)),
        Err(er) => Err(perr(er)),
    }
}

pub open spec fn r_args(r: Result<(Vec<Arg>, usize), ParseError>) -> GRes<Seq<VArg>> {
    match r {
        Ok((a, e)) => Ok((v_args(a@), e as int)),
        Err(er) => Err(perr(er)),
    }
}

pub open spec fn r_arg(r: Result<(Arg, usize), ParseError>) -> GRes<VArg> {
    match r {
        Ok((a, e)) => Ok((v_arg(a), e as int)),
        Err(er) => Err(perr(er)),
    }
}

pub open spec fn r_nodes(r: Result<(Vec<Node>, usize), ParseError>) -> GRes<Seq<VNode>> {
    match r {
        Ok((n, e)) => Ok((v_nodes(n@), e as int)),
        Err(er) => Err(perr(er)),
    }
}

pub open spec fn r_node(r: Result<(Node, usize), ParseError>) -> GRes<VNode> {
    match r {
        Ok((n, e)) => Ok((v_node(n), e as int)),
        Err(er) => Err(perr(er)),
    }
}

pub open spec fn r_params(r: Result<(Vec<Param>, usize), ParseError>) -> GRes<Seq<VParam>> {
    match r {
        Ok((ps, e)) => Ok((v_params(ps@), e as int)),
        Err(er) => Err(perr(er)),
    }
}

pub open spec fn r_rules(r: Result<(Vec<StyleRule>, usize), ParseError>) -> GRes<Seq<VRule>> {
    match r {
        Ok((rs, e)) => Ok((rs@.map_values(|x: StyleRule| v_rule(x)), e as int)),
        Err(er) => Err(perr(er)),
    }
}

pub open spec fn r_decls(r: Result<(Vec<(String, String)>, usize), ParseError>) -> GRes<Seq<(Seq<char>, Seq<char>)>> {
    match r {
        Ok((ds, e)) => Ok((ds@.map_values(|d: (String, String)| (d.0@, d.1@)), e as int)),
        Err(er) => Err(perr(er)),
    }
}

pub open spec fn r_item(r: Result<(Item, usize), ParseError>) -> GRes<VItem> {
    match r {
        Ok((i, e)) => Ok((v_item(i), e as int)),
        Err(er) => Err(perr(er)),
    }
}

// ---- views of growing lists ----

proof fn lemma_exprs_push(s: Seq<Expr>, x: Expr)
    ensures
        v_exprs(s.push(x)) == v_exprs(s).push(v_expr(x)),
{
    assert(s.push(x).drop_last() =~= s);
}

proof fn lemma_entries_push(s: Seq<(String, Expr)>, x: (String, Expr))
    ensures
        v_entries(s.push(x)) == v_entries(s).push((x.0@, v_expr(x.1))),
{
    assert(s.push(x).drop_last() =~= s);
}

proof fn lemma_parts_push(s: Seq<StrPart>, x: StrPart)
    ensures
        v_parts(s.push(x)) == v_parts(s).push(v_part(x)),
{
    assert(s.push(x).drop_last() =~= s);
}

proof fn lemma_args_push(s: Seq<Arg>, x: Arg)
    ensures
        v_args(s.push(x)) == v_args(s).push(v_arg(x)),
{
    assert(s.push(x).drop_last() =~= s);
}

proof fn lemma_nodes_push(s: Seq<Node>, x: Node)
    ensures
        v_nodes(s.push(x)) == v_nodes(s).push(v_node(x)),
{
    assert(s.push(x).drop_last() =~= s);
}

proof fn lemma_arms_push(s: Seq<MatchArm>, x: MatchArm)
    ensures
        v_arms(s.push(x)) == v_arms(s).push(v_arm(x)),
{
    assert(s.push(x).drop_last() =~= s);
}

// ---- characters and tokens ----

fn fail<T>(expected: &str, at: usize) -> (r: PResult<T>)
    ensures
        r matches Err(e) && e.expected@ == expected@ && e.offset == at,
{
    Err(ParseError { expected: owned(expected), offset: at, line: 0, column: 0 })
}

fn at_char(cs: &Vec<char>, p: usize, c: char) -> (r: bool)
    ensures
        r == at(cs@, p as int, c),
{
    p < cs.len() && cs[p] == c
}

fn is_ws(c: char) -> (r: bool)
    ensures
        r == ws_char(c),
{
    c == ' ' || c == '\t' || c == '\n' || c == '\r'
}

fn is_ident_start(c: char) -> (r: bool)
    ensures
        r == ident_start(c),
{
    ('a' <= c && c <= 'z') || ('A' <= c && c <= 'Z') || c == '_'
}

fn in_class_exec(k: Class, c: char) -> (r: bool)
    ensures
        r == in_class(k, c),
{
    let ident = is_ident_start(c) || ('0' <= c && c <= '9');
    match k {
        Class::Ident => ident,
        Class::Attr => ident || c == '-',
        Class::Digit => '0' <= c && c <= '9',
        Class::Space => is_ws(c),
        Class::Selector => !is_ws(c) && c != '{' && c != '}',
        Class::Value => c != '\n' && c != '}',
    }
}

/// The end of the run of characters of class `k` from `p`.
fn run_end_exec(cs: &Vec<char>, p: usize, k: Class) -> (r: usize)
    requires
        p <= cs.len(),
    ensures
        r as int == run_end(cs@, p as int, k),
        p <= r <= cs.len(),
{
    let mut q = p;
    while q < cs.len() && in_class_exec(k, cs[q])
        invariant
            p <= q <= cs.len(),
            run_end(cs@, q as int, k) == run_end(cs@, p as int, k),
        decreases cs.len() - q,
    {
        q = q + 1;
    }
    q
}

/// Skips whitespace and `//` comments.
fn skip_ws(cs: &Vec<char>, pos: usize) -> (r: usize)
    requires
        pos <= cs.len(),
    ensures
        r as int == g_ws(cs@, pos as int),
        pos <= r <= cs.len(),
{
    let mut p = pos;
    while p < cs.len()
        invariant
            pos <= p <= cs.len(),
            g_ws(cs@, p as int) == g_ws(cs@, pos as int),
        ensures
            pos <= p <= cs.len(),
            g_ws(cs@, pos as int) == p as int,
        decreases cs.len() - p,
    {
        if is_ws(cs[p]) {
            p = p + 1;
        } else if cs[p] == '/' && at_char(cs, p + 1, '/') {
            let start = p;
            p = p + 2;
            while p < cs.len() && cs[p] != '\n'
                invariant
                    pos <= start < p <= cs.len(),
                    start + 2 <= p,
                    line_end(cs@, p as int) == line_end(cs@, start + 2),
                decreases cs.len() - p,
            {
                p = p + 1;
            }
        } else {
            break;
        }
    }
    p
}

/// The position after `lit` (non-empty), when it occurs at `pos`.
fn lit_at(cs: &Vec<char>, pos: usize, lit: &str) -> (r: Option<usize>)
    requires
        pos <= cs.len(),
    ensures
        match r {
            Some(e) => g_lit(cs@, pos as int, lit@) == Some(e as int) && pos < e <= cs.len(),
            None => g_lit(cs@, pos as int, lit@) is None,
        },
{
    let l = chars_of(lit);
    if l.len() == 0 || l.len() > cs.len() - pos {
        return None;
    }
    if chars_occur_at(cs, &l, pos) {
        Some(pos + l.len())
    } else {
        None
    }
}

/// The position after the keyword `kw`, when it stands at `pos` and does not
/// start a longer name.
fn keyword_at(cs: &Vec<char>, pos: usize, kw: &str) -> (r: Option<usize>)
    requires
        pos <= cs.len(),
    ensures
        match r {
            Some(e) => g_keyword(cs@, pos as int, kw@) == Some(e as int) && pos < e <= cs.len(),
            None => g_keyword(cs@, pos as int, kw@) is None,
        },
{
    match lit_at(cs, pos, kw) {
        None => None,
        Some(end) => if end >= cs.len() || !in_class_exec(Class::Ident, cs[end]) {
            Some(end)
        } else {
            None
        },
    }
}

/// Expects `lit` at `pos`; returns the position after it.
fn expect(cs: &Vec<char>, pos: usize, lit: &str) -> (r: Result<usize, ParseError>)
    requires
        pos <= cs.len(),
    ensures
        match r {
            Ok(e) => g_expect(cs@, pos as int, lit@) == Ok::<int, (Seq<char>, int)>(e as int) && pos < e <= cs.len(),
            Err(er) => g_expect(cs@, pos as int, lit@) == Err::<int, (Seq<char>, int)>(perr(er)),
        },
{
    match lit_at(cs, pos, lit) {
        Some(e) => Ok(e),
        None => Err(ParseError { expected: owned(lit), offset: pos, line: 0, column: 0 }),
    }
}

/// An identifier.
fn parse_ident(cs: &Vec<char>, pos: usize) -> (r: PResult<String>)
    requires
        pos <= cs.len(),
    ensures
        r_chars(r) == g_ident(cs@, pos as int),
        r matches Ok((_, e)) ==> pos < e <= cs.len(),
{
    if pos >= cs.len() || !is_ident_start(cs[pos]) {
        return fail("a name", pos);
    }
    let e = run_end_exec(cs, pos + 1, Class::Ident);
    let s = chars_slice(cs, pos, e);
    Ok((string_from_chars(&s), e))
}

/// An attribute name: an identifier that may also hold `-`.
fn parse_attr_name(cs: &Vec<char>, pos: usize) -> (r: PResult<String>)
    requires
        pos <= cs.len(),
    ensures
        r_chars(r) == g_attr_name(cs@, pos as int),
        r matches Ok((_, e)) ==> pos < e <= cs.len(),
{
    if pos >= cs.len() || !is_ident_start(cs[pos]) {
        return fail("a name", pos);
    }
    let e = run_end_exec(cs, pos + 1, Class::Attr);
    let s = chars_slice(cs, pos, e);
    Ok((string_from_chars(&s), e))
}

fn is_reserved(s: &String) -> (r: bool)
    ensures
        r == reserved(s@),
{
    let k = s.as_str();
    str_eq(k, "component") || str_eq(k, "const") || str_eq(k, "fn") || str_eq(k, "for") || str_eq(k, "in") || str_eq(
        k,
        "if",
    ) || str_eq(k, "else") || str_eq(k, "match") || str_eq(k, "stylesheet") || str_eq(k, "true") || str_eq(k, "false")
        || str_eq(k, "nil")
}

/// A name that is not a keyword.
fn parse_name(cs: &Vec<char>, pos: usize) -> (r: PResult<String>)
    requires
        pos <= cs.len(),
    ensures
        r_chars(r) == g_name(cs@, pos as int),
        r matches Ok((_, e)) ==> pos < e <= cs.len(),
{
    let (s, e) = match parse_ident(cs, pos) {
        Ok(v) => v,
        Err(er) => return Err(er),
    };
    if is_reserved(&s) {
        return fail("a name that is not a keyword", pos);
    }
    Ok((s, e))
}

proof fn lemma_digits_nonneg(s: Seq<char>)
    requires
        forall|j: int| 0 <= j < s.len() ==> digit(#[trigger] s[j]),
    ensures
        digits_value(s) >= 0,
    decreases s.len(),
{
    if s.len() > 0 {
        lemma_digits_nonneg(s.drop_last());
    }
}

proof fn lemma_digits_mono(s: Seq<char>, k: int)
    requires
        0 <= k <= s.len(),
        forall|j: int| 0 <= j < s.len() ==> digit(#[trigger] s[j]),
    ensures
        digits_value(s.take(k)) <= digits_value(s),
    decreases s.len(),
{
    if k < s.len() {
        assert(s.drop_last().take(k) =~= s.take(k));
        lemma_digits_mono(s.drop_last(), k);
        lemma_digits_nonneg(s.drop_last());
        assert(digits_value(s) == digits_value(s.drop_last()) * 10 + (s.last() as int - '0' as int));
    } else {
        assert(s.take(k) =~= s);
    }
}

proof fn lemma_overflow_check(n: int, d: int)
    requires
        0 <= n,
        0 <= d <= 9,
    ensures
        (n > (9223372036854775807 - d) / 10) == (n * 10 + d > 9223372036854775807),
{
    assert((n > (9223372036854775807 - d) / 10) == (n * 10 + d > 9223372036854775807)) by (nonlinear_arith)
        requires
            0 <= n,
            0 <= d <= 9,
    ;
}

/// A whole number that fits in 64 bits.
fn parse_number(cs: &Vec<char>, pos: usize) -> (r: PResult<i64>)
    requires
        pos <= cs.len(),
    ensures
        match r {
            Ok((n, e)) => g_number(cs@, pos as int) == Ok::<(int, int), (Seq<char>, int)>((n as int, e as int)),
            Err(er) => g_number(cs@, pos as int) == Err::<(int, int), (Seq<char>, int)>(perr(er)),
        },
        r matches Ok((_, e)) ==> pos < e <= cs.len(),
{
    if pos >= cs.len() || !('0' <= cs[pos] && cs[pos] <= '9') {
        return fail("a number", pos);
    }
    let e = run_end_exec(cs, pos, Class::Digit);
    proof {
        lemma_run_end(cs@, pos as int, Class::Digit);
    }
    let ghost ds = cs@.subrange(pos as int, e as int);
    assert forall|j: int| 0 <= j < ds.len() implies digit(#[trigger] ds[j]) by {
        assert(ds[j] == cs@[pos + j]);
        assert(in_class(Class::Digit, cs@[pos + j]));
    }
    let mut n: i64 = 0;
    let mut i = pos;
    while i < e
        invariant
            pos <= i <= e <= cs.len(),
            pos < cs.len(),
            digit(cs@[pos as int]),
            e as int == run_end(cs@, pos as int, Class::Digit),
            ds == cs@.subrange(pos as int, e as int),
            forall|j: int| 0 <= j < ds.len() ==> digit(#[trigger] ds[j]),
            n as int == digits_value(ds.take(i - pos)),
            0 <= n,
        decreases e - i,
    {
        assert(ds[i - pos] == cs@[i as int]);
        assert(digit(ds[i - pos]));
        let d = (cs[i] as u32 - '0' as u32) as i64;
        assert(d as int == cs@[i as int] as int - '0' as int);
        assert(ds.take(i - pos + 1).drop_last() =~= ds.take(i - pos));
        assert(ds.take(i - pos + 1).last() == cs@[i as int]);
        proof {
            lemma_overflow_check(n as int, d as int);
        }
        if n > (9223372036854775807i64 - d) / 10 {
            proof {
                assert(digits_value(ds.take(i - pos + 1)) == n * 10 + d);
                lemma_digits_mono(ds, i - pos + 1);
                assert(digits_value(ds) > i64::MAX);
            }
            return fail("a number that fits in 64 bits", pos);
        }
        n = n * 10 + d;
        i = i + 1;
    }
    assert(ds.take(e - pos) =~= ds);
    if at_char(cs, e, '.') && e + 1 < cs.len() && '0' <= cs[e + 1] && cs[e + 1] <= '9' {
        return fail("a whole number (fractional numbers are not supported)", pos);
    }
    Ok((n, e))
}

/// The binary operator at `pos`, if one starts there (`None` ends the
/// expression).
fn parse_binop(cs: &Vec<char>, pos: usize) -> (r: Option<(BinOp, usize)>)
    requires
        pos <= cs.len(),
    ensures
        match r {
            Some((op, e)) => g_binop(cs@, pos as int) == Some((op, e as int)) && pos < e <= cs.len(),
            None => g_binop(cs@, pos as int) is None,
        },
{
    if let Some(e) = lit_at(cs, pos, "==") {
        proof {
            reveal_strlit("==");
        }
        Some((BinOp::Eq, e))
    } else if let Some(e) = lit_at(cs, pos, "!=") {
        proof {
            reveal_strlit("!=");
        }
        Some((BinOp::Ne, e))
    } else if let Some(e) = lit_at(cs, pos, "<=") {
        proof {
            reveal_strlit("<=");
        }
        Some((BinOp::Le, e))
    } else if let Some(e) = lit_at(cs, pos, ">=") {
        proof {
            reveal_strlit(">=");
        }
        Some((BinOp::Ge, e))
    } else if at_char(cs, pos, '<') {
        Some((BinOp::Lt, pos + 1))
    } else if at_char(cs, pos, '>') {
        Some((BinOp::Gt, pos + 1))
    } else if at_char(cs, pos, '+') {
        Some((BinOp::Add, pos + 1))
    } else if at_char(cs, pos, '-') {
        Some((BinOp::Sub, pos + 1))
    } else if at_char(cs, pos, '*') {
        Some((BinOp::Mul, pos + 1))
    } else if at_char(cs, pos, '/') && !at_char(cs, pos + 1, '/') {
        Some((BinOp::Div, pos + 1))
    } else {
        None
    }
}

/// `a.b.c`: the dotted segments after a first name.
fn parse_path(cs: &Vec<char>, q: usize, path: Vec<String>) -> (r: (Vec<String>, usize))
    requires
        q <= cs.len(),
    ensures
        (v_names(r.0@), r.1 as int) == g_path(cs@, q as int, v_names(path@)),
        q <= r.1 <= cs.len(),
    decreases cs.len() - q,
{
    if at_char(cs, q, '.') && q + 1 < cs.len() && is_ident_start(cs[q + 1]) {
        match parse_ident(cs, q + 1) {
            Ok((seg, e)) => {
                let mut path = path;
                let ghost before = path@;
                path.push(seg);
                assert(v_names(path@) =~= v_names(before).push(seg@));
                parse_path(cs, e, path)
            },
            Err(_) => (path, q),
        }
    } else {
        (path, q)
    }
}

/// Whether `name =` (and not `==` or `=>`) follows at `pos`: a named argument.
fn named_arg_ahead(cs: &Vec<char>, pos: usize) -> (r: Option<(String, usize)>)
    requires
        pos <= cs.len(),
    ensures
        match r {
            Some((n, e)) => g_named_ahead(cs@, pos as int) == Some((n@, e as int)) && pos < e <= cs.len(),
            None => g_named_ahead(cs@, pos as int) is None,
        },
{
    match parse_attr_name(cs, pos) {
        Err(_) => None,
        Ok((n, e)) => {
            let q = skip_ws(cs, e);
            if at_char(cs, q, '=') && !at_char(cs, q + 1, '=') && !at_char(cs, q + 1, '>') {
                Some((n, q + 1))
            } else {
                None
            }
        },
    }
}

fn escaped_exec(e: char) -> (r: Option<char>)
    ensures
        r == escaped(e),
{
    if e == '"' {
        Some('"')
    } else if e == '\\' {
        Some('\\')
    } else if e == 'n' {
        Some('\n')
    } else if e == 't' {
        Some('\t')
    } else if e == '{' {
        Some('{')
    } else if e == '}' {
        Some('}')
    } else {
        None
    }
}

/// The parts of a string with a pending literal run flushed.
fn flush_exec(parts: Vec<StrPart>, buf: Vec<char>) -> (r: Vec<StrPart>)
    ensures
        v_parts(r@) == flush(v_parts(parts@), buf@),
{
    let mut parts = parts;
    if buf.len() > 0 {
        let lit = StrPart::Lit(string_from_chars(&buf));
        proof {
            lemma_parts_push(parts@, lit);
        }
        parts.push(lit);
    }
    parts
}

/// The literal text of a string with no interpolation.
fn template_text(t: &StrTemplate) -> (r: Option<String>)
    ensures
        opt_chars(r) == plain_text(v_parts(t.parts@)),
{
    let mut out: Vec<char> = Vec::new();
    let mut i: usize = 0;
    while i < t.parts.len()
        invariant
            i <= t.parts.len(),
            plain_text(v_parts(t.parts@.take(i as int))) == Some(out@),
        decreases t.parts.len() - i,
    {
        assert(t.parts@.take(i + 1) =~= t.parts@.take(i as int).push(t.parts@[i as int]));
        proof {
            lemma_parts_push(t.parts@.take(i as int), t.parts@[i as int]);
        }
        assert(v_parts(t.parts@.take(i + 1)).drop_last() =~= v_parts(t.parts@.take(i as int)));
        match &t.parts[i] {
            StrPart::Lit(l) => {
                let cs = chars_of(l.as_str());
                push_chars(&mut out, &cs);
            },
            StrPart::Interp(_) => {
                proof {
                    lemma_plain_none(t.parts@, i as int);
                }
                return None;
            },
        }
        i = i + 1;
    }
    assert(t.parts@.take(i as int) =~= t.parts@);
    Some(string_from_chars(&out))
}

proof fn lemma_plain_none(parts: Seq<StrPart>, i: int)
    requires
        0 <= i < parts.len(),
        parts[i] is Interp,
    ensures
        plain_text(v_parts(parts)) is None,
    decreases parts.len(),
{
    if i == parts.len() - 1 {
        assert(v_parts(parts).last() == v_part(parts[i]));
    } else {
        lemma_plain_none(parts.drop_last(), i);
        assert(v_parts(parts).drop_last() == v_parts(parts.drop_last()));
    }
}

// ---- expressions ----

/// `expr = primary (binop primary)*`, folded left to right.
fn parse_expr(cs: &Vec<char>, pos: usize) -> (r: PResult<Expr>)
    requires
        pos <= cs.len(),
    ensures
        r_expr(r) == g_expr(cs@, pos as int),
        r matches Ok((_, e)) ==> pos < e <= cs.len(),
    decreases cs.len() - pos, 10nat,
{
    let (lhs, e) = match parse_primary(cs, pos) {
        Ok(v) => v,
        Err(er) => return Err(er),
    };
    parse_binops(cs, lhs, e)
}

fn parse_binops(cs: &Vec<char>, lhs: Expr, pos: usize) -> (r: PResult<Expr>)
    requires
        pos <= cs.len(),
    ensures
        r_expr(r) == g_binops(cs@, v_expr(lhs), pos as int),
        r matches Ok((_, e)) ==> pos <= e <= cs.len(),
    decreases cs.len() - pos, 10nat,
{
    let q = skip_ws(cs, pos);
    match parse_binop(cs, q) {
        None => Ok((lhs, pos)),
        Some((op, q2)) => {
            let q3 = skip_ws(cs, q2);
            let (rhs, p2) = match parse_primary(cs, q3) {
                Ok(v) => v,
                Err(er) => return Err(er),
            };
            parse_binops(cs, Expr::Binary(Box::new(lhs), op, Box::new(rhs)), p2)
        },
    }
}

fn parse_primary(cs: &Vec<char>, pos: usize) -> (r: PResult<Expr>)
    requires
        pos <= cs.len(),
    ensures
        r_expr(r) == g_primary(cs@, pos as int),
        r matches Ok((_, e)) ==> pos < e <= cs.len(),
    decreases cs.len() - pos, 9nat,
{
    if pos >= cs.len() {
        return fail("an expression", pos);
    }
    let c = cs[pos];
    if '0' <= c && c <= '9' {
        return match parse_number(cs, pos) {
            Ok((n, e)) => Ok((Expr::Number(n), e)),
            Err(er) => Err(er),
        };
    }
    if let Some(e) = keyword_at(cs, pos, "true") {
        return Ok((Expr::Bool(true), e));
    }
    if let Some(e) = keyword_at(cs, pos, "false") {
        return Ok((Expr::Bool(false), e));
    }
    if let Some(e) = keyword_at(cs, pos, "nil") {
        return Ok((Expr::Nil, e));
    }
    if c == '"' {
        let (t, e) = match parse_string(cs, pos) {
            Ok(v) => v,
            Err(er) => return Err(er),
        };
        return parse_accessors(cs, Expr::Str(t), e);
    }
    if c == '[' {
        let (l, e) = match parse_list(cs, pos) {
            Ok(v) => v,
            Err(er) => return Err(er),
        };
        return parse_accessors(cs, l, e);
    }
    if c == '{' {
        let (d, e) = match parse_dict(cs, pos) {
            Ok(v) => v,
            Err(er) => return Err(er),
        };
        return parse_accessors(cs, d, e);
    }
    parse_postfix(cs, pos)
}

/// `[a, b, c]`
fn parse_list(cs: &Vec<char>, pos: usize) -> (r: PResult<Expr>)
    requires
        pos <= cs.len(),
    ensures
        r_expr(r) == g_list(cs@, pos as int),
        r matches Ok((_, e)) ==> pos < e <= cs.len(),
    decreases cs.len() - pos, 1nat,
{
    if !at_char(cs, pos, '[') {
        return fail("[", pos);
    }
    let items: Vec<Expr> = Vec::new();
    assert(v_exprs(items@) =~= Seq::<VExpr>::empty());
    parse_list_items(cs, pos + 1, items)
}

fn parse_list_items(cs: &Vec<char>, p: usize, items: Vec<Expr>) -> (r: PResult<Expr>)
    requires
        p <= cs.len(),
    ensures
        r_expr(r) == g_list_items(cs@, p as int, v_exprs(items@)),
        r matches Ok((_, e)) ==> p < e <= cs.len(),
    decreases cs.len() - p, 11nat,
{
    let q = skip_ws(cs, p);
    if at_char(cs, q, ']') {
        return Ok((Expr::List(items), q + 1));
    }
    let (x, e) = match parse_expr(cs, q) {
        Ok(v) => v,
        Err(er) => return Err(er),
    };
    let r = skip_ws(cs, e);
    let mut items = items;
    proof {
        lemma_exprs_push(items@, x);
    }
    items.push(x);
    if at_char(cs, r, ',') {
        parse_list_items(cs, r + 1, items)
    } else if at_char(cs, r, ']') {
        Ok((Expr::List(items), r + 1))
    } else {
        fail("`,` or `]`", r)
    }
}

/// `{ name = expr, ... }`
fn parse_dict(cs: &Vec<char>, pos: usize) -> (r: PResult<Expr>)
    requires
        pos <= cs.len(),
    ensures
        r_expr(r) == g_dict(cs@, pos as int),
        r matches Ok((_, e)) ==> pos < e <= cs.len(),
    decreases cs.len() - pos, 1nat,
{
    if !at_char(cs, pos, '{') {
        return fail("{", pos);
    }
    let entries: Vec<(String, Expr)> = Vec::new();
    assert(v_entries(entries@) =~= Seq::<(Seq<char>, VExpr)>::empty());
    parse_dict_entries(cs, pos + 1, entries)
}

fn parse_dict_entries(cs: &Vec<char>, p: usize, entries: Vec<(String, Expr)>) -> (r: PResult<Expr>)
    requires
        p <= cs.len(),
    ensures
        r_expr(r) == g_dict_entries(cs@, p as int, v_entries(entries@)),
        r matches Ok((_, e)) ==> p < e <= cs.len(),
    decreases cs.len() - p, 1nat,
{
    let q = skip_ws(cs, p);
    if at_char(cs, q, '}') {
        return Ok((Expr::Dict(entries), q + 1));
    }
    let (k, e) = match parse_ident(cs, q) {
        Ok(v) => v,
        Err(er) => return Err(er),
    };
    let q1 = skip_ws(cs, e);
    if !at_char(cs, q1, '=') {
        return fail("=", q1);
    }
    if at_char(cs, q1 + 1, '=') {
        return fail("`=`", q1);
    }
    let q2 = skip_ws(cs, q1 + 1);
    let (x, e2) = match parse_expr(cs, q2) {
        Ok(v) => v,
        Err(er) => return Err(er),
    };
    let r = skip_ws(cs, e2);
    let mut entries = entries;
    let ghost kv = k@;
    let entry = (k, x);
    proof {
        lemma_entries_push(entries@, entry);
    }
    entries.push(entry);
    let next = if at_char(cs, r, ',') {
        r + 1
    } else {
        r
    };
    parse_dict_entries(cs, next, entries)
}

/// A call, a path or a parenthesised expression, then any accessors.
fn parse_postfix(cs: &Vec<char>, pos: usize) -> (r: PResult<Expr>)
    requires
        pos <= cs.len(),
    ensures
        r_expr(r) == g_postfix(cs@, pos as int),
        r matches Ok((_, e)) ==> pos < e <= cs.len(),
    decreases cs.len() - pos, 1nat,
{
    if at_char(cs, pos, '(') {
        let q = skip_ws(cs, pos + 1);
        let (x, e) = match parse_expr(cs, q) {
            Ok(v) => v,
            Err(er) => return Err(er),
        };
        let e1 = skip_ws(cs, e);
        if at_char(cs, e1, ')') {
            return parse_accessors(cs, x, e1 + 1);
        }
        return fail(")", e1);
    }
    let (first, e) = match parse_name(cs, pos) {
        Ok(v) => v,
        Err(er) => return Err(er),
    };
    let mut path: Vec<String> = Vec::new();
    path.push(first);
    assert(v_names(path@) =~= seq![first@]);
    let (path, q) = parse_path(cs, e, path);
    if at_char(cs, q, '(') {
        let (args, e3) = match parse_call_args(cs, q) {
            Ok(v) => v,
            Err(er) => return Err(er),
        };
        parse_accessors(cs, Expr::Call(path, args), e3)
    } else {
        parse_accessors(cs, Expr::Path(path), q)
    }
}

/// Any chain of `.field` and `[key]` accessors after a value ending at `pos`.
fn parse_accessors(cs: &Vec<char>, cur: Expr, pos: usize) -> (r: PResult<Expr>)
    requires
        pos <= cs.len(),
    ensures
        r_expr(r) == g_accessors(cs@, v_expr(cur), pos as int),
        r matches Ok((_, e)) ==> pos <= e <= cs.len(),
    decreases cs.len() - pos, 1nat,
{
    if at_char(cs, pos, '.') && pos + 1 < cs.len() && is_ident_start(cs[pos + 1]) {
        let (f, e) = match parse_ident(cs, pos + 1) {
            Ok(v) => v,
            Err(er) => return Err(er),
        };
        return parse_accessors(cs, Expr::Field(Box::new(cur), f), e);
    }
    if at_char(cs, pos, '[') {
        let q = skip_ws(cs, pos + 1);
        let (k, e) = match parse_expr(cs, q) {
            Ok(v) => v,
            Err(er) => return Err(er),
        };
        let e1 = skip_ws(cs, e);
        if !at_char(cs, e1, ']') {
            return fail("]", e1);
        }
        return parse_accessors(cs, Expr::Index(Box::new(cur), Box::new(k)), e1 + 1);
    }
    Ok((cur, pos))
}

// ---- strings ----

/// A string literal with `{expr}` interpolation and escapes.
fn parse_string(cs: &Vec<char>, pos: usize) -> (r: PResult<StrTemplate>)
    requires
        pos <= cs.len(),
    ensures
        r_parts(r) == g_string(cs@, pos as int),
        r matches Ok((_, e)) ==> pos < e <= cs.len(),
    decreases cs.len() - pos, 1nat,
{
    if !at_char(cs, pos, '"') {
        return fail("\"", pos);
    }
    let parts: Vec<StrPart> = Vec::new();
    assert(v_parts(parts@) =~= Seq::<VPart>::empty());
    let buf: Vec<char> = Vec::new();
    assert(buf@ =~= Seq::<char>::empty());
    parse_string_parts(cs, pos + 1, parts, buf)
}

#[verifier::loop_isolation(false)]
fn parse_string_parts(cs: &Vec<char>, pos: usize, parts: Vec<StrPart>, buf: Vec<char>) -> (r: PResult<StrTemplate>)
    requires
        pos <= cs.len(),
    ensures
        r_parts(r) == g_string_parts(cs@, pos as int, v_parts(parts@), buf@),
        r matches Ok((_, e)) ==> pos < e <= cs.len(),
    decreases cs.len() - pos, 1nat,
{
    let ghost buf0 = buf@;
    let mut buf = buf;
    let mut p = pos;
    // Plain characters and escapes extend the pending literal run.
    while p < cs.len() && cs[p] != '"' && cs[p] != '{'
        invariant
            pos <= p <= cs.len(),
            g_string_parts(cs@, p as int, v_parts(parts@), buf@) == g_string_parts(
                cs@,
                pos as int,
                v_parts(parts@),
                buf0,
            ),
        decreases cs.len() - p,
    {
        if cs[p] == '\\' {
            if p + 1 >= cs.len() {
                return fail("an escape", p);
            }
            match escaped_exec(cs[p + 1]) {
                Some(ch) => {
                    buf.push(ch);
                    p = p + 2;
                },
                None => return fail("a known escape", p),
            }
        } else {
            buf.push(cs[p]);
            p = p + 1;
        }
    }
    if p >= cs.len() {
        return fail("a closing `\"`", p);
    }
    if cs[p] == '"' {
        let parts = flush_exec(parts, buf);
        return Ok((StrTemplate { parts }, p + 1));
    }
    let q = skip_ws(cs, p + 1);
    let (x, e) = match parse_expr(cs, q) {
        Ok(v) => v,
        Err(er) => return Err(er),
    };
    let e1 = skip_ws(cs, e);
    if !at_char(cs, e1, '}') {
        return fail("}", e1);
    }
    let mut parts = flush_exec(parts, buf);
    let part = StrPart::Interp(x);
    proof {
        lemma_parts_push(parts@, part);
    }
    parts.push(part);
    let empty: Vec<char> = Vec::new();
    assert(empty@ =~= Seq::<char>::empty());
    parse_string_parts(cs, e1 + 1, parts, empty)
}

// ---- arguments ----

/// `(arg, ...)`
fn parse_call_args(cs: &Vec<char>, pos: usize) -> (r: PResult<Vec<Arg>>)
    requires
        pos <= cs.len(),
    ensures
        r_args(r) == g_call_args(cs@, pos as int),
        r matches Ok((_, e)) ==> pos < e <= cs.len(),
    decreases cs.len() - pos, 1nat,
{
    if !at_char(cs, pos, '(') {
        return fail("(", pos);
    }
    let args: Vec<Arg> = Vec::new();
    assert(v_args(args@) =~= Seq::<VArg>::empty());
    parse_args_items(cs, pos + 1, args)
}

fn parse_args_items(cs: &Vec<char>, p: usize, args: Vec<Arg>) -> (r: PResult<Vec<Arg>>)
    requires
        p <= cs.len(),
    ensures
        r_args(r) == g_args_items(cs@, p as int, v_args(args@)),
        r matches Ok((_, e)) ==> p < e <= cs.len(),
    decreases cs.len() - p, 13nat,
{
    let q = skip_ws(cs, p);
    if at_char(cs, q, ')') {
        return Ok((args, q + 1));
    }
    let (a, e) = match parse_arg(cs, q) {
        Ok(v) => v,
        Err(er) => return Err(er),
    };
    let r = skip_ws(cs, e);
    let mut args = args;
    proof {
        lemma_args_push(args@, a);
    }
    args.push(a);
    if at_char(cs, r, ',') {
        parse_args_items(cs, r + 1, args)
    } else if at_char(cs, r, ')') {
        Ok((args, r + 1))
    } else {
        fail("`,` or `)`", r)
    }
}

fn parse_arg(cs: &Vec<char>, pos: usize) -> (r: PResult<Arg>)
    requires
        pos <= cs.len(),
    ensures
        r_arg(r) == g_arg(cs@, pos as int),
        r matches Ok((_, e)) ==> pos < e <= cs.len(),
    decreases cs.len() - pos, 12nat,
{
    match named_arg_ahead(cs, pos) {
        Some((n, q0)) => {
            let q = skip_ws(cs, q0);
            if at_char(cs, q, '{') {
                match parse_block(cs, q) {
                    Ok((b, e)) => return Ok((Arg::Named(n, ArgValue::Block(b)), e)),
                    Err(_) => {},
                }
            }
            let (x, e) = match parse_expr(cs, q) {
                Ok(v) => v,
                Err(er) => return Err(er),
            };
            Ok((Arg::Named(n, ArgValue::Expr(x)), e))
        },
        None => {
            let (x, e) = match parse_expr(cs, pos) {
                Ok(v) => v,
                Err(er) => return Err(er),
            };
            Ok((Arg::Positional(x), e))
        },
    }
}

// ---- nodes ----

/// `{ node* }`
fn parse_block(cs: &Vec<char>, pos: usize) -> (r: PResult<Vec<Node>>)
    requires
        pos <= cs.len(),
    ensures
        r_nodes(r) == g_block(cs@, pos as int),
        r matches Ok((_, e)) ==> pos < e <= cs.len(),
    decreases cs.len() - pos, 1nat,
{
    if !at_char(cs, pos, '{') {
        return fail("{", pos);
    }
    let nodes: Vec<Node> = Vec::new();
    assert(v_nodes(nodes@) =~= Seq::<VNode>::empty());
    parse_block_nodes(cs, pos + 1, nodes)
}

fn parse_block_nodes(cs: &Vec<char>, p: usize, nodes: Vec<Node>) -> (r: PResult<Vec<Node>>)
    requires
        p <= cs.len(),
    ensures
        r_nodes(r) == g_block_nodes(cs@, p as int, v_nodes(nodes@)),
        r matches Ok((_, e)) ==> p < e <= cs.len(),
    decreases cs.len() - p, 15nat,
{
    let q = skip_ws(cs, p);
    if at_char(cs, q, '}') {
        return Ok((nodes, q + 1));
    }
    let (n, e) = match parse_node(cs, q) {
        Ok(v) => v,
        Err(er) => return Err(er),
    };
    let mut nodes = nodes;
    proof {
        lemma_nodes_push(nodes@, n);
    }
    nodes.push(n);
    parse_block_nodes(cs, e, nodes)
}

fn single_node(n: Node) -> (r: Vec<Node>)
    ensures
        v_nodes(r@) == seq![v_node(n)],
{
    let mut v: Vec<Node> = Vec::new();
    proof {
        lemma_nodes_push(v@, n);
    }
    v.push(n);
    assert(v_nodes(Seq::<Node>::empty()).push(v_node(n)) =~= seq![v_node(n)]);
    v
}

fn parse_node(cs: &Vec<char>, pos: usize) -> (r: PResult<Node>)
    requires
        pos <= cs.len(),
    ensures
        r_node(r) == g_node(cs@, pos as int),
        r matches Ok((_, e)) ==> pos < e <= cs.len(),
    decreases cs.len() - pos, 14nat,
{
    if pos >= cs.len() {
        return fail("a node", pos);
    }
    if cs[pos] == '"' {
        let (t, e) = match parse_string(cs, pos) {
            Ok(v) => v,
            Err(er) => return Err(er),
        };
        return Ok((Node::Text(t), e));
    }
    if let Some(k) = keyword_at(cs, pos, "for") {
        let q = skip_ws(cs, k);
        let (binding, e) = match parse_name(cs, q) {
            Ok(v) => v,
            Err(er) => return Err(er),
        };
        let q1 = skip_ws(cs, e);
        let k2 = match keyword_at(cs, q1, "in") {
            Some(k2) => k2,
            None => return fail("`in`", q1),
        };
        let q2 = skip_ws(cs, k2);
        let (iter, e2) = match parse_expr(cs, q2) {
            Ok(v) => v,
            Err(er) => return Err(er),
        };
        let q3 = skip_ws(cs, e2);
        let (body, e3) = match parse_block(cs, q3) {
            Ok(v) => v,
            Err(er) => return Err(er),
        };
        return Ok((Node::For(ForNode { binding, iter, body }), e3));
    }
    if let Some(k) = keyword_at(cs, pos, "if") {
        return parse_if(cs, k);
    }
    if let Some(k) = keyword_at(cs, pos, "match") {
        return parse_match(cs, k);
    }
    if let Some(k) = keyword_at(cs, pos, "const") {
        let q = skip_ws(cs, k);
        let (name, e) = match parse_name(cs, q) {
            Ok(v) => v,
            Err(er) => return Err(er),
        };
        let q1 = skip_ws(cs, e);
        let q2 = match expect(cs, q1, "=") {
            Ok(v) => v,
            Err(er) => return Err(er),
        };
        let q3 = skip_ws(cs, q2);
        let (value, e2) = match parse_expr(cs, q3) {
            Ok(v) => v,
            Err(er) => return Err(er),
        };
        return Ok((Node::LocalConst(name, value), e2));
    }
    if let Some(k) = keyword_at(cs, pos, "Slot") {
        return parse_slot(cs, k);
    }
    let (name, e) = match parse_name(cs, pos) {
        Ok(v) => v,
        Err(er) => return Err(er),
    };
    let q = skip_ws(cs, e);
    if at_char(cs, q, '=') && !at_char(cs, q + 1, '=') && !at_char(cs, q + 1, '>') {
        let q1 = skip_ws(cs, q + 1);
        let (nodes, e2) = match parse_block(cs, q1) {
            Ok(v) => v,
            Err(er) => return Err(er),
        };
        return Ok((Node::NamedFill(name, nodes), e2));
    }
    let (args, e2) = if at_char(cs, e, '(') {
        match parse_call_args(cs, e) {
            Ok(v) => v,
            Err(er) => return Err(er),
        }
    } else {
        let none: Vec<Arg> = Vec::new();
        assert(v_args(none@) =~= Seq::<VArg>::empty());
        (none, e)
    };
    let q2 = skip_ws(cs, e2);
    if at_char(cs, q2, '{') {
        let (children, e3) = match parse_block(cs, q2) {
            Ok(v) => v,
            Err(er) => return Err(er),
        };
        return Ok((Node::Element(Element { name, args, children }), e3));
    }
    let children: Vec<Node> = Vec::new();
    assert(v_nodes(children@) =~= Seq::<VNode>::empty());
    Ok((Node::Element(Element { name, args, children }), e2))
}

/// `if cond { ... }` with an optional `else { ... }` or `else if ...`, after
/// the `if` keyword.
fn parse_if(cs: &Vec<char>, after: usize) -> (r: PResult<Node>)
    requires
        after <= cs.len(),
    ensures
        r_node(r) == g_if(cs@, after as int),
        r matches Ok((_, e)) ==> after < e <= cs.len(),
    decreases cs.len() - after, 11nat,
{
    let q = skip_ws(cs, after);
    let (cond, e) = match parse_expr(cs, q) {
        Ok(v) => v,
        Err(er) => return Err(er),
    };
    let q1 = skip_ws(cs, e);
    let (then_body, e2) = match parse_block(cs, q1) {
        Ok(v) => v,
        Err(er) => return Err(er),
    };
    let q2 = skip_ws(cs, e2);
    match keyword_at(cs, q2, "else") {
        None => Ok((Node::If(IfNode { cond, then_body, otherwise: None }), e2)),
        Some(k) => {
            let q3 = skip_ws(cs, k);
            match keyword_at(cs, q3, "if") {
                Some(k2) => {
                    let (n, e3) = match parse_if(cs, k2) {
                        Ok(v) => v,
                        Err(er) => return Err(er),
                    };
                    let o = single_node(n);
                    Ok((Node::If(IfNode { cond, then_body, otherwise: Some(o) }), e3))
                },
                None => {
                    let (o, e3) = match parse_block(cs, q3) {
                        Ok(v) => v,
                        Err(er) => return Err(er),
                    };
                    Ok((Node::If(IfNode { cond, then_body, otherwise: Some(o) }), e3))
                },
            }
        },
    }
}

/// `match scrutinee { Tag => node, ... }`, after the `match` keyword.
fn parse_match(cs: &Vec<char>, after: usize) -> (r: PResult<Node>)
    requires
        after <= cs.len(),
    ensures
        r_node(r) == g_match(cs@, after as int),
        r matches Ok((_, e)) ==> after < e <= cs.len(),
    decreases cs.len() - after, 11nat,
{
    let q = skip_ws(cs, after);
    let (scrutinee, e) = match parse_expr(cs, q) {
        Ok(v) => v,
        Err(er) => return Err(er),
    };
    let q1 = skip_ws(cs, e);
    if !at_char(cs, q1, '{') {
        return fail("{", q1);
    }
    let arms: Vec<MatchArm> = Vec::new();
    assert(v_arms(arms@) =~= Seq::<VArm>::empty());
    parse_match_arms(cs, q1 + 1, scrutinee, arms)
}

fn parse_match_arms(cs: &Vec<char>, p: usize, scrutinee: Expr, arms: Vec<MatchArm>) -> (r: PResult<Node>)
    requires
        p <= cs.len(),
    ensures
        r_node(r) == g_match_arms(cs@, p as int, v_expr(scrutinee), v_arms(arms@)),
        r matches Ok((_, e)) ==> p < e <= cs.len(),
    decreases cs.len() - p, 1nat,
{
    let q = skip_ws(cs, p);
    if at_char(cs, q, '}') {
        return Ok((Node::Match(MatchNode { scrutinee, arms }), q + 1));
    }
    let (tag, e) = match parse_ident(cs, q) {
        Ok(v) => v,
        Err(er) => return Err(er),
    };
    let q1 = skip_ws(cs, e);
    let (binding, q4) = if at_char(cs, q1, '(') {
        let q2 = skip_ws(cs, q1 + 1);
        let (b, e2) = match parse_name(cs, q2) {
            Ok(v) => v,
            Err(er) => return Err(er),
        };
        let q3 = skip_ws(cs, e2);
        if !at_char(cs, q3, ')') {
            return fail(")", q3);
        }
        (Some(b), skip_ws(cs, q3 + 1))
    } else {
        (None, q1)
    };
    let q5 = match expect(cs, q4, "=>") {
        Ok(v) => v,
        Err(er) => return Err(er),
    };
    let q6 = skip_ws(cs, q5);
    let (body, e4) = if at_char(cs, q6, '{') {
        match parse_block(cs, q6) {
            Ok(v) => v,
            Err(er) => return Err(er),
        }
    } else {
        let (n, e3) = match parse_node(cs, q6) {
            Ok(v) => v,
            Err(er) => return Err(er),
        };
        (single_node(n), e3)
    };
    let arm = MatchArm { pattern: Pattern { tag, binding }, body };
    let mut arms = arms;
    proof {
        lemma_arms_push(arms@, arm);
    }
    arms.push(arm);
    parse_match_arms(cs, e4, scrutinee, arms)
}

/// `Slot()` or `Slot(named = "x", or = expr)`, after `Slot`.
fn parse_slot(cs: &Vec<char>, after: usize) -> (r: PResult<Node>)
    requires
        after <= cs.len(),
    ensures
        r_node(r) == g_slot(cs@, after as int),
        r matches Ok((_, e)) ==> after < e <= cs.len(),
    decreases cs.len() - after, 1nat,
{
    let q = skip_ws(cs, after);
    if !at_char(cs, q, '(') {
        return fail("(", q);
    }
    parse_slot_fields(cs, q + 1, None, None)
}

fn parse_slot_fields(cs: &Vec<char>, p: usize, name: Option<String>, or: Option<Expr>) -> (r: PResult<Node>)
    requires
        p <= cs.len(),
    ensures
        r_node(r) == g_slot_fields(cs@, p as int, opt_chars(name), v_opt_expr(or)),
        r matches Ok((_, e)) ==> p < e <= cs.len(),
    decreases cs.len() - p, 1nat,
{
    let q = skip_ws(cs, p);
    if at_char(cs, q, ')') {
        return Ok((Node::Slot(Slot { name, or }), q + 1));
    }
    let (key, e) = match parse_ident(cs, q) {
        Ok(v) => v,
        Err(er) => return Err(er),
    };
    let q1 = skip_ws(cs, e);
    let q2 = match expect(cs, q1, "=") {
        Ok(v) => v,
        Err(er) => return Err(er),
    };
    let q3 = skip_ws(cs, q2);
    let (val, e2) = match parse_expr(cs, q3) {
        Ok(v) => v,
        Err(er) => return Err(er),
    };
    let (name2, or2) = if str_eq(key.as_str(), "named") {
        match &val {
            Expr::Str(t) => match template_text(t) {
                Some(s) => (Some(s), or),
                None => return fail("a plain string for `named`", q3),
            },
            _ => return fail("a string for `named`", q3),
        }
    } else if str_eq(key.as_str(), "or") {
        (name, Some(val))
    } else {
        return fail("`named` or `or`", q);
    };
    let r = skip_ws(cs, e2);
    if at_char(cs, r, ',') {
        parse_slot_fields(cs, r + 1, name2, or2)
    } else if at_char(cs, r, ')') {
        Ok((Node::Slot(Slot { name: name2, or: or2 }), r + 1))
    } else {
        fail("`,` or `)`", r)
    }
}

// ---- items ----

/// `(name: type, name?: type, ...)`
fn parse_params(cs: &Vec<char>, pos: usize) -> (r: PResult<Vec<Param>>)
    requires
        pos <= cs.len(),
    ensures
        r_params(r) == g_params(cs@, pos as int),
        r matches Ok((_, e)) ==> pos < e <= cs.len(),
{
    if !at_char(cs, pos, '(') {
        return fail("(", pos);
    }
    let params: Vec<Param> = Vec::new();
    assert(v_params(params@) =~= Seq::<VParam>::empty());
    parse_params_items(cs, pos + 1, params)
}

fn parse_params_items(cs: &Vec<char>, p: usize, params: Vec<Param>) -> (r: PResult<Vec<Param>>)
    requires
        p <= cs.len(),
    ensures
        r_params(r) == g_params_items(cs@, p as int, v_params(params@)),
        r matches Ok((_, e)) ==> p < e <= cs.len(),
    decreases cs.len() - p,
{
    let q = skip_ws(cs, p);
    if at_char(cs, q, ')') {
        return Ok((params, q + 1));
    }
    let (name, e) = match parse_name(cs, q) {
        Ok(v) => v,
        Err(er) => return Err(er),
    };
    let q1 = skip_ws(cs, e);
    let optional = at_char(cs, q1, '?');
    let q2 = if optional {
        skip_ws(cs, q1 + 1)
    } else {
        q1
    };
    let q3 = match expect(cs, q2, ":") {
        Ok(v) => v,
        Err(er) => return Err(er),
    };
    let q4 = skip_ws(cs, q3);
    let (ty, e2) = match parse_ident(cs, q4) {
        Ok(v) => v,
        Err(er) => return Err(er),
    };
    let r = skip_ws(cs, e2);
    let mut params = params;
    let ghost before = params@;
    params.push(Param { name, ty, optional });
    assert(v_params(params@) =~= v_params(before).push(v_param(params@.last())));
    if at_char(cs, r, ',') {
        parse_params_items(cs, r + 1, params)
    } else if at_char(cs, r, ')') {
        Ok((params, r + 1))
    } else {
        fail("`,` or `)`", r)
    }
}

/// `s` without leading and trailing whitespace.
fn trim_chars(s: &Vec<char>) -> (r: Vec<char>)
    ensures
        r@ == trim_ws(s@),
{
    let a = run_end_exec(s, 0, Class::Space);
    let mut b = s.len();
    assert(s@.subrange(a as int, b as int) =~= s@.skip(a as int));
    while b > a && is_ws(s[b - 1])
        invariant
            a <= b <= s.len(),
            trailing_start(s@.skip(a as int)) == trailing_start(s@.subrange(a as int, b as int)),
        decreases b,
    {
        assert(s@.subrange(a as int, b as int).drop_last() =~= s@.subrange(a as int, b - 1));
        b = b - 1;
    }
    let r = chars_slice(s, a, b);
    assert(r@ =~= s@.subrange(a as int, a + trailing_start(s@.skip(a as int))));
    r
}

/// The declarations of a stylesheet rule, up to its closing brace.
fn parse_decls(cs: &Vec<char>, d: usize, decls: Vec<(String, String)>) -> (r: PResult<Vec<(String, String)>>)
    requires
        d <= cs.len(),
    ensures
        r_decls(r) == g_decls(cs@, d as int, decls@.map_values(|x: (String, String)| (x.0@, x.1@))),
        r matches Ok((_, e)) ==> d < e <= cs.len(),
    decreases cs.len() - d,
{
    let q = skip_ws(cs, d);
    if at_char(cs, q, '}') {
        return Ok((decls, q + 1));
    }
    let (prop, e) = match parse_attr_name(cs, q) {
        Ok(v) => v,
        Err(er) => return Err(er),
    };
    let v = skip_ws(cs, e);
    if !at_char(cs, v, '=') {
        return fail("=", v);
    }
    let v1 = run_end_exec(cs, v + 1, Class::Value);
    let value = trim_chars(&chars_slice(cs, v + 1, v1));
    let mut decls = decls;
    let ghost before = decls@;
    decls.push((prop, string_from_chars(&value)));
    assert(decls@.map_values(|x: (String, String)| (x.0@, x.1@)) =~= before.map_values(
        |x: (String, String)| (x.0@, x.1@),
    ).push((decls@.last().0@, decls@.last().1@)));
    parse_decls(cs, v1, decls)
}

/// The rules of a stylesheet, up to its closing brace.
fn parse_rules(cs: &Vec<char>, p: usize, rules: Vec<StyleRule>) -> (r: PResult<Vec<StyleRule>>)
    requires
        p <= cs.len(),
    ensures
        r_rules(r) == g_rules(cs@, p as int, rules@.map_values(|x: StyleRule| v_rule(x))),
        r matches Ok((_, e)) ==> p < e <= cs.len(),
    decreases cs.len() - p,
{
    let q = skip_ws(cs, p);
    if at_char(cs, q, '}') {
        return Ok((rules, q + 1));
    }
    let e = run_end_exec(cs, q, Class::Selector);
    if e == q {
        return fail("a selector", q);
    }
    let q1 = skip_ws(cs, e);
    if !at_char(cs, q1, '{') {
        return fail("{", q1);
    }
    let decls: Vec<(String, String)> = Vec::new();
    assert(decls@.map_values(|x: (String, String)| (x.0@, x.1@)) =~= Seq::<(Seq<char>, Seq<char>)>::empty());
    let (decls, d) = match parse_decls(cs, q1 + 1, decls) {
        Ok(v) => v,
        Err(er) => return Err(er),
    };
    let selector = string_from_chars(&chars_slice(cs, q, e));
    let mut rules = rules;
    let ghost before = rules@;
    rules.push(StyleRule { selector, decls });
    assert(rules@.map_values(|x: StyleRule| v_rule(x)) =~= before.map_values(|x: StyleRule| v_rule(x)).push(
        v_rule(rules@.last()),
    ));
    parse_rules(cs, d, rules)
}

/// `stylesheet { Selector { prop = value ... } ... }`, after the keyword.
fn parse_stylesheet(cs: &Vec<char>, after: usize) -> (r: PResult<Stylesheet>)
    requires
        after <= cs.len(),
    ensures
        match r {
            Ok((st, e)) => g_stylesheet(cs@, after as int) == Ok::<(Seq<VRule>, int), (Seq<char>, int)>(
                (st.rules@.map_values(|x: StyleRule| v_rule(x)), e as int),
            ) && after < e <= cs.len(),
            Err(er) => g_stylesheet(cs@, after as int) == Err::<(Seq<VRule>, int), (Seq<char>, int)>(perr(er)),
        },
{
    let q = skip_ws(cs, after);
    if !at_char(cs, q, '{') {
        return fail("{", q);
    }
    let rules: Vec<StyleRule> = Vec::new();
    assert(rules@.map_values(|x: StyleRule| v_rule(x)) =~= Seq::<VRule>::empty());
    match parse_rules(cs, q + 1, rules) {
        Ok((rules, e)) => Ok((Stylesheet { rules }, e)),
        Err(er) => Err(er),
    }
}

/// `name(params)`, the parameters optional, and the position after them.
fn parse_header(cs: &Vec<char>, p: usize) -> (r: Result<(String, Vec<Param>, usize), ParseError>)
    requires
        p <= cs.len(),
    ensures
        match r {
            Ok((n, ps, q)) => g_header(cs@, p as int) == Ok::<(Seq<char>, Seq<VParam>, int), (Seq<char>, int)>(
                (n@, v_params(ps@), q as int),
            ) && p < q <= cs.len(),
            Err(er) => g_header(cs@, p as int) == Err::<(Seq<char>, Seq<VParam>, int), (Seq<char>, int)>(perr(er)),
        },
{
    let q0 = skip_ws(cs, p);
    let (name, e) = match parse_name(cs, q0) {
        Ok(v) => v,
        Err(er) => return Err(er),
    };
    let q = skip_ws(cs, e);
    if at_char(cs, q, '(') {
        let (ps, e2) = match parse_params(cs, q) {
            Ok(v) => v,
            Err(er) => return Err(er),
        };
        Ok((name, ps, skip_ws(cs, e2)))
    } else {
        let ps: Vec<Param> = Vec::new();
        assert(v_params(ps@) =~= Seq::<VParam>::empty());
        Ok((name, ps, q))
    }
}

fn parse_item(cs: &Vec<char>, pos: usize) -> (r: PResult<Item>)
    requires
        pos <= cs.len(),
    ensures
        r_item(r) == g_item(cs@, pos as int),
        r matches Ok((_, e)) ==> pos < e <= cs.len(),
{
    if let Some(k) = keyword_at(cs, pos, "stylesheet") {
        return match parse_stylesheet(cs, k) {
            Ok((st, e)) => Ok((Item::Stylesheet(st), e)),
            Err(er) => Err(er),
        };
    }
    if let Some(k) = keyword_at(cs, pos, "component") {
        let (name, params, q) = match parse_header(cs, k) {
            Ok(v) => v,
            Err(er) => return Err(er),
        };
        let (body, e) = match parse_block(cs, q) {
            Ok(v) => v,
            Err(er) => return Err(er),
        };
        return Ok((Item::Component(Component { name, params, body }), e));
    }
    if let Some(k) = keyword_at(cs, pos, "fn") {
        let (name, params, q) = match parse_header(cs, k) {
            Ok(v) => v,
            Err(er) => return Err(er),
        };
        let q1 = match expect(cs, q, "=") {
            Ok(v) => v,
            Err(er) => return Err(er),
        };
        let q2 = skip_ws(cs, q1);
        let (body, e) = match parse_expr(cs, q2) {
            Ok(v) => v,
            Err(er) => return Err(er),
        };
        return Ok((Item::Function(Function { name, params, body }), e));
    }
    if let Some(k) = keyword_at(cs, pos, "const") {
        let q = skip_ws(cs, k);
        let (name, e) = match parse_name(cs, q) {
            Ok(v) => v,
            Err(er) => return Err(er),
        };
        let q0 = skip_ws(cs, e);
        let q1 = match expect(cs, q0, "=") {
            Ok(v) => v,
            Err(er) => return Err(er),
        };
        let q2 = skip_ws(cs, q1);
        let (value, e2) = match parse_expr(cs, q2) {
            Ok(v) => v,
            Err(er) => return Err(er),
        };
        return Ok((Item::Const(ConstDecl { name, value }), e2));
    }
    fail("`component`, `fn`, `const` or `stylesheet`", pos)
}

/// Where a parse error is reported: its offset, kept within the source.
pub open spec fn reported_offset(off: int, len: int) -> int {
    let o = if off > len { len } else { off };
    if o == usize::MAX {
        o - 1
    } else {
        o
    }
}

/// Parse a `.nono` source file.
pub fn parse(src: &str) -> (r: Result<File, ParseError>)
    ensures
        match r {
            Ok(f) => g_file(src@) == Ok::<Seq<VItem>, (Seq<char>, int)>(v_items(f.items@)),
            Err(e) => g_file(src@) matches Err((msg, off)) && e.expected@ == msg && e.offset as int
                == reported_offset(off, src@.len() as int) && (e.line as int, e.column as int) == line_col(
                src@,
                e.offset as int,
            ),
        },
{
    let cs = chars_of(src);
    let mut items: Vec<Item> = Vec::new();
    let mut p = skip_ws(&cs, 0);
    assert(v_items(items@) =~= Seq::<VItem>::empty());
    while p < cs.len()
        invariant
            p <= cs.len(),
            cs@ == src@,
            g_items(cs@, p as int, v_items(items@)) == g_file(src@),
        decreases cs.len() - p,
    {
        match parse_item(&cs, p) {
            Ok((item, e)) => {
                let ghost before = items@;
                items.push(item);
                assert(v_items(items@) =~= v_items(before).push(v_item(items@.last())));
                p = skip_ws(&cs, e);
            },
            Err(mut err) => {
                if err.offset > cs.len() {
                    err.offset = cs.len();
                }
                if err.offset == usize::MAX {
                    err.offset = usize::MAX - 1;
                }
                let (l, c) = locate(&cs, err.offset);
                err.line = l;
                err.column = c;
                return Err(err);
            },
        }
    }
    Ok(File { items })
}

} // verus!

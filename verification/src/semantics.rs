//! The meaning of a Nono program: a spec-level interpreter over the syntax
//! tree. `eval.rs` implements it and proves each function against it.
//!
//! Every component expansion, user function call and slot render spends one
//! unit of a nesting budget, so evaluation is total: a program that recurses
//! without end is reported as `TooDeep` instead of running forever.

use vstd::prelude::*;
use crate::ast::{Item, Component, Function, ConstDecl, Param, Node, Element, Arg, ArgValue, Slot, ForNode, MatchArm,
    Expr, BinOp, StrPart};
use crate::value::{VValue, dict_get, dict_set, v_truthy, v_tag, v_get_field, v_text, v_eq, v_debug};
use crate::html::{VHtml, known_tag};
use crate::error::VError;
use crate::text::lowercase;
use crate::sources::{Sources, glob_spec, read_markdown_spec, env_spec, http_spec};

verus! {

/// The nesting budget of a render: component expansions, user function calls
/// and slot renders nest at most this deep.
pub const MAX_DEPTH: u32 = 200;

/// A scope: name bindings, the last binding of a name wins.
pub type VEnv = Seq<(Seq<char>, VValue)>;

/// What evaluation reads besides the scope: the components, functions and
/// constants in play, and the data-source snapshot.
pub struct Ctx {
    pub comps: Seq<Component>,
    pub fns: Seq<Function>,
    pub consts: VEnv,
    pub src: Sources,
}

/// The slots of the component being rendered: the invocation's trailing block
/// (the default slot), its named fills, the scope they were written in, and
/// the slots that were active there.
pub struct VFills {
    pub default: Seq<Node>,
    pub named: Seq<(Seq<char>, Seq<Node>)>,
    pub capture: VEnv,
    pub outer: Option<Box<VFills>>,
}

pub open spec fn empty_fills() -> VFills {
    VFills { default: Seq::empty(), named: Seq::empty(), capture: Seq::empty(), outer: None }
}

/// The last binding of `k` in a scope.
pub open spec fn env_get(env: VEnv, k: Seq<char>) -> Option<VValue>
    decreases env.len(),
{
    if env.len() == 0 {
        None
    } else if env.last().0 == k {
        Some(env.last().1)
    } else {
        env_get(env.drop_last(), k)
    }
}

/// The index of the last component named `name`, or -1 (a later definition
/// replaces an earlier one).
pub open spec fn comp_index(comps: Seq<Component>, name: Seq<char>) -> int
    decreases comps.len(),
{
    if comps.len() == 0 {
        -1
    } else if comps.last().name@ == name {
        comps.len() - 1
    } else {
        comp_index(comps.drop_last(), name)
    }
}

/// The index of the last function named `name`, or -1.
pub open spec fn fn_index(fns: Seq<Function>, name: Seq<char>) -> int
    decreases fns.len(),
{
    if fns.len() == 0 {
        -1
    } else if fns.last().name@ == name {
        fns.len() - 1
    } else {
        fn_index(fns.drop_last(), name)
    }
}

/// A dotted path joined back together: `lastfm.recent`.
pub open spec fn join_path(p: Seq<String>) -> Seq<char>
    decreases p.len(),
{
    if p.len() == 0 {
        Seq::empty()
    } else if p.len() == 1 {
        p[0]@
    } else {
        join_path(p.drop_last()) + "."@ + p.last()@
    }
}

// ---- values ----

/// Following `.field`s from a value.
pub open spec fn s_fields(v: VValue, fields: Seq<String>) -> Result<VValue, VError>
    decreases fields.len(),
{
    if fields.len() == 0 {
        Ok(v)
    } else {
        match s_fields(v, fields.drop_last()) {
            Err(e) => Err(e),
            Ok(w) => match v_get_field(w, fields.last()@) {
                Some(x) => Ok(x),
                None => Err(VError::NoField(fields.last()@)),
            },
        }
    }
}

/// A path: its head is a scope binding or else a constant; the rest are fields.
pub open spec fn s_path(ctx: Ctx, p: Seq<String>, env: VEnv) -> Result<VValue, VError> {
    if p.len() == 0 {
        Err(VError::UnknownName(Seq::empty()))
    } else {
        let head = match env_get(env, p[0]@) {
            Some(v) => Some(v),
            None => env_get(ctx.consts, p[0]@),
        };
        match head {
            None => Err(VError::UnknownName(p[0]@)),
            Some(v) => s_fields(v, p.drop_first()),
        }
    }
}

/// `v[k]`: a dictionary (or tagged dictionary) by string key, a list by
/// position.
pub open spec fn s_index(v: VValue, k: VValue) -> Result<VValue, VError> {
    match (v, k) {
        (VValue::List(l), VValue::Number(n)) => if 0 <= n < l.len() {
            Ok(l[n])
        } else {
            Err(VError::IndexOutOfRange(n))
        },
        (VValue::Dict(_), VValue::Str(s)) => match v_get_field(v, s) {
            Some(x) => Ok(x),
            None => Err(VError::NoKey(s)),
        },
        (VValue::Tagged(..), VValue::Str(s)) => match v_get_field(v, s) {
            Some(x) => Ok(x),
            None => Err(VError::NoKey(s)),
        },
        _ => Err(VError::NotIndexable),
    }
}

pub open spec fn in_i64(n: int) -> bool {
    i64::MIN <= n <= i64::MAX
}

pub open spec fn abs(n: int) -> nat {
    if n < 0 {
        (-n) as nat
    } else {
        n as nat
    }
}

/// `a / b` when `b` divides `a`: the quotient of the magnitudes, negative when
/// exactly one of them is.
pub open spec fn exact_quotient(a: int, b: int) -> int {
    if (a < 0) == (b < 0) {
        (abs(a) / abs(b)) as int
    } else {
        -((abs(a) / abs(b)) as int)
    }
}

/// Binary operators. Comparison and arithmetic need numbers; arithmetic is on
/// whole numbers and reports overflow, division by zero and a division that
/// leaves a remainder.
pub open spec fn s_binop(l: VValue, op: BinOp, r: VValue) -> Result<VValue, VError> {
    match op {
        BinOp::Eq => Ok(VValue::Bool(v_eq(l, r))),
        BinOp::Ne => Ok(VValue::Bool(!v_eq(l, r))),
        _ => match (l, r) {
            (VValue::Number(a), VValue::Number(b)) => match op {
                BinOp::Lt => Ok(VValue::Bool(a < b)),
                BinOp::Le => Ok(VValue::Bool(a <= b)),
                BinOp::Gt => Ok(VValue::Bool(a > b)),
                BinOp::Ge => Ok(VValue::Bool(a >= b)),
                BinOp::Add => if in_i64(a + b) { Ok(VValue::Number(a + b)) } else { Err(VError::Overflow) },
                BinOp::Sub => if in_i64(a - b) { Ok(VValue::Number(a - b)) } else { Err(VError::Overflow) },
                BinOp::Mul => if in_i64(a * b) { Ok(VValue::Number(a * b)) } else { Err(VError::Overflow) },
                _ => if b == 0 {
                    Err(VError::DivideByZero)
                } else if abs(a) % abs(b) != 0 {
                    Err(VError::InexactDivision)
                } else if in_i64(exact_quotient(a, b)) {
                    Ok(VValue::Number(exact_quotient(a, b)))
                } else {
                    Err(VError::Overflow)
                },
            },
            _ => Err(VError::NotANumber(if l is Number { v_debug(r) } else { v_debug(l) })),
        },
    }
}

/// The value of the first of `names` bound in `named`, else the `i`-th positional.
pub open spec fn pick_arg(named: VEnv, name: Seq<char>, pos: Seq<VValue>, i: int) -> Option<VValue> {
    match env_get(named, name) {
        Some(v) => Some(v),
        None => if 0 <= i < pos.len() {
            Some(pos[i])
        } else {
            None
        },
    }
}

/// The built-in data sources, given evaluated arguments: `glob(pattern)`,
/// `markdown(file = ...)`, `http_get(url)` and `env(name)`. None for any
/// other name.
pub open spec fn s_builtin(src: Sources, name: Seq<char>, named: VEnv, pos: Seq<VValue>) -> Option<Result<VValue, VError>> {
    if name == "glob"@ {
        Some(
            if pos.len() > 0 {
                glob_spec(src, v_text(pos[0]))
            } else {
                Err(VError::MissingInput("glob"@))
            },
        )
    } else if name == "markdown"@ {
        Some(
            match pick_arg(named, "file"@, pos, 0) {
                Some(v) => read_markdown_spec(src, v_text(v)),
                None => Err(VError::MissingInput("markdown"@)),
            },
        )
    } else if name == "http_get"@ {
        Some(
            match pick_arg(named, "url"@, pos, 0) {
                Some(v) => http_spec(src, v_text(v)),
                None => Err(VError::MissingInput("http_get"@)),
            },
        )
    } else if name == "env"@ {
        Some(
            match pick_arg(named, "name"@, pos, 0) {
                Some(v) => env_spec(src, v_text(v)),
                None => Err(VError::MissingInput("env"@)),
            },
        )
    } else {
        None
    }
}

/// Binding a user function's parameters: by name, else the next positional
/// argument, else nil for an optional parameter.
pub open spec fn bind_fn_params(fname: Seq<char>, params: Seq<Param>, named: VEnv, pos: Seq<VValue>, next: int, acc: VEnv) -> Result<VEnv, VError>
    decreases params.len(),
{
    if params.len() == 0 {
        Ok(acc)
    } else {
        let p = params[0];
        match env_get(named, p.name@) {
            Some(v) => bind_fn_params(fname, params.drop_first(), named, pos, next, acc.push((p.name@, v))),
            None => if 0 <= next < pos.len() {
                bind_fn_params(fname, params.drop_first(), named, pos, next + 1, acc.push((p.name@, pos[next])))
            } else if p.optional {
                bind_fn_params(fname, params.drop_first(), named, pos, next, acc.push((p.name@, VValue::Nil)))
            } else {
                Err(VError::MissingArgument(p.name@, fname))
            },
        }
    }
}

// ---- expressions ----

pub open spec fn s_expr(ctx: Ctx, fuel: nat, e: Expr, env: VEnv) -> Result<VValue, VError>
    decreases fuel, e, 0nat,
{
    match e {
        Expr::Number(n) => Ok(VValue::Number(n as int)),
        Expr::Bool(b) => Ok(VValue::Bool(b)),
        Expr::Nil => Ok(VValue::Nil),
        Expr::Str(t) => match s_template(ctx, fuel, t.parts@, env) {
            Ok(s) => Ok(VValue::Str(s)),
            Err(er) => Err(er),
        },
        Expr::Path(p) => s_path(ctx, p@, env),
        Expr::Call(path, args) => match s_call_args(ctx, fuel, args@, env) {
            Err(er) => Err(er),
            Ok((named, pos)) => {
                let name = join_path(path@);
                match s_builtin(ctx.src, name, named, pos) {
                    Some(r) => r,
                    None => {
                        let i = fn_index(ctx.fns, name);
                        if i < 0 {
                            Err(VError::UnknownFunction(name))
                        } else if fuel == 0 {
                            Err(VError::TooDeep)
                        } else {
                            match bind_fn_params(name, ctx.fns[i].params@, named, pos, 0, Seq::empty()) {
                                Err(er) => Err(er),
                                Ok(scope) => s_expr(ctx, (fuel - 1) as nat, ctx.fns[i].body, scope),
                            }
                        }
                    },
                }
            },
        },
        Expr::Field(b, f) => match s_expr(ctx, fuel, *b, env) {
            Err(er) => Err(er),
            Ok(v) => match v_get_field(v, f@) {
                Some(x) => Ok(x),
                None => Err(VError::NoField(f@)),
            },
        },
        Expr::Index(b, k) => match s_expr(ctx, fuel, *b, env) {
            Err(er) => Err(er),
            Ok(v) => match s_expr(ctx, fuel, *k, env) {
                Err(er) => Err(er),
                Ok(kv) => s_index(v, kv),
            },
        },
        Expr::Binary(l, op, r) => match s_expr(ctx, fuel, *l, env) {
            Err(er) => Err(er),
            Ok(lv) => match s_expr(ctx, fuel, *r, env) {
                Err(er) => Err(er),
                Ok(rv) => s_binop(lv, op, rv),
            },
        },
        Expr::List(items) => match s_exprs(ctx, fuel, items@, env) {
            Err(er) => Err(er),
            Ok(vs) => Ok(VValue::List(vs)),
        },
        Expr::Dict(entries) => match s_dict(ctx, fuel, entries@, env) {
            Err(er) => Err(er),
            Ok(m) => Ok(VValue::Dict(m)),
        },
    }
}

/// An interpolated string: literal chunks and the text of each `{expr}`.
pub open spec fn s_template(ctx: Ctx, fuel: nat, parts: Seq<StrPart>, env: VEnv) -> Result<Seq<char>, VError>
    decreases fuel, parts, 0nat,
{
    if parts.len() == 0 {
        Ok(Seq::empty())
    } else {
        match s_template(ctx, fuel, parts.drop_last(), env) {
            Err(er) => Err(er),
            Ok(s) => match parts.last() {
                StrPart::Lit(l) => Ok(s + l@),
                StrPart::Interp(x) => match s_expr(ctx, fuel, x, env) {
                    Err(er) => Err(er),
                    Ok(v) => Ok(s + v_text(v)),
                },
            },
        }
    }
}

/// A list literal's items, left to right.
pub open spec fn s_exprs(ctx: Ctx, fuel: nat, es: Seq<Expr>, env: VEnv) -> Result<Seq<VValue>, VError>
    decreases fuel, es, 0nat,
{
    if es.len() == 0 {
        Ok(Seq::empty())
    } else {
        match s_exprs(ctx, fuel, es.drop_last(), env) {
            Err(er) => Err(er),
            Ok(vs) => match s_expr(ctx, fuel, es.last(), env) {
                Err(er) => Err(er),
                Ok(v) => Ok(vs.push(v)),
            },
        }
    }
}

/// A dictionary literal's entries, left to right; a repeated key keeps its
/// first position and its last value.
pub open spec fn s_dict(ctx: Ctx, fuel: nat, es: Seq<(String, Expr)>, env: VEnv) -> Result<Seq<(Seq<char>, VValue)>, VError>
    decreases fuel, es, 0nat,
{
    if es.len() == 0 {
        Ok(Seq::empty())
    } else {
        match s_dict(ctx, fuel, es.drop_last(), env) {
            Err(er) => Err(er),
            Ok(m) => match s_expr(ctx, fuel, es.last().1, env) {
                Err(er) => Err(er),
                Ok(v) => Ok(dict_set(m, es.last().0@, v)),
            },
        }
    }
}

/// A call's arguments, left to right: named ones (a later one wins) and
/// positional ones. A block argument is an error.
pub open spec fn s_call_args(ctx: Ctx, fuel: nat, args: Seq<Arg>, env: VEnv) -> Result<(VEnv, Seq<VValue>), VError>
    decreases fuel, args, 0nat,
{
    if args.len() == 0 {
        Ok((Seq::empty(), Seq::empty()))
    } else {
        match s_call_args(ctx, fuel, args.drop_last(), env) {
            Err(er) => Err(er),
            Ok((named, pos)) => match args.last() {
                Arg::Named(n, ArgValue::Expr(x)) => match s_expr(ctx, fuel, x, env) {
                    Err(er) => Err(er),
                    Ok(v) => Ok((named.push((n@, v)), pos)),
                },
                Arg::Named(_, ArgValue::Block(_)) => Err(VError::BlockInCall),
                Arg::Positional(x) => match s_expr(ctx, fuel, x, env) {
                    Err(er) => Err(er),
                    Ok(v) => Ok((named, pos.push(v))),
                },
            },
        }
    }
}


// ---- nodes ----

/// The number of nodes of a block that are not named fills: the default slot
/// is filled when this is positive.
pub open spec fn unnamed_count(ns: Seq<Node>) -> int
    decreases ns.len(),
{
    if ns.len() == 0 {
        0
    } else {
        unnamed_count(ns.drop_last()) + if ns.last() is NamedFill { 0int } else { 1int }
    }
}

/// The nodes filling the named slot `n`, if any (the first fill of that name).
pub open spec fn named_fill(named: Seq<(Seq<char>, Seq<Node>)>, n: Seq<char>) -> Option<Seq<Node>>
    decreases named.len(),
{
    if named.len() == 0 {
        None
    } else if named[0].0 == n {
        Some(named[0].1)
    } else {
        named_fill(named.drop_first(), n)
    }
}

/// A block's nodes in order, with `const`s binding for the nodes after them.
/// When `skip_fills`, named fills render nothing (they were routed to their
/// slots already); otherwise one is an error.
pub open spec fn s_nodes(ctx: Ctx, fuel: nat, ns: Seq<Node>, env: VEnv, fills: VFills, skip_fills: bool) -> Result<Seq<VHtml>, VError>
    decreases fuel, ns, 0nat,
{
    if ns.len() == 0 {
        Ok(Seq::empty())
    } else {
        match ns[0] {
            Node::LocalConst(name, x) => match s_expr(ctx, fuel, x, env) {
                Err(er) => Err(er),
                Ok(v) => s_nodes(ctx, fuel, ns.drop_first(), env.push((name@, v)), fills, skip_fills),
            },
            Node::NamedFill(name, _) => if skip_fills {
                s_nodes(ctx, fuel, ns.drop_first(), env, fills, skip_fills)
            } else {
                Err(VError::MisplacedFill(name@))
            },
            _ => match s_node(ctx, fuel, ns[0], env, fills) {
                Err(er) => Err(er),
                Ok(h) => match s_nodes(ctx, fuel, ns.drop_first(), env, fills, skip_fills) {
                    Err(er) => Err(er),
                    Ok(rest) => Ok(h + rest),
                },
            },
        }
    }
}

/// One node.
pub open spec fn s_node(ctx: Ctx, fuel: nat, n: Node, env: VEnv, fills: VFills) -> Result<Seq<VHtml>, VError>
    decreases fuel, n, 0nat,
{
    match n {
        Node::Text(t) => match s_template(ctx, fuel, t.parts@, env) {
            Err(er) => Err(er),
            Ok(s) => Ok(seq![VHtml::Text(s)]),
        },
        Node::RawHtml(r) => Ok(seq![VHtml::Raw(r@)]),
        Node::Element(el) => s_element(ctx, fuel, el, env, fills),
        Node::Slot(slot) => s_slot(ctx, fuel, slot, env, fills),
        Node::For(f) => match s_expr(ctx, fuel, f.iter, env) {
            Err(er) => Err(er),
            Ok(VValue::List(items)) => s_for(ctx, fuel, f, items, env, fills),
            Ok(v) => Err(VError::NotIterable(v_debug(v))),
        },
        Node::If(i) => match s_expr(ctx, fuel, i.cond, env) {
            Err(er) => Err(er),
            Ok(c) => if v_truthy(c) {
                s_nodes(ctx, fuel, i.then_body@, env, fills, false)
            } else {
                match i.otherwise {
                    Some(o) => s_nodes(ctx, fuel, o@, env, fills, false),
                    None => Ok(Seq::empty()),
                }
            },
        },
        Node::Match(m) => match s_expr(ctx, fuel, m.scrutinee, env) {
            Err(er) => Err(er),
            Ok(v) => s_arms(ctx, fuel, m.arms@, v, env, fills),
        },
        Node::NamedFill(name, _) => Err(VError::MisplacedFill(name@)),
        Node::LocalConst(name, _) => Err(VError::StrayConst(name@)),
    }
}

/// A `for` loop's body once per item, in order, with the binding bound to the item.
pub open spec fn s_for(ctx: Ctx, fuel: nat, f: ForNode, items: Seq<VValue>, env: VEnv, fills: VFills) -> Result<Seq<VHtml>, VError>
    decreases fuel, f, items.len(),
{
    if items.len() == 0 {
        Ok(Seq::empty())
    } else {
        match s_for(ctx, fuel, f, items.drop_last(), env, fills) {
            Err(er) => Err(er),
            Ok(h) => match s_nodes(ctx, fuel, f.body@, env.push((f.binding@, items.last())), fills, false) {
                Err(er) => Err(er),
                Ok(b) => Ok(h + b),
            },
        }
    }
}

/// The first arm whose pattern is `_` or names the value's tag, with its
/// binding bound to the payload of a tagged value (the value itself otherwise).
/// No matching arm renders nothing.
pub open spec fn s_arms(ctx: Ctx, fuel: nat, arms: Seq<MatchArm>, v: VValue, env: VEnv, fills: VFills) -> Result<Seq<VHtml>, VError>
    decreases fuel, arms, 0nat,
{
    if arms.len() == 0 {
        Ok(Seq::empty())
    } else {
        let arm = arms[0];
        if arm.pattern.tag@ == "_"@ || v_tag(v) == Some(arm.pattern.tag@) {
            let scope = match arm.pattern.binding {
                Some(b) => env.push((b@, match v {
                    VValue::Tagged(_, inner) => *inner,
                    other => other,
                })),
                None => env,
            };
            s_nodes(ctx, fuel, arm.body@, scope, fills, false)
        } else {
            s_arms(ctx, fuel, arms.drop_first(), v, env, fills)
        }
    }
}

/// A raw HTML element's attributes: named expression arguments, as text.
pub open spec fn s_attrs(ctx: Ctx, fuel: nat, args: Seq<Arg>, env: VEnv, tag: Seq<char>) -> Result<Seq<(Seq<char>, Seq<char>)>, VError>
    decreases fuel, args, 0nat,
{
    if args.len() == 0 {
        Ok(Seq::empty())
    } else {
        match s_attrs(ctx, fuel, args.drop_last(), env, tag) {
            Err(er) => Err(er),
            Ok(attrs) => match args.last() {
                Arg::Named(n, ArgValue::Expr(x)) => match s_expr(ctx, fuel, x, env) {
                    Err(er) => Err(er),
                    Ok(v) => Ok(attrs.push((n@, v_text(v)))),
                },
                Arg::Named(_, ArgValue::Block(_)) => Err(VError::BlockAttribute(tag)),
                Arg::Positional(_) => Err(VError::PositionalAttribute(tag)),
            },
        }
    }
}

/// An element: a component invocation when a component has that name, else a
/// known HTML element (lowercased) with attributes from its named arguments and
/// children from its block. `head` is hoisted into the document head.
pub open spec fn s_element(ctx: Ctx, fuel: nat, el: Element, env: VEnv, fills: VFills) -> Result<Seq<VHtml>, VError>
    decreases fuel, el, 1nat,
{
    let ci = comp_index(ctx.comps, el.name@);
    if ci >= 0 {
        s_expand(ctx, fuel, ctx.comps[ci], el, env, fills)
    } else {
        let tag = lowercase(el.name@);
        if !known_tag(tag) {
            Err(VError::UnknownElement(el.name@))
        } else {
            match s_attrs(ctx, fuel, el.args@, env, tag) {
                Err(er) => Err(er),
                Ok(attrs) => match s_nodes(ctx, fuel, el.children@, env, fills, false) {
                    Err(er) => Err(er),
                    Ok(children) => if tag == "head"@ {
                        Ok(seq![VHtml::Hoist { region: "head"@, children }])
                    } else {
                        Ok(seq![VHtml::Element { tag, attrs, children }])
                    },
                },
            }
        }
    }
}

/// The last named argument called `n`, if any.
pub open spec fn named_arg(args: Seq<Arg>, n: Seq<char>) -> Option<ArgValue>
    decreases args.len(),
{
    if args.len() == 0 {
        None
    } else {
        match args.last() {
            Arg::Named(m, v) => if m@ == n {
                Some(v)
            } else {
                named_arg(args.drop_last(), n)
            },
            _ => named_arg(args.drop_last(), n),
        }
    }
}

/// The positional arguments, in order.
pub open spec fn positional_args(args: Seq<Arg>) -> Seq<Expr>
    decreases args.len(),
{
    if args.len() == 0 {
        Seq::empty()
    } else {
        match args.last() {
            Arg::Positional(x) => positional_args(args.drop_last()).push(x),
            _ => positional_args(args.drop_last()),
        }
    }
}

/// Binding a component's parameters from an invocation, in parameter order: a
/// named argument of that name (a block there is an error), else the next
/// positional argument, else nil for an optional parameter.
pub open spec fn s_bind(ctx: Ctx, fuel: nat, cname: Seq<char>, params: Seq<Param>, args: Vec<Arg>, next: int, env: VEnv, acc: VEnv) -> Result<VEnv, VError>
    decreases fuel, args, params.len(),
{
    if params.len() == 0 {
        Ok(acc)
    } else {
        let p = params[0];
        match named_arg(args@, p.name@) {
            Some(ArgValue::Expr(x)) => match s_expr(ctx, fuel, x, env) {
                Err(er) => Err(er),
                Ok(v) => s_bind(ctx, fuel, cname, params.drop_first(), args, next, env, acc.push((p.name@, v))),
            },
            Some(ArgValue::Block(_)) => Err(VError::ParamGotBlock(p.name@)),
            None => if 0 <= next < positional_args(args@).len() {
                match s_expr(ctx, fuel, positional_args(args@)[next], env) {
                    Err(er) => Err(er),
                    Ok(v) => s_bind(ctx, fuel, cname, params.drop_first(), args, next + 1, env, acc.push((p.name@, v))),
                }
            } else if p.optional {
                s_bind(ctx, fuel, cname, params.drop_first(), args, next, env, acc.push((p.name@, VValue::Nil)))
            } else {
                Err(VError::MissingArgument(p.name@, cname))
            },
        }
    }
}

/// The named slot fills of an invocation: `name = { ... }` nodes in the
/// trailing block, then block-valued named arguments. A name filled twice is
/// an error.
pub open spec fn s_fill_children(ns: Seq<Node>, acc: Seq<(Seq<char>, Seq<Node>)>) -> Result<Seq<(Seq<char>, Seq<Node>)>, VError>
    decreases ns.len(),
{
    if ns.len() == 0 {
        Ok(acc)
    } else {
        match ns[0] {
            Node::NamedFill(name, nodes) => if named_fill(acc, name@) is Some {
                Err(VError::SlotFilledTwice(name@))
            } else {
                s_fill_children(ns.drop_first(), acc.push((name@, nodes@)))
            },
            _ => s_fill_children(ns.drop_first(), acc),
        }
    }
}

pub open spec fn s_fill_args(args: Seq<Arg>, acc: Seq<(Seq<char>, Seq<Node>)>) -> Result<Seq<(Seq<char>, Seq<Node>)>, VError>
    decreases args.len(),
{
    if args.len() == 0 {
        Ok(acc)
    } else {
        match args[0] {
            Arg::Named(name, ArgValue::Block(nodes)) => if named_fill(acc, name@) is Some {
                Err(VError::SlotFilledTwice(name@))
            } else {
                s_fill_args(args.drop_first(), acc.push((name@, nodes@)))
            },
            _ => s_fill_args(args.drop_first(), acc),
        }
    }
}

/// Expanding a component: bind its parameters, route the invocation's block
/// into its slots (capturing the caller's scope and slots), and render its
/// body with its parameters alone in scope.
pub open spec fn s_expand(ctx: Ctx, fuel: nat, comp: Component, call: Element, env: VEnv, outer: VFills) -> Result<Seq<VHtml>, VError>
    decreases fuel, call, 0nat,
{
    if fuel == 0 {
        Err(VError::TooDeep)
    } else {
        match s_bind(ctx, fuel, comp.name@, comp.params@, call.args, 0, env, Seq::empty()) {
            Err(er) => Err(er),
            Ok(scope) => match s_fill_children(call.children@, Seq::empty()) {
                Err(er) => Err(er),
                Ok(named0) => match s_fill_args(call.args@, named0) {
                    Err(er) => Err(er),
                    Ok(named) => {
                        let fills = VFills {
                            default: call.children@,
                            named,
                            capture: env,
                            outer: Some(Box::new(outer)),
                        };
                        s_nodes(ctx, (fuel - 1) as nat, comp.body@, scope, fills, false)
                    },
                },
            },
        }
    }
}

/// A slot: its fill, rendered in the scope and with the slots it was written
/// in, or the `or =` fallback's text when unfilled (nil renders nothing).
pub open spec fn s_slot(ctx: Ctx, fuel: nat, slot: Slot, env: VEnv, fills: VFills) -> Result<Seq<VHtml>, VError>
    decreases fuel, slot, 0nat,
{
    let filled: Option<(Seq<Node>, bool)> = match slot.name {
        None => if unnamed_count(fills.default) > 0 {
            Some((fills.default, true))
        } else {
            None
        },
        Some(n) => match named_fill(fills.named, n@) {
            Some(ns) => if ns.len() > 0 {
                Some((ns, false))
            } else {
                None
            },
            None => None,
        },
    };
    match filled {
        Some((ns, skip)) => if fuel == 0 {
            Err(VError::TooDeep)
        } else {
            let inner = match fills.outer {
                Some(o) => *o,
                None => empty_fills(),
            };
            s_nodes(ctx, (fuel - 1) as nat, ns, fills.capture, inner, skip)
        },
        None => match slot.or {
            Some(x) => match s_expr(ctx, fuel, x, env) {
                Err(er) => Err(er),
                Ok(VValue::Nil) => Ok(Seq::empty()),
                Ok(v) => Ok(seq![VHtml::Text(v_text(v))]),
            },
            None => Ok(Seq::empty()),
        },
    }
}


// ---- entry points ----

/// Rendering a component as a page: its body, with nothing in scope and no
/// slots filled.
pub open spec fn s_render(ctx: Ctx, name: Seq<char>) -> Result<Seq<VHtml>, VError> {
    let ci = comp_index(ctx.comps, name);
    if ci < 0 {
        Err(VError::NoComponent(name))
    } else {
        s_nodes(ctx, MAX_DEPTH as nat, ctx.comps[ci].body@, Seq::empty(), empty_fills(), false)
    }
}

/// Binding a layout's parameters from frontmatter fields: each parameter takes
/// the field of its name; a missing field is nil for an optional parameter and
/// an error otherwise.
pub open spec fn bind_layout(lname: Seq<char>, params: Seq<Param>, fm: Seq<(Seq<char>, VValue)>, acc: VEnv) -> Result<VEnv, VError>
    decreases params.len(),
{
    if params.len() == 0 {
        Ok(acc)
    } else {
        let p = params[0];
        match dict_get(fm, p.name@) {
            Some(v) => bind_layout(lname, params.drop_first(), fm, acc.push((p.name@, v))),
            None => if p.optional {
                bind_layout(lname, params.drop_first(), fm, acc.push((p.name@, VValue::Nil)))
            } else {
                Err(VError::LayoutField(lname, p.name@, p.ty@))
            },
        }
    }
}

/// Rendering a layout around a markdown page: its parameters bound from the
/// frontmatter, and the rendered body (as raw HTML) filling its default slot.
pub open spec fn s_render_layout(ctx: Ctx, name: Seq<char>, fm: Seq<(Seq<char>, VValue)>, body: String) -> Result<Seq<VHtml>, VError> {
    let ci = comp_index(ctx.comps, name);
    if ci < 0 {
        Err(VError::NoLayout(name))
    } else {
        match bind_layout(name, ctx.comps[ci].params@, fm, Seq::empty()) {
            Err(er) => Err(er),
            Ok(scope) => {
                let fills = VFills { default: seq![Node::RawHtml(body)], named: Seq::empty(), capture: scope, outer: None };
                s_nodes(ctx, MAX_DEPTH as nat, ctx.comps[ci].body@, scope, fills, false)
            },
        }
    }
}

/// The components among a file's items, in order.
pub open spec fn item_components(items: Seq<Item>) -> Seq<Component>
    decreases items.len(),
{
    if items.len() == 0 {
        Seq::empty()
    } else {
        match items.last() {
            Item::Component(c) => item_components(items.drop_last()).push(c),
            _ => item_components(items.drop_last()),
        }
    }
}

/// The functions among a file's items, in order.
pub open spec fn item_functions(items: Seq<Item>) -> Seq<Function>
    decreases items.len(),
{
    if items.len() == 0 {
        Seq::empty()
    } else {
        match items.last() {
            Item::Function(f) => item_functions(items.drop_last()).push(f),
            _ => item_functions(items.drop_last()),
        }
    }
}

/// The constant declarations among a file's items, in order.
pub open spec fn item_consts(items: Seq<Item>) -> Seq<ConstDecl>
    decreases items.len(),
{
    if items.len() == 0 {
        Seq::empty()
    } else {
        match items.last() {
            Item::Const(c) => item_consts(items.drop_last()).push(c),
            _ => item_consts(items.drop_last()),
        }
    }
}

/// Evaluating constants in declaration order, each seeing those before it.
pub open spec fn s_consts(comps: Seq<Component>, fns: Seq<Function>, src: Sources, decls: Seq<ConstDecl>) -> Result<VEnv, VError>
    decreases decls.len(),
{
    if decls.len() == 0 {
        Ok(Seq::empty())
    } else {
        match s_consts(comps, fns, src, decls.drop_last()) {
            Err(er) => Err(er),
            Ok(consts) => {
                let ctx = Ctx { comps, fns, consts, src };
                match s_expr(ctx, MAX_DEPTH as nat, decls.last().value, Seq::empty()) {
                    Err(er) => Err(er),
                    Ok(v) => Ok(consts.push((decls.last().name@, v))),
                }
            },
        }
    }
}

/// The evaluation context of a program: its components and functions, and its
/// constants, evaluated.
pub open spec fn s_new(items: Seq<Item>, src: Sources) -> Result<Ctx, VError> {
    let comps = item_components(items);
    let fns = item_functions(items);
    match s_consts(comps, fns, src, item_consts(items)) {
        Err(er) => Err(er),
        Ok(consts) => Ok(Ctx { comps, fns, consts, src }),
    }
}

/// Law: on numbers, `<`, `<=`, `>` and `>=` compare as integers and `==`
/// and `!=` test equality (so `<=` is `<` or `==`, and `x <= x` always holds);
/// `+`, `-` and `*` give the integer result when it fits in 64 bits, and `/`
/// gives the exact quotient when the divisor divides the dividend.
pub proof fn lemma_number_operators(a: int, b: int)
    ensures
        s_binop(VValue::Number(a), BinOp::Lt, VValue::Number(b)) == Ok::<VValue, VError>(VValue::Bool(a < b)),
        s_binop(VValue::Number(a), BinOp::Le, VValue::Number(b)) == Ok::<VValue, VError>(VValue::Bool(a < b || a == b)),
        s_binop(VValue::Number(a), BinOp::Gt, VValue::Number(b)) == Ok::<VValue, VError>(VValue::Bool(b < a)),
        s_binop(VValue::Number(a), BinOp::Ge, VValue::Number(b)) == Ok::<VValue, VError>(VValue::Bool(b < a || a == b)),
        s_binop(VValue::Number(a), BinOp::Eq, VValue::Number(b)) == Ok::<VValue, VError>(VValue::Bool(a == b)),
        s_binop(VValue::Number(a), BinOp::Ne, VValue::Number(b)) == Ok::<VValue, VError>(VValue::Bool(a != b)),
        s_binop(VValue::Number(a), BinOp::Le, VValue::Number(a)) == Ok::<VValue, VError>(VValue::Bool(true)),
        s_binop(VValue::Number(a), BinOp::Ge, VValue::Number(a)) == Ok::<VValue, VError>(VValue::Bool(true)),
        i64::MIN <= a + b <= i64::MAX ==> s_binop(VValue::Number(a), BinOp::Add, VValue::Number(b)) == Ok::<
            VValue,
            VError,
        >(VValue::Number(a + b)),
        i64::MIN <= a - b <= i64::MAX ==> s_binop(VValue::Number(a), BinOp::Sub, VValue::Number(b)) == Ok::<
            VValue,
            VError,
        >(VValue::Number(a - b)),
        i64::MIN <= a * b <= i64::MAX ==> s_binop(VValue::Number(a), BinOp::Mul, VValue::Number(b)) == Ok::<
            VValue,
            VError,
        >(VValue::Number(a * b)),
        b == 0 ==> s_binop(VValue::Number(a), BinOp::Div, VValue::Number(b)) == Err::<VValue, VError>(
            VError::DivideByZero,
        ),
        !(i64::MIN <= a + b <= i64::MAX) ==> s_binop(VValue::Number(a), BinOp::Add, VValue::Number(b)) == Err::<
            VValue,
            VError,
        >(VError::Overflow),
        !(i64::MIN <= a - b <= i64::MAX) ==> s_binop(VValue::Number(a), BinOp::Sub, VValue::Number(b)) == Err::<
            VValue,
            VError,
        >(VError::Overflow),
        !(i64::MIN <= a * b <= i64::MAX) ==> s_binop(VValue::Number(a), BinOp::Mul, VValue::Number(b)) == Err::<
            VValue,
            VError,
        >(VError::Overflow),
{
}

/// Law: a division that leaves a remainder is an error, not a rounded result.
pub proof fn lemma_inexact_division(a: int, b: int)
    requires
        b != 0,
        a % b != 0,
    ensures
        s_binop(VValue::Number(a), BinOp::Div, VValue::Number(b)) == Err::<VValue, VError>(VError::InexactDivision),
{
    let aa = abs(a) as int;
    let ab = abs(b) as int;
    if aa % ab == 0 {
        let q = aa / ab;
        assert(aa == ab * q) by (nonlinear_arith)
            requires
                ab > 0,
                aa % ab == 0,
                q == aa / ab,
        ;
        let sq = if (a < 0) == (b < 0) { q } else { -q };
        assert(a == b * sq) by (nonlinear_arith)
            requires
                aa == ab * q,
                aa == (if a < 0 { -a } else { a }),
                ab == (if b < 0 { -b } else { b }),
                sq == (if (a < 0) == (b < 0) { q } else { -q }),
        ;
        vstd::arithmetic::div_mod::lemma_mod_multiples_basic(if b < 0 { -sq } else { sq }, ab);
        assert(a % b == 0) by (nonlinear_arith)
            requires
                a == b * sq,
                b != 0,
                ab == (if b < 0 { -b } else { b }),
                ((if b < 0 { -sq } else { sq }) * ab) % ab == 0,
        ;
    }
}

/// Law: `==` and `!=` on strings compare the text, and on booleans the value.
pub proof fn lemma_text_equality(x: Seq<char>, y: Seq<char>, p: bool, q: bool)
    ensures
        s_binop(VValue::Str(x), BinOp::Eq, VValue::Str(y)) == Ok::<VValue, VError>(VValue::Bool(x == y)),
        s_binop(VValue::Str(x), BinOp::Ne, VValue::Str(y)) == Ok::<VValue, VError>(VValue::Bool(x != y)),
        s_binop(VValue::Bool(p), BinOp::Eq, VValue::Bool(q)) == Ok::<VValue, VError>(VValue::Bool(p == q)),
        s_binop(VValue::Str(x), BinOp::Eq, VValue::Bool(p)) == Ok::<VValue, VError>(VValue::Bool(false)),
        s_binop(VValue::Nil, BinOp::Eq, VValue::Nil) == Ok::<VValue, VError>(VValue::Bool(true)),
        s_binop(VValue::Str(x), BinOp::Eq, VValue::Nil) == Ok::<VValue, VError>(VValue::Bool(false)),
{
}

/// Law: what `if` treats as true: `true`, a non-zero number, a non-empty
/// string, list or dictionary, and any tagged value; `false`, `0`, the empty
/// string, list and dictionary, and nil are false.
pub proof fn lemma_truthiness(n: int, t: Seq<char>, xs: Seq<VValue>, es: Seq<(Seq<char>, VValue)>, tag: Seq<char>, v: VValue)
    ensures
        v_truthy(VValue::Bool(true)),
        !v_truthy(VValue::Bool(false)),
        !v_truthy(VValue::Nil),
        v_truthy(VValue::Number(n)) == (n != 0),
        v_truthy(VValue::Str(t)) == (t.len() > 0),
        v_truthy(VValue::List(xs)) == (xs.len() > 0),
        v_truthy(VValue::Dict(es)) == (es.len() > 0),
        v_truthy(VValue::Tagged(tag, Box::new(v))),
{
}

/// Law: `a / b` is the exact quotient `q` whenever `a == b * q` with `b` not
/// zero and `q` in range.
pub proof fn lemma_exact_division(b: int, q: int)
    requires
        b != 0,
        i64::MIN <= q <= i64::MAX,
    ensures
        s_binop(VValue::Number(b * q), BinOp::Div, VValue::Number(b)) == Ok::<VValue, VError>(
            VValue::Number(q),
        ),
{
    let a = b * q;
    let ab = abs(b) as int;
    let aq = abs(q) as int;
    assert(abs(a) as int == aq * ab) by (nonlinear_arith)
        requires
            a == b * q,
            ab == (if b < 0 { -b } else { b }),
            aq == (if q < 0 { -q } else { q }),
            abs(a) as int == (if a < 0 { -a } else { a }),
    ;
    vstd::arithmetic::div_mod::lemma_mod_multiples_basic(aq, ab);
    vstd::arithmetic::div_mod::lemma_div_by_multiple(aq, ab);
    assert(abs(a) % abs(b) == 0);
    assert(abs(a) / abs(b) == aq);
    if q != 0 {
        assert((a < 0) == ((b < 0) != (q < 0))) by (nonlinear_arith)
            requires
                a == b * q,
                b != 0,
                q != 0,
        ;
    } else {
        assert(a == 0) by (nonlinear_arith)
            requires
                a == b * q,
                q == 0,
        ;
    }
}

} // verus!

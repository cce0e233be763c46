//! Evaluation: syntax tree + data -> HTML tree.
//!
//! This is the middle of the pipeline. It walks `Node`s with a scope of bound
//! variables, folds `for`/`if`/`match` away, expands user components by binding
//! their parameters and filling their `Slot()` holes, and resolves expressions
//! (including string interpolation) to `Value`s. Each function is proved to
//! compute what `semantics.rs` says.

use vstd::prelude::*;
use crate::ast::{Item, Component, Function, ConstDecl, Param, Node, Element, Arg, ArgValue, Slot, ForNode, MatchArm,
    Expr, BinOp, StrPart, StrTemplate};
use crate::value::{Value, VValue, debug_text, view_entries, view_values, lemma_view_entries, lemma_view_entries_push,
    lemma_view_values, lemma_view_values_push, dict_get, dict_set, dict_insert, v_truthy, v_tag, v_get_field, v_text,
    v_eq, values_eq, opt_value_view};
use crate::html::{Html, VHtml, view_htmls, lemma_view_htmls, lemma_view_htmls_push, lemma_view_htmls_add, known_tag,
    is_known_tag, view_attrs};
use crate::error::{EvalError, VError};
use crate::sources::{Sources, res_view, glob, read_markdown, env_var, http_get};
use crate::text::{owned, str_eq, chars_of, push_chars, push_str, string_from_chars, str_to_lowercase};
use crate::semantics::{MAX_DEPTH, VEnv, Ctx, VFills, empty_fills, env_get, comp_index, fn_index, join_path, s_fields,
    s_path, s_index, in_i64, s_binop, pick_arg, s_builtin, bind_fn_params, s_expr, s_template, s_exprs, s_dict,
    s_call_args, unnamed_count, named_fill, s_nodes, s_node, s_for, s_arms, s_attrs, s_element, named_arg,
    positional_args, s_bind, s_fill_children, s_fill_args, s_expand, s_slot, s_render, bind_layout, s_render_layout,
    item_components, item_functions, item_consts, s_consts, s_new};

verus! {

/// A scope of local variable bindings (loop variables, match bindings,
/// parameters, block constants); the last binding of a name wins.
pub type Env = Vec<(String, Value)>;

pub struct Evaluator {
    components: Vec<Component>,
    functions: Vec<Function>,
    consts: Vec<(String, Value)>,
    sources: Sources,
}

impl View for Evaluator {
    type V = Ctx;

    closed spec fn view(&self) -> Ctx {
        Ctx { comps: self.components@, fns: self.functions@, consts: view_entries(self.consts@), src: self.sources }
    }
}

pub open spec fn vres_value(r: Result<Value, EvalError>) -> Result<VValue, VError> {
    match r {
        Ok(v) => Ok(v@),
        Err(e) => Err(e@),
    }
}

pub open spec fn vres_html(r: Result<Vec<Html>, EvalError>) -> Result<Seq<VHtml>, VError> {
    match r {
        Ok(v) => Ok(view_htmls(v@)),
        Err(e) => Err(e@),
    }
}

/// The last binding of `k` in a scope.
pub fn env_lookup(env: &Env, k: &str) -> (r: Option<Value>)
    ensures
        opt_value_view(r) == env_get(view_entries(env@), k@),
{
    proof {
        lemma_view_entries(env@);
        assert(view_entries(env@).take(env@.len() as int) =~= view_entries(env@));
    }
    let ghost ve = view_entries(env@);
    let mut i = env.len();
    while i > 0
        invariant
            i <= env.len(),
            ve == view_entries(env@),
            ve.len() == env@.len(),
            forall|j: int| 0 <= j < env@.len() ==> #[trigger] ve[j] == (env@[j].0@, env@[j].1@),
            env_get(ve, k@) == env_get(ve.take(i as int), k@),
        decreases i,
    {
        assert(ve.take(i as int).drop_last() =~= ve.take(i - 1));
        if str_eq(env[i - 1].0.as_str(), k) {
            return Some(env[i - 1].1.deep_clone());
        }
        i = i - 1;
    }
    None
}

/// A copy of a scope.
fn clone_env(env: &Env) -> (r: Env)
    ensures
        view_entries(r@) == view_entries(env@),
{
    crate::value::clone_entries(env)
}

/// `env` with `k` bound to `v`.
fn bind(env: &mut Env, k: String, v: Value)
    ensures
        view_entries(final(env)@) == view_entries(old(env)@).push((k@, v@)),
{
    proof {
        lemma_view_entries_push(env@, (k, v));
    }
    env.push((k, v));
}

/// A dotted path joined back together.
fn join_path_exec(p: &Vec<String>) -> (r: String)
    ensures
        r@ == join_path(p@),
{
    let mut out: Vec<char> = Vec::new();
    let mut i: usize = 0;
    while i < p.len()
        invariant
            i <= p.len(),
            out@ == join_path(p@.take(i as int)),
        decreases p.len() - i,
    {
        assert(p@.take(i + 1).drop_last() =~= p@.take(i as int));
        if i > 0 {
            push_str(&mut out, ".");
        }
        let cs = chars_of(p[i].as_str());
        push_chars(&mut out, &cs);
        proof {
            if i == 0 {
                assert(p@.take(1)[0] == p@[0]);
                assert(out@ =~= p@[0]@);
            }
        }
        i = i + 1;
    }
    assert(p@.take(p.len() as int) =~= p@);
    string_from_chars(&out)
}

fn follow_fields(v: Value, fields: &Vec<String>, from: usize) -> (r: Result<Value, EvalError>)
    requires
        from <= fields.len(),
    ensures
        vres_value(r) == s_fields(v@, fields@.skip(from as int)),
{
    let ghost fs = fields@.skip(from as int);
    let mut cur = v;
    let mut i = from;
    assert(fs.take(0) =~= Seq::<String>::empty());
    while i < fields.len()
        invariant
            from <= i <= fields.len(),
            fs == fields@.skip(from as int),
            s_fields(v@, fs.take(i - from)) == Ok::<VValue, VError>(cur@),
        decreases fields.len() - i,
    {
        assert(fs.take(i - from + 1).drop_last() =~= fs.take(i - from));
        assert(fs.take(i - from + 1).last() == fields@[i as int]);
        match cur.get_field(fields[i].as_str()) {
            Some(x) => {
                cur = x;
            },
            None => {
                proof {
                    lemma_fields_err(v@, fs, i - from);
                }
                return Err(EvalError::NoField(fields[i].clone()));
            },
        }
        i = i + 1;
    }
    assert(fs.take(i - from) =~= fs);
    Ok(cur)
}

proof fn lemma_fields_err(v: VValue, fs: Seq<String>, k: int)
    requires
        0 <= k < fs.len(),
        s_fields(v, fs.take(k + 1)) is Err,
    ensures
        s_fields(v, fs) == s_fields(v, fs.take(k + 1)),
    decreases fs.len(),
{
    if fs.len() == k + 1 {
        assert(fs.take(k + 1) =~= fs);
    } else {
        assert(fs.drop_last().take(k + 1) =~= fs.take(k + 1));
        lemma_fields_err(v, fs.drop_last(), k);
    }
}

fn eval_index(v: Value, k: Value) -> (r: Result<Value, EvalError>)
    ensures
        vres_value(r) == s_index(v@, k@),
{
    match (&v, &k) {
        (Value::List(l), Value::Number(n)) => {
            proof {
                lemma_view_values(l@);
            }
            if *n >= 0 && (*n as u64) < (l.len() as u64) {
                Ok(l[*n as usize].deep_clone())
            } else {
                Err(EvalError::IndexOutOfRange(*n))
            }
        },
        (Value::Dict(_), Value::Str(s)) => match v.get_field(s.as_str()) {
            Some(x) => Ok(x),
            None => Err(EvalError::NoKey(s.clone())),
        },
        (Value::Tagged(..), Value::Str(s)) => match v.get_field(s.as_str()) {
            Some(x) => Ok(x),
            None => Err(EvalError::NoKey(s.clone())),
        },
        _ => Err(EvalError::NotIndexable),
    }
}

fn eval_binop(l: Value, op: BinOp, r: Value) -> (res: Result<Value, EvalError>)
    ensures
        vres_value(res) == s_binop(l@, op, r@),
{
    match op {
        BinOp::Eq => return Ok(Value::Bool(values_eq(&l, &r))),
        BinOp::Ne => return Ok(Value::Bool(!values_eq(&l, &r))),
        _ => {},
    }
    let (a, b) = match (&l, &r) {
        (Value::Number(a), Value::Number(b)) => (*a, *b),
        (Value::Number(_), _) => return Err(EvalError::NotANumber(debug_text(&r))),
        _ => return Err(EvalError::NotANumber(debug_text(&l))),
    };
    match op {
        BinOp::Lt => Ok(Value::Bool(a < b)),
        BinOp::Le => Ok(Value::Bool(a <= b)),
        BinOp::Gt => Ok(Value::Bool(a > b)),
        BinOp::Ge => Ok(Value::Bool(a >= b)),
        BinOp::Add => match a.checked_add(b) {
            Some(n) => Ok(Value::Number(n)),
            None => Err(EvalError::Overflow),
        },
        BinOp::Sub => match a.checked_sub(b) {
            Some(n) => Ok(Value::Number(n)),
            None => Err(EvalError::Overflow),
        },
        BinOp::Mul => match a.checked_mul(b) {
            Some(n) => Ok(Value::Number(n)),
            None => Err(EvalError::Overflow),
        },
        _ => {
            if b == 0 {
                return Err(EvalError::DivideByZero);
            }
            let ua: u128 = if a < 0 { (0i128 - a as i128) as u128 } else { a as u128 };
            let ub: u128 = if b < 0 { (0i128 - b as i128) as u128 } else { b as u128 };
            assert(ua as int == crate::semantics::abs(a as int));
            assert(ub as int == crate::semantics::abs(b as int));
            if ua % ub != 0 {
                return Err(EvalError::InexactDivision);
            }
            let qm: u128 = ua / ub;
            assert(qm <= ua) by (nonlinear_arith)
                requires qm == ua / ub, ub > 0 {}
            let q: i128 = if (a < 0) == (b < 0) { qm as i128 } else { 0i128 - qm as i128 };
            if q >= -9223372036854775808i128 && q <= 9223372036854775807i128 {
                Ok(Value::Number(q as i64))
            } else {
                Err(EvalError::Overflow)
            }
        },
    }
}


// ---- prefix lemmas: an error in a prefix is the error of the whole ----

proof fn lemma_template_err(ctx: Ctx, fuel: nat, parts: Seq<StrPart>, env: VEnv, k: int)
    requires
        0 <= k < parts.len(),
        s_template(ctx, fuel, parts.take(k + 1), env) is Err,
    ensures
        s_template(ctx, fuel, parts, env) == s_template(ctx, fuel, parts.take(k + 1), env),
    decreases parts.len(),
{
    if parts.len() == k + 1 {
        assert(parts.take(k + 1) =~= parts);
    } else {
        assert(parts.drop_last().take(k + 1) =~= parts.take(k + 1));
        lemma_template_err(ctx, fuel, parts.drop_last(), env, k);
    }
}

proof fn lemma_exprs_err(ctx: Ctx, fuel: nat, es: Seq<Expr>, env: VEnv, k: int)
    requires
        0 <= k < es.len(),
        s_exprs(ctx, fuel, es.take(k + 1), env) is Err,
    ensures
        s_exprs(ctx, fuel, es, env) == s_exprs(ctx, fuel, es.take(k + 1), env),
    decreases es.len(),
{
    if es.len() == k + 1 {
        assert(es.take(k + 1) =~= es);
    } else {
        assert(es.drop_last().take(k + 1) =~= es.take(k + 1));
        lemma_exprs_err(ctx, fuel, es.drop_last(), env, k);
    }
}

proof fn lemma_dict_err(ctx: Ctx, fuel: nat, es: Seq<(String, Expr)>, env: VEnv, k: int)
    requires
        0 <= k < es.len(),
        s_dict(ctx, fuel, es.take(k + 1), env) is Err,
    ensures
        s_dict(ctx, fuel, es, env) == s_dict(ctx, fuel, es.take(k + 1), env),
    decreases es.len(),
{
    if es.len() == k + 1 {
        assert(es.take(k + 1) =~= es);
    } else {
        assert(es.drop_last().take(k + 1) =~= es.take(k + 1));
        lemma_dict_err(ctx, fuel, es.drop_last(), env, k);
    }
}

proof fn lemma_call_args_err(ctx: Ctx, fuel: nat, args: Seq<Arg>, env: VEnv, k: int)
    requires
        0 <= k < args.len(),
        s_call_args(ctx, fuel, args.take(k + 1), env) is Err,
    ensures
        s_call_args(ctx, fuel, args, env) == s_call_args(ctx, fuel, args.take(k + 1), env),
    decreases args.len(),
{
    if args.len() == k + 1 {
        assert(args.take(k + 1) =~= args);
    } else {
        assert(args.drop_last().take(k + 1) =~= args.take(k + 1));
        lemma_call_args_err(ctx, fuel, args.drop_last(), env, k);
    }
}

proof fn lemma_attrs_err(ctx: Ctx, fuel: nat, args: Seq<Arg>, env: VEnv, tag: Seq<char>, k: int)
    requires
        0 <= k < args.len(),
        s_attrs(ctx, fuel, args.take(k + 1), env, tag) is Err,
    ensures
        s_attrs(ctx, fuel, args, env, tag) == s_attrs(ctx, fuel, args.take(k + 1), env, tag),
    decreases args.len(),
{
    if args.len() == k + 1 {
        assert(args.take(k + 1) =~= args);
    } else {
        assert(args.drop_last().take(k + 1) =~= args.take(k + 1));
        lemma_attrs_err(ctx, fuel, args.drop_last(), env, tag, k);
    }
}

proof fn lemma_for_err(ctx: Ctx, fuel: nat, f: ForNode, items: Seq<VValue>, env: VEnv, fills: VFills, k: int)
    requires
        0 <= k < items.len(),
        s_for(ctx, fuel, f, items.take(k + 1), env, fills) is Err,
    ensures
        s_for(ctx, fuel, f, items, env, fills) == s_for(ctx, fuel, f, items.take(k + 1), env, fills),
    decreases items.len(),
{
    if items.len() == k + 1 {
        assert(items.take(k + 1) =~= items);
    } else {
        assert(items.drop_last().take(k + 1) =~= items.take(k + 1));
        lemma_for_err(ctx, fuel, f, items.drop_last(), env, fills, k);
    }
}

// ---- lookups ----

proof fn lemma_comp_index(comps: Seq<Component>, name: Seq<char>)
    ensures
        -1 <= comp_index(comps, name) < comps.len(),
        comp_index(comps, name) >= 0 ==> comps[comp_index(comps, name)].name@ == name,
    decreases comps.len(),
{
    if comps.len() > 0 {
        lemma_comp_index(comps.drop_last(), name);
    }
}

proof fn lemma_fn_index(fns: Seq<Function>, name: Seq<char>)
    ensures
        -1 <= fn_index(fns, name) < fns.len(),
    decreases fns.len(),
{
    if fns.len() > 0 {
        lemma_fn_index(fns.drop_last(), name);
    }
}

impl Evaluator {
    fn find_component(&self, name: &str) -> (r: Option<usize>)
        ensures
            match r {
                Some(i) => i as int == comp_index(self.components@, name@) && i < self.components@.len(),
                None => comp_index(self.components@, name@) < 0,
            },
    {
        proof {
            lemma_comp_index(self.components@, name@);
            assert(self.components@.take(self.components@.len() as int) =~= self.components@);
        }
        let mut i = self.components.len();
        while i > 0
            invariant
                i <= self.components@.len(),
                comp_index(self.components@, name@) == comp_index(self.components@.take(i as int), name@),
            decreases i,
        {
            assert(self.components@.take(i as int).drop_last() =~= self.components@.take(i - 1));
            if str_eq(self.components[i - 1].name.as_str(), name) {
                return Some(i - 1);
            }
            i = i - 1;
        }
        None
    }

    fn find_function(&self, name: &str) -> (r: Option<usize>)
        ensures
            match r {
                Some(i) => i as int == fn_index(self.functions@, name@) && i < self.functions@.len(),
                None => fn_index(self.functions@, name@) < 0,
            },
    {
        proof {
            lemma_fn_index(self.functions@, name@);
            assert(self.functions@.take(self.functions@.len() as int) =~= self.functions@);
        }
        let mut i = self.functions.len();
        while i > 0
            invariant
                i <= self.functions@.len(),
                fn_index(self.functions@, name@) == fn_index(self.functions@.take(i as int), name@),
            decreases i,
        {
            assert(self.functions@.take(i as int).drop_last() =~= self.functions@.take(i - 1));
            if str_eq(self.functions[i - 1].name.as_str(), name) {
                return Some(i - 1);
            }
            i = i - 1;
        }
        None
    }

    /// Whether a component of that name is defined.
    pub fn has_component(&self, name: &str) -> (r: bool)
        ensures
            r == (comp_index(self@.comps, name@) >= 0),
    {
        self.find_component(name).is_some()
    }
}

fn pick_arg_exec(named: &Env, name: &str, pos: &Vec<Value>, i: usize) -> (r: Option<Value>)
    ensures
        opt_value_view(r) == pick_arg(view_entries(named@), name@, view_values(pos@), i as int),
{
    proof {
        lemma_view_values(pos@);
    }
    match env_lookup(named, name) {
        Some(v) => Some(v),
        None => if i < pos.len() {
            Some(pos[i].deep_clone())
        } else {
            None
        },
    }
}

fn call_builtin(src: &Sources, name: &String, named: &Env, pos: &Vec<Value>) -> (r: Option<Result<Value, EvalError>>)
    ensures
        match r {
            None => s_builtin(*src, name@, view_entries(named@), view_values(pos@)) is None,
            Some(x) => s_builtin(*src, name@, view_entries(named@), view_values(pos@)) == Some(vres_value(x)),
        },
{
    proof {
        lemma_view_values(pos@);
    }
    if str_eq(name.as_str(), "glob") {
        if pos.len() > 0 {
            let p = pos[0].to_text();
            Some(glob(src, p.as_str()))
        } else {
            Some(Err(EvalError::MissingInput(owned("glob"))))
        }
    } else if str_eq(name.as_str(), "markdown") {
        match pick_arg_exec(named, "file", pos, 0) {
            Some(v) => {
                let p = v.to_text();
                Some(read_markdown(src, p.as_str()))
            },
            None => Some(Err(EvalError::MissingInput(owned("markdown")))),
        }
    } else if str_eq(name.as_str(), "http_get") {
        match pick_arg_exec(named, "url", pos, 0) {
            Some(v) => {
                let p = v.to_text();
                Some(http_get(src, p.as_str()))
            },
            None => Some(Err(EvalError::MissingInput(owned("http_get")))),
        }
    } else if str_eq(name.as_str(), "env") {
        match pick_arg_exec(named, "name", pos, 0) {
            Some(v) => {
                let p = v.to_text();
                Some(env_var(src, p.as_str()))
            },
            None => Some(Err(EvalError::MissingInput(owned("env")))),
        }
    } else {
        None
    }
}

fn bind_fn_params_exec(fname: &String, params: &Vec<Param>, named: &Env, pos: &Vec<Value>) -> (r: Result<Env, EvalError>)
    ensures
        match r {
            Ok(env) => bind_fn_params(fname@, params@, view_entries(named@), view_values(pos@), 0, Seq::empty())
                == Ok::<VEnv, VError>(view_entries(env@)),
            Err(e) => bind_fn_params(fname@, params@, view_entries(named@), view_values(pos@), 0, Seq::empty())
                == Err::<VEnv, VError>(e@),
        },
{
    proof {
        lemma_view_values(pos@);
    }
    let ghost vn = view_entries(named@);
    let ghost vp = view_values(pos@);
    let mut acc: Env = Vec::new();
    let mut next: usize = 0;
    let mut i: usize = 0;
    assert(params@.skip(0) =~= params@);
    assert(view_entries(acc@) =~= Seq::<(Seq<char>, VValue)>::empty());
    while i < params.len()
        invariant
            i <= params.len(),
            next <= pos.len(),
            vn == view_entries(named@),
            vp == view_values(pos@),
            vp.len() == pos@.len(),
            forall|j: int| 0 <= j < pos@.len() ==> #[trigger] vp[j] == pos@[j]@,
            bind_fn_params(fname@, params@, vn, vp, 0, Seq::empty())
                == bind_fn_params(fname@, params@.skip(i as int), vn, vp, next as int, view_entries(acc@)),
        decreases params.len() - i,
    {
        let p = &params[i];
        assert(params@.skip(i as int).drop_first() =~= params@.skip(i + 1));
        assert(params@.skip(i as int)[0] == params@[i as int]);
        match env_lookup(named, p.name.as_str()) {
            Some(v) => {
                bind(&mut acc, p.name.clone(), v);
            },
            None => {
                if next < pos.len() {
                    bind(&mut acc, p.name.clone(), pos[next].deep_clone());
                    next = next + 1;
                } else if p.optional {
                    bind(&mut acc, p.name.clone(), Value::Nil);
                } else {
                    return Err(EvalError::MissingArgument(p.name.clone(), fname.clone()));
                }
            },
        }
        i = i + 1;
    }
    Ok(acc)
}


impl Evaluator {
    fn eval_expr(&self, e: &Expr, env: &Env, fuel: u32) -> (r: Result<Value, EvalError>)
        ensures
            vres_value(r) == s_expr(self@, fuel as nat, *e, view_entries(env@)),
        decreases fuel, e, 0nat,
    {
        match e {
            Expr::Number(n) => Ok(Value::Number(*n)),
            Expr::Bool(b) => Ok(Value::Bool(*b)),
            Expr::Nil => Ok(Value::Nil),
            Expr::Str(t) => {
                let s = self.eval_template(&t.parts, env, fuel)?;
                Ok(Value::Str(s))
            },
            Expr::Path(p) => {
                if p.len() == 0 {
                    let empty = owned("");
                    proof {
                        reveal_strlit("");
                        assert(empty@ =~= Seq::<char>::empty());
                    }
                    return Err(EvalError::UnknownName(empty));
                }
                let head = match env_lookup(env, p[0].as_str()) {
                    Some(v) => v,
                    None => match env_lookup(&self.consts, p[0].as_str()) {
                        Some(v) => v,
                        None => return Err(EvalError::UnknownName(p[0].clone())),
                    },
                };
                assert(p@.skip(1) =~= p@.drop_first());
                follow_fields(head, p, 1)
            },
            Expr::Call(path, args) => {
                let (named, pos) = self.eval_call_args(args, env, fuel)?;
                let name = join_path_exec(path);
                match call_builtin(&self.sources, &name, &named, &pos) {
                    Some(r) => r,
                    None => {
                        let fi = match self.find_function(name.as_str()) {
                            None => return Err(EvalError::UnknownFunction(name)),
                            Some(fi) => fi,
                        };
                        if fuel == 0 {
                            return Err(EvalError::TooDeep);
                        }
                        let f = &self.functions[fi];
                        let scope = bind_fn_params_exec(&name, &f.params, &named, &pos)?;
                        self.eval_expr(&f.body, &scope, fuel - 1)
                    },
                }
            },
            Expr::Field(b, f) => {
                let v = self.eval_expr(b, env, fuel)?;
                match v.get_field(f.as_str()) {
                    Some(x) => Ok(x),
                    None => Err(EvalError::NoField(f.clone())),
                }
            },
            Expr::Index(b, k) => {
                let v = self.eval_expr(b, env, fuel)?;
                let kv = self.eval_expr(k, env, fuel)?;
                eval_index(v, kv)
            },
            Expr::Binary(l, op, r) => {
                let lv = self.eval_expr(l, env, fuel)?;
                let rv = self.eval_expr(r, env, fuel)?;
                eval_binop(lv, *op, rv)
            },
            Expr::List(items) => {
                let vs = self.eval_exprs(items, env, fuel)?;
                Ok(Value::List(vs))
            },
            Expr::Dict(entries) => {
                let m = self.eval_dict(entries, env, fuel)?;
                Ok(Value::Dict(m))
            },
        }
    }

    fn eval_template(&self, parts: &Vec<StrPart>, env: &Env, fuel: u32) -> (r: Result<String, EvalError>)
        ensures
            match r {
                Ok(s) => s_template(self@, fuel as nat, parts@, view_entries(env@)) == Ok::<Seq<char>, VError>(s@),
                Err(e) => s_template(self@, fuel as nat, parts@, view_entries(env@)) == Err::<Seq<char>, VError>(e@),
            },
        decreases fuel, parts, 0nat,
    {
        let ghost venv = view_entries(env@);
        let mut out: Vec<char> = Vec::new();
        let mut i: usize = 0;
        while i < parts.len()
            invariant
                i <= parts.len(),
                venv == view_entries(env@),
                s_template(self@, fuel as nat, parts@.take(i as int), venv) == Ok::<Seq<char>, VError>(out@),
            decreases parts.len() - i,
        {
            assert(parts@.take(i + 1).drop_last() =~= parts@.take(i as int));
            assert(parts@.take(i + 1).last() == parts@[i as int]);
            match &parts[i] {
                StrPart::Lit(l) => {
                    let cs = chars_of(l.as_str());
                    push_chars(&mut out, &cs);
                },
                StrPart::Interp(x) => {
                    proof {
                        assert(decreases_to!(parts => parts@));
                        assert(decreases_to!(parts@ => parts@[i as int]));
                    }
                    match self.eval_expr(x, env, fuel) {
                        Err(er) => {
                            proof {
                                lemma_template_err(self@, fuel as nat, parts@, venv, i as int);
                            }
                            return Err(er);
                        },
                        Ok(v) => {
                            let t = v.to_text();
                            let cs = chars_of(t.as_str());
                            push_chars(&mut out, &cs);
                        },
                    }
                },
            }
            i = i + 1;
        }
        assert(parts@.take(parts.len() as int) =~= parts@);
        Ok(string_from_chars(&out))
    }

    fn eval_exprs(&self, es: &Vec<Expr>, env: &Env, fuel: u32) -> (r: Result<Vec<Value>, EvalError>)
        ensures
            match r {
                Ok(vs) => s_exprs(self@, fuel as nat, es@, view_entries(env@)) == Ok::<Seq<VValue>, VError>(view_values(vs@)),
                Err(e) => s_exprs(self@, fuel as nat, es@, view_entries(env@)) == Err::<Seq<VValue>, VError>(e@),
            },
        decreases fuel, es, 0nat,
    {
        let ghost venv = view_entries(env@);
        let mut out: Vec<Value> = Vec::new();
        let mut i: usize = 0;
        while i < es.len()
            invariant
                i <= es.len(),
                venv == view_entries(env@),
                s_exprs(self@, fuel as nat, es@.take(i as int), venv) == Ok::<Seq<VValue>, VError>(view_values(out@)),
            decreases es.len() - i,
        {
            assert(es@.take(i + 1).drop_last() =~= es@.take(i as int));
            assert(es@.take(i + 1).last() == es@[i as int]);
            proof {
                assert(decreases_to!(es => es@));
                assert(decreases_to!(es@ => es@[i as int]));
            }
            match self.eval_expr(&es[i], env, fuel) {
                Err(er) => {
                    proof {
                        lemma_exprs_err(self@, fuel as nat, es@, venv, i as int);
                    }
                    return Err(er);
                },
                Ok(v) => {
                    proof {
                        lemma_view_values_push(out@, v);
                    }
                    out.push(v);
                },
            }
            i = i + 1;
        }
        assert(es@.take(es.len() as int) =~= es@);
        Ok(out)
    }

    fn eval_dict(&self, es: &Vec<(String, Expr)>, env: &Env, fuel: u32) -> (r: Result<Vec<(String, Value)>, EvalError>)
        ensures
            match r {
                Ok(m) => s_dict(self@, fuel as nat, es@, view_entries(env@)) == Ok::<Seq<(Seq<char>, VValue)>, VError>(view_entries(m@)),
                Err(e) => s_dict(self@, fuel as nat, es@, view_entries(env@)) == Err::<Seq<(Seq<char>, VValue)>, VError>(e@),
            },
        decreases fuel, es, 0nat,
    {
        let ghost venv = view_entries(env@);
        let mut out: Vec<(String, Value)> = Vec::new();
        let mut i: usize = 0;
        assert(view_entries(out@) =~= Seq::<(Seq<char>, VValue)>::empty());
        while i < es.len()
            invariant
                i <= es.len(),
                venv == view_entries(env@),
                s_dict(self@, fuel as nat, es@.take(i as int), venv) == Ok::<Seq<(Seq<char>, VValue)>, VError>(view_entries(out@)),
            decreases es.len() - i,
        {
            assert(es@.take(i + 1).drop_last() =~= es@.take(i as int));
            assert(es@.take(i + 1).last() == es@[i as int]);
            proof {
                assert(decreases_to!(es => es@));
                assert(decreases_to!(es@ => es@[i as int]));
                assert(decreases_to!(es@[i as int] => es@[i as int].1));
            }
            match self.eval_expr(&es[i].1, env, fuel) {
                Err(er) => {
                    proof {
                        lemma_dict_err(self@, fuel as nat, es@, venv, i as int);
                    }
                    return Err(er);
                },
                Ok(v) => {
                    dict_insert(&mut out, es[i].0.clone(), v);
                },
            }
            i = i + 1;
        }
        assert(es@.take(es.len() as int) =~= es@);
        Ok(out)
    }

    fn eval_call_args(&self, args: &Vec<Arg>, env: &Env, fuel: u32) -> (r: Result<(Env, Vec<Value>), EvalError>)
        ensures
            match r {
                Ok((named, pos)) => s_call_args(self@, fuel as nat, args@, view_entries(env@))
                    == Ok::<(VEnv, Seq<VValue>), VError>((view_entries(named@), view_values(pos@))),
                Err(e) => s_call_args(self@, fuel as nat, args@, view_entries(env@)) == Err::<(VEnv, Seq<VValue>), VError>(e@),
            },
        decreases fuel, args, 0nat,
    {
        let ghost venv = view_entries(env@);
        let mut named: Env = Vec::new();
        let mut pos: Vec<Value> = Vec::new();
        let mut i: usize = 0;
        assert(view_entries(named@) =~= Seq::<(Seq<char>, VValue)>::empty());
        assert(view_values(pos@) =~= Seq::<VValue>::empty());
        while i < args.len()
            invariant
                i <= args.len(),
                venv == view_entries(env@),
                s_call_args(self@, fuel as nat, args@.take(i as int), venv)
                    == Ok::<(VEnv, Seq<VValue>), VError>((view_entries(named@), view_values(pos@))),
            decreases args.len() - i,
        {
            assert(args@.take(i + 1).drop_last() =~= args@.take(i as int));
            assert(args@.take(i + 1).last() == args@[i as int]);
            proof {
                assert(decreases_to!(args => args@));
                assert(decreases_to!(args@ => args@[i as int]));
            }
            match &args[i] {
                Arg::Named(n, ArgValue::Expr(x)) => {
                    match self.eval_expr(x, env, fuel) {
                        Err(er) => {
                            proof {
                                lemma_call_args_err(self@, fuel as nat, args@, venv, i as int);
                            }
                            return Err(er);
                        },
                        Ok(v) => bind(&mut named, n.clone(), v),
                    }
                },
                Arg::Named(_, ArgValue::Block(_)) => {
                    proof {
                        lemma_call_args_err(self@, fuel as nat, args@, venv, i as int);
                    }
                    return Err(EvalError::BlockInCall);
                },
                Arg::Positional(x) => {
                    match self.eval_expr(x, env, fuel) {
                        Err(er) => {
                            proof {
                                lemma_call_args_err(self@, fuel as nat, args@, venv, i as int);
                            }
                            return Err(er);
                        },
                        Ok(v) => {
                            proof {
                                lemma_view_values_push(pos@, v);
                            }
                            pos.push(v);
                        },
                    }
                },
            }
            i = i + 1;
        }
        assert(args@.take(args.len() as int) =~= args@);
        Ok((named, pos))
    }
}


// ---- slots ----

/// The slots of the component being rendered: the invocation's trailing block
/// (the default slot), its named fills, the scope they were written in, and
/// the slots that were active there (so a `Slot()` inside a fill resolves to
/// the enclosing component's slot).
pub struct SlotFills<'a> {
    default: &'a Vec<Node>,
    named: Vec<(&'a String, &'a Vec<Node>)>,
    capture: &'a Env,
    outer: Option<&'a SlotFills<'a>>,
}

pub open spec fn view_named(n: Seq<(&String, &Vec<Node>)>) -> Seq<(Seq<char>, Seq<Node>)> {
    Seq::new(n.len(), |i: int| (n[i].0@, n[i].1@))
}

pub closed spec fn fills_view(f: SlotFills) -> VFills
    decreases f,
{
    VFills {
        default: f.default@,
        named: view_named(f.named@),
        capture: view_entries(f.capture@),
        outer: match f.outer {
            Some(o) => Some(Box::new(fills_view(*o))),
            None => None,
        },
    }
}

proof fn lemma_then_step(prefix: Seq<VHtml>, h: Seq<VHtml>, r: Result<Seq<VHtml>, VError>)
    ensures
        then(prefix, then(h, r)) == then(prefix + h, r),
{
    match r {
        Ok(x) => {
            assert(prefix + (h + x) =~= (prefix + h) + x);
        },
        Err(_) => {},
    }
}

/// `r` with `prefix` in front of its HTML.
pub open spec fn then(prefix: Seq<VHtml>, r: Result<Seq<VHtml>, VError>) -> Result<Seq<VHtml>, VError> {
    match r {
        Ok(x) => Ok(prefix + x),
        Err(e) => Err(e),
    }
}

fn count_unnamed(ns: &Vec<Node>) -> (r: usize)
    ensures
        r as int == unnamed_count(ns@),
{
    let mut n: usize = 0;
    let mut i: usize = 0;
    while i < ns.len()
        invariant
            i <= ns.len(),
            n <= i,
            n as int == unnamed_count(ns@.take(i as int)),
        decreases ns.len() - i,
    {
        assert(ns@.take(i + 1).drop_last() =~= ns@.take(i as int));
        match &ns[i] {
            Node::NamedFill(..) => {},
            _ => {
                n = n + 1;
            },
        }
        i = i + 1;
    }
    assert(ns@.take(ns.len() as int) =~= ns@);
    n
}

fn lookup_fill<'a>(named: &Vec<(&'a String, &'a Vec<Node>)>, n: &String) -> (r: Option<&'a Vec<Node>>)
    ensures
        match r {
            Some(ns) => named_fill(view_named(named@), n@) == Some(ns@),
            None => named_fill(view_named(named@), n@) is None,
        },
{
    let ghost vn = view_named(named@);
    let mut i: usize = 0;
    assert(vn.skip(0) =~= vn);
    while i < named.len()
        invariant
            i <= named.len(),
            vn == view_named(named@),
            named_fill(vn, n@) == named_fill(vn.skip(i as int), n@),
        decreases named.len() - i,
    {
        assert(vn.skip(i as int)[0] == vn[i as int]);
        assert(vn.skip(i as int).drop_first() =~= vn.skip(i + 1));
        if *named[i].0 == *n {
            return Some(named[i].1);
        }
        i = i + 1;
    }
    None
}

fn fill_children<'a>(ns: &'a Vec<Node>, acc0: Vec<(&'a String, &'a Vec<Node>)>) -> (r: Result<Vec<(&'a String, &'a Vec<Node>)>, EvalError>)
    ensures
        match r {
            Ok(v) => s_fill_children(ns@, view_named(acc0@)) == Ok::<Seq<(Seq<char>, Seq<Node>)>, VError>(view_named(v@)),
            Err(e) => s_fill_children(ns@, view_named(acc0@)) == Err::<Seq<(Seq<char>, Seq<Node>)>, VError>(e@),
        },
{
    let mut acc = acc0;
    let ghost a0 = view_named(acc@);
    let mut i: usize = 0;
    assert(ns@.skip(0) =~= ns@);
    while i < ns.len()
        invariant
            i <= ns.len(),
            a0 == view_named(acc0@),
            s_fill_children(ns@, a0) == s_fill_children(ns@.skip(i as int), view_named(acc@)),
        decreases ns.len() - i,
    {
        assert(ns@.skip(i as int)[0] == ns@[i as int]);
        assert(ns@.skip(i as int).drop_first() =~= ns@.skip(i + 1));
        match &ns[i] {
            Node::NamedFill(name, nodes) => {
                if lookup_fill(&acc, name).is_some() {
                    let er = EvalError::SlotFilledTwice(name.clone());
                    assert(s_fill_children(ns@.skip(i as int), view_named(acc@)) == Err::<Seq<(Seq<char>, Seq<Node>)>, VError>(er@));
                    return Err(er);
                }
                let ghost before = view_named(acc@);
                acc.push((name, nodes));
                assert(view_named(acc@) =~= before.push((name@, nodes@)));
            },
            _ => {},
        }
        i = i + 1;
    }
    Ok(acc)
}

fn fill_args<'a>(args: &'a Vec<Arg>, acc0: Vec<(&'a String, &'a Vec<Node>)>) -> (r: Result<Vec<(&'a String, &'a Vec<Node>)>, EvalError>)
    ensures
        match r {
            Ok(v) => s_fill_args(args@, view_named(acc0@)) == Ok::<Seq<(Seq<char>, Seq<Node>)>, VError>(view_named(v@)),
            Err(e) => s_fill_args(args@, view_named(acc0@)) == Err::<Seq<(Seq<char>, Seq<Node>)>, VError>(e@),
        },
{
    let mut acc = acc0;
    let ghost a0 = view_named(acc@);
    let mut i: usize = 0;
    assert(args@.skip(0) =~= args@);
    while i < args.len()
        invariant
            i <= args.len(),
            a0 == view_named(acc0@),
            s_fill_args(args@, a0) == s_fill_args(args@.skip(i as int), view_named(acc@)),
        decreases args.len() - i,
    {
        assert(args@.skip(i as int)[0] == args@[i as int]);
        assert(args@.skip(i as int).drop_first() =~= args@.skip(i + 1));
        match &args[i] {
            Arg::Named(name, ArgValue::Block(nodes)) => {
                if lookup_fill(&acc, name).is_some() {
                    return Err(EvalError::SlotFilledTwice(name.clone()));
                }
                let ghost before = view_named(acc@);
                acc.push((name, nodes));
                assert(view_named(acc@) =~= before.push((name@, nodes@)));
            },
            _ => {},
        }
        i = i + 1;
    }
    Ok(acc)
}

/// The last named argument called `n`.
fn find_named_arg(args: &Vec<Arg>, n: &String) -> (r: Option<usize>)
    ensures
        match r {
            Some(j) => j < args@.len() && (args@[j as int] matches Arg::Named(m, v) && m@ == n@ && named_arg(args@, n@) == Some(v)),
            None => named_arg(args@, n@) is None,
        },
{
    let mut i = args.len();
    assert(args@.take(args@.len() as int) =~= args@);
    while i > 0
        invariant
            i <= args@.len(),
            named_arg(args@, n@) == named_arg(args@.take(i as int), n@),
        decreases i,
    {
        assert(args@.take(i as int).drop_last() =~= args@.take(i - 1));
        assert(args@.take(i as int).last() == args@[i - 1]);
        match &args[i - 1] {
            Arg::Named(m, _) => {
                if *m == *n {
                    return Some(i - 1);
                }
            },
            _ => {},
        }
        i = i - 1;
    }
    None
}

/// The indices of the positional arguments, in order.
fn positional_indices(args: &Vec<Arg>) -> (r: Vec<usize>)
    ensures
        r@.len() == positional_args(args@).len(),
        forall|k: int| 0 <= k < r@.len() ==> #[trigger] r@[k] < args@.len()
            && args@[r@[k] as int] == Arg::Positional(positional_args(args@)[k]),
{
    let mut out: Vec<usize> = Vec::new();
    let mut i: usize = 0;
    while i < args.len()
        invariant
            i <= args.len(),
            out@.len() == positional_args(args@.take(i as int)).len(),
            forall|k: int| 0 <= k < out@.len() ==> #[trigger] out@[k] < i
                && args@[out@[k] as int] == Arg::Positional(positional_args(args@.take(i as int))[k]),
        decreases args.len() - i,
    {
        assert(args@.take(i + 1).drop_last() =~= args@.take(i as int));
        assert(args@.take(i + 1).last() == args@[i as int]);
        match &args[i] {
            Arg::Positional(_) => {
                out.push(i);
            },
            _ => {},
        }
        i = i + 1;
    }
    assert(args@.take(args.len() as int) =~= args@);
    out
}


impl Evaluator {
    fn eval_nodes(&self, nodes: &Vec<Node>, env: &Env, fills: &SlotFills, skip_fills: bool, fuel: u32) -> (r: Result<Vec<Html>, EvalError>)
        ensures
            vres_html(r) == s_nodes(self@, fuel as nat, nodes@, view_entries(env@), fills_view(*fills), skip_fills),
        decreases fuel, nodes, 0nat,
    {
        let ghost fv = fills_view(*fills);
        let ghost whole = s_nodes(self@, fuel as nat, nodes@, view_entries(env@), fv, skip_fills);
        let mut scope = clone_env(env);
        let mut out: Vec<Html> = Vec::new();
        let mut i: usize = 0;
        assert(nodes@.skip(0) =~= nodes@);
        assert(Seq::<VHtml>::empty() + Seq::<VHtml>::empty() =~= Seq::<VHtml>::empty());
        proof {
            match whole {
                Ok(x) => {
                    assert(view_htmls(out@) + x =~= x);
                },
                Err(_) => {},
            }
        }
        while i < nodes.len()
            invariant
                i <= nodes.len(),
                fv == fills_view(*fills),
                whole == s_nodes(self@, fuel as nat, nodes@, view_entries(env@), fv, skip_fills),
                whole == then(view_htmls(out@), s_nodes(self@, fuel as nat, nodes@.skip(i as int), view_entries(scope@), fv, skip_fills)),
            decreases nodes.len() - i,
        {
            assert(nodes@.skip(i as int)[0] == nodes@[i as int]);
            assert(nodes@.skip(i as int).drop_first() =~= nodes@.skip(i + 1));
            proof {
                assert(decreases_to!(nodes => nodes@));
                assert(decreases_to!(nodes@ => nodes@[i as int]));
            }
            match &nodes[i] {
                Node::LocalConst(name, x) => {
                    let v = match self.eval_expr(x, &scope, fuel) {
                        Ok(v) => v,
                        Err(er) => return Err(er),
                    };
                    bind(&mut scope, name.clone(), v);
                },
                Node::NamedFill(name, _) => {
                    if !skip_fills {
                        return Err(EvalError::MisplacedFill(name.clone()));
                    }
                },
                _ => {
                    let h = match self.eval_node(&nodes[i], &scope, fills, fuel) {
                        Ok(h) => h,
                        Err(er) => return Err(er),
                    };
                    proof {
                        lemma_then_step(
                            view_htmls(out@),
                            view_htmls(h@),
                            s_nodes(self@, fuel as nat, nodes@.skip(i + 1), view_entries(scope@), fv, skip_fills),
                        );
                        lemma_view_htmls_add(out@, h@);
                    }
                    let mut h = h;
                    out.append(&mut h);
                },
            }
            i = i + 1;
        }
        proof {
            assert(view_htmls(out@) + Seq::<VHtml>::empty() =~= view_htmls(out@));
        }
        Ok(out)
    }

    fn eval_node(&self, n: &Node, env: &Env, fills: &SlotFills, fuel: u32) -> (r: Result<Vec<Html>, EvalError>)
        ensures
            vres_html(r) == s_node(self@, fuel as nat, *n, view_entries(env@), fills_view(*fills)),
        decreases fuel, n, 0nat,
    {
        match n {
            Node::Text(t) => {
                let s = self.eval_template(&t.parts, env, fuel)?;
                let mut v: Vec<Html> = Vec::new();
                v.push(Html::Text(s));
                proof {
                    lemma_view_htmls_push(Seq::empty(), Html::Text(s));
                    assert(Seq::<Html>::empty().push(Html::Text(s)) =~= v@);
                }
                Ok(v)
            },
            Node::RawHtml(r) => {
                let mut v: Vec<Html> = Vec::new();
                let h = Html::Raw(r.clone());
                proof {
                    lemma_view_htmls_push(Seq::empty(), h);
                }
                v.push(h);
                assert(Seq::<Html>::empty().push(h) =~= v@);
                Ok(v)
            },
            Node::Element(el) => self.eval_element(el, env, fills, fuel),
            Node::Slot(slot) => self.eval_slot(slot, env, fills, fuel),
            Node::For(f) => {
                let it = self.eval_expr(&f.iter, env, fuel)?;
                match it {
                    Value::List(items) => self.eval_for(f, &items, env, fills, fuel),
                    _ => Err(EvalError::NotIterable(debug_text(&it))),
                }
            },
            Node::If(i) => {
                let c = self.eval_expr(&i.cond, env, fuel)?;
                if c.truthy() {
                    self.eval_nodes(&i.then_body, env, fills, false, fuel)
                } else {
                    match &i.otherwise {
                        Some(o) => self.eval_nodes(o, env, fills, false, fuel),
                        None => {
                            let v: Vec<Html> = Vec::new();
                            assert(view_htmls(v@) =~= Seq::<VHtml>::empty());
                            Ok(v)
                        },
                    }
                }
            },
            Node::Match(m) => {
                let v = self.eval_expr(&m.scrutinee, env, fuel)?;
                self.eval_arms(&m.arms, &v, env, fills, fuel)
            },
            Node::NamedFill(name, _) => Err(EvalError::MisplacedFill(name.clone())),
            Node::LocalConst(name, _) => Err(EvalError::StrayConst(name.clone())),
        }
    }

    fn eval_for(&self, f: &ForNode, items: &Vec<Value>, env: &Env, fills: &SlotFills, fuel: u32) -> (r: Result<Vec<Html>, EvalError>)
        ensures
            vres_html(r) == s_for(self@, fuel as nat, *f, view_values(items@), view_entries(env@), fills_view(*fills)),
        decreases fuel, f, items@.len(),
    {
        let ghost vi = view_values(items@);
        let ghost venv = view_entries(env@);
        let ghost fv = fills_view(*fills);
        proof {
            lemma_view_values(items@);
        }
        let mut out: Vec<Html> = Vec::new();
        let mut i: usize = 0;
        assert(view_htmls(out@) =~= Seq::<VHtml>::empty());
        while i < items.len()
            invariant
                i <= items.len(),
                vi == view_values(items@),
                vi.len() == items@.len(),
                forall|j: int| 0 <= j < items@.len() ==> #[trigger] vi[j] == items@[j]@,
                venv == view_entries(env@),
                fv == fills_view(*fills),
                s_for(self@, fuel as nat, *f, vi.take(i as int), venv, fv) == Ok::<Seq<VHtml>, VError>(view_htmls(out@)),
            decreases items.len() - i,
        {
            assert(vi.take(i + 1).drop_last() =~= vi.take(i as int));
            assert(vi.take(i + 1).last() == vi[i as int]);
            let mut scope = clone_env(env);
            bind(&mut scope, f.binding.clone(), items[i].deep_clone());
            match self.eval_nodes(&f.body, &scope, fills, false, fuel) {
                Err(er) => {
                    proof {
                        lemma_for_err(self@, fuel as nat, *f, vi, venv, fv, i as int);
                    }
                    return Err(er);
                },
                Ok(h) => {
                    proof {
                        lemma_view_htmls_add(out@, h@);
                    }
                    let mut h = h;
                    out.append(&mut h);
                },
            }
            i = i + 1;
        }
        assert(vi.take(items.len() as int) =~= vi);
        Ok(out)
    }

    fn eval_arms(&self, arms: &Vec<MatchArm>, v: &Value, env: &Env, fills: &SlotFills, fuel: u32) -> (r: Result<Vec<Html>, EvalError>)
        ensures
            vres_html(r) == s_arms(self@, fuel as nat, arms@, v@, view_entries(env@), fills_view(*fills)),
        decreases fuel, arms, 0nat,
    {
        let ghost venv = view_entries(env@);
        let ghost fv = fills_view(*fills);
        let tag = v.tag();
        let mut i: usize = 0;
        assert(arms@.skip(0) =~= arms@);
        while i < arms.len()
            invariant
                i <= arms.len(),
                venv == view_entries(env@),
                fv == fills_view(*fills),
                crate::value::opt_str_view(tag) == v_tag(v@),
                s_arms(self@, fuel as nat, arms@, v@, venv, fv) == s_arms(self@, fuel as nat, arms@.skip(i as int), v@, venv, fv),
            decreases arms.len() - i,
        {
            assert(arms@.skip(i as int)[0] == arms@[i as int]);
            assert(arms@.skip(i as int).drop_first() =~= arms@.skip(i + 1));
            let arm = &arms[i];
            let hit = str_eq(arm.pattern.tag.as_str(), "_") || match &tag {
                Some(t) => *t == arm.pattern.tag,
                None => false,
            };
            if hit {
                proof {
                    assert(decreases_to!(arms => arms@));
                    assert(decreases_to!(arms@ => arms@[i as int]));
                }
                let mut scope = clone_env(env);
                match &arm.pattern.binding {
                    Some(b) => {
                        let bound = match v {
                            Value::Tagged(_, inner) => (**inner).deep_clone(),
                            other => other.deep_clone(),
                        };
                        bind(&mut scope, b.clone(), bound);
                    },
                    None => {},
                }
                return self.eval_nodes(&arm.body, &scope, fills, false, fuel);
            }
            i = i + 1;
        }
        let out: Vec<Html> = Vec::new();
        assert(view_htmls(out@) =~= Seq::<VHtml>::empty());
        Ok(out)
    }

    fn eval_attrs(&self, args: &Vec<Arg>, env: &Env, tag: &String, fuel: u32) -> (r: Result<Vec<(String, String)>, EvalError>)
        ensures
            match r {
                Ok(a) => s_attrs(self@, fuel as nat, args@, view_entries(env@), tag@) == Ok::<Seq<(Seq<char>, Seq<char>)>, VError>(view_attrs(a@)),
                Err(e) => s_attrs(self@, fuel as nat, args@, view_entries(env@), tag@) == Err::<Seq<(Seq<char>, Seq<char>)>, VError>(e@),
            },
        decreases fuel, args, 0nat,
    {
        let ghost venv = view_entries(env@);
        let mut out: Vec<(String, String)> = Vec::new();
        let mut i: usize = 0;
        assert(view_attrs(out@) =~= Seq::<(Seq<char>, Seq<char>)>::empty());
        while i < args.len()
            invariant
                i <= args.len(),
                venv == view_entries(env@),
                s_attrs(self@, fuel as nat, args@.take(i as int), venv, tag@) == Ok::<Seq<(Seq<char>, Seq<char>)>, VError>(view_attrs(out@)),
            decreases args.len() - i,
        {
            assert(args@.take(i + 1).drop_last() =~= args@.take(i as int));
            assert(args@.take(i + 1).last() == args@[i as int]);
            proof {
                assert(decreases_to!(args => args@));
                assert(decreases_to!(args@ => args@[i as int]));
            }
            match &args[i] {
                Arg::Named(n, ArgValue::Expr(x)) => {
                    match self.eval_expr(x, env, fuel) {
                        Err(er) => {
                            proof {
                                lemma_attrs_err(self@, fuel as nat, args@, venv, tag@, i as int);
                            }
                            return Err(er);
                        },
                        Ok(v) => {
                            let ghost before = view_attrs(out@);
                            out.push((n.clone(), v.to_text()));
                            assert(view_attrs(out@) =~= before.push((n@, v_text(v@))));
                        },
                    }
                },
                Arg::Named(_, ArgValue::Block(_)) => {
                    proof {
                        lemma_attrs_err(self@, fuel as nat, args@, venv, tag@, i as int);
                    }
                    return Err(EvalError::BlockAttribute(tag.clone()));
                },
                Arg::Positional(_) => {
                    proof {
                        lemma_attrs_err(self@, fuel as nat, args@, venv, tag@, i as int);
                    }
                    return Err(EvalError::PositionalAttribute(tag.clone()));
                },
            }
            i = i + 1;
        }
        assert(args@.take(args.len() as int) =~= args@);
        Ok(out)
    }
}


impl Evaluator {
    fn eval_element(&self, el: &Element, env: &Env, fills: &SlotFills, fuel: u32) -> (r: Result<Vec<Html>, EvalError>)
        ensures
            vres_html(r) == s_element(self@, fuel as nat, *el, view_entries(env@), fills_view(*fills)),
        decreases fuel, el, 1nat,
    {
        // A user component?
        match self.find_component(el.name.as_str()) {
            Some(ci) => {
                return self.expand_component(&self.components[ci], el, env, fills, fuel);
            },
            None => {},
        }
        // Otherwise a raw HTML element, if known.
        let tag = str_to_lowercase(el.name.as_str());
        if !is_known_tag(tag.as_str()) {
            return Err(EvalError::UnknownElement(el.name.clone()));
        }
        let attrs = self.eval_attrs(&el.args, env, &tag, fuel)?;
        let children = self.eval_nodes(&el.children, env, fills, false, fuel)?;
        let h = if str_eq(tag.as_str(), "head") {
            Html::Hoist { region: owned("head"), children }
        } else {
            Html::Element { tag, attrs, children }
        };
        let mut v: Vec<Html> = Vec::new();
        proof {
            lemma_view_htmls_push(Seq::empty(), h);
        }
        v.push(h);
        assert(Seq::<Html>::empty().push(h) =~= v@);
        Ok(v)
    }

    /// Binds a component's parameters from an invocation.
    fn eval_bind(&self, cname: &String, params: &Vec<Param>, args: &Vec<Arg>, env: &Env, fuel: u32) -> (r: Result<Env, EvalError>)
        ensures
            match r {
                Ok(sc) => s_bind(self@, fuel as nat, cname@, params@, *args, 0, view_entries(env@), Seq::empty())
                    == Ok::<VEnv, VError>(view_entries(sc@)),
                Err(e) => s_bind(self@, fuel as nat, cname@, params@, *args, 0, view_entries(env@), Seq::empty())
                    == Err::<VEnv, VError>(e@),
            },
        decreases fuel, args, params@.len(),
    {
        let ghost venv = view_entries(env@);
        let pidx = positional_indices(args);
        let mut acc: Env = Vec::new();
        let mut next: usize = 0;
        let mut i: usize = 0;
        assert(params@.skip(0) =~= params@);
        assert(view_entries(acc@) =~= Seq::<(Seq<char>, VValue)>::empty());
        while i < params.len()
            invariant
                i <= params.len(),
                next <= pidx@.len(),
                venv == view_entries(env@),
                pidx@.len() == positional_args(args@).len(),
                forall|k: int| 0 <= k < pidx@.len() ==> #[trigger] pidx@[k] < args@.len()
                    && args@[pidx@[k] as int] == Arg::Positional(positional_args(args@)[k]),
                s_bind(self@, fuel as nat, cname@, params@, *args, 0, venv, Seq::empty())
                    == s_bind(self@, fuel as nat, cname@, params@.skip(i as int), *args, next as int, venv, view_entries(acc@)),
            decreases params.len() - i,
        {
            let p = &params[i];
            assert(params@.skip(i as int).drop_first() =~= params@.skip(i + 1));
            assert(params@.skip(i as int)[0] == params@[i as int]);
            match find_named_arg(args, &p.name) {
                Some(j) => {
                    match &args[j] {
                        Arg::Named(_, ArgValue::Expr(x)) => {
                            proof {
                                assert(decreases_to!(args => args@));
                                assert(decreases_to!(args@ => args@[j as int]));
                            }
                            let v = self.eval_expr(x, env, fuel)?;
                            bind(&mut acc, p.name.clone(), v);
                        },
                        Arg::Named(_, ArgValue::Block(_)) => {
                            return Err(EvalError::ParamGotBlock(p.name.clone()));
                        },
                        Arg::Positional(_) => {
                            assert(false);
                            return Err(EvalError::NotIndexable);
                        },
                    }
                },
                None => {
                    if next < pidx.len() {
                        let j = pidx[next];
                        match &args[j] {
                            Arg::Positional(x) => {
                                proof {
                                    assert(decreases_to!(args => args@));
                                    assert(decreases_to!(args@ => args@[j as int]));
                                }
                                let v = self.eval_expr(x, env, fuel)?;
                                bind(&mut acc, p.name.clone(), v);
                            },
                            _ => {
                                assert(false);
                                return Err(EvalError::NotIndexable);
                            },
                        }
                        next = next + 1;
                    } else if p.optional {
                        bind(&mut acc, p.name.clone(), Value::Nil);
                    } else {
                        return Err(EvalError::MissingArgument(p.name.clone(), cname.clone()));
                    }
                },
            }
            i = i + 1;
        }
        Ok(acc)
    }

    /// Expand a user component: bind params, capture slot fills, eval its body.
    fn expand_component(&self, comp: &Component, call: &Element, env: &Env, outer: &SlotFills, fuel: u32) -> (r: Result<Vec<Html>, EvalError>)
        ensures
            vres_html(r) == s_expand(self@, fuel as nat, *comp, *call, view_entries(env@), fills_view(*outer)),
        decreases fuel, call, 0nat,
    {
        if fuel == 0 {
            return Err(EvalError::TooDeep);
        }
        let scope = self.eval_bind(&comp.name, &comp.params, &call.args, env, fuel)?;
        let empty: Vec<(&String, &Vec<Node>)> = Vec::new();
        assert(view_named(empty@) =~= Seq::<(Seq<char>, Seq<Node>)>::empty());
        let named0 = fill_children(&call.children, empty)?;
        let named = fill_args(&call.args, named0)?;
        // The fills capture the caller's scope and slots, so a fill that refers to
        // a caller's local (an enclosing `for` binding) resolves where it was written.
        let fills = SlotFills { default: &call.children, named, capture: env, outer: Some(outer) };
        assert(fills_view(fills) == VFills {
            default: call.children@,
            named: view_named(fills.named@),
            capture: view_entries(env@),
            outer: Some(Box::new(fills_view(*outer))),
        });
        // The body sees only the component's own parameters (and the constants).
        self.eval_nodes(&comp.body, &scope, &fills, false, fuel - 1)
    }

    fn eval_slot(&self, slot: &Slot, env: &Env, fills: &SlotFills, fuel: u32) -> (r: Result<Vec<Html>, EvalError>)
        ensures
            vres_html(r) == s_slot(self@, fuel as nat, *slot, view_entries(env@), fills_view(*fills)),
        decreases fuel, slot, 0nat,
    {
        let filled: Option<(&Vec<Node>, bool)> = match &slot.name {
            None => if count_unnamed(fills.default) > 0 {
                Some((fills.default, true))
            } else {
                None
            },
            Some(n) => match lookup_fill(&fills.named, n) {
                Some(ns) => if ns.len() > 0 {
                    Some((ns, false))
                } else {
                    None
                },
                None => None,
            },
        };
        match filled {
            Some((ns, skip)) => {
                if fuel == 0 {
                    return Err(EvalError::TooDeep);
                }
                let empty_nodes: Vec<Node> = Vec::new();
                let empty_env: Env = Vec::new();
                let empty = SlotFills { default: &empty_nodes, named: Vec::new(), capture: &empty_env, outer: None };
                assert(view_named(empty.named@) =~= Seq::<(Seq<char>, Seq<Node>)>::empty());
                assert(empty_nodes@ =~= Seq::<Node>::empty());
                assert(view_entries(empty_env@) =~= Seq::<(Seq<char>, VValue)>::empty());
                assert(fills_view(empty) == empty_fills());
                let inner: &SlotFills = match fills.outer {
                    Some(o) => o,
                    None => &empty,
                };
                self.eval_nodes(ns, fills.capture, inner, skip, fuel - 1)
            },
            None => match &slot.or {
                Some(x) => {
                    let v = self.eval_expr(x, env, fuel)?;
                    match v {
                        Value::Nil => {
                            let out: Vec<Html> = Vec::new();
                            assert(view_htmls(out@) =~= Seq::<VHtml>::empty());
                            Ok(out)
                        },
                        _ => {
                            let h = Html::Text(v.to_text());
                            let mut out: Vec<Html> = Vec::new();
                            proof {
                                lemma_view_htmls_push(Seq::empty(), h);
                            }
                            out.push(h);
                            assert(Seq::<Html>::empty().push(h) =~= out@);
                            Ok(out)
                        },
                    }
                },
                None => {
                    let out: Vec<Html> = Vec::new();
                    assert(view_htmls(out@) =~= Seq::<VHtml>::empty());
                    Ok(out)
                },
            },
        }
    }
}


pub open spec fn vres_ctx(r: Result<Evaluator, EvalError>) -> Result<Ctx, VError> {
    match r {
        Ok(ev) => Ok(ev@),
        Err(e) => Err(e@),
    }
}

impl Evaluator {
    /// Build an evaluator from parsed items. Evaluates `const`s eagerly, in
    /// declaration order (this is where data sources like `glob` actually run).
    #[verifier::loop_isolation(false)]
    pub fn new(items: Vec<Item>, sources: Sources) -> (r: Result<Evaluator, EvalError>)
        ensures
            vres_ctx(r) == s_new(items@, sources),
    {
        let ghost orig = items@;
        let mut rest = items;
        let mut components: Vec<Component> = Vec::new();
        let mut functions: Vec<Function> = Vec::new();
        let mut decls: Vec<ConstDecl> = Vec::new();
        let ghost mut k: int = 0;
        while rest.len() > 0
            invariant
                0 <= k <= orig.len(),
                rest@ == orig.skip(k),
                components@ == item_components(orig.take(k)),
                functions@ == item_functions(orig.take(k)),
                decls@ == item_consts(orig.take(k)),
            decreases rest.len(),
        {
            let item = rest.remove(0);
            assert(orig.take(k + 1).drop_last() =~= orig.take(k));
            assert(orig.take(k + 1).last() == item);
            match item {
                Item::Component(c) => components.push(c),
                Item::Function(f) => functions.push(f),
                Item::Const(c) => decls.push(c),
                Item::Stylesheet(_) => {},
            }
            proof {
                k = k + 1;
            }
            assert(rest@ =~= orig.skip(k));
        }
        assert(orig.take(k) =~= orig);
        let mut ev = Evaluator { components, functions, consts: Vec::new(), sources };
        let empty: Env = Vec::new();
        assert(view_entries(empty@) =~= Seq::<(Seq<char>, VValue)>::empty());
        assert(view_entries(ev.consts@) =~= Seq::<(Seq<char>, VValue)>::empty());
        let ghost comps = item_components(orig);
        let ghost fns = item_functions(orig);
        let ghost ds = item_consts(orig);
        let mut i: usize = 0;
        while i < decls.len()
            invariant
                i <= decls.len(),
                decls@ == ds,
                ev.components@ == comps,
                ev.functions@ == fns,
                ev.sources == sources,
                view_entries(empty@) == Seq::<(Seq<char>, VValue)>::empty(),
                s_consts(comps, fns, sources, ds.take(i as int)) == Ok::<VEnv, VError>(view_entries(ev.consts@)),
            decreases decls.len() - i,
        {
            assert(ds.take(i + 1).drop_last() =~= ds.take(i as int));
            assert(ds.take(i + 1).last() == ds[i as int]);
            assert(ev@ == Ctx { comps, fns, consts: view_entries(ev.consts@), src: sources });
            let v = match ev.eval_expr(&decls[i].value, &empty, MAX_DEPTH) {
                Ok(v) => v,
                Err(er) => {
                    proof {
                        assert(s_consts(comps, fns, sources, ds.take(i + 1)) == Err::<VEnv, VError>(er@));
                        lemma_consts_err(comps, fns, sources, ds, i as int);
                    }
                    return Err(er);
                },
            };
            let name = decls[i].name.clone();
            proof {
                lemma_view_entries_push(ev.consts@, (name, v));
            }
            ev.consts.push((name, v));
            i = i + 1;
        }
        assert(ds.take(decls.len() as int) =~= ds);
        Ok(ev)
    }

    /// Hands back the data snapshot the evaluator reads from, for the next page.
    pub fn into_sources(self) -> (r: Sources)
        ensures
            r == self@.src,
    {
        self.sources
    }

    /// Render a top-level component (a page) to an HTML node list.
    pub fn render_component(&self, name: &str) -> (r: Result<Vec<Html>, EvalError>)
        ensures
            vres_html(r) == s_render(self@, name@),
    {
        proof {
            lemma_comp_index(self.components@, name@);
        }
        let ci = match self.find_component(name) {
            None => return Err(EvalError::NoComponent(owned(name))),
            Some(ci) => ci,
        };
        let empty_nodes: Vec<Node> = Vec::new();
        let empty_env: Env = Vec::new();
        let fills = SlotFills { default: &empty_nodes, named: Vec::new(), capture: &empty_env, outer: None };
        assert(view_named(fills.named@) =~= Seq::<(Seq<char>, Seq<Node>)>::empty());
        assert(empty_nodes@ =~= Seq::<Node>::empty());
        assert(view_entries(empty_env@) =~= Seq::<(Seq<char>, VValue)>::empty());
        assert(fills_view(fills) == empty_fills());
        self.eval_nodes(&self.components[ci].body, &empty_env, &fills, false, MAX_DEPTH)
    }

    /// Render a layout for a content (`.md`) page: bind the frontmatter to the
    /// layout component's declared parameters, and feed the rendered markdown
    /// body into its default `Slot()` as raw HTML. That `Slot()` may sit inside
    /// raw HTML or be handed down through another component
    /// (`Post(...) { Slot() }`); both resolve.
    #[verifier::loop_isolation(false)]
    pub fn render_layout(&self, component: &str, frontmatter: &Vec<(String, Value)>, body_html: String) -> (r: Result<Vec<Html>, EvalError>)
        ensures
            vres_html(r) == s_render_layout(self@, component@, view_entries(frontmatter@), body_html),
    {
        proof {
            lemma_comp_index(self.components@, component@);
        }
        let ci = match self.find_component(component) {
            None => return Err(EvalError::NoLayout(owned(component))),
            Some(ci) => ci,
        };
        let comp = &self.components[ci];
        // A layout is a function of the fields it names; anything it doesn't
        // declare, it doesn't see.
        let ghost fm = view_entries(frontmatter@);
        let mut scope: Env = Vec::new();
        let mut i: usize = 0;
        assert(comp.params@.skip(0) =~= comp.params@);
        assert(view_entries(scope@) =~= Seq::<(Seq<char>, VValue)>::empty());
        while i < comp.params.len()
            invariant
                i <= comp.params.len(),
                fm == view_entries(frontmatter@),
                bind_layout(component@, comp.params@, fm, Seq::empty())
                    == bind_layout(component@, comp.params@.skip(i as int), fm, view_entries(scope@)),
            decreases comp.params.len() - i,
        {
            let p = &comp.params[i];
            assert(comp.params@.skip(i as int).drop_first() =~= comp.params@.skip(i + 1));
            assert(comp.params@.skip(i as int)[0] == comp.params@[i as int]);
            match crate::value::dict_lookup(frontmatter, p.name.as_str()) {
                Some(v) => bind(&mut scope, p.name.clone(), v),
                None => {
                    if p.optional {
                        bind(&mut scope, p.name.clone(), Value::Nil);
                    } else {
                        let er = EvalError::LayoutField(owned(component), p.name.clone(), p.ty.clone());
                        assert(bind_layout(component@, comp.params@.skip(i as int), fm, view_entries(scope@)) == Err::<VEnv, VError>(er@));
                        assert(self@.comps[ci as int] == *comp);
                        return Err(er);
                    }
                },
            }
            i = i + 1;
        }
        let body_nodes: Vec<Node> = vec![Node::RawHtml(body_html)];
        let fills = SlotFills { default: &body_nodes, named: Vec::new(), capture: &scope, outer: None };
        assert(view_named(fills.named@) =~= Seq::<(Seq<char>, Seq<Node>)>::empty());
        assert(body_nodes@ =~= seq![Node::RawHtml(body_html)]);
        self.eval_nodes(&comp.body, &scope, &fills, false, MAX_DEPTH)
    }
}

proof fn lemma_consts_err(comps: Seq<Component>, fns: Seq<Function>, src: Sources, ds: Seq<ConstDecl>, k: int)
    requires
        0 <= k < ds.len(),
        s_consts(comps, fns, src, ds.take(k + 1)) is Err,
    ensures
        s_consts(comps, fns, src, ds) == s_consts(comps, fns, src, ds.take(k + 1)),
    decreases ds.len(),
{
    if ds.len() == k + 1 {
        assert(ds.take(k + 1) =~= ds);
    } else {
        assert(ds.drop_last().take(k + 1) =~= ds.take(k + 1));
        lemma_consts_err(comps, fns, src, ds.drop_last(), k);
    }
}

} // verus!

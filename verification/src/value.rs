//! The runtime value model used during evaluation.
//!
//! Everything a `const` produces, every loop variable, every interpolated
//! expression resolves to a `Value`. Numbers are whole numbers: the language
//! has integer literals and integer arithmetic.

use vstd::prelude::*;
use crate::text::{int_text, str_eq, int_to_chars, string_from_chars, owned, push_str, push_chars, chars_of};

verus! {

#[derive(Debug)]
pub enum Value {
    Str(String),
    Number(i64),
    Bool(bool),
    Nil,
    List(Vec<Value>),
    Dict(Vec<(String, Value)>),
    /// A tagged value. The tag drives pattern matching; the payload carries the data.
    Tagged(String, Box<Value>),
}

/// The mathematical model of a `Value`.
pub enum VValue {
    Str(Seq<char>),
    Number(int),
    Bool(bool),
    Nil,
    List(Seq<VValue>),
    Dict(Seq<(Seq<char>, VValue)>),
    Tagged(Seq<char>, Box<VValue>),
}

pub open spec fn view_value(v: Value) -> VValue
    decreases v,
{
    match v {
        Value::Str(s) => VValue::Str(s@),
        Value::Number(n) => VValue::Number(n as int),
        Value::Bool(b) => VValue::Bool(b),
        Value::Nil => VValue::Nil,
        Value::List(l) => VValue::List(view_values(l@)),
        Value::Dict(m) => VValue::Dict(view_entries(m@)),
        Value::Tagged(t, b) => VValue::Tagged(t@, Box::new(view_value(*b))),
    }
}

pub open spec fn view_values(s: Seq<Value>) -> Seq<VValue>
    decreases s,
{
    if s.len() == 0 {
        Seq::empty()
    } else {
        view_values(s.drop_last()).push(view_value(s.last()))
    }
}

pub open spec fn view_entries(s: Seq<(String, Value)>) -> Seq<(Seq<char>, VValue)>
    decreases s,
{
    if s.len() == 0 {
        Seq::empty()
    } else {
        view_entries(s.drop_last()).push((s.last().0@, view_value(s.last().1)))
    }
}

impl View for Value {
    type V = VValue;

    open spec fn view(&self) -> VValue {
        view_value(*self)
    }
}


pub proof fn lemma_view_values(s: Seq<Value>)
    ensures
        view_values(s).len() == s.len(),
        forall|i: int| 0 <= i < s.len() ==> #[trigger] view_values(s)[i] == view_value(s[i]),
    decreases s.len(),
{
    if s.len() > 0 {
        lemma_view_values(s.drop_last());
    }
}

pub proof fn lemma_view_entries(s: Seq<(String, Value)>)
    ensures
        view_entries(s).len() == s.len(),
        forall|i: int|
            0 <= i < s.len() ==> #[trigger] view_entries(s)[i] == (s[i].0@, view_value(s[i].1)),
    decreases s.len(),
{
    if s.len() > 0 {
        lemma_view_entries(s.drop_last());
    }
}

// ---- debug text ----

/// One character of a string as `Debug` writes it: quotes, backslashes and the
/// NUL, tab, carriage-return and newline characters escaped.
pub open spec fn debug_char(c: char) -> Seq<char> {
    if c == '"' {
        "\\\""@
    } else if c == '\\' {
        "\\\\"@
    } else if c == '\n' {
        "\\n"@
    } else if c == '\r' {
        "\\r"@
    } else if c == '\t' {
        "\\t"@
    } else if c == '\0' {
        "\\0"@
    } else {
        seq![c]
    }
}

pub open spec fn debug_chars(s: Seq<char>) -> Seq<char>
    decreases s.len(),
{
    if s.len() == 0 {
        Seq::empty()
    } else {
        debug_chars(s.drop_last()) + debug_char(s.last())
    }
}

/// A string as `Debug` writes it, in double quotes.
pub open spec fn debug_quoted(s: Seq<char>) -> Seq<char> {
    "\""@ + debug_chars(s) + "\""@
}

/// A value as the derived `Debug` writes it: `Str("x")`, `Number(1.0)`,
/// `Bool(true)`, `Nil`, `List([..])`, `Map({"k": ..})`, `Tagged("T", ..)`.
pub open spec fn v_debug(v: VValue) -> Seq<char>
    decreases v,
{
    match v {
        VValue::Str(s) => "Str("@ + debug_quoted(s) + ")"@,
        VValue::Number(n) => "Number("@ + int_text(n) + ".0)"@,
        VValue::Bool(b) => if b {
            "Bool(true)"@
        } else {
            "Bool(false)"@
        },
        VValue::Nil => "Nil"@,
        VValue::List(xs) => "List(["@ + debug_items(xs) + "])"@,
        VValue::Dict(es) => "Map({"@ + debug_entries(es) + "})"@,
        VValue::Tagged(t, b) => "Tagged("@ + debug_quoted(t) + ", "@ + v_debug(*b) + ")"@,
    }
}

/// The items of a list, comma-separated.
pub open spec fn debug_items(xs: Seq<VValue>) -> Seq<char>
    decreases xs,
{
    if xs.len() == 0 {
        Seq::empty()
    } else {
        debug_items(xs.drop_last()) + (if xs.len() > 1 {
            ", "@
        } else {
            Seq::<char>::empty()
        }) + v_debug(xs.last())
    }
}

/// The entries of a dictionary, `"key": value`, comma-separated.
pub open spec fn debug_entries(es: Seq<(Seq<char>, VValue)>) -> Seq<char>
    decreases es,
{
    if es.len() == 0 {
        Seq::empty()
    } else {
        debug_entries(es.drop_last()) + (if es.len() > 1 {
            ", "@
        } else {
            Seq::<char>::empty()
        }) + debug_quoted(es.last().0) + ": "@ + v_debug(es.last().1)
    }
}

fn debug_char_into(c: char, out: &mut Vec<char>)
    ensures
        final(out)@ == old(out)@ + debug_char(c),
{
    if c == '"' {
        push_str(out, "\\\"");
    } else if c == '\\' {
        push_str(out, "\\\\");
    } else if c == '\n' {
        push_str(out, "\\n");
    } else if c == '\r' {
        push_str(out, "\\r");
    } else if c == '\t' {
        push_str(out, "\\t");
    } else if c == '\0' {
        push_str(out, "\\0");
    } else {
        out.push(c);
    }
}

fn debug_quoted_into(s: &String, out: &mut Vec<char>)
    ensures
        final(out)@ == old(out)@ + debug_quoted(s@),
{
    push_str(out, "\"");
    let ghost start = out@;
    let cs = chars_of(s.as_str());
    let mut i: usize = 0;
    assert(cs@.take(0) =~= Seq::<char>::empty());
    assert(start + debug_chars(cs@.take(0)) =~= start);
    while i < cs.len()
        invariant
            i <= cs.len(),
            out@ == start + debug_chars(cs@.take(i as int)),
        decreases cs.len() - i,
    {
        assert(cs@.take(i + 1).drop_last() =~= cs@.take(i as int));
        debug_char_into(cs[i], out);
        assert(start + debug_chars(cs@.take(i as int)) + debug_char(cs@[i as int]) =~= start + debug_chars(cs@.take(i + 1)));
        i = i + 1;
    }
    assert(cs@.take(cs.len() as int) =~= s@);
    push_str(out, "\"");
    assert(out@ =~= old(out)@ + debug_quoted(s@));
}

#[verifier::loop_isolation(false)]
fn debug_into(v: &Value, out: &mut Vec<char>)
    ensures
        final(out)@ == old(out)@ + v_debug(v@),
    decreases v,
{
    match v {
        Value::Str(s) => {
            push_str(out, "Str(");
            debug_quoted_into(s, out);
            push_str(out, ")");
        },
        Value::Number(n) => {
            push_str(out, "Number(");
            let d = int_to_chars(*n);
            push_chars(out, &d);
            push_str(out, ".0)");
        },
        Value::Bool(b) => {
            if *b {
                push_str(out, "Bool(true)");
            } else {
                push_str(out, "Bool(false)");
            }
        },
        Value::Nil => push_str(out, "Nil"),
        Value::List(xs) => {
            push_str(out, "List([");
            let ghost start = out@;
            let mut i: usize = 0;
            assert(xs@.take(0) =~= Seq::<Value>::empty());
            assert(start + debug_items(view_values(xs@.take(0))) =~= start);
            while i < xs.len()
                invariant
                    i <= xs.len(),
                    out@ == start + debug_items(view_values(xs@.take(i as int))),
                decreases xs.len() - i,
            {
                proof {
                    assert(decreases_to!(*v => *xs));
                    assert(decreases_to!(xs => xs@));
                    assert(decreases_to!(xs@ => xs@[i as int]));
                    assert(xs@.take(i + 1) =~= xs@.take(i as int).push(xs@[i as int]));
                    lemma_view_values_push(xs@.take(i as int), xs@[i as int]);
                }
                let ghost vs = view_values(xs@.take(i + 1));
                assert(vs.drop_last() =~= view_values(xs@.take(i as int)));
                if i > 0 {
                    push_str(out, ", ");
                }
                debug_into(&xs[i], out);
                assert(out@ =~= start + debug_items(vs));
                i = i + 1;
            }
            assert(xs@.take(xs.len() as int) =~= xs@);
            push_str(out, "])");
        },
        Value::Dict(es) => {
            push_str(out, "Map({");
            let ghost start = out@;
            let mut i: usize = 0;
            assert(es@.take(0) =~= Seq::<(String, Value)>::empty());
            assert(start + debug_entries(view_entries(es@.take(0))) =~= start);
            while i < es.len()
                invariant
                    i <= es.len(),
                    out@ == start + debug_entries(view_entries(es@.take(i as int))),
                decreases es.len() - i,
            {
                proof {
                    assert(decreases_to!(*v => *es));
                    assert(decreases_to!(es => es@));
                    assert(decreases_to!(es@ => es@[i as int]));
                    assert(decreases_to!(es@[i as int] => es@[i as int].1));
                    assert(es@.take(i + 1) =~= es@.take(i as int).push(es@[i as int]));
                    lemma_view_entries_push(es@.take(i as int), es@[i as int]);
                }
                let ghost vs = view_entries(es@.take(i + 1));
                assert(vs.drop_last() =~= view_entries(es@.take(i as int)));
                if i > 0 {
                    push_str(out, ", ");
                }
                debug_quoted_into(&es[i].0, out);
                push_str(out, ": ");
                debug_into(&es[i].1, out);
                assert(out@ =~= start + debug_entries(vs));
                i = i + 1;
            }
            assert(es@.take(es.len() as int) =~= es@);
            push_str(out, "})");
        },
        Value::Tagged(t, b) => {
            push_str(out, "Tagged(");
            debug_quoted_into(t, out);
            push_str(out, ", ");
            debug_into(b, out);
            push_str(out, ")");
        },
    }
    assert(out@ =~= old(out)@ + v_debug(v@));
}

/// A value as the derived `Debug` writes it (see `v_debug`).
pub fn debug_text(v: &Value) -> (r: String)
    ensures
        r@ == v_debug(v@),
{
    let mut out: Vec<char> = Vec::new();
    debug_into(v, &mut out);
    assert(out@ =~= v_debug(v@));
    string_from_chars(&out)
}

pub proof fn lemma_view_values_push(s: Seq<Value>, x: Value)
    ensures
        view_values(s.push(x)) == view_values(s).push(view_value(x)),
{
    assert(s.push(x).drop_last() =~= s);
}

pub proof fn lemma_view_entries_push(s: Seq<(String, Value)>, x: (String, Value))
    ensures
        view_entries(s.push(x)) == view_entries(s).push((x.0@, view_value(x.1))),
{
    assert(s.push(x).drop_last() =~= s);
}

/// Truthiness, as `if` sees it.
pub open spec fn v_truthy(v: VValue) -> bool {
    match v {
        VValue::Bool(b) => b,
        VValue::Nil => false,
        VValue::Str(s) => s.len() > 0,
        VValue::Number(n) => n != 0,
        VValue::List(l) => l.len() > 0,
        VValue::Dict(m) => m.len() > 0,
        VValue::Tagged(..) => true,
    }
}

/// The value bound to key `k` in a dictionary (the first entry with that key).
pub open spec fn dict_get(m: Seq<(Seq<char>, VValue)>, k: Seq<char>) -> Option<VValue>
    decreases m.len(),
{
    if m.len() == 0 {
        None
    } else if m[0].0 == k {
        Some(m[0].1)
    } else {
        dict_get(m.drop_first(), k)
    }
}

/// A dictionary with `k` bound to `v`: the first entry with key `k` is replaced,
/// or the entry is appended if there is none.
pub open spec fn dict_set(m: Seq<(Seq<char>, VValue)>, k: Seq<char>, v: VValue) -> Seq<(Seq<char>, VValue)>
    decreases m.len(),
{
    if m.len() == 0 {
        seq![(k, v)]
    } else if m[0].0 == k {
        m.update(0, (k, v))
    } else {
        seq![m[0]] + dict_set(m.drop_first(), k, v)
    }
}

/// Reading a dictionary after setting a key: the new value for that key, the
/// old lookup for every other.
pub proof fn lemma_dict_set_get(m: Seq<(Seq<char>, VValue)>, k: Seq<char>, v: VValue, k2: Seq<char>)
    ensures
        dict_get(dict_set(m, k, v), k2) == if k2 == k {
            Some(v)
        } else {
            dict_get(m, k2)
        },
    decreases m.len(),
{
    if m.len() == 0 {
        let t = seq![(k, v)];
        assert(dict_set(m, k, v) == t);
        assert(t.drop_first() =~= Seq::<(Seq<char>, VValue)>::empty());
        assert(t[0] == (k, v));
        assert(dict_get(t.drop_first(), k2) is None);
        assert(dict_get(m, k2) is None);
    } else if m[0].0 == k {
        let t = m.update(0, (k, v));
        assert(dict_set(m, k, v) == t);
        assert(t.drop_first() =~= m.drop_first());
        assert(t[0] == (k, v));
    } else {
        lemma_dict_set_get(m.drop_first(), k, v, k2);
        let t = seq![m[0]] + dict_set(m.drop_first(), k, v);
        assert(t.drop_first() =~= dict_set(m.drop_first(), k, v));
        assert(t[0] == m[0]);
    }
}

pub proof fn lemma_dict_get_skip(m: Seq<(Seq<char>, VValue)>, k: Seq<char>, i: int)
    requires
        0 <= i <= m.len(),
        forall|j: int| 0 <= j < i ==> m[j].0 != k,
    ensures
        dict_get(m, k) == dict_get(m.skip(i), k),
    decreases i,
{
    if i > 0 {
        assert(m.drop_first().skip(i - 1) =~= m.skip(i));
        lemma_dict_get_skip(m.drop_first(), k, i - 1);
    } else {
        assert(m.skip(0) =~= m);
    }
}

pub proof fn lemma_dict_set_skip(m: Seq<(Seq<char>, VValue)>, k: Seq<char>, v: VValue, i: int)
    requires
        0 <= i <= m.len(),
        forall|j: int| 0 <= j < i ==> m[j].0 != k,
    ensures
        dict_set(m, k, v) == m.take(i) + dict_set(m.skip(i), k, v),
    decreases i,
{
    if i > 0 {
        assert(m.drop_first().skip(i - 1) =~= m.skip(i));
        lemma_dict_set_skip(m.drop_first(), k, v, i - 1);
        assert(m.take(i) =~= seq![m[0]] + m.drop_first().take(i - 1));
    } else {
        assert(m.skip(0) =~= m);
        assert(m.take(0) + dict_set(m, k, v) =~= dict_set(m, k, v));
    }
}

/// The tag `match` compares its patterns against. A bare string is its own tag,
/// a dictionary falls back to its `kind` field when that is a string, and a
/// tagged value carries an explicit tag.
pub open spec fn v_tag(v: VValue) -> Option<Seq<char>> {
    match v {
        VValue::Tagged(t, _) => Some(t),
        VValue::Str(s) => Some(s),
        VValue::Dict(m) => match dict_get(m, "kind"@) {
            Some(VValue::Str(s)) => Some(s),
            _ => None,
        },
        _ => None,
    }
}

/// Field lookup: a dictionary's entry, seen through any number of tags.
pub open spec fn v_get_field(v: VValue, f: Seq<char>) -> Option<VValue>
    decreases v,
{
    match v {
        VValue::Dict(m) => dict_get(m, f),
        VValue::Tagged(_, inner) => v_get_field(*inner, f),
        _ => None,
    }
}

/// The text a value interpolates as.
pub open spec fn v_text(v: VValue) -> Seq<char> {
    match v {
        VValue::Str(s) => s,
        VValue::Number(n) => int_text(n),
        VValue::Bool(b) => if b { "true"@ } else { "false"@ },
        VValue::Nil => Seq::empty(),
        VValue::List(_) => "[list]"@,
        VValue::Dict(_) => "[map]"@,
        VValue::Tagged(t, _) => t,
    }
}

/// `==` in the language: strings, numbers, booleans and nil compare by value;
/// anything else is unequal.
pub open spec fn v_eq(a: VValue, b: VValue) -> bool {
    match (a, b) {
        (VValue::Str(x), VValue::Str(y)) => x == y,
        (VValue::Number(x), VValue::Number(y)) => x == y,
        (VValue::Bool(x), VValue::Bool(y)) => x == y,
        (VValue::Nil, VValue::Nil) => true,
        _ => false,
    }
}

pub open spec fn opt_str_view(o: Option<String>) -> Option<Seq<char>> {
    match o {
        Some(s) => Some(s@),
        None => None,
    }
}

pub open spec fn opt_value_view(o: Option<Value>) -> Option<VValue> {
    match o {
        Some(v) => Some(v@),
        None => None,
    }
}

/// Looks `k` up in a dictionary's entries.
pub fn dict_lookup(m: &Vec<(String, Value)>, k: &str) -> (r: Option<Value>)
    ensures
        opt_value_view(r) == dict_get(view_entries(m@), k@),
{
    proof {
        lemma_view_entries(m@);
    }
    let mut i: usize = 0;
    while i < m.len()
        invariant
            i <= m.len(),
            view_entries(m@).len() == m@.len(),
            forall|j: int| 0 <= j < i ==> view_entries(m@)[j].0 != k@,
            forall|j: int| 0 <= j < m@.len() ==> #[trigger] view_entries(m@)[j] == (m@[j].0@, view_value(m@[j].1)),
        decreases m.len() - i,
    {
        if str_eq(m[i].0.as_str(), k) {
            proof {
                lemma_dict_get_skip(view_entries(m@), k@, i as int);
            }
            return Some(m[i].1.deep_clone());
        }
        i = i + 1;
    }
    proof {
        lemma_dict_get_skip(view_entries(m@), k@, i as int);
    }
    None
}

/// Binds `k` to `v` in a dictionary's entries, replacing an existing binding.
pub fn dict_insert(m: &mut Vec<(String, Value)>, k: String, v: Value)
    ensures
        view_entries(final(m)@) == dict_set(view_entries(old(m)@), k@, v@),
{
    proof {
        lemma_view_entries(m@);
    }
    let ghost em = view_entries(m@);
    let mut i: usize = 0;
    while i < m.len()
        invariant
            i <= m.len(),
            m@ == old(m)@,
            em == view_entries(m@),
            em.len() == m@.len(),
            forall|j: int| 0 <= j < i ==> em[j].0 != k@,
            forall|j: int| 0 <= j < m@.len() ==> #[trigger] em[j] == (m@[j].0@, view_value(m@[j].1)),
        decreases m.len() - i,
    {
        if m[i].0 == k {
            proof {
                lemma_dict_set_skip(em, k@, v@, i as int);
                assert(em.skip(i as int)[0].0 == k@);
            }
            let ghost old_m = m@;
            m.set(i, (k, v));
            proof {
                lemma_view_entries(m@);
                assert(view_entries(m@) =~= em.take(i as int) + em.skip(i as int).update(0, (k@, v@)));
            }
            return;
        }
        i = i + 1;
    }
    proof {
        lemma_dict_set_skip(em, k@, v@, i as int);
        assert(em.skip(i as int) =~= Seq::<(Seq<char>, VValue)>::empty());
        assert(em.take(i as int) =~= em);
        lemma_view_entries_push(m@, (k, v));
    }
    m.push((k, v));
}

impl Value {
    /// A copy of this value.
    #[verifier::loop_isolation(false)]
    pub fn deep_clone(&self) -> (r: Value)
        ensures
            r@ == self@,
        decreases self,
    {
        match self {
            Value::Str(s) => Value::Str(s.clone()),
            Value::Number(n) => Value::Number(*n),
            Value::Bool(b) => Value::Bool(*b),
            Value::Nil => Value::Nil,
            Value::List(l) => {
                let mut out: Vec<Value> = Vec::new();
                let mut i: usize = 0;
                while i < l.len()
                    invariant
                        i <= l.len(),
                        view_values(out@) == view_values(l@.take(i as int)),
                    decreases l.len() - i,
                {
                    proof {
                        assert(decreases_to!(l => l@));
                        assert(decreases_to!(l@ => l@[i as int]));
                    }
                    let c = l[i].deep_clone();
                    proof {
                        lemma_view_values_push(out@, c);
                        lemma_view_values_push(l@.take(i as int), l@[i as int]);
                        assert(l@.take(i + 1) =~= l@.take(i as int).push(l@[i as int]));
                    }
                    out.push(c);
                    i = i + 1;
                }
                assert(l@.take(l.len() as int) =~= l@);
                Value::List(out)
            },
            Value::Dict(m) => {
                let mut out: Vec<(String, Value)> = Vec::new();
                let mut i: usize = 0;
                while i < m.len()
                    invariant
                        i <= m.len(),
                        view_entries(out@) == view_entries(m@.take(i as int)),
                    decreases m.len() - i,
                {
                    proof {
                        assert(decreases_to!(m => m@));
                        assert(decreases_to!(m@ => m@[i as int]));
                        assert(decreases_to!(m@[i as int] => m@[i as int].1));
                    }
                    let c = (m[i].0.clone(), m[i].1.deep_clone());
                    proof {
                        lemma_view_entries_push(out@, c);
                        lemma_view_entries_push(m@.take(i as int), m@[i as int]);
                        assert(m@.take(i + 1) =~= m@.take(i as int).push(m@[i as int]));
                    }
                    out.push(c);
                    i = i + 1;
                }
                assert(m@.take(m.len() as int) =~= m@);
                Value::Dict(out)
            },
            Value::Tagged(t, b) => {
                let inner = (**b).deep_clone();
                Value::Tagged(t.clone(), Box::new(inner))
            },
        }
    }

    /// Truthiness, as `if` sees it.
    pub fn truthy(&self) -> (r: bool)
        ensures
            r == v_truthy(self@),
    {
        proof {
            match self {
                Value::List(l) => lemma_view_values(l@),
                Value::Dict(m) => lemma_view_entries(m@),
                _ => {},
            }
        }
        match self {
            Value::Bool(b) => *b,
            Value::Nil => false,
            Value::Str(s) => !s.as_str().is_empty(),
            Value::Number(n) => *n != 0,
            Value::List(l) => l.len() > 0,
            Value::Dict(m) => m.len() > 0,
            Value::Tagged(..) => true,
        }
    }
}


impl Value {
    /// The tag used for `match`. A bare string is its own tag, so
    /// `match post.kind { Essay => ... }` compares the pattern against the
    /// string directly. Dictionaries fall back to their `kind` field if present,
    /// so `match post { Essay => ... }` works too. Tagged values carry an explicit
    /// tag.
    pub fn tag(&self) -> (r: Option<String>)
        ensures
            opt_str_view(r) == v_tag(self@),
    {
        match self {
            Value::Tagged(t, _) => Some(t.clone()),
            Value::Str(s) => Some(s.clone()),
            Value::Dict(m) => {
                let k = dict_lookup(m, "kind");
                match k {
                    Some(Value::Str(s)) => Some(s),
                    _ => None,
                }
            },
            _ => None,
        }
    }

    /// Field lookup, seen through tags.
    pub fn get_field(&self, field: &str) -> (r: Option<Value>)
        ensures
            opt_value_view(r) == v_get_field(self@, field@),
        decreases self,
    {
        match self {
            Value::Dict(m) => dict_lookup(m, field),
            Value::Tagged(_, inner) => (**inner).get_field(field),
            _ => None,
        }
    }

    /// The text this value interpolates as (integers without a fractional part,
    /// `nil` as nothing, containers as a placeholder).
    pub fn to_text(&self) -> (r: String)
        ensures
            r@ == v_text(self@),
    {
        match self {
            Value::Str(s) => s.clone(),
            Value::Number(n) => {
                let cs = int_to_chars(*n);
                string_from_chars(&cs)
            },
            Value::Bool(b) => if *b { owned("true") } else { owned("false") },
            Value::Nil => {
                proof {
                    reveal_strlit("");
                }
                owned("")
            },
            Value::List(_) => owned("[list]"),
            Value::Dict(_) => owned("[map]"),
            Value::Tagged(t, _) => t.clone(),
        }
    }
}

/// `==` in the language.
pub fn values_eq(a: &Value, b: &Value) -> (r: bool)
    ensures
        r == v_eq(a@, b@),
{
    match (a, b) {
        (Value::Str(x), Value::Str(y)) => *x == *y,
        (Value::Number(x), Value::Number(y)) => *x == *y,
        (Value::Bool(x), Value::Bool(y)) => *x == *y,
        (Value::Nil, Value::Nil) => true,
        _ => false,
    }
}


/// A copy of a list of dictionary entries.
pub fn clone_entries(m: &Vec<(String, Value)>) -> (r: Vec<(String, Value)>)
    ensures
        view_entries(r@) == view_entries(m@),
{
    let mut out: Vec<(String, Value)> = Vec::new();
    let mut i: usize = 0;
    while i < m.len()
        invariant
            i <= m.len(),
            view_entries(out@) == view_entries(m@.take(i as int)),
        decreases m.len() - i,
    {
        let c = (m[i].0.clone(), m[i].1.deep_clone());
        proof {
            lemma_view_entries_push(out@, c);
            lemma_view_entries_push(m@.take(i as int), m@[i as int]);
            assert(m@.take(i + 1) =~= m@.take(i as int).push(m@[i as int]));
        }
        out.push(c);
        i = i + 1;
    }
    assert(m@.take(m.len() as int) =~= m@);
    out
}


} // verus!

//! Errors raised while evaluating a program or building a site.

use vstd::prelude::*;
use crate::text::{int_to_chars, push_str, push_chars, chars_of, string_from_chars};

verus! {

/// Everything that can go wrong during evaluation.
#[derive(Debug)]
pub enum EvalError {
    /// `unknown name `x``
    UnknownName(String),
    /// `no field `x` on value`
    NoField(String),
    /// `no key `x` on value`
    NoKey(String),
    /// `index n is out of range`
    IndexOutOfRange(i64),
    /// `cannot index this value with that key`
    NotIndexable,
    /// `cannot iterate over V`, with the value as `Debug` writes it
    NotIterable(String),
    /// `expected a number, got V`, with the value as `Debug` writes it
    NotANumber(String),
    /// `arithmetic overflow`
    Overflow,
    /// `division by zero`
    DivideByZero,
    /// `division does not give a whole number`
    InexactDivision,
    /// `unknown element or component `X``
    UnknownElement(String),
    /// `HTML element <x> cannot take a block-valued attribute`
    BlockAttribute(String),
    /// `HTML element <x> does not take positional arguments`
    PositionalAttribute(String),
    /// `parameter `x` expects a value, got a block`
    ParamGotBlock(String),
    /// `missing argument `param` for component C`
    MissingArgument(String, String),
    /// `slot `x` filled more than once`
    SlotFilledTwice(String),
    /// `named slot fill `x = { ... }` can only appear directly inside a component invocation`
    MisplacedFill(String),
    /// `const `x` cannot stand here`
    StrayConst(String),
    /// `unknown function `f``
    UnknownFunction(String),
    /// `a function call cannot take a block argument`
    BlockInCall,
    /// `f requires an argument`
    MissingInput(String),
    /// `no component named C`
    NoComponent(String),
    /// `no layout component named `L``
    NoLayout(String),
    /// `layout `L` declares `p: t`, but the frontmatter has no `p` field`
    LayoutField(String, String, String),
    /// `components, slots or functions nest too deeply`
    TooDeep,
    /// `glob supports at most one '*': pattern`
    GlobStars(String),
    /// `glob '*' must be in the filename: pattern`
    GlobStarInDir(String),
    /// `reading markdown path: no such file`
    ReadFailed(String),
    /// `parsing frontmatter YAML in path: message`
    Frontmatter(String, String),
    /// `environment variable `x` is not set`
    EnvUnset(String),
    /// `no response recorded for url`: the caller performs the request and
    /// evaluates again with the response recorded.
    Fetch(String),
}

/// The mathematical model of an `EvalError`.
pub enum VError {
    UnknownName(Seq<char>),
    NoField(Seq<char>),
    NoKey(Seq<char>),
    IndexOutOfRange(int),
    NotIndexable,
    NotIterable(Seq<char>),
    NotANumber(Seq<char>),
    Overflow,
    DivideByZero,
    InexactDivision,
    UnknownElement(Seq<char>),
    BlockAttribute(Seq<char>),
    PositionalAttribute(Seq<char>),
    ParamGotBlock(Seq<char>),
    MissingArgument(Seq<char>, Seq<char>),
    SlotFilledTwice(Seq<char>),
    MisplacedFill(Seq<char>),
    StrayConst(Seq<char>),
    UnknownFunction(Seq<char>),
    BlockInCall,
    MissingInput(Seq<char>),
    NoComponent(Seq<char>),
    NoLayout(Seq<char>),
    LayoutField(Seq<char>, Seq<char>, Seq<char>),
    TooDeep,
    GlobStars(Seq<char>),
    GlobStarInDir(Seq<char>),
    ReadFailed(Seq<char>),
    Frontmatter(Seq<char>, Seq<char>),
    EnvUnset(Seq<char>),
    Fetch(Seq<char>),
}

impl View for EvalError {
    type V = VError;

    open spec fn view(&self) -> VError {
        match *self {
            EvalError::UnknownName(s) => VError::UnknownName(s@),
            EvalError::NoField(s) => VError::NoField(s@),
            EvalError::NoKey(s) => VError::NoKey(s@),
            EvalError::IndexOutOfRange(n) => VError::IndexOutOfRange(n as int),
            EvalError::NotIndexable => VError::NotIndexable,
            EvalError::NotIterable(v) => VError::NotIterable(v@),
            EvalError::NotANumber(v) => VError::NotANumber(v@),
            EvalError::Overflow => VError::Overflow,
            EvalError::DivideByZero => VError::DivideByZero,
            EvalError::InexactDivision => VError::InexactDivision,
            EvalError::UnknownElement(s) => VError::UnknownElement(s@),
            EvalError::BlockAttribute(s) => VError::BlockAttribute(s@),
            EvalError::PositionalAttribute(s) => VError::PositionalAttribute(s@),
            EvalError::ParamGotBlock(s) => VError::ParamGotBlock(s@),
            EvalError::MissingArgument(a, b) => VError::MissingArgument(a@, b@),
            EvalError::SlotFilledTwice(s) => VError::SlotFilledTwice(s@),
            EvalError::MisplacedFill(s) => VError::MisplacedFill(s@),
            EvalError::StrayConst(s) => VError::StrayConst(s@),
            EvalError::UnknownFunction(s) => VError::UnknownFunction(s@),
            EvalError::BlockInCall => VError::BlockInCall,
            EvalError::MissingInput(s) => VError::MissingInput(s@),
            EvalError::NoComponent(s) => VError::NoComponent(s@),
            EvalError::NoLayout(s) => VError::NoLayout(s@),
            EvalError::LayoutField(a, b, c) => VError::LayoutField(a@, b@, c@),
            EvalError::TooDeep => VError::TooDeep,
            EvalError::GlobStars(s) => VError::GlobStars(s@),
            EvalError::GlobStarInDir(s) => VError::GlobStarInDir(s@),
            EvalError::ReadFailed(s) => VError::ReadFailed(s@),
            EvalError::Frontmatter(a, b) => VError::Frontmatter(a@, b@),
            EvalError::EnvUnset(s) => VError::EnvUnset(s@),
            EvalError::Fetch(s) => VError::Fetch(s@),
        }
    }
}

fn quoted(out: &mut Vec<char>, before: &str, s: &String, after: &str)
    ensures
        final(out)@ == old(out)@ + before@ + s@ + after@,
{
    push_str(out, before);
    let cs = chars_of(s.as_str());
    push_chars(out, &cs);
    push_str(out, after);
}

impl EvalError {
    /// A human-readable description of the error.
    pub fn message(&self) -> (r: String)
        ensures
            r@ == error_message(self@),
    {
        let mut out: Vec<char> = Vec::new();
        match self {
            EvalError::UnknownName(s) => quoted(&mut out, "unknown name `", s, "`"),
            EvalError::NoField(s) => quoted(&mut out, "no field `", s, "` on value"),
            EvalError::NoKey(s) => quoted(&mut out, "no key `", s, "` on value"),
            EvalError::IndexOutOfRange(n) => {
                push_str(&mut out, "index ");
                let d = int_to_chars(*n);
                push_chars(&mut out, &d);
                push_str(&mut out, " is out of range");
            },
            EvalError::NotIndexable => push_str(&mut out, "cannot index this value with that key"),
            EvalError::NotIterable(v) => quoted(&mut out, "cannot iterate over ", v, ""),
            EvalError::NotANumber(v) => quoted(&mut out, "expected a number, got ", v, ""),
            EvalError::Overflow => push_str(&mut out, "arithmetic overflow"),
            EvalError::DivideByZero => push_str(&mut out, "division by zero"),
            EvalError::InexactDivision => push_str(&mut out, "division does not give a whole number"),
            EvalError::UnknownElement(s) => quoted(
                &mut out,
                "unknown element or component `",
                s,
                "` (not a defined component, not a known HTML tag)",
            ),
            EvalError::BlockAttribute(s) => quoted(&mut out, "HTML element <", s, "> cannot take a block-valued attribute"),
            EvalError::PositionalAttribute(s) => quoted(&mut out, "HTML element <", s, "> does not take positional arguments"),
            EvalError::ParamGotBlock(s) => quoted(&mut out, "parameter `", s, "` expects a value, got a block"),
            EvalError::MissingArgument(p, c) => {
                quoted(&mut out, "missing argument `", p, "` for component ");
                let cs = chars_of(c.as_str());
                push_chars(&mut out, &cs);
            },
            EvalError::SlotFilledTwice(s) => quoted(&mut out, "slot `", s, "` filled more than once"),
            EvalError::MisplacedFill(s) => quoted(
                &mut out,
                "named slot fill `",
                s,
                " = { ... }` can only appear directly inside a component invocation",
            ),
            EvalError::StrayConst(s) => quoted(&mut out, "const `", s, "` cannot stand here"),
            EvalError::UnknownFunction(s) => quoted(&mut out, "unknown function `", s, "`"),
            EvalError::BlockInCall => push_str(&mut out, "a function call cannot take a block argument"),
            EvalError::MissingInput(s) => quoted(&mut out, "", s, " requires an argument"),
            EvalError::NoComponent(s) => quoted(&mut out, "no component named ", s, ""),
            EvalError::NoLayout(s) => quoted(&mut out, "no layout component named `", s, "`"),
            EvalError::LayoutField(l, p, t) => {
                quoted(&mut out, "layout `", l, "` declares `");
                quoted(&mut out, "", p, ": ");
                quoted(&mut out, "", t, "`, but the frontmatter has no `");
                quoted(&mut out, "", p, "` field");
            },
            EvalError::TooDeep => push_str(&mut out, "components, slots or functions nest too deeply"),
            EvalError::GlobStars(s) => quoted(&mut out, "glob supports at most one '*': ", s, ""),
            EvalError::GlobStarInDir(s) => quoted(&mut out, "glob '*' must be in the filename: ", s, ""),
            EvalError::ReadFailed(s) => quoted(&mut out, "reading markdown ", s, ": no such file"),
            EvalError::Frontmatter(p, m) => {
                quoted(&mut out, "parsing frontmatter YAML in ", p, ": ");
                let cs = chars_of(m.as_str());
                push_chars(&mut out, &cs);
            },
            EvalError::EnvUnset(s) => quoted(&mut out, "environment variable `", s, "` is not set"),
            EvalError::Fetch(s) => quoted(&mut out, "no response recorded for ", s, ""),
        }
        string_from_chars(&out)
    }
}

/// The text of an error's message.
pub open spec fn error_message(e: VError) -> Seq<char> {
    match e {
        VError::UnknownName(s) => "unknown name `"@ + s + "`"@,
        VError::NoField(s) => "no field `"@ + s + "` on value"@,
        VError::NoKey(s) => "no key `"@ + s + "` on value"@,
        VError::IndexOutOfRange(n) => "index "@ + crate::text::int_text(n) + " is out of range"@,
        VError::NotIndexable => "cannot index this value with that key"@,
        VError::NotIterable(v) => "cannot iterate over "@ + v + ""@,
        VError::NotANumber(v) => "expected a number, got "@ + v + ""@,
        VError::Overflow => "arithmetic overflow"@,
        VError::DivideByZero => "division by zero"@,
        VError::InexactDivision => "division does not give a whole number"@,
        VError::UnknownElement(s) => "unknown element or component `"@ + s
            + "` (not a defined component, not a known HTML tag)"@,
        VError::BlockAttribute(s) => "HTML element <"@ + s + "> cannot take a block-valued attribute"@,
        VError::PositionalAttribute(s) => "HTML element <"@ + s + "> does not take positional arguments"@,
        VError::ParamGotBlock(s) => "parameter `"@ + s + "` expects a value, got a block"@,
        VError::MissingArgument(p, c) => "missing argument `"@ + p + "` for component "@ + c,
        VError::SlotFilledTwice(s) => "slot `"@ + s + "` filled more than once"@,
        VError::MisplacedFill(s) => "named slot fill `"@ + s
            + " = { ... }` can only appear directly inside a component invocation"@,
        VError::StrayConst(s) => "const `"@ + s + "` cannot stand here"@,
        VError::UnknownFunction(s) => "unknown function `"@ + s + "`"@,
        VError::BlockInCall => "a function call cannot take a block argument"@,
        VError::MissingInput(s) => ""@ + s + " requires an argument"@,
        VError::NoComponent(s) => "no component named "@ + s + ""@,
        VError::NoLayout(s) => "no layout component named `"@ + s + "`"@,
        VError::LayoutField(l, p, t) => "layout `"@ + l + "` declares `"@ + (""@ + p + ": "@) + (""@ + t
            + "`, but the frontmatter has no `"@) + (""@ + p + "` field"@),
        VError::TooDeep => "components, slots or functions nest too deeply"@,
        VError::GlobStars(s) => "glob supports at most one '*': "@ + s + ""@,
        VError::GlobStarInDir(s) => "glob '*' must be in the filename: "@ + s + ""@,
        VError::ReadFailed(s) => "reading markdown "@ + s + ": no such file"@,
        VError::Frontmatter(p, m) => "parsing frontmatter YAML in "@ + p + ": "@ + m,
        VError::EnvUnset(s) => "environment variable `"@ + s + "` is not set"@,
        VError::Fetch(s) => "no response recorded for "@ + s + ""@,
    }
}

} // verus!

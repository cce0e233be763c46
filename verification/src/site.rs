//! The build driver and filesystem router, over a snapshot of the project.
//!
//! Routing contract:
//!   - `.nono` files under `pages/` route to HTML pages, with vanity URLs:
//!       pages/index.nono     -> index.html
//!       pages/about.nono     -> about/index.html
//!       pages/posts/x.nono   -> posts/x/index.html
//!   - `.md` files under `content/` route the same way, each wrapped in a layout.
//!   - Route segments must match `[a-z0-9-]` (after the extension); anything
//!     else is a hard error.
//!   - Files under `static/` are copied verbatim.
//!
//! A page or layout file defines exactly one component; that component is
//! rendered. Shared components and stylesheets live in `lib/` and are loaded
//! into every page's scope.

use vstd::prelude::*;
use crate::text::{chars_of, push_str, push_chars, string_from_chars, owned, str_eq, chars_slice, occurs_at, starts_with,
    ends_with, chars_occur_at, chars_eq, nat_text, int_text, nat_to_chars, int_to_chars, unicode_uppercase,
    char_is_uppercase};
use crate::ast::{Item, Stylesheet, StyleRule};
use crate::parser::{ParseError, parse_message};
use crate::error::{EvalError, VError, error_message};
use crate::value::{Value, VValue, view_entries, dict_get, dict_lookup};
use crate::markdown::{file_name, file_stem, last_index_of, lemma_last_index_of_pub, chars_last_index, slug_of};
use crate::html::{Html, VHtml, view_html, view_htmls, lemma_view_htmls, render, render_node, render_seq, region_index,
    view_regions, extract_hoists, document, document_text, add_all_to_regions, hoist_events, strip};
use crate::semantics::{s_new, s_render, s_render_layout};
use crate::parser::parse;
use crate::grammar::{VItem, g_file, v_item, v_items};
use crate::eval::Evaluator;
use crate::sources::{Sources, SourceFile, markdown_value, page_value, res_view, is_draft};

verus! {

// ---- route segments ----

/// The characters a route segment may hold.
pub open spec fn route_char(c: char) -> bool {
    ('a' <= c && c <= 'z') || ('0' <= c && c <= '9') || c == '-'
}

/// The `/`-separated segments of a path seen after its first `k` characters:
/// the finished segments, and the one being read.
pub open spec fn split_state(p: Seq<char>, k: int) -> (Seq<Seq<char>>, Seq<char>)
    decreases k,
{
    if k <= 0 {
        (Seq::empty(), Seq::empty())
    } else {
        let (done, cur) = split_state(p, k - 1);
        if p[k - 1] == '/' {
            (if cur.len() > 0 { done.push(cur) } else { done }, Seq::empty())
        } else {
            (done, cur.push(p[k - 1]))
        }
    }
}

/// The non-empty `/`-separated segments of a path.
pub open spec fn path_segments(p: Seq<char>) -> Seq<Seq<char>> {
    let (done, cur) = split_state(p, p.len() as int);
    if cur.len() > 0 {
        done.push(cur)
    } else {
        done
    }
}

/// `s` with every trailing copy of `suf` removed.
pub open spec fn strip_suffixes(s: Seq<char>, suf: Seq<char>) -> Seq<char>
    decreases s.len(),
{
    if suf.len() > 0 && ends_with(s, suf) {
        strip_suffixes(s.take(s.len() - suf.len()), suf)
    } else {
        s
    }
}

/// The part of a segment that must match `[a-z0-9-]`: both routable extensions
/// (`.nono`, then `.md`) stripped.
pub open spec fn route_stem(seg: Seq<char>) -> Seq<char> {
    strip_suffixes(strip_suffixes(seg, ".nono"@), ".md"@)
}

pub open spec fn segment_ok(seg: Seq<char>) -> bool {
    forall|i: int| 0 <= i < route_stem(seg).len() ==> route_char(#[trigger] route_stem(seg)[i])
}

/// The first segment that breaks the route rule, if any.
pub open spec fn first_bad_segment(segs: Seq<Seq<char>>) -> Option<Seq<char>>
    decreases segs.len(),
{
    if segs.len() == 0 {
        None
    } else if !segment_ok(segs[0]) {
        Some(segs[0])
    } else {
        first_bad_segment(segs.drop_first())
    }
}

/// Splits a path at `/`, dropping empty segments.
pub fn split_path(p: &Vec<char>) -> (r: Vec<Vec<char>>)
    ensures
        r@.map_values(|s: Vec<char>| s@) == path_segments(p@),
{
    let mut done: Vec<Vec<char>> = Vec::new();
    let mut cur: Vec<char> = Vec::new();
    let mut i: usize = 0;
    while i < p.len()
        invariant
            i <= p.len(),
            (done@.map_values(|s: Vec<char>| s@), cur@) == split_state(p@, i as int),
        decreases p.len() - i,
    {
        if p[i] == '/' {
            if cur.len() > 0 {
                let ghost before = done@;
                done.push(cur);
                assert(done@.map_values(|s: Vec<char>| s@) =~= before.map_values(|s: Vec<char>| s@).push(
                    split_state(p@, i as int).1,
                ));
            }
            cur = Vec::new();
            assert(cur@ =~= Seq::<char>::empty());
        } else {
            cur.push(p[i]);
        }
        i = i + 1;
    }
    if cur.len() > 0 {
        let ghost before = done@;
        let ghost c = cur@;
        done.push(cur);
        assert(done@.map_values(|s: Vec<char>| s@) =~= before.map_values(|s: Vec<char>| s@).push(c));
    }
    done
}

/// `s` with every trailing copy of `suf` (non-empty) removed.
fn strip_suffixes_exec(s: &Vec<char>, suf: &str) -> (r: Vec<char>)
    ensures
        r@ == strip_suffixes(s@, suf@),
{
    let sf = chars_of(suf);
    let mut out = chars_slice(s, 0, s.len());
    assert(out@ =~= s@);
    if sf.len() == 0 {
        return out;
    }
    while out.len() >= sf.len() && chars_occur_at(&out, &sf, out.len() - sf.len())
        invariant
            sf.len() > 0,
            sf@ == suf@,
            strip_suffixes(s@, suf@) == strip_suffixes(out@, suf@),
        decreases out.len(),
    {
        let n = out.len() - sf.len();
        out = chars_slice(&out, 0, n);
    }
    out
}

fn segment_ok_exec(seg: &Vec<char>) -> (r: bool)
    ensures
        r == segment_ok(seg@),
{
    let a = strip_suffixes_exec(seg, ".nono");
    let stem = strip_suffixes_exec(&a, ".md");
    let mut i: usize = 0;
    while i < stem.len()
        invariant
            i <= stem.len(),
            stem@ == route_stem(seg@),
            forall|j: int| 0 <= j < i ==> route_char(#[trigger] stem@[j]),
        decreases stem.len() - i,
    {
        let c = stem[i];
        if !(('a' <= c && c <= 'z') || ('0' <= c && c <= '9') || c == '-') {
            return false;
        }
        i = i + 1;
    }
    true
}


/// Whether a route relative to `pages/` or `content/` obeys the segment rule.
pub fn validate_route(rel: &str) -> (r: Result<(), BuildError>)
    ensures
        r is Ok <==> first_bad_segment(path_segments(rel@)) is None,
        r matches Err(e) ==> e matches BuildError::IllegalRoute { segment, rel: whole }
            && first_bad_segment(path_segments(rel@)) == Some(segment@) && whole@ == rel@,
{
    let cs = chars_of(rel);
    let segs = split_path(&cs);
    let ghost sv = segs@.map_values(|s: Vec<char>| s@);
    let mut i: usize = 0;
    assert(sv.skip(0) =~= sv);
    while i < segs.len()
        invariant
            i <= segs.len(),
            sv == segs@.map_values(|s: Vec<char>| s@),
            sv == path_segments(rel@),
            first_bad_segment(sv) == first_bad_segment(sv.skip(i as int)),
        decreases segs.len() - i,
    {
        assert(sv.skip(i as int).drop_first() =~= sv.skip(i + 1));
        assert(sv.skip(i as int)[0] == segs@[i as int]@);
        if !segment_ok_exec(&segs[i]) {
            return Err(BuildError::IllegalRoute { segment: string_from_chars(&segs[i]), rel: owned(rel) });
        }
        i = i + 1;
    }
    assert(sv.skip(i as int) =~= Seq::<Seq<char>>::empty());
    Ok(())
}

// ---- errors ----

/// Everything that can stop a build.
pub enum BuildError {
    /// A route segment breaks the `[a-z0-9-]` rule.
    IllegalRoute { segment: String, rel: String },
    /// A `.nono` file does not parse.
    Parse { file: String, parse_error: ParseError },
    /// A content file cannot be read as a page (its frontmatter is invalid).
    Read { file: String, error: EvalError },
    /// Evaluating a file's constants failed.
    Evaluate { file: String, error: EvalError },
    /// Rendering a page's component failed.
    Render { file: String, error: EvalError },
    /// A page or layout file defines no component.
    NoComponent { kind: String, file: String },
    /// A page or layout file defines more than one component.
    ManyComponents { kind: String, file: String, names: Vec<String> },
    /// A content page's layout file does not exist.
    MissingLayout { page: String, layout: String, layout_path: String },
    /// A build step exited with a non-zero status.
    StepFailed { command: String, status: i32 },
}

/// The names, separated by `, `.
pub open spec fn join_names(names: Seq<Seq<char>>) -> Seq<char>
    decreases names.len(),
{
    if names.len() == 0 {
        Seq::empty()
    } else if names.len() == 1 {
        names[0]
    } else {
        join_names(names.drop_last()) + ", "@ + names.last()
    }
}

pub open spec fn string_views(v: Seq<String>) -> Seq<Seq<char>> {
    v.map_values(|s: String| s@)
}

/// The text of a build error's message.
pub open spec fn build_message(e: BuildError) -> Seq<char> {
    match e {
        BuildError::IllegalRoute { segment, rel } => "illegal route segment `"@ + segment@ + "` in `"@ + rel@
            + "`: page paths must match [a-z0-9-]"@,
        BuildError::Parse { file, parse_error } => "parsing "@ + file@ + ": "@ + parse_message(parse_error),
        BuildError::Read { file, error } => "reading "@ + file@ + ": "@ + error_message(error@),
        BuildError::Evaluate { file, error } => "evaluating "@ + file@ + ": "@ + error_message(error@),
        BuildError::Render { file, error } => "rendering "@ + file@ + ": "@ + error_message(error@),
        BuildError::NoComponent { kind, file } => kind@ + " "@ + file@ + " defines no component. A "@ + kind@
            + " that renders nothing isn't minimalism, it's an empty file with ambitions."@,
        BuildError::ManyComponents { kind, file, names } => kind@ + " "@ + file@ + " defines "@
            + nat_text(names@.len()) + " components ("@ + join_names(string_views(names@)) + "). A "@ + kind@
            + " is exactly one component. It has always been exactly one component. Assuming it could be "@
            + nat_text(names@.len())
            + " of them makes you, and I want to be precise, a fucking idiot. Move the helpers to lib/ where components are allowed to breed."@,
        BuildError::MissingLayout { page, layout, layout_path } => "content page "@ + page@ + " wants layout `"@
            + layout@ + "`, but "@ + layout_path@
            + " doesn't exist. Add that layout, or set a `layout:` field in the frontmatter."@,
        BuildError::StepFailed { command, status } => "build step failed (exit status "@ + int_text(status as int)
            + "): "@ + command@,
    }
}

fn push_string(out: &mut Vec<char>, s: &String)
    ensures
        final(out)@ == old(out)@ + s@,
{
    let cs = chars_of(s.as_str());
    push_chars(out, &cs);
}

fn push_joined(out: &mut Vec<char>, names: &Vec<String>)
    ensures
        final(out)@ == old(out)@ + join_names(string_views(names@)),
{
    let ghost start = out@;
    let mut i: usize = 0;
    while i < names.len()
        invariant
            i <= names.len(),
            out@ == start + join_names(string_views(names@.take(i as int))),
        decreases names.len() - i,
    {
        let ghost before = out@;
        assert(string_views(names@.take(i + 1)).drop_last() =~= string_views(names@.take(i as int)));
        assert(string_views(names@.take(i + 1)).last() == names@[i as int]@);
        if i > 0 {
            push_str(out, ", ");
        } else {
            assert(string_views(names@.take(1)) =~= seq![names@[0]@]);
            assert(string_views(names@.take(0)) =~= Seq::<Seq<char>>::empty());
        }
        push_string(out, &names[i]);
        i = i + 1;
    }
    assert(names@.take(i as int) =~= names@);
}

impl BuildError {
    /// A human-readable description of the error.
    pub fn message(&self) -> (r: String)
        ensures
            r@ == build_message(*self),
    {
        let mut out: Vec<char> = Vec::new();
        match self {
            BuildError::IllegalRoute { segment, rel } => {
                push_str(&mut out, "illegal route segment `");
                push_string(&mut out, segment);
                push_str(&mut out, "` in `");
                push_string(&mut out, rel);
                push_str(&mut out, "`: page paths must match [a-z0-9-]");
            },
            BuildError::Parse { file, parse_error } => {
                push_str(&mut out, "parsing ");
                push_string(&mut out, file);
                push_str(&mut out, ": ");
                let m = parse_error.message();
                push_string(&mut out, &m);
            },
            BuildError::Read { file, error } => {
                push_str(&mut out, "reading ");
                push_string(&mut out, file);
                push_str(&mut out, ": ");
                let m = error.message();
                push_string(&mut out, &m);
            },
            BuildError::Evaluate { file, error } => {
                push_str(&mut out, "evaluating ");
                push_string(&mut out, file);
                push_str(&mut out, ": ");
                let m = error.message();
                push_string(&mut out, &m);
            },
            BuildError::Render { file, error } => {
                push_str(&mut out, "rendering ");
                push_string(&mut out, file);
                push_str(&mut out, ": ");
                let m = error.message();
                push_string(&mut out, &m);
            },
            BuildError::NoComponent { kind, file } => {
                push_string(&mut out, kind);
                push_str(&mut out, " ");
                push_string(&mut out, file);
                push_str(&mut out, " defines no component. A ");
                push_string(&mut out, kind);
                push_str(&mut out, " that renders nothing isn't minimalism, it's an empty file with ambitions.");
            },
            BuildError::ManyComponents { kind, file, names } => {
                let n = nat_to_chars(names.len() as u64);
                push_string(&mut out, kind);
                push_str(&mut out, " ");
                push_string(&mut out, file);
                push_str(&mut out, " defines ");
                push_chars(&mut out, &n);
                push_str(&mut out, " components (");
                push_joined(&mut out, names);
                push_str(&mut out, "). A ");
                push_string(&mut out, kind);
                push_str(&mut out, " is exactly one component. It has always been exactly one component. Assuming it could be ");
                push_chars(&mut out, &n);
                push_str(&mut out, " of them makes you, and I want to be precise, a fucking idiot. Move the helpers to lib/ where components are allowed to breed.");
            },
            BuildError::MissingLayout { page, layout, layout_path } => {
                push_str(&mut out, "content page ");
                push_string(&mut out, page);
                push_str(&mut out, " wants layout `");
                push_string(&mut out, layout);
                push_str(&mut out, "`, but ");
                push_string(&mut out, layout_path);
                push_str(&mut out, " doesn't exist. Add that layout, or set a `layout:` field in the frontmatter.");
            },
            BuildError::StepFailed { command, status } => {
                push_str(&mut out, "build step failed (exit status ");
                let d = int_to_chars(*status as i64);
                push_chars(&mut out, &d);
                push_str(&mut out, "): ");
                push_string(&mut out, command);
            },
        }
        string_from_chars(&out)
    }

    /// The URL whose response the evaluation was missing, if that is what
    /// stopped the build: the caller fetches it and builds again.
    pub fn missing_response(&self) -> (r: Option<String>)
        ensures
            match *self {
                BuildError::Evaluate { error: EvalError::Fetch(u), .. } => r matches Some(s) && s@ == u@,
                BuildError::Render { error: EvalError::Fetch(u), .. } => r matches Some(s) && s@ == u@,
                _ => r is None,
            },
    {
        match self {
            BuildError::Evaluate { error: EvalError::Fetch(u), .. } => Some(u.clone()),
            BuildError::Render { error: EvalError::Fetch(u), .. } => Some(u.clone()),
            _ => None,
        }
    }
}


/// The URL whose response the evaluation was missing, if that is what stopped
/// the build.
pub open spec fn missing_url(e: BuildError) -> Option<Seq<char>> {
    match e {
        BuildError::Evaluate { error: EvalError::Fetch(u), .. } => Some(u@),
        BuildError::Render { error: EvalError::Fetch(u), .. } => Some(u@),
        _ => None,
    }
}

/// What a build does after an attempt fails.
pub enum Retry {
    /// Fetch the response at this URL, then build again.
    Fetch(String),
    /// Stop with this message.
    Fail(String),
}

/// After a failed attempt with error `e`, the URLs in `fetched` already
/// fetched: fetch the missing response, unless there is none or it was fetched
/// already (then the build would fail the same way again), and otherwise fail
/// with the error's message.
pub fn after_failure(e: &BuildError, fetched: &Vec<String>) -> (r: Retry)
    ensures
        match missing_url(*e) {
            Some(u) => if fetched@.map_values(|f: String| f@).contains(u) {
                r matches Retry::Fail(m) && m@ == build_message(*e)
            } else {
                r matches Retry::Fetch(v) && v@ == u
            },
            None => r matches Retry::Fail(m) && m@ == build_message(*e),
        },
{
    match e.missing_response() {
        None => Retry::Fail(e.message()),
        Some(url) => {
            let ghost fs = fetched@.map_values(|f: String| f@);
            let mut i: usize = 0;
            while i < fetched.len()
                invariant
                    i <= fetched.len(),
                    fs == fetched@.map_values(|f: String| f@),
                    missing_url(*e) == Some(url@),
                    forall|j: int| 0 <= j < i ==> fs[j] != url@,
                decreases fetched.len() - i,
            {
                if str_eq(fetched[i].as_str(), url.as_str()) {
                    assert(fs.len() == fetched@.len());
                    assert(fs[i as int] == url@);
                    assert(fs.contains(url@));
                    return Retry::Fail(e.message());
                }
                i = i + 1;
            }
            assert(!fs.contains(url@));
            Retry::Fetch(url)
        },
    }
}

// ---- routes ----

/// The directory part of a path: everything before its last `/`.
pub open spec fn parent_path(p: Seq<char>) -> Seq<char> {
    let i = last_index_of(p, '/');
    if i < 0 {
        Seq::empty()
    } else {
        p.take(i)
    }
}

/// The output path (relative to the output root) of a page at `rel` (relative
/// to `pages/` or `content/`): `index` stays `index.html` in its directory;
/// any other stem becomes a directory holding `index.html`.
pub open spec fn route_output(rel: Seq<char>) -> Seq<char> {
    let stem = file_stem(rel);
    let parent = parent_path(rel);
    let dir = if stem == "index"@ || stem.len() == 0 {
        parent
    } else if parent.len() == 0 {
        stem
    } else {
        parent + "/"@ + stem
    };
    if dir.len() == 0 {
        "index.html"@
    } else {
        dir + "/index.html"@
    }
}

/// Law: every page lands in a file named `index.html` (vanity URLs).
pub proof fn lemma_route_output_is_index(rel: Seq<char>)
    ensures
        ends_with(route_output(rel), "index.html"@),
{
    reveal_strlit("index.html");
    reveal_strlit("/index.html");
    let out = route_output(rel);
    assert(out.subrange(out.len() - 10, out.len() as int) =~= "index.html"@);
}

/// Map a page-relative path to its vanity output path.
///   index.nono        -> index.html
///   about.nono        -> about/index.html
///   posts/x.nono      -> posts/x/index.html
///   posts/index.nono  -> posts/index.html
pub fn route_to_output(rel: &str) -> (r: String)
    ensures
        r@ == route_output(rel@),
{
    let cs = chars_of(rel);
    proof {
        lemma_last_index_of_pub(cs@, '/');
    }
    let parent = match chars_last_index(&cs, '/') {
        Some(i) => chars_slice(&cs, 0, i),
        None => Vec::new(),
    };
    assert(parent@ =~= parent_path(rel@));
    let stem = chars_of(slug_of(rel).as_str());
    let index = chars_of("index");
    let mut out: Vec<char> = Vec::new();
    if chars_eq(&stem, &index) || stem.len() == 0 {
        push_chars(&mut out, &parent);
    } else if parent.len() == 0 {
        push_chars(&mut out, &stem);
    } else {
        push_chars(&mut out, &parent);
        push_str(&mut out, "/");
        push_chars(&mut out, &stem);
    }
    if out.len() == 0 {
        owned("index.html")
    } else {
        push_str(&mut out, "/index.html");
        string_from_chars(&out)
    }
}

/// The layout (a file stem under `layouts/`) of a content page: a non-empty
/// `layout` string in its fields wins; otherwise the name of its parent
/// directory, verbatim; otherwise `default`.
pub open spec fn layout_name(rel: Seq<char>, fields: Seq<(Seq<char>, VValue)>) -> Seq<char> {
    match dict_get(fields, "layout"@) {
        Some(VValue::Str(l)) if l.len() > 0 => l,
        _ => {
            let dir = file_name(parent_path(rel));
            if dir.len() > 0 {
                dir
            } else {
                "default"@
            }
        },
    }
}

/// Pick the layout file (by stem) for a content page.
pub fn resolve_layout(rel: &str, fields: &Vec<(String, Value)>) -> (r: String)
    ensures
        r@ == layout_name(rel@, view_entries(fields@)),
{
    match dict_lookup(fields, "layout") {
        Some(Value::Str(l)) => {
            if !l.as_str().is_empty() {
                return l;
            }
        },
        _ => {},
    }
    let cs = chars_of(rel);
    proof {
        lemma_last_index_of_pub(cs@, '/');
    }
    let parent = match chars_last_index(&cs, '/') {
        Some(i) => chars_slice(&cs, 0, i),
        None => Vec::new(),
    };
    assert(parent@ =~= parent_path(rel@));
    proof {
        lemma_last_index_of_pub(parent@, '/');
    }
    let start = match chars_last_index(&parent, '/') {
        Some(i) => i + 1,
        None => 0,
    };
    let dir = chars_slice(&parent, start, parent.len());
    assert(dir@ =~= file_name(parent@));
    if dir.len() > 0 {
        string_from_chars(&dir)
    } else {
        owned("default")
    }
}

// ---- page and layout files ----

/// A page or layout file must define exactly one component; returns its name.
pub fn sole_component(names: &Vec<String>, path: &str, kind: &str) -> (r: Result<String, BuildError>)
    ensures
        names@.len() == 1 <==> r is Ok,
        r matches Ok(n) ==> n@ == names@[0]@,
        names@.len() == 0 ==> (r matches Err(BuildError::NoComponent { kind: k, file }) && k@ == kind@
            && file@ == path@),
        names@.len() > 1 ==> (r matches Err(BuildError::ManyComponents { kind: k, file, names: ns }) && k@ == kind@
            && file@ == path@ && string_views(ns@) == string_views(names@)),
{
    if names.len() == 1 {
        Ok(names[0].clone())
    } else if names.len() == 0 {
        Err(BuildError::NoComponent { kind: owned(kind), file: owned(path) })
    } else {
        let mut copy: Vec<String> = Vec::new();
        let mut i: usize = 0;
        while i < names.len()
            invariant
                i <= names.len(),
                copy@.len() == i,
                forall|j: int| 0 <= j < i ==> #[trigger] copy@[j]@ == names@[j]@,
            decreases names.len() - i,
        {
            copy.push(names[i].clone());
            i = i + 1;
        }
        assert(string_views(copy@) =~= string_views(names@));
        Err(BuildError::ManyComponents { kind: owned(kind), file: owned(path), names: copy })
    }
}

/// The names of the components among some items, in order.
pub open spec fn component_names(items: Seq<Item>) -> Seq<Seq<char>>
    decreases items.len(),
{
    if items.len() == 0 {
        Seq::empty()
    } else {
        let rest = component_names(items.drop_last());
        match items.last() {
            Item::Component(c) => rest.push(c.name@),
            _ => rest,
        }
    }
}

pub fn item_component_names(items: &Vec<Item>) -> (r: Vec<String>)
    ensures
        string_views(r@) == component_names(items@),
{
    let mut out: Vec<String> = Vec::new();
    let mut i: usize = 0;
    while i < items.len()
        invariant
            i <= items.len(),
            string_views(out@) == component_names(items@.take(i as int)),
        decreases items.len() - i,
    {
        assert(items@.take(i + 1).drop_last() =~= items@.take(i as int));
        match &items[i] {
            Item::Component(c) => {
                out.push(c.name.clone());
                assert(string_views(out@) =~= component_names(items@.take(i as int)).push(c.name@));
            },
            _ => {},
        }
        i = i + 1;
    }
    assert(items@.take(i as int) =~= items@);
    out
}

// ---- stylesheets ----

/// A selector naming a component (first character upper case) becomes the
/// class `.Name`; any other selector is used as written.
pub open spec fn css_selector(sel: Seq<char>) -> Seq<char> {
    if sel.len() > 0 && unicode_uppercase(sel[0]) {
        "."@ + sel
    } else {
        sel
    }
}

pub open spec fn css_decls(d: Seq<(String, String)>) -> Seq<char>
    decreases d.len(),
{
    if d.len() == 0 {
        Seq::empty()
    } else {
        css_decls(d.drop_last()) + "  "@ + d.last().0@ + ": "@ + d.last().1@ + ";\n"@
    }
}

pub open spec fn css_rules(rs: Seq<StyleRule>) -> Seq<char>
    decreases rs.len(),
{
    if rs.len() == 0 {
        Seq::empty()
    } else {
        css_rules(rs.drop_last()) + css_selector(rs.last().selector@) + " {\n"@ + css_decls(rs.last().decls@) + "}\n"@
    }
}

/// The CSS of every stylesheet among some items, in order.
pub open spec fn items_css(items: Seq<Item>) -> Seq<char>
    decreases items.len(),
{
    if items.len() == 0 {
        Seq::empty()
    } else {
        items_css(items.drop_last()) + match items.last() {
            Item::Stylesheet(st) => css_rules(st.rules@),
            _ => Seq::empty(),
        }
    }
}

/// Render a stylesheet to CSS.
pub fn render_css(st: &Stylesheet) -> (r: String)
    ensures
        r@ == css_rules(st.rules@),
{
    let mut out: Vec<char> = Vec::new();
    css_into(st, &mut out);
    string_from_chars(&out)
}

fn css_into(st: &Stylesheet, out: &mut Vec<char>)
    ensures
        final(out)@ == old(out)@ + css_rules(st.rules@),
{
    let ghost start = out@;
    let mut i: usize = 0;
    while i < st.rules.len()
        invariant
            i <= st.rules.len(),
            out@ == start + css_rules(st.rules@.take(i as int)),
        decreases st.rules.len() - i,
    {
        assert(st.rules@.take(i + 1).drop_last() =~= st.rules@.take(i as int));
        let rule = &st.rules[i];
        let sel = chars_of(rule.selector.as_str());
        if sel.len() > 0 && char_is_uppercase(sel[0]) {
            push_str(out, ".");
        }
        push_chars(out, &sel);
        push_str(out, " {\n");
        let ghost before = out@;
        let mut j: usize = 0;
        while j < rule.decls.len()
            invariant
                j <= rule.decls.len(),
                out@ == before + css_decls(rule.decls@.take(j as int)),
            decreases rule.decls.len() - j,
        {
            assert(rule.decls@.take(j + 1).drop_last() =~= rule.decls@.take(j as int));
            push_str(out, "  ");
            push_string(out, &rule.decls[j].0);
            push_str(out, ": ");
            push_string(out, &rule.decls[j].1);
            push_str(out, ";\n");
            j = j + 1;
        }
        assert(rule.decls@.take(j as int) =~= rule.decls@);
        push_str(out, "}\n");
        i = i + 1;
    }
    assert(st.rules@.take(i as int) =~= st.rules@);
}

/// The CSS of every stylesheet among some items, in order.
pub fn css_of_items(items: &Vec<Item>) -> (r: String)
    ensures
        r@ == items_css(items@),
{
    let mut out: Vec<char> = Vec::new();
    let mut i: usize = 0;
    while i < items.len()
        invariant
            i <= items.len(),
            out@ == items_css(items@.take(i as int)),
        decreases items.len() - i,
    {
        assert(items@.take(i + 1).drop_last() =~= items@.take(i as int));
        match &items[i] {
            Item::Stylesheet(st) => css_into(st, &mut out),
            _ => {},
        }
        i = i + 1;
    }
    assert(items@.take(i as int) =~= items@);
    string_from_chars(&out)
}

// ---- build steps ----

/// `s` with every occurrence of `pat` (non-empty) replaced by `rep`, scanning
/// left to right.
pub open spec fn replace_all(s: Seq<char>, pat: Seq<char>, rep: Seq<char>) -> Seq<char>
    decreases s.len(),
{
    if pat.len() == 0 || s.len() == 0 {
        s
    } else if starts_with(s, pat) {
        rep + replace_all(s.skip(pat.len() as int), pat, rep)
    } else {
        seq![s[0]] + replace_all(s.skip(1), pat, rep)
    }
}

fn replace_all_exec(s: &Vec<char>, pat: &str, rep: &str) -> (r: Vec<char>)
    requires
        pat@.len() > 0,
    ensures
        r@ == replace_all(s@, pat@, rep@),
{
    let p = chars_of(pat);
    let mut out: Vec<char> = Vec::new();
    let mut i: usize = 0;
    assert(s@.skip(0) =~= s@);
    assert(out@ + replace_all(s@, pat@, rep@) =~= replace_all(s@, pat@, rep@));
    while i < s.len()
        invariant
            i <= s.len(),
            p@ == pat@,
            p@.len() > 0,
            out@ + replace_all(s@.skip(i as int), pat@, rep@) == replace_all(s@, pat@, rep@),
        decreases s.len() - i,
    {
        let ghost rest = s@.skip(i as int);
        if chars_occur_at(s, &p, i) {
            assert(rest.subrange(0, p@.len() as int) =~= s@.subrange(i as int, i + p@.len()));
            assert(rest.skip(p@.len() as int) =~= s@.skip(i + p@.len()));
            push_str(&mut out, rep);
            i = i + p.len();
        } else {
            assert(!starts_with(rest, pat@)) by {
                if starts_with(rest, pat@) {
                    assert(rest.subrange(0, p@.len() as int) =~= s@.subrange(i as int, i + p@.len()));
                }
            }
            assert(rest.skip(1) =~= s@.skip(i + 1));
            assert(rest[0] == s@[i as int]);
            out.push(s[i]);
            i = i + 1;
        }
        assert(out@ + replace_all(s@.skip(i as int), pat@, rep@) == replace_all(s@, pat@, rep@));
    }
    assert(s@.skip(i as int) =~= Seq::<char>::empty());
    assert(out@ + Seq::<char>::empty() =~= out@);
    out
}

/// A build step's command with its path tokens substituted: `<rootDir>` is
/// the project root and `<publicDir>` its `static/` directory.
pub open spec fn step_command(step: Seq<char>, root: Seq<char>, public: Seq<char>) -> Seq<char> {
    replace_all(replace_all(step, "<rootDir>"@, root), "<publicDir>"@, public)
}

/// Substitute the path tokens of a build step.
pub fn expand_step(step: &str, root: &str, public: &str) -> (r: String)
    ensures
        r@ == step_command(step@, root@, public@),
{
    proof {
        reveal_strlit("<rootDir>");
        reveal_strlit("<publicDir>");
    }
    let cs = chars_of(step);
    let a = replace_all_exec(&cs, "<rootDir>", root);
    let b = replace_all_exec(&a, "<publicDir>", public);
    string_from_chars(&b)
}

/// What a build step's exit status means for the build: a non-zero status
/// stops it.
pub fn step_outcome(command: &str, status: i32) -> (r: Result<(), BuildError>)
    ensures
        r is Ok <==> status == 0,
        r matches Err(e) ==> e matches BuildError::StepFailed { command: c, status: s } && c@ == command@
            && s == status,
{
    if status == 0 {
        Ok(())
    } else {
        Err(BuildError::StepFailed { command: owned(command), status })
    }
}


// ---- the document head ----

/// The contents gathered for the `head` region.
pub open spec fn head_nodes(regs: Seq<(Seq<char>, Seq<VHtml>)>) -> Seq<VHtml> {
    let i = region_index(regs, "head"@);
    if i < 0 {
        Seq::empty()
    } else {
        regs[i].1
    }
}

/// The serialisations of some nodes, each kept once, in order of first appearance.
pub open spec fn distinct_renders(ns: Seq<VHtml>) -> Seq<Seq<char>>
    decreases ns.len(),
{
    if ns.len() == 0 {
        Seq::empty()
    } else {
        let d = distinct_renders(ns.drop_last());
        let t = render_node(ns.last());
        if d.contains(t) {
            d
        } else {
            d.push(t)
        }
    }
}

/// Lines joined with `\n`.
pub open spec fn join_lines(ts: Seq<Seq<char>>) -> Seq<char>
    decreases ts.len(),
{
    if ts.len() == 0 {
        Seq::empty()
    } else if ts.len() == 1 {
        ts[0]
    } else {
        join_lines(ts.drop_last()) + "\n"@ + ts.last()
    }
}

/// The extra head markup of a page: what its `head { }` blocks hoisted, each
/// distinct piece once (a component used twice contributes its head once).
pub open spec fn head_text(regs: Seq<(Seq<char>, Seq<VHtml>)>) -> Seq<char> {
    join_lines(distinct_renders(head_nodes(regs)))
}

proof fn lemma_region_index_skip(regs: Seq<(Seq<char>, Seq<VHtml>)>, r: Seq<char>, i: int)
    requires
        0 <= i <= regs.len(),
        forall|j: int| 0 <= j < i ==> regs[j].0 != r,
    ensures
        ({
            let k = region_index(regs.skip(i), r);
            region_index(regs, r) == if k < 0 { -1 } else { k + i }
        }),
    decreases i,
{
    if i > 0 {
        assert(regs.drop_first().skip(i - 1) =~= regs.skip(i));
        lemma_region_index_skip(regs.drop_first(), r, i - 1);
    } else {
        assert(regs.skip(0) =~= regs);
    }
}

fn find_region(regs: &Vec<(String, Vec<Html>)>, name: &str) -> (r: Option<usize>)
    ensures
        match r {
            Some(i) => i < regs@.len() && i as int == region_index(view_regions(regs@), name@),
            None => region_index(view_regions(regs@), name@) < 0,
        },
{
    let ghost vr = view_regions(regs@);
    let mut i: usize = 0;
    while i < regs.len()
        invariant
            i <= regs.len(),
            vr == view_regions(regs@),
            forall|j: int| 0 <= j < i ==> vr[j].0 != name@,
        decreases regs.len() - i,
    {
        if str_eq(regs[i].0.as_str(), name) {
            proof {
                lemma_region_index_skip(vr, name@, i as int);
                assert(vr.skip(i as int)[0].0 == name@);
            }
            return Some(i);
        }
        i = i + 1;
    }
    proof {
        lemma_region_index_skip(vr, name@, i as int);
        assert(vr.skip(i as int).len() == 0);
    }
    None
}

fn contains_chars(seen: &Vec<Vec<char>>, t: &Vec<char>) -> (r: bool)
    ensures
        r == seen@.map_values(|v: Vec<char>| v@).contains(t@),
{
    let ghost sv = seen@.map_values(|v: Vec<char>| v@);
    let mut i: usize = 0;
    while i < seen.len()
        invariant
            i <= seen.len(),
            sv == seen@.map_values(|v: Vec<char>| v@),
            forall|j: int| 0 <= j < i ==> sv[j] != t@,
        decreases seen.len() - i,
    {
        if chars_eq(&seen[i], t) {
            assert(sv[i as int] == t@);
            return true;
        }
        i = i + 1;
    }
    false
}

/// Render what a page hoisted into its `head` region: each distinct piece
/// once, one per line.
pub fn head_extra(regions: Vec<(String, Vec<Html>)>) -> (r: String)
    ensures
        r@ == head_text(view_regions(regions@)),
{
    let ghost vr = view_regions(regions@);
    let mut regions = regions;
    let nodes: Vec<Html> = match find_region(&regions, "head") {
        None => {
            proof {
                reveal_strlit("");
            }
            assert(distinct_renders(Seq::<VHtml>::empty()) =~= Seq::<Seq<char>>::empty());
            return owned("");
        },
        Some(i) => {
            let region = regions.remove(i);
            region.1
        },
    };
    assert(view_htmls(nodes@) == head_nodes(vr));
    let ghost orig = nodes@;
    let mut rest = nodes;
    let mut seen: Vec<Vec<char>> = Vec::new();
    let ghost mut k: int = 0;
    assert(orig.take(0) =~= Seq::<Html>::empty());
    assert(seen@.map_values(|v: Vec<char>| v@) =~= distinct_renders(view_htmls(orig.take(0))));
    while rest.len() > 0
        invariant
            0 <= k <= orig.len(),
            rest@ == orig.skip(k),
            seen@.map_values(|v: Vec<char>| v@) == distinct_renders(view_htmls(orig.take(k))),
        decreases rest.len(),
    {
        let n = rest.remove(0);
        assert(n == orig[k]);
        let one: Vec<Html> = vec![n];
        assert(one@ =~= seq![n]);
        assert(one@.drop_last() =~= Seq::<Html>::empty());
        proof {
            lemma_view_htmls(one@);
        }
        assert(view_htmls(one@) =~= seq![view_html(n)]);
        assert(seq![view_html(n)].drop_last() =~= Seq::<VHtml>::empty());
        assert(render_seq(seq![view_html(n)]) == render_seq(Seq::<VHtml>::empty()) + render_node(view_html(n)));
        assert(Seq::<char>::empty() + render_node(view_html(n)) =~= render_node(view_html(n)));
        let t = chars_of(render(&one).as_str());
        assert(t@ == render_node(view_html(n)));
        assert(orig.take(k + 1).drop_last() =~= orig.take(k));
        assert(view_htmls(orig.take(k + 1)) == view_htmls(orig.take(k)).push(view_html(n)));
        assert(view_htmls(orig.take(k + 1)).drop_last() =~= view_htmls(orig.take(k)));
        if !contains_chars(&seen, &t) {
            let ghost before = seen@.map_values(|v: Vec<char>| v@);
            seen.push(t);
            assert(seen@.map_values(|v: Vec<char>| v@) =~= before.push(render_node(view_html(n))));
        }
        proof {
            k = k + 1;
        }
        assert(rest@ =~= orig.skip(k));
    }
    assert(orig.take(k) =~= orig);
    let ghost texts = seen@.map_values(|v: Vec<char>| v@);
    let mut out: Vec<char> = Vec::new();
    let mut i: usize = 0;
    while i < seen.len()
        invariant
            i <= seen.len(),
            texts == seen@.map_values(|v: Vec<char>| v@),
            out@ == join_lines(texts.take(i as int)),
        decreases seen.len() - i,
    {
        assert(texts.take(i + 1).drop_last() =~= texts.take(i as int));
        if i > 0 {
            push_str(&mut out, "\n");
        } else {
            assert(texts.take(1) =~= seq![texts[0]]);
        }
        push_chars(&mut out, &seen[i]);
        i = i + 1;
    }
    assert(texts.take(i as int) =~= texts);
    string_from_chars(&out)
}

// ---- the project ----

/// A snapshot of a project: what the build reads.
pub struct Project {
    /// Every `.nono` file under `pages/`, `layouts/` and `lib/`: its path
    /// relative to the project root, and its text.
    pub nono: Vec<(String, String)>,
    /// What evaluation reads: the markdown files (`content/` among them, by
    /// path relative to the project root), the environment and the recorded
    /// network responses.
    pub sources: Sources,
    /// The files under `static/`, by path relative to `static/`.
    pub statics: Vec<String>,
}

/// What a build produces.
pub struct BuildOutput {
    /// Each page's output path (relative to the output root) and document.
    pub pages: Vec<(String, String)>,
    /// Each static file: its path relative to the project root, and its path
    /// relative to the output root.
    pub copies: Vec<(String, String)>,
    /// How many pages came from `.nono` files.
    pub nono_pages: usize,
    /// How many pages came from `.md` files.
    pub content_pages: usize,
}

/// Whether the last segment of `p` is a name followed by `ext` (`.nono`, `.md`).
pub open spec fn has_ext(p: Seq<char>, ext: Seq<char>) -> bool {
    file_name(p).len() > ext.len() && ends_with(file_name(p), ext)
}

pub open spec fn page_file(p: Seq<char>) -> bool {
    starts_with(p, "pages/"@) && has_ext(p, ".nono"@)
}

pub open spec fn lib_file(p: Seq<char>) -> bool {
    starts_with(p, "lib/"@) && has_ext(p, ".nono"@)
}

pub open spec fn content_file(p: Seq<char>) -> bool {
    starts_with(p, "content/"@) && has_ext(p, ".md"@)
}

/// The routes (relative to `pages/`) of the page files, in order.
pub open spec fn page_rels(nono: Seq<(String, String)>) -> Seq<Seq<char>>
    decreases nono.len(),
{
    if nono.len() == 0 {
        Seq::empty()
    } else {
        let rest = page_rels(nono.drop_last());
        let p = nono.last().0@;
        if page_file(p) {
            rest.push(p.skip(6))
        } else {
            rest
        }
    }
}

/// The texts of the page files, in order.
pub open spec fn page_texts(nono: Seq<(String, String)>) -> Seq<Seq<char>>
    decreases nono.len(),
{
    if nono.len() == 0 {
        Seq::empty()
    } else {
        let rest = page_texts(nono.drop_last());
        if page_file(nono.last().0@) {
            rest.push(nono.last().1@)
        } else {
            rest
        }
    }
}

/// The text of the layout file a published content file is laid out by.
pub open spec fn layout_text(nono: Seq<(String, String)>, f: SourceFile) -> Seq<char> {
    nono[nono_index(nono, layout_path(layout_name(f.path@.skip(8), page_fields_of(f))))].1@
}

/// The routes (relative to `content/`) of the content files, in order.
pub open spec fn content_rels(files: Seq<SourceFile>) -> Seq<Seq<char>>
    decreases files.len(),
{
    if files.len() == 0 {
        Seq::empty()
    } else {
        let rest = content_rels(files.drop_last());
        let p = files.last().path@;
        if content_file(p) {
            rest.push(p.skip(8))
        } else {
            rest
        }
    }
}

/// Whether a content file, read as a page, is marked `draft: true`.
pub open spec fn draft_file(f: SourceFile) -> bool {
    page_value(f, f.path@.skip(8)) matches Ok(v) && is_draft(v)
}

/// The content files that are published (not drafts), in order.
pub open spec fn published(files: Seq<SourceFile>) -> Seq<SourceFile>
    decreases files.len(),
{
    if files.len() == 0 {
        Seq::empty()
    } else {
        let rest = published(files.drop_last());
        let f = files.last();
        if content_file(f.path@) && !draft_file(f) {
            rest.push(f)
        } else {
            rest
        }
    }
}

/// The fields of a content file read as a page.
pub open spec fn page_fields_of(f: SourceFile) -> Seq<(Seq<char>, VValue)> {
    match page_value(f, f.path@.skip(8)) {
        Ok(VValue::Dict(m)) => m,
        _ => Seq::empty(),
    }
}

/// The index of the first `.nono` file with path `p`, or -1.
pub open spec fn nono_index(nono: Seq<(String, String)>, p: Seq<char>) -> int
    decreases nono.len(),
{
    if nono.len() == 0 {
        -1
    } else if nono[0].0@ == p {
        0
    } else {
        let k = nono_index(nono.drop_first(), p);
        if k < 0 {
            -1
        } else {
            k + 1
        }
    }
}

proof fn lemma_nono_index(nono: Seq<(String, String)>, p: Seq<char>)
    ensures
        -1 <= nono_index(nono, p) < nono.len(),
        nono_index(nono, p) >= 0 ==> nono[nono_index(nono, p)].0@ == p,
    decreases nono.len(),
{
    if nono.len() > 0 && nono[0].0@ != p {
        lemma_nono_index(nono.drop_first(), p);
    }
}

/// The path of a layout file.
pub open spec fn layout_path(name: Seq<char>) -> Seq<char> {
    "layouts/"@ + name + ".nono"@
}

fn find_nono(nono: &Vec<(String, String)>, p: &str) -> (r: Option<usize>)
    ensures
        match r {
            Some(i) => i < nono@.len() && i as int == nono_index(nono@, p@),
            None => nono_index(nono@, p@) < 0,
        },
{
    let mut i: usize = 0;
    assert(nono@.skip(0) =~= nono@);
    while i < nono.len()
        invariant
            i <= nono.len(),
            forall|j: int| 0 <= j < i ==> nono@[j].0@ != p@,
            nono_index(nono@, p@) == ({
                let k = nono_index(nono@.skip(i as int), p@);
                if k < 0 { -1 } else { k + i }
            }),
        decreases nono.len() - i,
    {
        assert(nono@.skip(i as int).drop_first() =~= nono@.skip(i + 1));
        if str_eq(nono[i].0.as_str(), p) {
            return Some(i);
        }
        i = i + 1;
    }
    None
}

fn has_ext_exec(cs: &Vec<char>, ext: &str) -> (r: bool)
    ensures
        r == has_ext(cs@, ext@),
{
    proof {
        lemma_last_index_of_pub(cs@, '/');
    }
    let start = match chars_last_index(cs, '/') {
        Some(i) => {
            assert(i < cs.len());
            i + 1
        },
        None => 0,
    };
    let name = chars_slice(cs, start, cs.len());
    assert(name@ =~= file_name(cs@));
    let e = chars_of(ext);
    name.len() > e.len() && chars_occur_at(&name, &e, name.len() - e.len())
}

fn in_dir_with_ext(p: &String, dir: &str, ext: &str) -> (r: bool)
    ensures
        r == (starts_with(p@, dir@) && has_ext(p@, ext@)),
{
    let cs = chars_of(p.as_str());
    let d = chars_of(dir);
    chars_occur_at(&cs, &d, 0) && has_ext_exec(&cs, ext)
}

/// The text of `p` after its first `n` characters.
fn rest_after(p: &String, n: usize) -> (r: String)
    requires
        n <= p@.len(),
    ensures
        r@ == p@.skip(n as int),
{
    let cs = chars_of(p.as_str());
    let t = chars_slice(&cs, n, cs.len());
    assert(t@ =~= p@.skip(n as int));
    string_from_chars(&t)
}

/// The standard library, loaded into every page's scope before `lib/`:
/// userland functions and components built on the generic builtins.
pub const STD_SOURCE: &'static str = r##"// The Nono standard library.

// The most recent tracks a Last.fm user listened to. Reads its API key from
// NONO_LASTFM_KEY.
fn lastfm_recent(user: string, limit?: number) = http_get("https://ws.audioscrobbler.com/2.0/?method=user.getrecenttracks&user={user}&api_key={env("NONO_LASTFM_KEY")}&format=json&limit={limit}").recenttracks.track

// A table of contents over a markdown page's `headings`.
component TableOfContents(headings: list) {
  nav(class = "toc") {
    ul {
      for h in headings {
        li(class = "toc-h{h.level}") { a(href = "#{h.id}") { "{h.text}" } }
      }
    }
  }
}
"##;

/// The texts of the `lib/` files, in order.
pub open spec fn lib_texts(nono: Seq<(String, String)>) -> Seq<Seq<char>>
    decreases nono.len(),
{
    if nono.len() == 0 {
        Seq::empty()
    } else {
        let rest = lib_texts(nono.drop_last());
        if lib_file(nono.last().0@) {
            rest.push(nono.last().1@)
        } else {
            rest
        }
    }
}

/// The items of some sources, parsed in order, when they all parse.
pub open spec fn parsed_all(texts: Seq<Seq<char>>) -> Option<Seq<VItem>>
    decreases texts.len(),
{
    if texts.len() == 0 {
        Some(Seq::empty())
    } else {
        match (parsed_all(texts.drop_last()), g_file(texts.last())) {
            (Some(a), Ok(b)) => Some(a + b),
            _ => None,
        }
    }
}

/// The items every page sees: the standard library's, then those of the
/// `lib/` files, in order.
pub open spec fn lib_view(nono: Seq<(String, String)>) -> Option<Seq<VItem>> {
    parsed_all(seq![STD_SOURCE@] + lib_texts(nono))
}

proof fn lemma_v_items_append(a: Seq<Item>, b: Seq<Item>)
    ensures
        v_items(a + b) == v_items(a) + v_items(b),
{
    assert(v_items(a + b) =~= v_items(a) + v_items(b));
}

/// The items of the standard library, then of every `lib/` file, in order.
#[verifier::rlimit(40)]
fn lib_items(nono: &Vec<(String, String)>) -> (r: Result<Vec<Item>, BuildError>)
    ensures
        r matches Ok(items) ==> lib_view(nono@) == Some(v_items(items@)),
        r matches Err(e) ==> (e matches BuildError::Parse { file, .. } && lib_parse_failure(nono@, file@)),
{
    let mut items: Vec<Item> = match parse(STD_SOURCE) {
        Ok(f) => f.items,
        Err(e) => {
            proof {
                reveal_strlit("std.nono");
            }
            return Err(BuildError::Parse { file: owned("std.nono"), parse_error: e });
        },
    };
    let ghost std = seq![STD_SOURCE@];
    assert(std.drop_last() =~= Seq::<Seq<char>>::empty());
    assert(Seq::<VItem>::empty() + v_items(items@) =~= v_items(items@));
    assert(parsed_all(std.drop_last()) == Some(Seq::<VItem>::empty()));
    assert(std.last() == STD_SOURCE@);
    assert(parsed_all(std) == Some(v_items(items@)));
    let mut i: usize = 0;
    while i < nono.len()
        invariant
            i <= nono.len(),
            parsed_all(std + lib_texts(nono@.take(i as int))) == Some(v_items(items@)),
        decreases nono.len() - i,
    {
        assert(nono@.take(i + 1).drop_last() =~= nono@.take(i as int));
        if in_dir_with_ext(&nono[i].0, "lib/", ".nono") {
            proof {
                reveal_strlit("lib/");
            }
            match parse(nono[i].1.as_str()) {
                Ok(f) => {
                    let ghost before = items@;
                    let mut fi = f.items;
                    proof {
                        lemma_v_items_append(before, fi@);
                    }
                    items.append(&mut fi);
                    assert((std + lib_texts(nono@.take(i + 1))).drop_last() =~= std + lib_texts(nono@.take(i as int)));
                },
                Err(e) => {
                    assert(nono@[i as int].0@ == nono[i as int].0@);
                    return Err(BuildError::Parse { file: nono[i].0.clone(), parse_error: e });
                },
            }
        } else {
            assert(lib_texts(nono@.take(i + 1)) == lib_texts(nono@.take(i as int)));
        }
        i = i + 1;
    }
    assert(nono@.take(i as int) =~= nono@);
    Ok(items)
}

/// A content page's title: its `title` string field, else the name of its
/// layout's component.
pub open spec fn content_title(fields: Seq<(Seq<char>, VValue)>, layout_component: Seq<char>) -> Seq<char> {
    match dict_get(fields, "title"@) {
        Some(VValue::Str(t)) => t,
        _ => layout_component,
    }
}

/// A rendered tree laid out as a document: what it hoisted into `head`, each
/// distinct piece once, in the head; the stylesheet CSS; the rest as the body.
pub open spec fn laid_out(title: Seq<char>, css: Seq<char>, nodes: Seq<VHtml>) -> Seq<char> {
    document_text(
        title,
        head_text(add_all_to_regions(Seq::empty(), hoist_events(nodes))),
        css,
        render_seq(strip(nodes)),
    )
}

/// Whether `html` is the document of a page: `items` evaluated (constants
/// first) against the sources, the component `name` rendered and laid out
/// with the items' stylesheets, titled with the name.
pub open spec fn page_rendering(items: Seq<Item>, src: Sources, name: Seq<char>, html: Seq<char>) -> bool {
    match s_new(items, src) {
        Ok(ctx) => match s_render(ctx, name) {
            Ok(nodes) => html == laid_out(name, items_css(items), nodes),
            Err(_) => false,
        },
        Err(_) => false,
    }
}

/// Whether `html` is the document of the page with source `text`, the items
/// `lib` in scope: the page parses, defines exactly one component, and its
/// document is that component rendered over the lib items and its own (as
/// some syntax trees with those views).
pub open spec fn page_document_with(lib: Seq<VItem>, src: Sources, text: Seq<char>, html: Seq<char>) -> bool {
    match (g_file(text), sole_name(text)) {
        (Ok(own), Some(n)) => exists|items: Seq<Item>| #[trigger] v_items(items) == lib + own && page_rendering(items, src, n, html),
        _ => false,
    }
}

pub open spec fn page_document(nono: Seq<(String, String)>, src: Sources, text: Seq<char>, html: Seq<char>) -> bool {
    match lib_view(nono) {
        Some(lib) => page_document_with(lib, src, text, html),
        None => false,
    }
}

/// The `html` field of a content page: its rendered body.
pub open spec fn body_of(fields: Seq<(Seq<char>, VValue)>) -> Seq<char> {
    match dict_get(fields, "html"@) {
        Some(VValue::Str(h)) => h,
        _ => Seq::empty(),
    }
}

/// Whether `html` is the document of a content page: the layout component
/// `name` of `items`, its parameters bound from the page's fields and the body
/// `body` in its `Slot()`, laid out with the items' stylesheets and the page's
/// title.
pub open spec fn layout_rendering(
    items: Seq<Item>,
    src: Sources,
    name: Seq<char>,
    fields: Seq<(Seq<char>, VValue)>,
    body: String,
    html: Seq<char>,
) -> bool {
    match s_new(items, src) {
        Ok(ctx) => match s_render_layout(ctx, name, fields, body) {
            Ok(nodes) => html == laid_out(content_title(fields, name), items_css(items), nodes),
            Err(_) => false,
        },
        Err(_) => false,
    }
}

pub open spec fn content_document_with(
    lib: Seq<VItem>,
    src: Sources,
    layout_text: Seq<char>,
    fields: Seq<(Seq<char>, VValue)>,
    html: Seq<char>,
) -> bool {
    match (g_file(layout_text), sole_name(layout_text)) {
        (Ok(own), Some(n)) => exists|items: Seq<Item>, body: String|
            #![trigger v_items(items), body.view()]
            v_items(items) == lib + own && body@ == body_of(fields) && layout_rendering(items, src, n, fields, body, html),
        _ => false,
    }
}

pub open spec fn content_document(
    nono: Seq<(String, String)>,
    src: Sources,
    layout_text: Seq<char>,
    fields: Seq<(Seq<char>, VValue)>,
    html: Seq<char>,
) -> bool {
    match lib_view(nono) {
        Some(lib) => content_document_with(lib, src, layout_text, fields, html),
        None => false,
    }
}

/// Lay a rendered tree out as a document: hoisted `head` content into the
/// head, the stylesheet CSS, the body.
fn finish_document(title: &str, css: &str, nodes: Vec<Html>) -> (r: String)
    ensures
        r@ == laid_out(title@, css@, view_htmls(nodes@)),
{
    let (regions, body) = extract_hoists(nodes);
    let head = head_extra(regions);
    let b = render(&body);
    document(title, head.as_str(), css, b.as_str())
}

/// The names of the components among some parsed items, in order.
pub open spec fn v_component_names(items: Seq<VItem>) -> Seq<Seq<char>>
    decreases items.len(),
{
    if items.len() == 0 {
        Seq::empty()
    } else {
        let rest = v_component_names(items.drop_last());
        match items.last() {
            VItem::Component(n, _, _) => rest.push(n),
            _ => rest,
        }
    }
}

/// The name of the one component a source defines, when it parses and
/// defines exactly one.
pub open spec fn sole_name(text: Seq<char>) -> Option<Seq<char>> {
    match g_file(text) {
        Ok(items) => if v_component_names(items).len() == 1 {
            Some(v_component_names(items)[0])
        } else {
            None
        },
        Err(_) => None,
    }
}

proof fn lemma_component_names_view(items: Seq<Item>)
    ensures
        component_names(items) == v_component_names(v_items(items)),
    decreases items.len(),
{
    if items.len() > 0 {
        lemma_component_names_view(items.drop_last());
        assert(v_items(items).drop_last() =~= v_items(items.drop_last()));
        assert(v_items(items).last() == v_item(items.last()));
    } else {
        assert(v_items(items) =~= Seq::<VItem>::empty());
    }
}

/// Render a `.nono` page: the lib items and the page's own, its one
/// component rendered and laid out as a document titled with its name.
fn render_nono_page(path: &String, text: &String, lib: Vec<Item>, src: Sources) -> (r: Result<(String, Sources), BuildError>)
    ensures
        r matches Ok((html, s2)) ==> s2 == src,
        r matches Ok((html, s2)) ==> page_document_with(v_items(lib@), src, text@, html@),
        r matches Err(e) ==> match e {
            BuildError::Parse { file, .. } => file@ == path@ && g_file(text@) is Err,
            BuildError::NoComponent { file, .. } => file@ == path@ && components_of(text@) == Some(
                Seq::<Seq<char>>::empty(),
            ),
            BuildError::ManyComponents { file, names, .. } => file@ == path@ && names@.len() > 1 && components_of(
                text@,
            ) == Some(string_views(names@)),
            BuildError::Evaluate { file, error } => file@ == path@ && page_fails(v_items(lib@), src, text@, false, error@),
            BuildError::Render { file, error } => file@ == path@ && page_fails(v_items(lib@), src, text@, true, error@),
            _ => false,
        },
{
    let file = match parse(text.as_str()) {
        Ok(f) => f,
        Err(e) => return Err(BuildError::Parse { file: path.clone(), parse_error: e }),
    };
    let names = item_component_names(&file.items);
    proof {
        lemma_component_names_view(file.items@);
    }
    let name = match sole_component(&names, path.as_str(), "page") {
        Ok(n) => n,
        Err(e) => return Err(e),
    };
    let mut items = lib;
    let mut own = file.items;
    proof {
        lemma_v_items_append(items@, own@);
    }
    items.append(&mut own);
    let ghost all = items@;
    let css = css_of_items(&items);
    let ev = match Evaluator::new(items, src) {
        Ok(ev) => ev,
        Err(e) => {
            assert(v_items(all) == v_items(lib@) + g_file(text@)->Ok_0);
            assert(s_new(all, src) == Err::<crate::semantics::Ctx, VError>(e@));
            return Err(BuildError::Evaluate { file: path.clone(), error: e });
        },
    };
    let nodes = match ev.render_component(name.as_str()) {
        Ok(n) => n,
        Err(e) => {
            assert(v_items(all) == v_items(lib@) + g_file(text@)->Ok_0);
            assert(s_render(ev@, name@) == Err::<Seq<VHtml>, VError>(e@));
            return Err(BuildError::Render { file: path.clone(), error: e });
        },
    };
    let ghost ctx = ev@;
    let back = ev.into_sources();
    let doc = finish_document(name.as_str(), css.as_str(), nodes);
    assert(page_rendering(all, src, name@, doc@));
    Ok((doc, back))
}

/// Render a content page through its layout: the frontmatter fields bind the
/// layout's parameters, the rendered body fills its `Slot()`, and the page is
/// titled with its `title` field (else the layout component's name).
fn render_content_page(
    page: &String,
    lpath: &String,
    ltext: &String,
    fields: &Vec<(String, Value)>,
    lib: Vec<Item>,
    src: Sources,
) -> (r: Result<(String, Sources), BuildError>)
    ensures
        r matches Ok((html, s2)) ==> s2 == src,
        r matches Ok((html, s2)) ==> content_document_with(v_items(lib@), src, ltext@, view_entries(fields@), html@),
        r matches Err(e) ==> match e {
            BuildError::Parse { file, .. } => file@ == lpath@ && g_file(ltext@) is Err,
            BuildError::NoComponent { file, .. } => file@ == lpath@ && components_of(ltext@) == Some(
                Seq::<Seq<char>>::empty(),
            ),
            BuildError::ManyComponents { file, names, .. } => file@ == lpath@ && names@.len() > 1 && components_of(
                ltext@,
            ) == Some(string_views(names@)),
            BuildError::Evaluate { file, error } => file@ == page@ && content_fails(
                v_items(lib@),
                src,
                ltext@,
                view_entries(fields@),
                false,
                error@,
            ),
            BuildError::Render { file, error } => file@ == page@ && content_fails(
                v_items(lib@),
                src,
                ltext@,
                view_entries(fields@),
                true,
                error@,
            ),
            _ => false,
        },
{
    let file = match parse(ltext.as_str()) {
        Ok(f) => f,
        Err(e) => return Err(BuildError::Parse { file: lpath.clone(), parse_error: e }),
    };
    proof {
        lemma_component_names_view(file.items@);
    }
    let names = item_component_names(&file.items);
    let name = match sole_component(&names, lpath.as_str(), "layout") {
        Ok(n) => n,
        Err(e) => return Err(e),
    };
    proof {
        reveal_strlit("");
    }
    let body_html = match dict_lookup(fields, "html") {
        Some(Value::Str(h)) => h,
        _ => owned(""),
    };
    let mut items = lib;
    let mut own = file.items;
    proof {
        lemma_v_items_append(items@, own@);
    }
    items.append(&mut own);
    let ghost all = items@;
    let ghost body_str = body_html;
    let css = css_of_items(&items);
    let ev = match Evaluator::new(items, src) {
        Ok(ev) => ev,
        Err(e) => {
            assert(v_items(all) == v_items(lib@) + g_file(ltext@)->Ok_0);
            assert(body_str@ == body_of(view_entries(fields@)));
            assert(s_new(all, src) == Err::<crate::semantics::Ctx, VError>(e@));
            return Err(BuildError::Evaluate { file: page.clone(), error: e });
        },
    };
    let nodes = match ev.render_layout(name.as_str(), fields, body_html) {
        Ok(n) => n,
        Err(e) => {
            assert(v_items(all) == v_items(lib@) + g_file(ltext@)->Ok_0);
            assert(body_str@ == body_of(view_entries(fields@)));
            assert(s_render_layout(ev@, name@, view_entries(fields@), body_str) == Err::<Seq<VHtml>, VError>(e@));
            return Err(BuildError::Render { file: page.clone(), error: e });
        },
    };
    let back = ev.into_sources();
    let title = match dict_lookup(fields, "title") {
        Some(Value::Str(t)) => t,
        _ => name,
    };
    let doc = finish_document(title.as_str(), css.as_str(), nodes);
    assert(title@ == content_title(view_entries(fields@), sole_name(ltext@)->0));
    assert(body_str@ == body_of(view_entries(fields@)));
    assert(v_items(all) == v_items(lib@) + g_file(ltext@)->Ok_0);
    assert(layout_rendering(all, src, sole_name(ltext@)->0, view_entries(fields@), body_str, doc@));
    Ok((doc, back))
}

/// The names of the components a source defines, when it parses.
pub open spec fn components_of(text: Seq<char>) -> Option<Seq<Seq<char>>> {
    match g_file(text) {
        Ok(items) => Some(v_component_names(items)),
        Err(_) => None,
    }
}

/// Whether a parse error at `file` is explained by the library files: the
/// standard library does not parse, or a `lib/` file of that path does not.
pub open spec fn lib_parse_failure(nono: Seq<(String, String)>, file: Seq<char>) -> bool {
    ||| (file == "std.nono"@ && g_file(STD_SOURCE@) is Err)
    ||| (lib_file(file) && exists|k: int|
        0 <= k < nono.len() && (#[trigger] nono[k]).0@ == file && g_file(nono[k].1@) is Err)
}

/// Whether `file` is the layout of some published content page.
pub open spec fn layout_in_use(files: Seq<SourceFile>, file: Seq<char>) -> bool {
    exists|k: int|
        0 <= k < files.len() && content_file((#[trigger] files[k]).path@) && !draft_file(files[k]) && file
            == layout_path(layout_name(files[k].path@.skip(8), page_fields_of(files[k])))
}

/// Whether `file` is a page file or the layout of a published content page:
/// a file that must define exactly one component.
pub open spec fn page_or_layout(files: Seq<SourceFile>, file: Seq<char>) -> bool {
    page_file(file) || layout_in_use(files, file)
}

/// Whether a parse error at `file` is explained by the project: a library
/// file, a page file, or the layout of a published content page, of that path,
/// that does not parse.
pub open spec fn parse_failure(nono: Seq<(String, String)>, files: Seq<SourceFile>, file: Seq<char>) -> bool {
    ||| lib_parse_failure(nono, file)
    ||| (page_or_layout(files, file) && exists|k: int|
        0 <= k < nono.len() && (#[trigger] nono[k]).0@ == file && g_file(nono[k].1@) is Err)
}

/// Whether the page with source `text`, the items `lib` in scope, fails with
/// `err`: its items cannot be evaluated (`at_render` false), or its one
/// component cannot be rendered (`at_render` true).
pub open spec fn page_fails(lib: Seq<VItem>, src: Sources, text: Seq<char>, at_render: bool, err: VError) -> bool {
    match (g_file(text), sole_name(text)) {
        (Ok(own), Some(n)) => exists|items: Seq<Item>|
            #[trigger] v_items(items) == lib + own && match s_new(items, src) {
                Err(e) => !at_render && e == err,
                Ok(ctx) => at_render && s_render(ctx, n) == Err::<Seq<VHtml>, VError>(err),
            },
        _ => false,
    }
}

/// Whether a content page with fields `fields`, laid out by the layout with
/// source `layout_text`, fails with `err`: the items cannot be evaluated
/// (`at_render` false), or the layout cannot be rendered over the fields and
/// the body (`at_render` true).
pub open spec fn content_fails(
    lib: Seq<VItem>,
    src: Sources,
    layout_text: Seq<char>,
    fields: Seq<(Seq<char>, VValue)>,
    at_render: bool,
    err: VError,
) -> bool {
    match (g_file(layout_text), sole_name(layout_text)) {
        (Ok(own), Some(n)) => exists|items: Seq<Item>, body: String|
            #![trigger v_items(items), body.view()]
            v_items(items) == lib + own && body@ == body_of(fields) && match s_new(items, src) {
                Err(e) => !at_render && e == err,
                Ok(ctx) => at_render && s_render_layout(ctx, n, fields, body) == Err::<Seq<VHtml>, VError>(err),
            },
        _ => false,
    }
}

/// Whether an evaluation (`at_render` false) or rendering (`at_render` true)
/// error `err` at `file` is explained by the project: a page file of that path
/// that fails so, or a published content file of that path whose layout fails
/// so over its fields.
pub open spec fn evaluation_failure(
    nono: Seq<(String, String)>,
    src: Sources,
    file: Seq<char>,
    at_render: bool,
    err: VError,
) -> bool {
    let files = src.files@;
    match lib_view(nono) {
        Some(lib) => (exists|k: int|
            0 <= k < nono.len() && (#[trigger] nono[k]).0@ == file && page_file(file) && page_fails(
                lib,
                src,
                nono[k].1@,
                at_render,
                err,
            )) || (exists|k: int|
            0 <= k < files.len() && (#[trigger] files[k]).path@ == file && content_file(file) && !draft_file(
                files[k],
            ) && content_fails(lib, src, layout_text(nono, files[k]), page_fields_of(files[k]), at_render, err)),
        None => false,
    }
}

/// Whether a component-count error at `file` is explained by the project: a
/// page file, or the layout of a published content page, of that path, that
/// parses and defines `names`.
pub open spec fn defines_components(
    nono: Seq<(String, String)>,
    files: Seq<SourceFile>,
    file: Seq<char>,
    names: Seq<Seq<char>>,
) -> bool {
    page_or_layout(files, file) && exists|k: int|
        0 <= k < nono.len() && (#[trigger] nono[k]).0@ == file && components_of(nono[k].1@) == Some(names)
}

/// Why a build failed, as far as the project shows it: an illegal route of a
/// page or content file; a file that does not parse; a page or layout that
/// does not define exactly one component; a content file whose frontmatter
/// cannot be read or whose layout is missing; a page or layout whose
/// evaluation or rendering fails with the error reported.
pub open spec fn failure_explained(project: Project, e: BuildError) -> bool {
    let nono = project.nono@;
    let files = project.sources.files@;
    match e {
        BuildError::IllegalRoute { segment, rel } => first_bad_segment(path_segments(rel@)) == Some(segment@)
            && (page_rels(nono).contains(rel@) || content_rels(files).contains(rel@)),
        BuildError::Parse { file, .. } => parse_failure(nono, files, file@),
        BuildError::NoComponent { file, .. } => defines_components(nono, files, file@, Seq::empty()),
        BuildError::ManyComponents { file, names, .. } => names@.len() > 1 && defines_components(
            nono,
            files,
            file@,
            string_views(names@),
        ),
        BuildError::Read { file, error } => exists|k: int|
            0 <= k < files.len() && (#[trigger] files[k]).path@ == file@ && content_file(file@) && page_value(
                files[k],
                file@.skip(8),
            ) == Err::<VValue, crate::error::VError>(error@),
        BuildError::MissingLayout { page, layout, layout_path: lp } => lp@ == layout_path(layout@) && nono_index(
            nono,
            lp@,
        ) < 0 && exists|k: int|
            0 <= k < files.len() && (#[trigger] files[k]).path@ == page@ && content_file(page@) && !draft_file(
                files[k],
            ) && layout@ == layout_name(page@.skip(8), page_fields_of(files[k])),
        BuildError::Evaluate { file, error } => evaluation_failure(nono, project.sources, file@, false, error@),
        BuildError::Render { file, error } => evaluation_failure(nono, project.sources, file@, true, error@),
        BuildError::StepFailed { .. } => false,
    }
}

proof fn lemma_page_rels_prefix(nono: Seq<(String, String)>, i: int)
    requires
        0 <= i <= nono.len(),
    ensures
        page_rels(nono.take(i)).len() <= page_rels(nono).len(),
        forall|k: int|
            0 <= k < page_rels(nono.take(i)).len() ==> #[trigger] page_rels(nono.take(i))[k] == page_rels(nono)[k],
    decreases nono.len() - i,
{
    if i < nono.len() {
        lemma_page_rels_prefix(nono, i + 1);
        assert(nono.take(i + 1).drop_last() =~= nono.take(i));
        assert forall|k: int|
            0 <= k < page_rels(nono.take(i)).len() implies #[trigger] page_rels(nono.take(i))[k] == page_rels(nono)[k] by {
            assert(page_rels(nono.take(i + 1))[k] == page_rels(nono.take(i))[k]);
        }
    } else {
        assert(nono.take(i) =~= nono);
    }
}

proof fn lemma_content_rels_prefix(files: Seq<SourceFile>, i: int)
    requires
        0 <= i <= files.len(),
    ensures
        content_rels(files.take(i)).len() <= content_rels(files).len(),
        forall|k: int|
            0 <= k < content_rels(files.take(i)).len() ==> #[trigger] content_rels(files.take(i))[k] == content_rels(
                files,
            )[k],
    decreases files.len() - i,
{
    if i < files.len() {
        lemma_content_rels_prefix(files, i + 1);
        assert(files.take(i + 1).drop_last() =~= files.take(i));
        assert forall|k: int|
            0 <= k < content_rels(files.take(i)).len() implies #[trigger] content_rels(files.take(i))[k] == content_rels(
                files,
            )[k] by {
            assert(content_rels(files.take(i + 1))[k] == content_rels(files.take(i))[k]);
        }
    } else {
        assert(files.take(i) =~= files);
    }
}

/// Whether a successful build's output matches the project: one page per
/// page file and one per published content file, each at its route; every
/// route legal; every published content file's layout present; every static
/// file copied.
pub open spec fn output_matches(project: Project, out: BuildOutput) -> bool {
    let pr = page_rels(project.nono@);
    let pubs = published(project.sources.files@);
    let cr = content_rels(project.sources.files@);
    &&& out.nono_pages == pr.len()
    &&& out.content_pages == pubs.len()
    &&& out.pages@.len() == out.nono_pages + out.content_pages
    &&& forall|k: int| 0 <= k < pr.len() ==> #[trigger] out.pages@[k].0@ == route_output(pr[k])
    &&& forall|k: int|
        0 <= k < pubs.len() ==> #[trigger] out.pages@[out.nono_pages + k].0@ == route_output(pubs[k].path@.skip(8))
    &&& forall|k: int| 0 <= k < pr.len() ==> first_bad_segment(path_segments(#[trigger] pr[k])) is None
    &&& forall|k: int| 0 <= k < cr.len() ==> first_bad_segment(path_segments(#[trigger] cr[k])) is None
    &&& forall|k: int|
        0 <= k < pubs.len() ==> nono_index(
            project.nono@,
            layout_path(layout_name((#[trigger] pubs[k]).path@.skip(8), page_fields_of(pubs[k]))),
        ) >= 0
    &&& forall|k: int|
        0 <= k < pr.len() ==> page_document(
            project.nono@,
            project.sources,
            page_texts(project.nono@)[k],
            (#[trigger] out.pages@[k]).1@,
        )
    &&& forall|k: int|
        0 <= k < pubs.len() ==> content_document(
            project.nono@,
            project.sources,
            layout_text(project.nono@, pubs[k]),
            page_fields_of(pubs[k]),
            (#[trigger] out.pages@[out.nono_pages + k]).1@,
        )
    &&& out.copies@.len() == project.statics@.len()
    &&& forall|k: int|
        0 <= k < project.statics@.len() ==> (#[trigger] out.copies@[k]).0@ == "static/"@ + project.statics@[k]@
            && out.copies@[k].1@ == project.statics@[k]@
}

/// Build a site: every page file under `pages/` and every published `.md`
/// under `content/` becomes a document at its route; `static/` files are
/// copied. The first failure stops the build.
fn build_pages(project: Project) -> (r: Result<BuildOutput, BuildError>)
    ensures
        r matches Ok(out) ==> output_matches(project, out),
        r matches Err(e) ==> failure_explained(project, e),
{
    let ghost proj = project;
    let Project { nono, sources, statics } = project;
    let ghost files = sources.files@;
    // A lib file that does not parse stops the build before any page.
    match lib_items(&nono) {
        Ok(_) => {},
        Err(e) => return Err(e),
    }
    let mut src = sources;
    let mut pages: Vec<(String, String)> = Vec::new();
    let mut i: usize = 0;
    while i < nono.len()
        invariant
            i <= nono.len(),
            proj == project,
            nono@ == proj.nono@,
            src == proj.sources,
            pages@.len() == page_rels(nono@.take(i as int)).len(),
            page_texts(nono@.take(i as int)).len() == pages@.len(),
            forall|k: int|
                0 <= k < pages@.len() ==> #[trigger] pages@[k].0@ == route_output(page_rels(nono@.take(i as int))[k]),
            forall|k: int|
                0 <= k < pages@.len() ==> page_document(
                    proj.nono@,
                    proj.sources,
                    page_texts(nono@.take(i as int))[k],
                    (#[trigger] pages@[k]).1@,
                ),
            forall|k: int|
                0 <= k < page_rels(nono@.take(i as int)).len() ==> first_bad_segment(
                    path_segments(#[trigger] page_rels(nono@.take(i as int))[k]),
                ) is None,
        decreases nono.len() - i,
    {
        assert(nono@.take(i + 1).drop_last() =~= nono@.take(i as int));
        assert(nono@.take(i + 1).last() == nono@[i as int]);
        if in_dir_with_ext(&nono[i].0, "pages/", ".nono") {
            proof {
                reveal_strlit("pages/");
            }
            let rel = rest_after(&nono[i].0, 6);
            proof {
                lemma_page_rels_prefix(nono@, i + 1);
                assert(page_rels(nono@.take(i + 1)).last() == rel@);
                assert(page_rels(nono@).contains(rel@));
                assert(nono@[i as int] == nono[i as int]);
            }
            match validate_route(rel.as_str()) {
                Ok(()) => {},
                Err(e) => return Err(e),
            }
            let lib = match lib_items(&nono) {
                Ok(l) => l,
                Err(e) => return Err(e),
            };
            let (doc, back) = match render_nono_page(&nono[i].0, &nono[i].1, lib, src) {
                Ok(v) => v,
                Err(e) => {
                    assert(nono@[i as int].0@ == nono[i as int].0@);
                    return Err(e);
                },
            };
            src = back;
            let out_path = route_to_output(rel.as_str());
            pages.push((out_path, doc));
        }
        i = i + 1;
    }
    assert(nono@.take(i as int) =~= nono@);
    let nono_pages = pages.len();
    let ghost pr = page_rels(nono@);
    let mut content_pages: usize = 0;
    let n = src.files.len();
    let mut j: usize = 0;
    while j < n
        invariant
            j <= n == files.len(),
            proj == project,
            nono@ == proj.nono@,
            src == proj.sources,
            files == src.files@,
            pr == page_rels(nono@),
            nono_pages == pr.len(),
            forall|k: int|
                0 <= k < pr.len() ==> page_document(proj.nono@, proj.sources, page_texts(nono@)[k], (#[trigger] pages@[k]).1@),
            forall|k: int|
                0 <= k < content_pages ==> content_document(
                    proj.nono@,
                    proj.sources,
                    layout_text(nono@, published(files.take(j as int))[k]),
                    page_fields_of(published(files.take(j as int))[k]),
                    (#[trigger] pages@[nono_pages + k]).1@,
                ),
            content_pages == published(files.take(j as int)).len(),
            pages@.len() == nono_pages + content_pages,
            forall|k: int| 0 <= k < pr.len() ==> #[trigger] pages@[k].0@ == route_output(pr[k]),
            forall|k: int|
                0 <= k < content_pages ==> #[trigger] pages@[nono_pages + k].0@ == route_output(
                    published(files.take(j as int))[k].path@.skip(8),
                ),
            forall|k: int|
                0 <= k < content_rels(files.take(j as int)).len() ==> first_bad_segment(
                    path_segments(#[trigger] content_rels(files.take(j as int))[k]),
                ) is None,
            forall|k: int|
                0 <= k < content_pages ==> nono_index(
                    nono@,
                    layout_path(
                        layout_name(
                            (#[trigger] published(files.take(j as int))[k]).path@.skip(8),
                            page_fields_of(published(files.take(j as int))[k]),
                        ),
                    ),
                ) >= 0,
        decreases n - j,
    {
        assert(files.take(j + 1).drop_last() =~= files.take(j as int));
        assert(files.take(j + 1).last() == files[j as int]);
        let path = src.files[j].path.clone();
        if in_dir_with_ext(&path, "content/", ".md") {
            proof {
                reveal_strlit("content/");
            }
            let rel = rest_after(&path, 8);
            proof {
                lemma_content_rels_prefix(files, j + 1);
            }
            match validate_route(rel.as_str()) {
                Ok(()) => {},
                Err(e) => {
                    assert(content_rels(files.take(j + 1)).last() == rel@);
                    assert(content_rels(files).contains(rel@));
                    return Err(e);
                },
            }
            assert(content_rels(files.take(j + 1)) == content_rels(files.take(j as int)).push(rel@));
            let value = match markdown_value(&src.files[j], rel.as_str()) {
                Ok(v) => v,
                Err(e) => return Err(BuildError::Read { file: path, error: e }),
            };
            let fields: Vec<(String, Value)> = match value {
                Value::Dict(m) => m,
                _ => Vec::new(),
            };
            assert(view_entries(fields@) == page_fields_of(files[j as int]));
            let draft = match dict_lookup(&fields, "draft") {
                Some(Value::Bool(b)) => b,
                _ => false,
            };
            assert(draft == draft_file(files[j as int]));
            if !draft {
                let layout = resolve_layout(rel.as_str(), &fields);
                let mut lp: Vec<char> = Vec::new();
                push_str(&mut lp, "layouts/");
                push_string(&mut lp, &layout);
                push_str(&mut lp, ".nono");
                let lpath = string_from_chars(&lp);
                let li = match find_nono(&nono, lpath.as_str()) {
                    Some(li) => li,
                    None => return Err(BuildError::MissingLayout { page: path, layout, layout_path: lpath }),
                };
                let lib = match lib_items(&nono) {
                    Ok(l) => l,
                    Err(e) => return Err(e),
                };
                let (doc, back) = match render_content_page(&path, &lpath, &nono[li].1, &fields, lib, src) {
                    Ok(v) => v,
                    Err(e) => {
                        proof {
                            lemma_nono_index(nono@, lpath@);
                        }
                        assert(nono@[li as int].0@ == lpath@);
                        return Err(e);
                    },
                };
                src = back;
                let out_path = route_to_output(rel.as_str());
                pages.push((out_path, doc));
                assert(pages.len() == nono_pages + content_pages + 1);
                content_pages = content_pages + 1;
            }
        } else {
            assert(content_rels(files.take(j + 1)) == content_rels(files.take(j as int)));
        }
        j = j + 1;
    }
    assert(files.take(n as int) =~= files);
    let mut copies: Vec<(String, String)> = Vec::new();
    let mut k: usize = 0;
    while k < statics.len()
        invariant
            k <= statics.len(),
            copies@.len() == k,
            forall|m: int|
                0 <= m < k ==> (#[trigger] copies@[m]).0@ == "static/"@ + statics@[m]@ && copies@[m].1@ == statics@[m]@,
        decreases statics.len() - k,
    {
        let mut from: Vec<char> = Vec::new();
        push_str(&mut from, "static/");
        push_string(&mut from, &statics[k]);
        copies.push((string_from_chars(&from), statics[k].clone()));
        k = k + 1;
    }
    Ok(BuildOutput { pages, copies, nono_pages, content_pages })
}

/// Build the site from a snapshot of the project. On success, the output is
/// exactly the project's pages at their routes and its static files; on
/// failure, the error is one the project explains, so a project with no
/// failing page, layout, library or content file always builds.
pub fn build_site(project: Project) -> (r: Result<BuildOutput, BuildError>)
    ensures
        r matches Ok(out) ==> output_matches(project, out),
        r matches Err(e) ==> failure_explained(project, e),
        (forall|e: BuildError| !#[trigger] failure_explained(project, e)) ==> r is Ok,
{
    let ghost p = project;
    let r = build_pages(project);
    proof {
        if r is Err {
            assert(failure_explained(p, r->Err_0));
        }
    }
    r
}

proof fn lemma_last_index_split(a: Seq<char>, c: char, b: Seq<char>)
    requires
        !b.contains(c),
    ensures
        last_index_of(a + seq![c] + b, c) == a.len(),
    decreases b.len(),
{
    let s = a + seq![c] + b;
    if b.len() == 0 {
        assert(s.last() == c);
    } else {
        assert(s.drop_last() =~= a + seq![c] + b.drop_last());
        assert(s.last() == b.last());
        assert(b.last() == b[b.len() - 1]);
        assert(!b.drop_last().contains(c)) by {
            if b.drop_last().contains(c) {
                let k = choose|k: int| 0 <= k < b.drop_last().len() && b.drop_last()[k] == c;
                assert(b[k] == c);
            }
        }
        lemma_last_index_split(a, c, b.drop_last());
    }
}

proof fn lemma_last_index_none(s: Seq<char>, c: char)
    requires
        !s.contains(c),
    ensures
        last_index_of(s, c) == -1,
    decreases s.len(),
{
    if s.len() > 0 {
        assert(s.last() == s[s.len() - 1]);
        assert(!s.drop_last().contains(c)) by {
            if s.drop_last().contains(c) {
                let k = choose|k: int| 0 <= k < s.drop_last().len() && s.drop_last()[k] == c;
                assert(s[k] == c);
            }
        }
        lemma_last_index_none(s.drop_last(), c);
    }
}

/// Law: a content page's layout is its frontmatter `layout` string when that is
/// non-empty; otherwise the directory the page sits in (its innermost one); and
/// `default` for a page directly under `content/`.
pub proof fn lemma_layout_choice(rel: Seq<char>, fields: Seq<(Seq<char>, VValue)>, outer: Seq<char>, dir: Seq<char>, name: Seq<char>)
    ensures
        ({
            let named = match dict_get(fields, "layout"@) {
                Some(VValue::Str(l)) => l.len() > 0,
                _ => false,
            };
            &&& named ==> Some(VValue::Str(layout_name(rel, fields))) == dict_get(fields, "layout"@)
            &&& !named && !rel.contains('/') ==> layout_name(rel, fields) == "default"@
            &&& !named && rel == outer + dir + seq!['/'] + name && !name.contains('/') && !dir.contains('/')
                && dir.len() > 0 && (outer.len() == 0 || outer.last() == '/') ==> layout_name(rel, fields) == dir
        }),
{
    reveal_strlit("default");
    let named = match dict_get(fields, "layout"@) {
        Some(VValue::Str(l)) => l.len() > 0,
        _ => false,
    };
    if !named && !rel.contains('/') {
        lemma_last_index_none(rel, '/');
        assert(parent_path(rel) == Seq::<char>::empty());
        lemma_last_index_none(Seq::<char>::empty(), '/');
        assert(file_name(Seq::<char>::empty()) =~= Seq::<char>::empty());
    }
    if !named && rel == outer + dir + seq!['/'] + name && !name.contains('/') && !dir.contains('/') && dir.len() > 0
        && (outer.len() == 0 || outer.last() == '/') {
        lemma_last_index_split(outer + dir, '/', name);
        assert(parent_path(rel) =~= outer + dir);
        if outer.len() == 0 {
            assert(outer + dir =~= dir);
            lemma_last_index_none(dir, '/');
            assert(file_name(dir) =~= dir);
        } else {
            let o2 = outer.drop_last();
            assert(outer + dir =~= o2 + seq!['/'] + dir);
            lemma_last_index_split(o2, '/', dir);
            assert((outer + dir).skip(outer.len() as int) =~= dir);
        }
    }
}

proof fn lemma_strip_no_dot(seg: Seq<char>, suf: Seq<char>)
    requires
        !seg.contains('.'),
        suf.len() > 0,
        suf[0] == '.',
    ensures
        strip_suffixes(seg, suf) == seg,
{
    if ends_with(seg, suf) {
        let k = seg.len() - suf.len();
        assert(seg.subrange(k, k + suf.len())[0] == seg[k]);
        assert(seg[k] == '.');
    }
}

/// Law: a route segment without an extension is legal exactly when every
/// character is a lowercase ASCII letter, a digit or `-`; a `.md` or `.nono`
/// file name is legal exactly when its stem is.
pub proof fn lemma_segment_rule(stem: Seq<char>)
    ensures
        ({
            let allowed = forall|i: int|
                0 <= i < stem.len() ==> ('a' <= #[trigger] stem[i] && stem[i] <= 'z') || ('0' <= stem[i] && stem[i]
                    <= '9') || stem[i] == '-';
            &&& !stem.contains('.') ==> (segment_ok(stem) <==> allowed)
            &&& !stem.contains('.') ==> (segment_ok(stem + ".md"@) <==> allowed)
            &&& !stem.contains('.') ==> (segment_ok(stem + ".nono"@) <==> allowed)
        }),
{
    reveal_strlit(".md");
    reveal_strlit(".nono");
    if !stem.contains('.') {
        lemma_strip_no_dot(stem, ".nono"@);
        lemma_strip_no_dot(stem, ".md"@);
        assert(route_stem(stem) == stem);
        let md = stem + ".md"@;
        // `.md` is not a `.nono` suffix, and removing `.md` leaves the stem.
        if ends_with(md, ".nono"@) {
            let k = md.len() - 5;
            assert(md.subrange(k, k + 5)[2] == md[k + 2]);
            assert(md[k + 2] == md[md.len() - 3]);
            assert(md[md.len() - 3] == '.');
        }
        assert(strip_suffixes(md, ".nono"@) == md);
        assert(ends_with(md, ".md"@)) by {
            assert(md.subrange(md.len() - 3, md.len() as int) =~= ".md"@);
        }
        assert(md.take(md.len() - 3) =~= stem);
        assert(strip_suffixes(md, ".md"@) == strip_suffixes(stem, ".md"@));
        assert(route_stem(md) == stem);
        let nn = stem + ".nono"@;
        assert(ends_with(nn, ".nono"@)) by {
            assert(nn.subrange(nn.len() - 5, nn.len() as int) =~= ".nono"@);
        }
        assert(nn.take(nn.len() - 5) =~= stem);
        assert(strip_suffixes(nn, ".nono"@) == strip_suffixes(stem, ".nono"@));
        assert(route_stem(nn) == stem);
    }
}

} // verus!

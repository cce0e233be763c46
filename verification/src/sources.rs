//! Build-time data sources: `glob(...)`, `markdown(...)`, `http_get(...)` and
//! `env(...)`. They read a snapshot of the project taken before evaluation,
//! so evaluation itself is a pure function of its inputs. A network response
//! that the snapshot lacks is reported as `EvalError::Fetch`: the caller
//! performs the request, records the response, and evaluates again.

use vstd::prelude::*;
use crate::error::{EvalError, VError};
use crate::value::{Value, VValue, lemma_dict_set_get, view_entries, view_values, lemma_view_values, lemma_view_values_push, dict_get, dict_set,
    dict_lookup, dict_insert, clone_entries, v_get_field, v_text, opt_value_view};
use crate::text::{chars_of, chars_eq, chars_slice, string_from_chars, owned, find_from, chars_find_from, starts_with,
    ends_with, occurs_at, chars_occur_at, lemma_find_from};
use crate::markdown::{md_parse, md_render, heading_ids, extract_headings, slug_of, file_stem, file_name, last_index_of,
    chars_last_index, toc, toc_entry, markdown_events, markdown_html};
use crate::sort::{sort_by_key, sort_keyed, keyed_view, lemma_sort_keyed_members, lemma_sort_keyed_sorted};

verus! {

/// A file's frontmatter, as parsed before evaluation.
pub enum FrontMatter {
    /// The file has no frontmatter block.
    Absent,
    /// The frontmatter's string-keyed fields.
    Fields(Vec<(String, Value)>),
    /// The frontmatter block is not valid YAML; the message says why.
    Invalid(String),
}

/// One file of the project snapshot: its path relative to the project root,
/// its frontmatter, and the text after the frontmatter.
pub struct SourceFile {
    pub path: String,
    pub front: FrontMatter,
    pub body: String,
}

/// Everything a data source may read during evaluation.
pub struct Sources {
    pub files: Vec<SourceFile>,
    /// Environment variables, by name.
    pub env: Vec<(String, String)>,
    /// Recorded HTTP responses, by URL, already parsed from JSON.
    pub http: Vec<(String, Value)>,
}

impl Sources {
    /// An empty snapshot: no files, no environment, no responses.
    pub fn new() -> (r: Sources)
        ensures
            r.files@.len() == 0,
            r.env@.len() == 0,
            r.http@.len() == 0,
    {
        Sources { files: Vec::new(), env: Vec::new(), http: Vec::new() }
    }
}

pub open spec fn res_view(r: Result<Value, EvalError>) -> Result<VValue, VError> {
    match r {
        Ok(v) => Ok(v@),
        Err(e) => Err(e@),
    }
}

// ---- markdown pages ----

pub open spec fn front_entries(f: FrontMatter) -> Seq<(Seq<char>, VValue)> {
    match f {
        FrontMatter::Fields(v) => view_entries(v@),
        _ => Seq::empty(),
    }
}

/// The fields of a markdown page: the frontmatter, then `html` (the rendered
/// body, headings carrying their ids), `headings` (the table of contents),
/// `path`, `slug`, and, when the frontmatter does not set them, `title` and
/// `date` (`nil`), `kind` (`Essay`) and `draft` (`false`).
pub open spec fn page_fields(m0: Seq<(Seq<char>, VValue)>, body: Seq<char>, rel: Seq<char>) -> Seq<(Seq<char>, VValue)> {
    let t = toc(markdown_events(body));
    let m1 = dict_set(m0, "html"@, VValue::Str(markdown_html(body, heading_ids(markdown_events(body)))));
    let m2 = dict_set(m1, "headings"@, VValue::List(t.map_values(|e: (int, Seq<char>, Seq<char>)| toc_entry(e))));
    let m3a = dict_set(m2, "path"@, VValue::Str(rel));
    let m3b = dict_set(m3a, "slug"@, VValue::Str(file_stem(rel)));
    let m3c = if dict_get(m3b, "title"@) is None {
        dict_set(m3b, "title"@, VValue::Nil)
    } else {
        m3b
    };
    let m4 = if dict_get(m3c, "date"@) is None {
        dict_set(m3c, "date"@, VValue::Nil)
    } else {
        m3c
    };
    let m5 = if dict_get(m4, "kind"@) is None {
        dict_set(m4, "kind"@, VValue::Str("Essay"@))
    } else {
        m4
    };
    if dict_get(m5, "draft"@) is None {
        dict_set(m5, "draft"@, VValue::Bool(false))
    } else {
        m5
    }
}

/// A markdown file read as a page, under the name `rel`.
pub open spec fn page_value(f: SourceFile, rel: Seq<char>) -> Result<VValue, VError> {
    match f.front {
        FrontMatter::Invalid(msg) => Err(VError::Frontmatter(rel, msg@)),
        _ => Ok(VValue::Dict(page_fields(front_entries(f.front), f.body@, rel))),
    }
}

/// Read a markdown file as a page: a dictionary of its frontmatter fields plus
/// `html`, `headings`, `path`, `slug`, `title`, `date`, `kind` and `draft`.
pub fn markdown_value(f: &SourceFile, rel: &str) -> (r: Result<Value, EvalError>)
    ensures
        res_view(r) == page_value(*f, rel@),
{
    let mut m: Vec<(String, Value)> = match &f.front {
        FrontMatter::Invalid(msg) => return Err(EvalError::Frontmatter(owned(rel), msg.clone())),
        FrontMatter::Fields(v) => clone_entries(v),
        FrontMatter::Absent => Vec::new(),
    };
    assert(view_entries(m@) =~= front_entries(f.front));
    let mut events = md_parse(f.body.as_str());
    let entries = extract_headings(&mut events);
    let html = md_render(events);
    dict_insert(&mut m, owned("html"), Value::Str(html));
    dict_insert(&mut m, owned("headings"), Value::List(entries));
    dict_insert(&mut m, owned("path"), Value::Str(owned(rel)));
    dict_insert(&mut m, owned("slug"), Value::Str(slug_of(rel)));
    if dict_lookup(&m, "title").is_none() {
        dict_insert(&mut m, owned("title"), Value::Nil);
    }
    if dict_lookup(&m, "date").is_none() {
        dict_insert(&mut m, owned("date"), Value::Nil);
    }
    if dict_lookup(&m, "kind").is_none() {
        dict_insert(&mut m, owned("kind"), Value::Str(owned("Essay")));
    }
    if dict_lookup(&m, "draft").is_none() {
        dict_insert(&mut m, owned("draft"), Value::Bool(false));
    }
    Ok(Value::Dict(m))
}

/// The index of the first file with path `p`, or -1.
pub open spec fn file_index(files: Seq<SourceFile>, p: Seq<char>) -> int
    decreases files.len(),
{
    if files.len() == 0 {
        -1
    } else if files.last().path@ == p && file_index(files.drop_last(), p) < 0 {
        files.len() - 1
    } else {
        file_index(files.drop_last(), p)
    }
}

proof fn lemma_file_index(files: Seq<SourceFile>, p: Seq<char>)
    ensures
        -1 <= file_index(files, p) < files.len(),
        file_index(files, p) >= 0 ==> files[file_index(files, p)].path@ == p,
        file_index(files, p) < 0 ==> forall|j: int| 0 <= j < files.len() ==> files[j].path@ != p,
    decreases files.len(),
{
    if files.len() > 0 {
        lemma_file_index(files.drop_last(), p);
        assert forall|j: int| 0 <= j < files.len() - 1 implies files[j] == files.drop_last()[j] by {}
    }
}

fn find_file(files: &Vec<SourceFile>, p: &str) -> (r: Option<usize>)
    ensures
        match r {
            Some(i) => i as int == file_index(files@, p@),
            None => file_index(files@, p@) < 0,
        },
{
    let mut i: usize = 0;
    while i < files.len()
        invariant
            i <= files.len(),
            file_index(files@.take(i as int), p@) < 0,
        decreases files.len() - i,
    {
        assert(files@.take(i + 1).drop_last() =~= files@.take(i as int));
        if crate::text::str_eq(files[i].path.as_str(), p) {
            proof {
                lemma_file_index_prefix(files@, p@, i as int);
            }
            return Some(i);
        }
        i = i + 1;
    }
    assert(files@.take(i as int) =~= files@);
    None
}

proof fn lemma_file_index_prefix(files: Seq<SourceFile>, p: Seq<char>, i: int)
    requires
        0 <= i < files.len(),
        file_index(files.take(i), p) < 0,
        files[i].path@ == p,
    ensures
        file_index(files, p) == i,
    decreases files.len(),
{
    if files.len() - 1 == i {
        assert(files.drop_last() =~= files.take(i));
    } else {
        assert(files.drop_last().take(i) =~= files.take(i));
        lemma_file_index_prefix(files.drop_last(), p, i);
    }
}

/// `markdown(file = ...)`: the page at path `rel` of the snapshot.
pub open spec fn read_markdown_spec(src: Sources, rel: Seq<char>) -> Result<VValue, VError> {
    let i = file_index(src.files@, rel);
    if i < 0 {
        Err(VError::ReadFailed(rel))
    } else {
        page_value(src.files@[i], rel)
    }
}

/// Read the markdown file at `rel` (relative to the project root) as a page.
pub fn read_markdown(src: &Sources, rel: &str) -> (r: Result<Value, EvalError>)
    ensures
        res_view(r) == read_markdown_spec(*src, rel@),
{
    proof {
        lemma_file_index(src.files@, rel@);
    }
    match find_file(&src.files, rel) {
        None => Err(EvalError::ReadFailed(owned(rel))),
        Some(i) => markdown_value(&src.files[i], rel),
    }
}

// ---- env and http ----

/// The last binding of `k` in a list of string pairs.
pub open spec fn pairs_get(s: Seq<(String, String)>, k: Seq<char>) -> Option<Seq<char>>
    decreases s.len(),
{
    if s.len() == 0 {
        None
    } else if s.last().0@ == k {
        Some(s.last().1@)
    } else {
        pairs_get(s.drop_last(), k)
    }
}

/// `env(name)`: the environment variable as a string; an unset variable is an
/// error, so a missing secret fails the build loudly.
pub open spec fn env_spec(src: Sources, name: Seq<char>) -> Result<VValue, VError> {
    match pairs_get(src.env@, name) {
        Some(v) => Ok(VValue::Str(v)),
        None => Err(VError::EnvUnset(name)),
    }
}

/// Look an environment variable up in the snapshot.
pub fn env_var(src: &Sources, name: &str) -> (r: Result<Value, EvalError>)
    ensures
        res_view(r) == env_spec(*src, name@),
{
    assert(src.env@.take(src.env.len() as int) =~= src.env@);
    let mut i = src.env.len();
    while i > 0
        invariant
            i <= src.env.len(),
            pairs_get(src.env@, name@) == pairs_get(src.env@.take(i as int), name@),
        decreases i,
    {
        assert(src.env@.take(i as int).drop_last() =~= src.env@.take(i - 1));
        if crate::text::str_eq(src.env[i - 1].0.as_str(), name) {
            return Ok(Value::Str(src.env[i - 1].1.clone()));
        }
        i = i - 1;
    }
    Err(EvalError::EnvUnset(owned(name)))
}

/// The last response recorded for `k`.
pub open spec fn response_get(s: Seq<(String, Value)>, k: Seq<char>) -> Option<VValue>
    decreases s.len(),
{
    if s.len() == 0 {
        None
    } else if s.last().0@ == k {
        Some(s.last().1@)
    } else {
        response_get(s.drop_last(), k)
    }
}

/// `http_get(url)`: the recorded JSON response for `url`; one not recorded yet
/// is reported as `Fetch(url)` for the caller to perform.
pub open spec fn http_spec(src: Sources, url: Seq<char>) -> Result<VValue, VError> {
    match response_get(src.http@, url) {
        Some(v) => Ok(v),
        None => Err(VError::Fetch(url)),
    }
}

/// The recorded response for `url`.
pub fn http_get(src: &Sources, url: &str) -> (r: Result<Value, EvalError>)
    ensures
        res_view(r) == http_spec(*src, url@),
{
    assert(src.http@.take(src.http.len() as int) =~= src.http@);
    let mut i = src.http.len();
    while i > 0
        invariant
            i <= src.http.len(),
            response_get(src.http@, url@) == response_get(src.http@.take(i as int), url@),
        decreases i,
    {
        assert(src.http@.take(i as int).drop_last() =~= src.http@.take(i - 1));
        if crate::text::str_eq(src.http[i - 1].0.as_str(), url) {
            return Ok(src.http[i - 1].1.deep_clone());
        }
        i = i - 1;
    }
    Err(EvalError::Fetch(owned(url)))
}


// ---- glob ----

/// The number of `*`s in `s`.
pub open spec fn star_count(s: Seq<char>) -> int
    decreases s.len(),
{
    if s.len() == 0 {
        0
    } else {
        star_count(s.drop_last()) + if s.last() == '*' { 1int } else { 0int }
    }
}

/// The directory part of a path: everything before its last `/`.
pub open spec fn parent_dir(p: Seq<char>) -> Seq<char> {
    if last_index_of(p, '/') < 0 {
        Seq::empty()
    } else {
        p.take(last_index_of(p, '/'))
    }
}

/// Whether the file at path `p` sits directly in `dir` and its name has the
/// given prefix and suffix (around the pattern's one `*`).
pub open spec fn glob_matches(p: Seq<char>, dir: Seq<char>, pre: Seq<char>, suf: Seq<char>) -> bool {
    let name = file_name(p);
    &&& parent_dir(p) == dir
    &&& last_index_of(p, '/') >= 0 || dir.len() == 0
    &&& starts_with(name, pre)
    &&& ends_with(name, suf)
    &&& name.len() >= pre.len() + suf.len()
}

/// The matching files among the first `n`, as (path, index) pairs in file order.
pub open spec fn matching_files(files: Seq<SourceFile>, n: int, dir: Seq<char>, pre: Seq<char>, suf: Seq<char>) -> Seq<(Seq<char>, usize)>
    decreases n,
{
    if n <= 0 {
        Seq::empty()
    } else if glob_matches(files[n - 1].path@, dir, pre, suf) {
        matching_files(files, n - 1, dir, pre, suf).push((files[n - 1].path@, (n - 1) as usize))
    } else {
        matching_files(files, n - 1, dir, pre, suf)
    }
}

/// The files a pattern names, as (path, index) pairs, before sorting. A pattern
/// without `*` names the file with exactly that path, if there is one; a
/// pattern may hold at most one `*`, in its last segment.
pub open spec fn glob_candidates(src: Sources, pattern: Seq<char>) -> Result<Seq<(Seq<char>, usize)>, VError> {
    let sc = star_count(pattern);
    if sc == 0 {
        let i = file_index(src.files@, pattern);
        if i >= 0 {
            Ok(seq![(pattern, i as usize)])
        } else {
            Ok(Seq::empty())
        }
    } else if sc > 1 {
        Err(VError::GlobStars(pattern))
    } else {
        let name = file_name(pattern);
        let st = find_from(name, "*"@, 0);
        if st < 0 {
            Err(VError::GlobStarInDir(pattern))
        } else {
            Ok(matching_files(src.files@, src.files@.len() as int, parent_dir(pattern), name.take(st), name.skip(st + 1)))
        }
    }
}

/// Whether no two files of a snapshot share a path, as in a directory tree.
pub open spec fn paths_distinct(files: Seq<SourceFile>) -> bool {
    forall|i: int, j: int| 0 <= i < j < files.len() ==> #[trigger] files[i].path@ != #[trigger] files[j].path@
}

proof fn lemma_matching_files(files: Seq<SourceFile>, n: int, dir: Seq<char>, pre: Seq<char>, suf: Seq<char>)
    requires
        0 <= n <= files.len(),
        files.len() <= usize::MAX,
    ensures
        ({
            let m = matching_files(files, n, dir, pre, suf);
            &&& forall|a: int| 0 <= a < m.len() ==> (#[trigger] m[a]).1 < n && m[a].0 == files[m[a].1 as int].path@
            &&& forall|a: int, b: int| 0 <= a < b < m.len() ==> (#[trigger] m[a]).1 < (#[trigger] m[b]).1
        }),
    decreases n,
{
    if n > 0 {
        lemma_matching_files(files, n - 1, dir, pre, suf);
        let m0 = matching_files(files, n - 1, dir, pre, suf);
        let m = matching_files(files, n, dir, pre, suf);
        if glob_matches(files[n - 1].path@, dir, pre, suf) {
            assert(((n - 1) as usize) as int == n - 1);
            assert(m == m0.push((files[n - 1].path@, (n - 1) as usize)));
            assert forall|a: int| 0 <= a < m.len() implies (#[trigger] m[a]).1 < n && m[a].0 == files[m[a].1 as int].path@ by {
                if a < m0.len() {
                    assert(m[a] == m0[a]);
                }
            }
            assert forall|a: int, b: int| 0 <= a < b < m.len() implies (#[trigger] m[a]).1 < (#[trigger] m[b]).1 by {
                assert(m[a] == m0[a]);
                if b < m0.len() {
                    assert(m[b] == m0[b]);
                }
            }
        }
    }
}

/// Law: a `glob` over a snapshot whose paths are distinct names no path twice.
pub proof fn lemma_glob_no_duplicates(src: Sources, pattern: Seq<char>)
    requires
        paths_distinct(src.files@),
    ensures
        glob_candidates(src, pattern) matches Ok(c) ==> forall|a: int, b: int|
            0 <= a < b < c.len() ==> #[trigger] c[a].0 != #[trigger] c[b].0,
{
    let files = src.files@;
    assert(files.len() == src.files.len());
    if star_count(pattern) == 0 {
    } else if star_count(pattern) > 1 {
    } else {
        let name = file_name(pattern);
        let st = find_from(name, "*"@, 0);
        if st >= 0 {
            let dir = parent_dir(pattern);
            let pre = name.take(st);
            let suf = name.skip(st + 1);
            lemma_matching_files(files, files.len() as int, dir, pre, suf);
            let m = matching_files(files, files.len() as int, dir, pre, suf);
            assert forall|a: int, b: int| 0 <= a < b < m.len() implies #[trigger] m[a].0 != #[trigger] m[b].0 by {
                assert(m[a].1 < m[b].1);
                assert(files[m[a].1 as int].path@ != files[m[b].1 as int].path@);
            }
        }
    }
}

/// The pages of the named files, read in order (the first failure wins).
pub open spec fn read_pages(src: Sources, c: Seq<(Seq<char>, usize)>) -> Result<Seq<VValue>, VError>
    decreases c.len(),
{
    if c.len() == 0 {
        Ok(Seq::empty())
    } else {
        match read_pages(src, c.drop_last()) {
            Err(e) => Err(e),
            Ok(ps) => if c.last().1 < src.files@.len() {
                match page_value(src.files@[c.last().1 as int], c.last().0) {
                    Err(e) => Err(e),
                    Ok(p) => Ok(ps.push(p)),
                }
            } else {
                Err(VError::ReadFailed(c.last().0))
            },
        }
    }
}

/// Whether a page is a draft (`draft: true`).
pub open spec fn is_draft(v: VValue) -> bool {
    v_get_field(v, "draft"@) == Some(VValue::Bool(true))
}

/// The date a page sorts by: the text of its `date` field, or nothing.
pub open spec fn date_key(v: VValue) -> Seq<char> {
    match v_get_field(v, "date"@) {
        Some(d) => v_text(d),
        None => Seq::empty(),
    }
}

/// `glob(pattern)`: the pages of the matching files, read in path order,
/// without drafts, sorted by date, newest first (pages with equal dates keep
/// path order).
pub open spec fn glob_spec(src: Sources, pattern: Seq<char>) -> Result<VValue, VError> {
    match glob_candidates(src, pattern) {
        Err(e) => Err(e),
        Ok(c) => match read_pages(src, sort_keyed(c, false)) {
            Err(e) => Err(e),
            Ok(pages) => {
                let kept = pages.filter(|v: VValue| !is_draft(v));
                let keyed = kept.map_values(|v: VValue| (date_key(v), v));
                Ok(VValue::List(sort_keyed(keyed, true).map_values(|e: (Seq<char>, VValue)| e.1)))
            },
        },
    }
}

fn count_stars(cs: &Vec<char>) -> (r: usize)
    ensures
        r as int == star_count(cs@),
{
    let mut n: usize = 0;
    let mut i: usize = 0;
    while i < cs.len()
        invariant
            i <= cs.len(),
            n <= i,
            n as int == star_count(cs@.take(i as int)),
        decreases cs.len() - i,
    {
        assert(cs@.take(i + 1).drop_last() =~= cs@.take(i as int));
        if cs[i] == '*' {
            n = n + 1;
        }
        i = i + 1;
    }
    assert(cs@.take(cs.len() as int) =~= cs@);
    n
}

fn glob_candidates_exec(src: &Sources, pattern: &str) -> (r: Result<Vec<(Vec<char>, usize)>, EvalError>)
    ensures
        match r {
            Ok(c) => glob_candidates(*src, pattern@) == Ok::<Seq<(Seq<char>, usize)>, VError>(keyed_view(c@)),
            Err(e) => glob_candidates(*src, pattern@) == Err::<Seq<(Seq<char>, usize)>, VError>(e@),
        },
{
    let pc = chars_of(pattern);
    let sc = count_stars(&pc);
    if sc == 0 {
        proof {
            lemma_file_index(src.files@, pattern@);
        }
        return match find_file(&src.files, pattern) {
            Some(i) => {
                let mut v: Vec<(Vec<char>, usize)> = Vec::new();
                v.push((pc, i));
                assert(keyed_view(v@) =~= seq![(pattern@, i)]);
                Ok(v)
            },
            None => {
                let v: Vec<(Vec<char>, usize)> = Vec::new();
                assert(keyed_view(v@) =~= Seq::<(Seq<char>, usize)>::empty());
                Ok(v)
            },
        };
    }
    if sc > 1 {
        return Err(EvalError::GlobStars(owned(pattern)));
    }
    proof {
        crate::markdown::lemma_last_index_of_pub(pc@, '/');
    }
    let (dir, name) = match chars_last_index(&pc, '/') {
        Some(li) => (chars_slice(&pc, 0, li), chars_slice(&pc, li + 1, pc.len())),
        None => (Vec::new(), chars_slice(&pc, 0, pc.len())),
    };
    assert(dir@ =~= parent_dir(pc@));
    assert(name@ =~= file_name(pc@));
    let star = chars_of("*");
    proof {
        reveal_strlit("*");
        lemma_find_from(name@, star@, 0);
    }
    let st = match chars_find_from(&name, &star, 0) {
        None => return Err(EvalError::GlobStarInDir(owned(pattern))),
        Some(st) => st,
    };
    let pre = chars_slice(&name, 0, st);
    let suf = chars_slice(&name, st + 1, name.len());
    let mut out: Vec<(Vec<char>, usize)> = Vec::new();
    let mut i: usize = 0;
    while i < src.files.len()
        invariant
            i <= src.files.len(),
            keyed_view(out@) == matching_files(src.files@, i as int, dir@, pre@, suf@),
        decreases src.files.len() - i,
    {
        let p = chars_of(src.files[i].path.as_str());
        if file_matches(&p, &dir, &pre, &suf) {
            let ghost before = keyed_view(out@);
            out.push((p, i));
            assert(keyed_view(out@) =~= before.push((src.files@[i as int].path@, i)));
        }
        i = i + 1;
    }
    assert(pre@ =~= name@.take(st as int));
    assert(suf@ =~= name@.skip(st + 1));
    Ok(out)
}

fn file_matches(p: &Vec<char>, dir: &Vec<char>, pre: &Vec<char>, suf: &Vec<char>) -> (r: bool)
    ensures
        r == glob_matches(p@, dir@, pre@, suf@),
{
    proof {
        crate::markdown::lemma_last_index_of_pub(p@, '/');
    }
    let (pdir, name, has_slash) = match chars_last_index(p, '/') {
        Some(li) => (chars_slice(p, 0, li), chars_slice(p, li + 1, p.len()), true),
        None => (Vec::new(), chars_slice(p, 0, p.len()), false),
    };
    assert(pdir@ =~= parent_dir(p@));
    assert(name@ =~= file_name(p@));
    if !chars_eq(&pdir, dir) {
        return false;
    }
    if !has_slash && dir.len() != 0 {
        return false;
    }
    if pre.len() > name.len() || suf.len() > name.len() - pre.len() {
        return false;
    }
    chars_occur_at(&name, pre, 0) && chars_occur_at(&name, suf, name.len() - suf.len())
}


fn read_pages_exec(src: &Sources, c: &Vec<(Vec<char>, usize)>) -> (r: Result<Vec<Value>, EvalError>)
    ensures
        match r {
            Ok(ps) => read_pages(*src, keyed_view(c@)) == Ok::<Seq<VValue>, VError>(view_values(ps@)),
            Err(e) => read_pages(*src, keyed_view(c@)) == Err::<Seq<VValue>, VError>(e@),
        },
{
    let mut out: Vec<Value> = Vec::new();
    let mut i: usize = 0;
    while i < c.len()
        invariant
            i <= c.len(),
            read_pages(*src, keyed_view(c@).take(i as int)) == Ok::<Seq<VValue>, VError>(view_values(out@)),
        decreases c.len() - i,
    {
        assert(keyed_view(c@).take(i + 1).drop_last() =~= keyed_view(c@).take(i as int));
        let idx = c[i].1;
        if idx >= src.files.len() {
            proof {
                lemma_read_pages_err(*src, keyed_view(c@), i as int);
            }
            let path = string_from_chars(&c[i].0);
            return Err(EvalError::ReadFailed(path));
        }
        let path = string_from_chars(&c[i].0);
        match markdown_value(&src.files[idx], path.as_str()) {
            Err(e) => {
                proof {
                    lemma_read_pages_err(*src, keyed_view(c@), i as int);
                }
                return Err(e);
            },
            Ok(v) => {
                proof {
                    lemma_view_values_push(out@, v);
                }
                out.push(v);
            },
        }
        i = i + 1;
    }
    assert(keyed_view(c@).take(c.len() as int) =~= keyed_view(c@));
    Ok(out)
}

proof fn lemma_read_pages_err(src: Sources, c: Seq<(Seq<char>, usize)>, i: int)
    requires
        0 <= i < c.len(),
        read_pages(src, c.take(i + 1)) is Err,
    ensures
        read_pages(src, c) == read_pages(src, c.take(i + 1)),
    decreases c.len(),
{
    if c.len() == i + 1 {
        assert(c.take(i + 1) =~= c);
    } else {
        assert(c.drop_last().take(i + 1) =~= c.take(i + 1));
        lemma_read_pages_err(src, c.drop_last(), i);
    }
}

fn is_draft_exec(v: &Value) -> (r: bool)
    ensures
        r == is_draft(v@),
{
    match v.get_field("draft") {
        Some(Value::Bool(b)) => b,
        _ => false,
    }
}

fn date_key_exec(v: &Value) -> (r: Vec<char>)
    ensures
        r@ == date_key(v@),
{
    match v.get_field("date") {
        Some(d) => {
            let t = d.to_text();
            chars_of(t.as_str())
        },
        None => Vec::new(),
    }
}

/// `glob("content/posts/*.md")`: the pages of the matching files, without
/// drafts, newest first.
pub fn glob(src: &Sources, pattern: &str) -> (r: Result<Value, EvalError>)
    ensures
        res_view(r) == glob_spec(*src, pattern@),
{
    let cands = glob_candidates_exec(src, pattern)?;
    let sorted = sort_by_key(cands, false);
    let pages = read_pages_exec(src, &sorted)?;
    let ghost vp = view_values(pages@);
    proof {
        lemma_view_values(pages@);
    }
    let mut keyed: Vec<(Vec<char>, Value)> = Vec::new();
    let mut i: usize = 0;
    while i < pages.len()
        invariant
            i <= pages.len(),
            vp == view_values(pages@),
            vp.len() == pages@.len(),
            forall|j: int| 0 <= j < pages@.len() ==> #[trigger] vp[j] == pages@[j]@,
            keyed_view(keyed@) == vp.take(i as int).filter(|v: VValue| !is_draft(v)).map_values(|v: VValue| (date_key(v), v)),
        decreases pages.len() - i,
    {
        let ghost before = keyed_view(keyed@);
        assert(vp.take(i + 1).drop_last() =~= vp.take(i as int));
        proof {
            reveal_with_fuel(Seq::<_>::filter, 1);
        }
        if !is_draft_exec(&pages[i]) {
            let k = date_key_exec(&pages[i]);
            let v = pages[i].deep_clone();
            keyed.push((k, v));
            assert(keyed_view(keyed@) =~= before.push((date_key(vp[i as int]), vp[i as int])));
            assert(vp.take(i + 1).filter(|v: VValue| !is_draft(v)) =~= vp.take(i as int).filter(|v: VValue| !is_draft(v)).push(vp[i as int]));
        } else {
            assert(vp.take(i + 1).filter(|v: VValue| !is_draft(v)) =~= vp.take(i as int).filter(|v: VValue| !is_draft(v)));
        }
        i = i + 1;
    }
    assert(vp.take(pages.len() as int) =~= vp);
    let sorted_pages = sort_by_key(keyed, true);
    let ghost sv = keyed_view(sorted_pages@);
    let mut out: Vec<Value> = Vec::new();
    let mut j: usize = 0;
    while j < sorted_pages.len()
        invariant
            j <= sorted_pages.len(),
            sv == keyed_view(sorted_pages@),
            view_values(out@) == sv.take(j as int).map_values(|e: (Seq<char>, VValue)| e.1),
        decreases sorted_pages.len() - j,
    {
        let v = sorted_pages[j].1.deep_clone();
        proof {
            lemma_view_values_push(out@, v);
        }
        out.push(v);
        assert(sv.take(j + 1).map_values(|e: (Seq<char>, VValue)| e.1) =~= sv.take(j as int).map_values(|e: (Seq<char>, VValue)| e.1).push(sv[j as int].1));
        j = j + 1;
    }
    assert(sv.take(sorted_pages.len() as int) =~= sv);
    Ok(Value::List(out))
}

/// Law: drafts never show up in a `glob` listing.
pub proof fn lemma_glob_has_no_drafts(src: Sources, pattern: Seq<char>)
    ensures
        glob_spec(src, pattern) matches Ok(VValue::List(vs)) ==> forall|i: int|
            0 <= i < vs.len() ==> !is_draft(#[trigger] vs[i]),
{
    match glob_candidates(src, pattern) {
        Err(_) => {},
        Ok(c) => match read_pages(src, sort_keyed(c, false)) {
            Err(_) => {},
            Ok(pages) => {
                let pred = |v: VValue| !is_draft(v);
                let kept = pages.filter(pred);
                let keyed = kept.map_values(|v: VValue| (date_key(v), v));
                let sorted = sort_keyed(keyed, true);
                let vs = sorted.map_values(|e: (Seq<char>, VValue)| e.1);
                lemma_sort_keyed_members(keyed, true);
                assert forall|i: int| 0 <= i < vs.len() implies !is_draft(#[trigger] vs[i]) by {
                    assert(sorted.contains(sorted[i]));
                    assert(keyed.contains(sorted[i]));
                    let j = choose|j: int| 0 <= j < keyed.len() && keyed[j] == sorted[i];
                    pages.lemma_filter_pred(pred, j);
                    assert(vs[i] == kept[j]);
                }
            },
        },
    }
}

/// Law: a `glob` listing runs newest first: no page's date comes after the
/// date of a page listed before it.
pub proof fn lemma_glob_newest_first(src: Sources, pattern: Seq<char>)
    ensures
        glob_spec(src, pattern) matches Ok(VValue::List(vs)) ==> forall|i: int, j: int|
            0 <= i < j < vs.len() ==> !crate::text::seq_lt(date_key(#[trigger] vs[i]), date_key(#[trigger] vs[j])),
{
    match glob_candidates(src, pattern) {
        Err(_) => {},
        Ok(c) => match read_pages(src, sort_keyed(c, false)) {
            Err(_) => {},
            Ok(pages) => {
                let kept = pages.filter(|v: VValue| !is_draft(v));
                let keyed = kept.map_values(|v: VValue| (date_key(v), v));
                let sorted = sort_keyed(keyed, true);
                let vs = sorted.map_values(|e: (Seq<char>, VValue)| e.1);
                lemma_sort_keyed_members(keyed, true);
                lemma_sort_keyed_sorted(keyed, true);
                assert forall|k: int| 0 <= k < sorted.len() implies #[trigger] sorted[k].0 == date_key(sorted[k].1) by {
                    assert(sorted.contains(sorted[k]));
                    assert(keyed.contains(sorted[k]));
                    let m = choose|m: int| 0 <= m < keyed.len() && keyed[m] == sorted[k];
                }
                assert forall|i: int, j: int|
                    0 <= i < j < vs.len() implies !crate::text::seq_lt(date_key(#[trigger] vs[i]), date_key(#[trigger] vs[j])) by {
                    assert(sorted[i].0 == date_key(sorted[i].1));
                    assert(sorted[j].0 == date_key(sorted[j].1));
                }
            },
        },
    }
}

/// Law: a markdown page keeps every frontmatter field except `html`,
/// `headings`, `path` and `slug`, which it sets (`path` to the page's name,
/// `slug` to its file stem); `title` and `date` default to nil, `kind` to
/// `Essay` and `draft` to false only when the frontmatter does not set them.
pub proof fn lemma_page_fields(m0: Seq<(Seq<char>, VValue)>, body: Seq<char>, rel: Seq<char>)
    ensures
        ({
            let m = page_fields(m0, body, rel);
            &&& forall|k: Seq<char>|
                k != "html"@ && k != "headings"@ && k != "path"@ && k != "slug"@ && dict_get(m0, k) is Some
                    ==> #[trigger] dict_get(m, k) == dict_get(m0, k)
            &&& dict_get(m, "path"@) == Some(VValue::Str(rel))
            &&& dict_get(m, "slug"@) == Some(VValue::Str(file_stem(rel)))
            &&& dict_get(m0, "kind"@) is None ==> dict_get(m, "kind"@) == Some(VValue::Str("Essay"@))
            &&& dict_get(m0, "draft"@) is None ==> dict_get(m, "draft"@) == Some(VValue::Bool(false))
            &&& dict_get(m0, "title"@) is None ==> dict_get(m, "title"@) == Some(VValue::Nil)
            &&& dict_get(m0, "date"@) is None ==> dict_get(m, "date"@) == Some(VValue::Nil)
        }),
{
    reveal_strlit("html");
    reveal_strlit("headings");
    reveal_strlit("path");
    reveal_strlit("slug");
    reveal_strlit("title");
    reveal_strlit("date");
    reveal_strlit("kind");
    reveal_strlit("draft");
    lemma_field_names_distinct();
    assert forall|k: Seq<char>|
        k != "html"@ && k != "headings"@ && k != "path"@ && k != "slug"@ && dict_get(m0, k) is Some implies #[trigger] dict_get(
        page_fields(m0, body, rel),
        k,
    ) == dict_get(m0, k) by {
        lemma_page_field_at(m0, body, rel, k);
    }
    lemma_page_field_at(m0, body, rel, "path"@);
    lemma_page_field_at(m0, body, rel, "slug"@);
    lemma_page_field_at(m0, body, rel, "kind"@);
    lemma_page_field_at(m0, body, rel, "draft"@);
    lemma_page_field_at(m0, body, rel, "title"@);
    lemma_page_field_at(m0, body, rel, "date"@);
}

proof fn lemma_field_names_distinct()
    ensures
        "html"@ != "headings"@,
        "html"@ != "path"@,
        "html"@ != "slug"@,
        "html"@ != "title"@,
        "html"@ != "date"@,
        "html"@ != "kind"@,
        "html"@ != "draft"@,
        "headings"@ != "path"@,
        "headings"@ != "slug"@,
        "headings"@ != "title"@,
        "headings"@ != "date"@,
        "headings"@ != "kind"@,
        "headings"@ != "draft"@,
        "path"@ != "slug"@,
        "path"@ != "title"@,
        "path"@ != "date"@,
        "path"@ != "kind"@,
        "path"@ != "draft"@,
        "slug"@ != "title"@,
        "slug"@ != "date"@,
        "slug"@ != "kind"@,
        "slug"@ != "draft"@,
        "title"@ != "date"@,
        "title"@ != "kind"@,
        "title"@ != "draft"@,
        "date"@ != "kind"@,
        "date"@ != "draft"@,
        "kind"@ != "draft"@,
{
    reveal_strlit("html");
    reveal_strlit("headings");
    reveal_strlit("path");
    reveal_strlit("slug");
    reveal_strlit("title");
    reveal_strlit("date");
    reveal_strlit("kind");
    reveal_strlit("draft");
    assert("html"@.len() != "headings"@.len());
    assert("html"@[0] != "path"@[0]);
    assert("html"@[0] != "slug"@[0]);
    assert("html"@.len() != "title"@.len());
    assert("html"@[0] != "date"@[0]);
    assert("html"@[0] != "kind"@[0]);
    assert("html"@.len() != "draft"@.len());
    assert("headings"@.len() != "path"@.len());
    assert("headings"@.len() != "slug"@.len());
    assert("headings"@.len() != "title"@.len());
    assert("headings"@.len() != "date"@.len());
    assert("headings"@.len() != "kind"@.len());
    assert("headings"@.len() != "draft"@.len());
    assert("path"@[0] != "slug"@[0]);
    assert("path"@.len() != "title"@.len());
    assert("path"@[0] != "date"@[0]);
    assert("path"@[0] != "kind"@[0]);
    assert("path"@.len() != "draft"@.len());
    assert("slug"@.len() != "title"@.len());
    assert("slug"@[0] != "date"@[0]);
    assert("slug"@[0] != "kind"@[0]);
    assert("slug"@.len() != "draft"@.len());
    assert("title"@.len() != "date"@.len());
    assert("title"@.len() != "kind"@.len());
    assert("title"@[0] != "draft"@[0]);
    assert("date"@[0] != "kind"@[0]);
    assert("date"@.len() != "draft"@.len());
    assert("kind"@.len() != "draft"@.len());
}

proof fn lemma_page_field_at(m0: Seq<(Seq<char>, VValue)>, body: Seq<char>, rel: Seq<char>, k: Seq<char>)
    ensures
        dict_get(page_fields(m0, body, rel), k) == if k == "html"@ {
            Some(VValue::Str(markdown_html(body, heading_ids(markdown_events(body)))))
        } else if k == "headings"@ {
            Some(VValue::List(toc(markdown_events(body)).map_values(|e: (int, Seq<char>, Seq<char>)| toc_entry(e))))
        } else if k == "path"@ {
            Some(VValue::Str(rel))
        } else if k == "slug"@ {
            Some(VValue::Str(file_stem(rel)))
        } else if dict_get(m0, k) is Some {
            dict_get(m0, k)
        } else if k == "title"@ || k == "date"@ {
            Some(VValue::Nil)
        } else if k == "kind"@ {
            Some(VValue::Str("Essay"@))
        } else if k == "draft"@ {
            Some(VValue::Bool(false))
        } else {
            None
        },
{
    reveal_strlit("html");
    reveal_strlit("headings");
    reveal_strlit("path");
    reveal_strlit("slug");
    reveal_strlit("title");
    reveal_strlit("date");
    reveal_strlit("kind");
    reveal_strlit("draft");
    lemma_field_names_distinct();
    let t = toc(markdown_events(body));
    let h = VValue::Str(markdown_html(body, heading_ids(markdown_events(body))));
    let hs = VValue::List(t.map_values(|e: (int, Seq<char>, Seq<char>)| toc_entry(e)));
    let m1 = dict_set(m0, "html"@, h);
    let m2 = dict_set(m1, "headings"@, hs);
    let m3a = dict_set(m2, "path"@, VValue::Str(rel));
    let m3b = dict_set(m3a, "slug"@, VValue::Str(file_stem(rel)));
    lemma_dict_set_get(m0, "html"@, h, k);
    lemma_dict_set_get(m1, "headings"@, hs, k);
    lemma_dict_set_get(m2, "path"@, VValue::Str(rel), k);
    lemma_dict_set_get(m3a, "slug"@, VValue::Str(file_stem(rel)), k);
    let keys = seq!["title"@, "date"@, "kind"@, "draft"@];
    assert forall|j: int| 0 <= j < 4 implies dict_get(m3b, #[trigger] keys[j]) == dict_get(m0, keys[j]) by {
        lemma_dict_set_get(m0, "html"@, h, keys[j]);
        lemma_dict_set_get(m1, "headings"@, hs, keys[j]);
        lemma_dict_set_get(m2, "path"@, VValue::Str(rel), keys[j]);
        lemma_dict_set_get(m3a, "slug"@, VValue::Str(file_stem(rel)), keys[j]);
    }
    assert(dict_get(m3b, "title"@) == dict_get(m0, "title"@)) by { assert(keys[0] == "title"@); }
    assert(dict_get(m3b, "date"@) == dict_get(m0, "date"@)) by { assert(keys[1] == "date"@); }
    assert(dict_get(m3b, "kind"@) == dict_get(m0, "kind"@)) by { assert(keys[2] == "kind"@); }
    assert(dict_get(m3b, "draft"@) == dict_get(m0, "draft"@)) by { assert(keys[3] == "draft"@); }
    let m3c = if dict_get(m3b, "title"@) is None { dict_set(m3b, "title"@, VValue::Nil) } else { m3b };
    lemma_dict_set_get(m3b, "title"@, VValue::Nil, k);
    lemma_dict_set_get(m3b, "title"@, VValue::Nil, "date"@);
    lemma_dict_set_get(m3b, "title"@, VValue::Nil, "kind"@);
    lemma_dict_set_get(m3b, "title"@, VValue::Nil, "draft"@);
    let m4 = if dict_get(m3c, "date"@) is None { dict_set(m3c, "date"@, VValue::Nil) } else { m3c };
    lemma_dict_set_get(m3c, "date"@, VValue::Nil, k);
    lemma_dict_set_get(m3c, "date"@, VValue::Nil, "kind"@);
    lemma_dict_set_get(m3c, "date"@, VValue::Nil, "draft"@);
    let m5 = if dict_get(m4, "kind"@) is None { dict_set(m4, "kind"@, VValue::Str("Essay"@)) } else { m4 };
    lemma_dict_set_get(m4, "kind"@, VValue::Str("Essay"@), k);
    lemma_dict_set_get(m4, "kind"@, VValue::Str("Essay"@), "draft"@);
    lemma_dict_set_get(m5, "draft"@, VValue::Bool(false), k);
}

} // verus!

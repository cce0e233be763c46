//! The `nono dev` server's decisions: what a request asks for, which output
//! file answers it, and the pages and headers sent back. The server loop,
//! which rebuilds the site on every request and does the socket I/O, runs
//! around these.

use vstd::prelude::*;
use crate::text::{chars_of, push_str, push_chars, string_from_chars, owned, chars_eq, chars_slice, nat_text,
    nat_to_chars, unicode_whitespace, char_is_whitespace};
use crate::html::{escape_text, escape_into};
use crate::markdown::{file_name, last_index_of, lemma_last_index_of_pub, chars_last_index};

verus! {

// ---- the request line ----

/// The whitespace-separated words of `s` seen after its first `k` characters:
/// the finished words, and the one being read.
pub open spec fn word_state(s: Seq<char>, k: int) -> (Seq<Seq<char>>, Seq<char>)
    decreases k,
{
    if k <= 0 {
        (Seq::empty(), Seq::empty())
    } else {
        let (done, cur) = word_state(s, k - 1);
        if unicode_whitespace(s[k - 1]) {
            (if cur.len() > 0 { done.push(cur) } else { done }, Seq::empty())
        } else {
            (done, cur.push(s[k - 1]))
        }
    }
}

/// The whitespace-separated words of `s`.
pub open spec fn words(s: Seq<char>) -> Seq<Seq<char>> {
    let (done, cur) = word_state(s, s.len() as int);
    if cur.len() > 0 {
        done.push(cur)
    } else {
        done
    }
}

/// The method and target of a request line: its first and second words, the
/// target defaulting to `/`. An empty line (the connection closed) is no request.
pub open spec fn request_of(line: Seq<char>) -> Option<(Seq<char>, Seq<char>)> {
    if line.len() == 0 {
        None
    } else {
        let w = words(line);
        Some((if w.len() > 0 { w[0] } else { Seq::empty() }, if w.len() > 1 { w[1] } else { "/"@ }))
    }
}

fn split_words(s: &Vec<char>) -> (r: Vec<Vec<char>>)
    ensures
        r@.map_values(|w: Vec<char>| w@) == words(s@),
{
    let mut done: Vec<Vec<char>> = Vec::new();
    let mut cur: Vec<char> = Vec::new();
    let mut i: usize = 0;
    while i < s.len()
        invariant
            i <= s.len(),
            (done@.map_values(|w: Vec<char>| w@), cur@) == word_state(s@, i as int),
        decreases s.len() - i,
    {
        if char_is_whitespace(s[i]) {
            if cur.len() > 0 {
                let ghost before = done@;
                done.push(cur);
                assert(done@.map_values(|w: Vec<char>| w@) =~= before.map_values(|w: Vec<char>| w@).push(
                    word_state(s@, i as int).1,
                ));
            }
            cur = Vec::new();
            assert(cur@ =~= Seq::<char>::empty());
        } else {
            cur.push(s[i]);
        }
        i = i + 1;
    }
    if cur.len() > 0 {
        let ghost before = done@;
        let ghost c = cur@;
        done.push(cur);
        assert(done@.map_values(|w: Vec<char>| w@) =~= before.map_values(|w: Vec<char>| w@).push(c));
    }
    done
}

/// The method and target of a request, from its request line (empty when the
/// connection closed before sending one). The headers are not consulted: the
/// server routes on the path alone.
pub fn read_request(line: &str) -> (r: Option<(String, String)>)
    ensures
        match (r, request_of(line@)) {
            (Some((m, t)), Some((sm, st))) => m@ == sm && t@ == st,
            (None, None) => true,
            _ => false,
        },
{
    let cs = chars_of(line);
    if cs.len() == 0 {
        return None;
    }
    let w = split_words(&cs);
    let ghost wv = w@.map_values(|x: Vec<char>| x@);
    let method = if w.len() > 0 {
        assert(wv[0] == w@[0]@);
        string_from_chars(&w[0])
    } else {
        proof {
            reveal_strlit("");
        }
        owned("")
    };
    let target = if w.len() > 1 {
        assert(wv[1] == w@[1]@);
        string_from_chars(&w[1])
    } else {
        owned("/")
    };
    Some((method, target))
}

/// Whether the server answers a method: only `GET` and `HEAD`.
pub fn method_allowed(method: &str) -> (r: bool)
    ensures
        r == (method@ == "GET"@ || method@ == "HEAD"@),
{
    crate::text::str_eq(method, "GET") || crate::text::str_eq(method, "HEAD")
}

// ---- resolving a target ----

/// The index of the first `c` in `s` that is `?` or `#`, or its length.
pub open spec fn query_start(s: Seq<char>) -> int
    decreases s.len(),
{
    if s.len() == 0 {
        0
    } else if query_start(s.drop_last()) < s.len() - 1 {
        query_start(s.drop_last())
    } else if s.last() == '?' || s.last() == '#' {
        s.len() - 1
    } else {
        s.len() as int
    }
}

/// `s` without its leading `/`s.
pub open spec fn trim_slashes(s: Seq<char>) -> Seq<char>
    decreases s.len(),
{
    if s.len() > 0 && s[0] == '/' {
        trim_slashes(s.skip(1))
    } else {
        s
    }
}

/// The `/`-separated parts of `s`, empty ones included.
pub open spec fn parts(s: Seq<char>) -> Seq<Seq<char>>
    decreases s.len(),
{
    let i = last_index_of(s, '/');
    if i < 0 {
        seq![s]
    } else {
        proof {
            lemma_last_index_of_pub(s, '/');
        }
        parts(s.take(i)).push(s.skip(i + 1))
    }
}

/// Whether a file name has an extension: a `.` after its first character.
pub open spec fn has_extension(name: Seq<char>) -> bool {
    last_index_of(name, '.') > 0
}

/// The output file (relative to the output directory) that answers a request
/// target, honouring vanity URLs (`/posts/x` and `/posts/x/` both resolve to
/// `posts/x/index.html`); none for a target that climbs out with `..`.
pub open spec fn resolve_target(target: Seq<char>) -> Option<Seq<char>> {
    let path = target.take(query_start(target));
    let trimmed = trim_slashes(path);
    if parts(trimmed).contains(".."@) {
        None
    } else if trimmed.len() == 0 {
        Some("index.html"@)
    } else if path.last() == '/' {
        Some(trimmed + "index.html"@)
    } else if !has_extension(file_name(trimmed)) {
        Some(trimmed + "/index.html"@)
    } else {
        Some(trimmed)
    }
}

proof fn lemma_query_start(s: Seq<char>)
    ensures
        0 <= query_start(s) <= s.len(),
        forall|j: int| 0 <= j < query_start(s) ==> s[j] != '?' && s[j] != '#',
        query_start(s) < s.len() ==> (s[query_start(s)] == '?' || s[query_start(s)] == '#'),
    decreases s.len(),
{
    if s.len() > 0 {
        lemma_query_start(s.drop_last());
        assert forall|j: int| 0 <= j < query_start(s) implies s[j] != '?' && s[j] != '#' by {
            if j < s.len() - 1 {
                assert(s[j] == s.drop_last()[j]);
            }
        }
    }
}

proof fn lemma_query_start_prefix(s: Seq<char>, i: int)
    requires
        0 <= i <= s.len(),
        forall|j: int| 0 <= j < i ==> s[j] != '?' && s[j] != '#',
    ensures
        query_start(s.take(i)) == i,
    decreases i,
{
    if i > 0 {
        assert(s.take(i).drop_last() =~= s.take(i - 1));
        lemma_query_start_prefix(s, i - 1);
    }
}

proof fn lemma_query_start_extend(s: Seq<char>, i: int)
    requires
        0 <= i < s.len(),
        query_start(s.take(i + 1)) == i,
    ensures
        query_start(s) == i,
    decreases s.len(),
{
    if s.len() == i + 1 {
        assert(s.take(i + 1) =~= s);
    } else {
        assert(s.drop_last().take(i + 1) =~= s.take(i + 1));
        lemma_query_start_extend(s.drop_last(), i);
    }
}

fn cut_query(cs: &Vec<char>) -> (r: usize)
    ensures
        r as int == query_start(cs@),
{
    let mut i: usize = 0;
    while i < cs.len()
        invariant
            i <= cs.len(),
            forall|j: int| 0 <= j < i ==> cs@[j] != '?' && cs@[j] != '#',
        decreases cs.len() - i,
    {
        if cs[i] == '?' || cs[i] == '#' {
            proof {
                lemma_query_start_prefix(cs@, i as int);
                assert(cs@.take(i + 1).drop_last() =~= cs@.take(i as int));
                lemma_query_start_extend(cs@, i as int);
            }
            return i;
        }
        i = i + 1;
    }
    proof {
        lemma_query_start_prefix(cs@, i as int);
        assert(cs@.take(i as int) =~= cs@);
    }
    i
}

fn trim_slashes_exec(s: &Vec<char>) -> (r: Vec<char>)
    ensures
        r@ == trim_slashes(s@),
{
    let mut i: usize = 0;
    assert(s@.skip(0) =~= s@);
    while i < s.len() && s[i] == '/'
        invariant
            i <= s.len(),
            trim_slashes(s@) == trim_slashes(s@.skip(i as int)),
        decreases s.len() - i,
    {
        assert(s@.skip(i as int).skip(1) =~= s@.skip(i + 1));
        i = i + 1;
    }
    let r = chars_slice(s, i, s.len());
    assert(r@ =~= s@.skip(i as int));
    r
}

/// Whether one of the `/`-separated parts of `s` is `..`.
fn has_parent_part(s: &Vec<char>) -> (r: bool)
    ensures
        r == parts(s@).contains(".."@),
    decreases s@.len(),
{
    proof {
        lemma_last_index_of_pub(s@, '/');
    }
    let dots = chars_of("..");
    match chars_last_index(s, '/') {
        None => {
            assert(parts(s@) == seq![s@]);
            let r = chars_eq(s, &dots);
            assert(r ==> parts(s@)[0] == ".."@);
            assert(parts(s@).contains(".."@) ==> s@ == ".."@);
            r
        },
        Some(i) => {
            assert(i < s.len());
            let head = chars_slice(s, 0, i);
            let last = chars_slice(s, i + 1, s.len());
            assert(head@ =~= s@.take(i as int));
            assert(last@ =~= s@.skip(i + 1));
            let a = has_parent_part(&head);
            let b = chars_eq(&last, &dots);
            let ghost p = parts(s@);
            assert(p == parts(head@).push(last@));
            assert(p.contains(".."@) == (parts(head@).contains(".."@) || last@ == ".."@)) by {
                if parts(head@).contains(".."@) {
                    let j = choose|j: int| 0 <= j < parts(head@).len() && parts(head@)[j] == ".."@;
                    assert(p[j] == ".."@);
                }
                if last@ == ".."@ {
                    assert(p[p.len() - 1] == ".."@);
                }
                if p.contains(".."@) {
                    let j = choose|j: int| 0 <= j < p.len() && p[j] == ".."@;
                    if j < p.len() - 1 {
                        assert(parts(head@)[j] == ".."@);
                    }
                }
            }
            a || b
        },
    }
}

proof fn lemma_last_index_append(s: Seq<char>, t: Seq<char>, c: char)
    requires
        forall|i: int| 0 <= i < t.len() ==> t[i] != c,
    ensures
        last_index_of(s + t, c) == last_index_of(s, c),
    decreases t.len(),
{
    if t.len() > 0 {
        assert((s + t).drop_last() =~= s + t.drop_last());
        assert((s + t).last() == t.last());
        lemma_last_index_append(s, t.drop_last(), c);
    } else {
        assert(s + t =~= s);
    }
}

/// The parts of `s + t`, where `t` holds no `/`: the last part of `s` is
/// extended by `t`.
proof fn lemma_parts_append(s: Seq<char>, t: Seq<char>)
    requires
        forall|i: int| 0 <= i < t.len() ==> t[i] != '/',
    ensures
        ({
            let i = last_index_of(s, '/');
            parts(s + t) == if i < 0 {
                seq![s + t]
            } else {
                parts(s.take(i)).push(s.skip(i + 1) + t)
            }
        }),
{
    lemma_last_index_append(s, t, '/');
    lemma_last_index_of_pub(s, '/');
    let i = last_index_of(s, '/');
    if i >= 0 {
        assert((s + t).take(i) =~= s.take(i));
        assert((s + t).skip(i + 1) =~= s.skip(i + 1) + t);
    }
}

/// Law: the server never answers with a file outside its output directory:
/// no part of a resolved path is `..`.
pub proof fn lemma_resolve_stays_inside(target: Seq<char>)
    ensures
        resolve_target(target) matches Some(p) ==> !parts(p).contains(".."@),
{
    reveal_strlit("index.html");
    reveal_strlit("/index.html");
    reveal_strlit("..");
    reveal_strlit("/");
    let path = target.take(query_start(target));
    let trimmed = trim_slashes(path);
    let ix = "index.html"@;
    assert(ix != ".."@) by {
        assert(ix.len() != 2);
    }
    if !parts(trimmed).contains(".."@) && trimmed.len() == 0 {
        lemma_last_index_append(Seq::empty(), ix, '/');
        assert(Seq::<char>::empty() + ix =~= ix);
        assert(parts(ix) == seq![ix]);
        assert(!seq![ix].contains(".."@)) by {
            if seq![ix].contains(".."@) {
                let k = choose|k: int| 0 <= k < 1 && seq![ix][k] == ".."@;
            }
        }
    }
    if !parts(trimmed).contains(".."@) && trimmed.len() > 0 {
        if path.last() == '/' {
            // The target names a directory: its parts, the empty last one
            // replaced by `index.html`.
            assert(trimmed.last() == '/') by {
                lemma_trim_suffix(path);
            }
            lemma_last_index_of_pub(trimmed, '/');
            assert(last_index_of(trimmed, '/') == trimmed.len() - 1);
            lemma_parts_append(trimmed, ix);
            let head = parts(trimmed.take(trimmed.len() - 1));
            assert(parts(trimmed) == head.push(trimmed.skip(trimmed.len() as int)));
            assert(trimmed.skip(trimmed.len() as int) + ix =~= ix);
            assert forall|k: int| 0 <= k < head.len() implies head[k] != ".."@ by {
                assert(parts(trimmed)[k] == head[k]);
            }
            assert(!head.push(ix).contains(".."@)) by {
                if head.push(ix).contains(".."@) {
                    let k = choose|k: int| 0 <= k < head.push(ix).len() && head.push(ix)[k] == ".."@;
                    if k < head.len() {
                        assert(head[k] == ".."@);
                    }
                }
            }
        } else if !has_extension(file_name(trimmed)) {
            let s1 = trimmed + "/"@;
            assert(trimmed + "/index.html"@ =~= s1 + ix);
            lemma_parts_append(s1, ix);
            lemma_last_index_of_pub(s1, '/');
            assert(last_index_of(s1, '/') == trimmed.len());
            assert(s1.take(trimmed.len() as int) =~= trimmed);
            assert(s1.skip(trimmed.len() + 1int) + ix =~= ix);
            let ps = parts(trimmed);
            assert(!ps.push(ix).contains(".."@)) by {
                if ps.push(ix).contains(".."@) {
                    let k = choose|k: int| 0 <= k < ps.push(ix).len() && ps.push(ix)[k] == ".."@;
                    if k < ps.len() {
                        assert(ps[k] == ".."@);
                    }
                }
            }
        }
    }
}

proof fn lemma_trim_suffix(s: Seq<char>)
    requires
        s.len() > 0,
        trim_slashes(s).len() > 0,
    ensures
        trim_slashes(s).last() == s.last(),
    decreases s.len(),
{
    if s[0] == '/' {
        assert(s.skip(1).len() > 0) by {
            lemma_trim_len(s.skip(1));
        }
        lemma_trim_suffix(s.skip(1));
    }
}

/// The output file that answers a request target, if any.
pub fn resolve(target: &str) -> (r: Option<String>)
    ensures
        match (r, resolve_target(target@)) {
            (Some(p), Some(sp)) => p@ == sp,
            (None, None) => true,
            _ => false,
        },
{
    let cs = chars_of(target);
    proof {
        lemma_query_start(cs@);
    }
    let q = cut_query(&cs);
    let path = chars_slice(&cs, 0, q);
    assert(path@ =~= target@.take(query_start(target@)));
    let trimmed = trim_slashes_exec(&path);
    if has_parent_part(&trimmed) {
        return None;
    }
    if trimmed.len() == 0 {
        return Some(owned("index.html"));
    }
    let mut out = chars_slice(&trimmed, 0, trimmed.len());
    assert(out@ =~= trimmed@);
    if path.len() > 0 && path[path.len() - 1] == '/' {
        push_str(&mut out, "index.html");
        return Some(string_from_chars(&out));
    }
    assert(path@.len() > 0) by {
        assert(trim_slashes(path@).len() <= path@.len()) by {
            lemma_trim_len(path@);
        }
    }
    proof {
        lemma_last_index_of_pub(trimmed@, '/');
    }
    let start = match chars_last_index(&trimmed, '/') {
        Some(i) => {
            assert(i < trimmed.len());
            i + 1
        },
        None => 0,
    };
    let name = chars_slice(&trimmed, start, trimmed.len());
    assert(name@ =~= file_name(trimmed@));
    proof {
        lemma_last_index_of_pub(name@, '.');
    }
    let has_ext = match chars_last_index(&name, '.') {
        Some(d) => d > 0,
        None => false,
    };
    if !has_ext {
        push_str(&mut out, "/index.html");
    }
    Some(string_from_chars(&out))
}

proof fn lemma_trim_len(s: Seq<char>)
    ensures
        trim_slashes(s).len() <= s.len(),
    decreases s.len(),
{
    if s.len() > 0 && s[0] == '/' {
        lemma_trim_len(s.skip(1));
    }
}

// ---- responses ----

/// The extension of a path's file name (after its last `.`), or nothing.
pub open spec fn extension_of(p: Seq<char>) -> Seq<char> {
    let name = file_name(p);
    if has_extension(name) {
        name.skip(last_index_of(name, '.') + 1)
    } else {
        Seq::empty()
    }
}

/// The content type served for a file extension.
pub open spec fn mime_of(ext: Seq<char>) -> Seq<char> {
    if ext == "html"@ {
        "text/html; charset=utf-8"@
    } else if ext == "css"@ {
        "text/css; charset=utf-8"@
    } else if ext == "js"@ {
        "text/javascript; charset=utf-8"@
    } else if ext == "json"@ {
        "application/json; charset=utf-8"@
    } else if ext == "svg"@ {
        "image/svg+xml"@
    } else if ext == "png"@ {
        "image/png"@
    } else if ext == "jpg"@ || ext == "jpeg"@ {
        "image/jpeg"@
    } else if ext == "gif"@ {
        "image/gif"@
    } else if ext == "webp"@ {
        "image/webp"@
    } else if ext == "ico"@ {
        "image/x-icon"@
    } else if ext == "woff2"@ {
        "font/woff2"@
    } else if ext == "woff"@ {
        "font/woff"@
    } else if ext == "ttf"@ {
        "font/ttf"@
    } else if ext == "txt"@ || ext == "md"@ {
        "text/plain; charset=utf-8"@
    } else if ext == "xml"@ {
        "application/xml"@
    } else {
        "application/octet-stream"@
    }
}

/// The content type of a file, by its extension.
pub fn content_type(path: &str) -> (r: &'static str)
    ensures
        r@ == mime_of(extension_of(path@)),
{
    let cs = chars_of(path);
    proof {
        lemma_last_index_of_pub(cs@, '/');
    }
    let start = match chars_last_index(&cs, '/') {
        Some(i) => {
            assert(i < cs.len());
            i + 1
        },
        None => 0,
    };
    let name = chars_slice(&cs, start, cs.len());
    assert(name@ =~= file_name(path@));
    proof {
        lemma_last_index_of_pub(name@, '.');
    }
    let ext = match chars_last_index(&name, '.') {
        Some(d) => {
            if d > 0 {
                let e = chars_slice(&name, d + 1, name.len());
                assert(e@ =~= extension_of(path@));
                e
            } else {
                let e: Vec<char> = Vec::new();
                assert(e@ =~= extension_of(path@));
                e
            }
        },
        None => {
            let e: Vec<char> = Vec::new();
            assert(e@ =~= extension_of(path@));
            e
        },
    };
    let e = string_from_chars(&ext);
    let e = e.as_str();
    let eq = |a: &str, b: &str| -> (r: bool)
        ensures
            r == (a@ == b@),
        { crate::text::str_eq(a, b) };
    if eq(e, "html") {
        "text/html; charset=utf-8"
    } else if eq(e, "css") {
        "text/css; charset=utf-8"
    } else if eq(e, "js") {
        "text/javascript; charset=utf-8"
    } else if eq(e, "json") {
        "application/json; charset=utf-8"
    } else if eq(e, "svg") {
        "image/svg+xml"
    } else if eq(e, "png") {
        "image/png"
    } else if eq(e, "jpg") || eq(e, "jpeg") {
        "image/jpeg"
    } else if eq(e, "gif") {
        "image/gif"
    } else if eq(e, "webp") {
        "image/webp"
    } else if eq(e, "ico") {
        "image/x-icon"
    } else if eq(e, "woff2") {
        "font/woff2"
    } else if eq(e, "woff") {
        "font/woff"
    } else if eq(e, "ttf") {
        "font/ttf"
    } else if eq(e, "txt") || eq(e, "md") {
        "text/plain; charset=utf-8"
    } else if eq(e, "xml") {
        "application/xml"
    } else {
        "application/octet-stream"
    }
}

/// Escape text for the server's own pages: `&`, `<` and `>`.
pub fn escape(s: &str) -> (r: String)
    ensures
        r@ == escape_text(s@),
{
    let mut out: Vec<char> = Vec::new();
    escape_into(s, &mut out);
    string_from_chars(&out)
}

pub open spec fn error_page_text(message: Seq<char>) -> Seq<char> {
    "<!doctype html><meta charset=\"utf-8\"><title>build failed</title><body style=\"font:14px ui-monospace,monospace;padding:2rem;background:#1d1f21;color:#f0f0f0\"><h1>nono build failed</h1><pre style=\"white-space:pre-wrap;color:#ff8888\">"@
        + escape_text(message)
        + "</pre><p style=\"color:#888\">fix it and refresh. no, no, you will do it yourself.</p></body>"@
}

/// The page shown in the browser when the rebuild fails.
pub fn error_page(message: &str) -> (r: String)
    ensures
        r@ == error_page_text(message@),
{
    let mut out: Vec<char> = Vec::new();
    push_str(
        &mut out,
        "<!doctype html><meta charset=\"utf-8\"><title>build failed</title><body style=\"font:14px ui-monospace,monospace;padding:2rem;background:#1d1f21;color:#f0f0f0\"><h1>nono build failed</h1><pre style=\"white-space:pre-wrap;color:#ff8888\">",
    );
    escape_into(message, &mut out);
    push_str(&mut out, "</pre><p style=\"color:#888\">fix it and refresh. no, no, you will do it yourself.</p></body>");
    string_from_chars(&out)
}

pub open spec fn not_found_text(target: Seq<char>) -> Seq<char> {
    "<!doctype html><meta charset=\"utf-8\"><title>404</title><body style=\"font:14px ui-monospace,monospace;padding:2rem\"><h1>404</h1><p>nothing built to <code>"@
        + escape_text(target) + "</code>.</p></body>"@
}

/// The page shown for a target that no output file answers.
pub fn not_found_page(target: &str) -> (r: String)
    ensures
        r@ == not_found_text(target@),
{
    let mut out: Vec<char> = Vec::new();
    push_str(
        &mut out,
        "<!doctype html><meta charset=\"utf-8\"><title>404</title><body style=\"font:14px ui-monospace,monospace;padding:2rem\"><h1>404</h1><p>nothing built to <code>",
    );
    escape_into(target, &mut out);
    push_str(&mut out, "</code>.</p></body>");
    string_from_chars(&out)
}

pub open spec fn response_head_text(status: Seq<char>, content_type: Seq<char>, length: nat) -> Seq<char> {
    "HTTP/1.1 "@ + status + "\r\nContent-Type: "@ + content_type + "\r\nContent-Length: "@ + nat_text(length)
        + "\r\nConnection: close\r\n\r\n"@
}

/// The status line and headers of a response whose body has `length` bytes.
pub fn response_head(status: &str, content_type: &str, length: u64) -> (r: String)
    ensures
        r@ == response_head_text(status@, content_type@, length as nat),
{
    let mut out: Vec<char> = Vec::new();
    push_str(&mut out, "HTTP/1.1 ");
    push_str(&mut out, status);
    push_str(&mut out, "\r\nContent-Type: ");
    push_str(&mut out, content_type);
    push_str(&mut out, "\r\nContent-Length: ");
    let n = nat_to_chars(length);
    push_chars(&mut out, &n);
    push_str(&mut out, "\r\nConnection: close\r\n\r\n");
    string_from_chars(&out)
}

// ---- one exchange ----

/// Where the answering of one request stands.
pub enum Exchange {
    /// Waiting for the request line.
    Start,
    /// The site is being rebuilt for a request for `target`.
    Building { target: String },
    /// The output file `rel` is being looked for, for a request for `target`.
    Looking { target: String, rel: String },
    /// The exchange is over.
    Done,
}

/// What happened, handed back by the server loop.
pub enum ExchangeEvent {
    /// The request line was read.
    RequestLine(String),
    /// The rebuild ended: the message of its failure, if it failed.
    Built(Option<String>),
    /// Whether the output file looked for exists.
    Found(bool),
}

/// What the server loop is to do next.
pub enum ExchangeAction {
    /// Close the connection without an answer.
    Close,
    /// Send an answer with this status, content type and body.
    Reply { status: String, content_type: String, body: String },
    /// Rebuild the site.
    Rebuild,
    /// Look for the output file `rel`.
    Look { rel: String },
    /// Send the output file `rel`, `200 OK`, with this content type.
    SendFile { rel: String, content_type: String },
}

/// Whether `a` is the answer with this status, content type and body.
pub open spec fn replies(a: ExchangeAction, status: Seq<char>, content_type: Seq<char>, body: Seq<char>) -> bool {
    a matches ExchangeAction::Reply { status: s, content_type: c, body: b } && (s@ == status && c@ == content_type
        && b@ == body)
}

/// One step of an exchange: the state it moves to and the action it asks for.
/// A request whose line cannot be read is dropped; a method other than `GET`
/// or `HEAD` is refused with 405; otherwise the site is rebuilt, and a failed
/// build is shown as a 500 error page; then the target is resolved to an
/// output file, sent if it exists, and answered with a 404 page if it does not
/// or cannot be resolved. An event that does not fit the state ends the
/// exchange.
pub open spec fn exchange_step(st: Exchange, ev: ExchangeEvent, next: Exchange, act: ExchangeAction) -> bool {
    match (st, ev) {
        (Exchange::Start, ExchangeEvent::RequestLine(line)) => match request_of(line@) {
            None => next is Done && act is Close,
            Some((m, t)) => if m == "GET"@ || m == "HEAD"@ {
                &&& (next matches Exchange::Building { target } && target@ == t)
                &&& act is Rebuild
            } else {
                next is Done && replies(
                    act,
                    "405 Method Not Allowed"@,
                    "text/plain; charset=utf-8"@,
                    "only GET here, this is a toy"@,
                )
            },
        },
        (Exchange::Building { target }, ExchangeEvent::Built(Some(msg))) => next is Done && replies(
            act,
            "500 Internal Server Error"@,
            "text/html; charset=utf-8"@,
            error_page_text(msg@),
        ),
        (Exchange::Building { target }, ExchangeEvent::Built(None)) => match resolve_target(target@) {
            Some(p) => {
                &&& (next matches Exchange::Looking { target: t2, rel } && t2@ == target@ && rel@ == p)
                &&& (act matches ExchangeAction::Look { rel: r2 } && r2@ == p)
            },
            None => next is Done && replies(act, "404 Not Found"@, "text/html; charset=utf-8"@, not_found_text(target@)),
        },
        (Exchange::Looking { target, rel }, ExchangeEvent::Found(found)) => {
            &&& next is Done
            &&& if found {
                act matches ExchangeAction::SendFile { rel: r2, content_type } && r2@ == rel@ && content_type@
                    == mime_of(extension_of(rel@))
            } else {
                replies(act, "404 Not Found"@, "text/html; charset=utf-8"@, not_found_text(target@))
            }
        },
        _ => next is Done && act is Close,
    }
}

fn reply(status: &str, content_type: &str, body: String) -> (a: ExchangeAction)
    ensures
        replies(a, status@, content_type@, body@),
{
    ExchangeAction::Reply { status: owned(status), content_type: owned(content_type), body }
}

/// Take one step of an exchange (see `exchange_step`).
pub fn exchange(st: Exchange, ev: ExchangeEvent) -> (r: (Exchange, ExchangeAction))
    ensures
        exchange_step(st, ev, r.0, r.1),
{
    match (st, ev) {
        (Exchange::Start, ExchangeEvent::RequestLine(line)) => match read_request(line.as_str()) {
            None => (Exchange::Done, ExchangeAction::Close),
            Some((method, target)) => if method_allowed(method.as_str()) {
                (Exchange::Building { target }, ExchangeAction::Rebuild)
            } else {
                (
                    Exchange::Done,
                    reply("405 Method Not Allowed", "text/plain; charset=utf-8", owned("only GET here, this is a toy")),
                )
            },
        },
        (Exchange::Building { target }, ExchangeEvent::Built(Some(msg))) => {
            let body = error_page(msg.as_str());
            (Exchange::Done, reply("500 Internal Server Error", "text/html; charset=utf-8", body))
        },
        (Exchange::Building { target }, ExchangeEvent::Built(None)) => match resolve(target.as_str()) {
            Some(rel) => {
                let look = rel.clone();
                (Exchange::Looking { target, rel }, ExchangeAction::Look { rel: look })
            },
            None => {
                let body = not_found_page(target.as_str());
                (Exchange::Done, reply("404 Not Found", "text/html; charset=utf-8", body))
            },
        },
        (Exchange::Looking { target, rel }, ExchangeEvent::Found(found)) => if found {
            let ct = owned(content_type(rel.as_str()));
            (Exchange::Done, ExchangeAction::SendFile { rel, content_type: ct })
        } else {
            let body = not_found_page(target.as_str());
            (Exchange::Done, reply("404 Not Found", "text/html; charset=utf-8", body))
        },
        _ => (Exchange::Done, ExchangeAction::Close),
    }
}

} // verus!

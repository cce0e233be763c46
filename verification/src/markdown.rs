//! Markdown content: frontmatter splitting, heading slugs, the table of
//! contents, and the rendered body (by pulldown-cmark).

use vstd::prelude::*;
use pulldown_cmark::{Event, Tag, TagEnd, Options};
use crate::value::{Value, VValue, view_entries, lemma_view_entries, lemma_view_entries_push, view_values, lemma_view_values_push, dict_get, dict_set, dict_lookup, dict_insert};
use crate::text::{nat_text, digit_char, string_from_chars, owned, chars_find_from, find_from, starts_with, chars_occur_at, occurs_at, unicode_whitespace, char_is_whitespace, chars_of, chars_eq, chars_slice, push_str, push_chars, int_text, nat_to_chars, char_is_alphanumeric, char_to_lowercase, alnum_char, lower_chars, ascii_alnum, ascii_lower_char, is_ascii_text};

verus! {

// ---- heading slugs ----

/// One step of the slug scan: alphanumerics are kept, lowercased; a run of
/// anything else becomes a single dash.
pub open spec fn slug_step(st: (Seq<char>, bool), c: char) -> (Seq<char>, bool) {
    if alnum_char(c) {
        (st.0 + lower_chars(c), false)
    } else if !st.1 {
        (st.0.push('-'), true)
    } else {
        st
    }
}

pub open spec fn slug_scan(cs: Seq<char>) -> (Seq<char>, bool)
    decreases cs.len(),
{
    if cs.len() == 0 {
        (Seq::empty(), false)
    } else {
        slug_step(slug_scan(cs.drop_last()), cs.last())
    }
}

/// The number of leading `c`s of `s`.
pub open spec fn lead_count(s: Seq<char>, c: char) -> int
    decreases s.len(),
{
    if s.len() == 0 || s[0] != c {
        0
    } else {
        1 + lead_count(s.drop_first(), c)
    }
}

/// The number of trailing `c`s of `s`.
pub open spec fn trail_count(s: Seq<char>, c: char) -> int
    decreases s.len(),
{
    if s.len() == 0 || s.last() != c {
        0
    } else {
        1 + trail_count(s.drop_last(), c)
    }
}

/// `s` with leading and trailing `c`s removed.
pub open spec fn trim_char(s: Seq<char>, c: char) -> Seq<char> {
    if lead_count(s, c) >= s.len() {
        Seq::empty()
    } else {
        s.subrange(lead_count(s, c), s.len() - trail_count(s, c))
    }
}

/// A GitHub-ish heading slug: lowercase, runs of non-alphanumerics become a
/// single dash, leading/trailing dashes trimmed. Empty text falls back to
/// `section` so an id is always produced.
pub open spec fn slugify_spec(text: Seq<char>) -> Seq<char> {
    let t = trim_char(slug_scan(text).0, '-');
    if t.len() == 0 {
        "section"@
    } else {
        t
    }
}

/// Law: every heading gets an id: a slug is never empty.
pub proof fn lemma_slug_nonempty(text: Seq<char>)
    ensures
        slugify_spec(text).len() > 0,
{
    reveal_strlit("section");
}

/// Whether `c` may appear in the slug of ASCII text: a lowercase letter, a
/// digit or a dash.
pub open spec fn slug_char(c: char) -> bool {
    ('a' <= c && c <= 'z') || ('0' <= c && c <= '9') || c == '-'
}

/// Whether `s` has two dashes in a row at `i`.
pub open spec fn double_dash_at(s: Seq<char>, i: int) -> bool {
    s[i] == '-' && s[i + 1] == '-'
}

/// Whether `s` has no dash at either end and no two dashes in a row.
pub open spec fn dashes_tidy(s: Seq<char>) -> bool {
    &&& s.len() > 0 ==> s[0] != '-' && s.last() != '-'
    &&& forall|i: int| 0 <= i < s.len() - 1 ==> !#[trigger] double_dash_at(s, i)
}

/// The characters of `s` other than dashes, in order.
pub open spec fn undashed(s: Seq<char>) -> Seq<char>
    decreases s.len(),
{
    if s.len() == 0 {
        Seq::empty()
    } else {
        undashed(s.drop_last()) + if s.last() == '-' {
            Seq::<char>::empty()
        } else {
            seq![s.last()]
        }
    }
}

/// The letters and digits of ASCII text, lowercased, in order.
pub open spec fn ascii_alnums(cs: Seq<char>) -> Seq<char>
    decreases cs.len(),
{
    if cs.len() == 0 {
        Seq::empty()
    } else {
        ascii_alnums(cs.drop_last()) + if ascii_alnum(cs.last()) {
            seq![ascii_lower_char(cs.last())]
        } else {
            Seq::<char>::empty()
        }
    }
}

proof fn lemma_undashed_add(a: Seq<char>, b: Seq<char>)
    ensures
        undashed(a + b) == undashed(a) + undashed(b),
    decreases b.len(),
{
    if b.len() == 0 {
        assert(a + b =~= a);
        assert(undashed(a) + undashed(b) =~= undashed(a));
    } else {
        assert((a + b).drop_last() =~= a + b.drop_last());
        assert((a + b).last() == b.last());
        lemma_undashed_add(a, b.drop_last());
        let tail = if b.last() == '-' { Seq::<char>::empty() } else { seq![b.last()] };
        assert(undashed(a) + undashed(b.drop_last()) + tail =~= undashed(a) + (undashed(b.drop_last()) + tail));
    }
}

proof fn lemma_undashed_dashes(s: Seq<char>)
    requires
        forall|j: int| 0 <= j < s.len() ==> s[j] == '-',
    ensures
        undashed(s) == Seq::<char>::empty(),
    decreases s.len(),
{
    if s.len() > 0 {
        lemma_undashed_dashes(s.drop_last());
        assert(s.last() == s[s.len() - 1]);
        assert(undashed(s.drop_last()) + Seq::<char>::empty() =~= Seq::<char>::empty());
    }
}

proof fn lemma_undashed_nonempty(s: Seq<char>, k: int)
    requires
        0 <= k < s.len(),
        s[k] != '-',
    ensures
        undashed(s).len() > 0,
    decreases s.len(),
{
    if k < s.len() - 1 {
        lemma_undashed_nonempty(s.drop_last(), k);
    } else {
        assert(s.last() == s[k]);
    }
}

proof fn lemma_lead_count_facts(s: Seq<char>, c: char)
    ensures
        0 <= lead_count(s, c) <= s.len(),
        forall|j: int| 0 <= j < lead_count(s, c) ==> s[j] == c,
        lead_count(s, c) < s.len() ==> s[lead_count(s, c)] != c,
    decreases s.len(),
{
    if s.len() > 0 && s[0] == c {
        lemma_lead_count_facts(s.drop_first(), c);
        assert forall|j: int| 0 <= j < lead_count(s, c) implies s[j] == c by {
            if j > 0 {
                assert(s[j] == s.drop_first()[j - 1]);
            }
        }
        if lead_count(s, c) < s.len() {
            assert(s[lead_count(s, c)] == s.drop_first()[lead_count(s.drop_first(), c)]);
        }
    }
}

proof fn lemma_trail_count_facts(s: Seq<char>, c: char)
    ensures
        0 <= trail_count(s, c) <= s.len(),
        forall|j: int| s.len() - trail_count(s, c) <= j < s.len() ==> s[j] == c,
        trail_count(s, c) < s.len() ==> s[s.len() - 1 - trail_count(s, c)] != c,
    decreases s.len(),
{
    if s.len() > 0 && s.last() == c {
        lemma_trail_count_facts(s.drop_last(), c);
        assert forall|j: int| s.len() - trail_count(s, c) <= j < s.len() implies s[j] == c by {
            if j < s.len() - 1 {
                assert(s[j] == s.drop_last()[j]);
            }
        }
        if trail_count(s, c) < s.len() {
            assert(s[s.len() - 1 - trail_count(s, c)] == s.drop_last()[s.drop_last().len() - 1 - trail_count(
                s.drop_last(),
                c,
            )]);
        }
    }
}

proof fn lemma_ascii_lower(c: char)
    requires
        ascii_alnum(c),
    ensures
        slug_char(ascii_lower_char(c)),
        ascii_lower_char(c) != '-',
        ('a' <= c && c <= 'z') || ('0' <= c && c <= '9') ==> ascii_lower_char(c) == c,
{
    if 'A' <= c && c <= 'Z' {
        let u = (c as u32) + 32;
        assert(97 <= u <= 122);
        assert((u as char) as u32 == u);
    }
}

/// The scan of ASCII text leaves only slug characters, never two dashes in a
/// row, ends in a dash exactly when its flag is set, and keeps the text's
/// letters and digits, lowercased.
proof fn lemma_scan_ascii(cs: Seq<char>)
    requires
        is_ascii_text(cs),
    ensures
        ({
            let (o, d) = slug_scan(cs);
            &&& forall|i: int| 0 <= i < o.len() ==> slug_char(#[trigger] o[i])
            &&& forall|i: int| 0 <= i < o.len() - 1 ==> !#[trigger] double_dash_at(o, i)
            &&& d == (o.len() > 0 && o.last() == '-')
            &&& undashed(o) == ascii_alnums(cs)
        }),
    decreases cs.len(),
{
    if cs.len() > 0 {
        let q = cs.drop_last();
        assert(is_ascii_text(q)) by {
            assert forall|i: int| 0 <= i < q.len() implies (#[trigger] q[i] as u32) < 128 by {
                assert(q[i] == cs[i]);
            }
        }
        lemma_scan_ascii(q);
        let (p, pd) = slug_scan(q);
        let c = cs.last();
        assert(cs[cs.len() - 1] == c);
        assert((c as u32) < 128);
        let (o, d) = slug_scan(cs);
        if ascii_alnum(c) {
            let l = ascii_lower_char(c);
            lemma_ascii_lower(c);
            assert(o == p + seq![l]);
            assert(o.drop_last() =~= p);
            assert forall|i: int| 0 <= i < o.len() implies slug_char(#[trigger] o[i]) by {
                if i < p.len() {
                    assert(o[i] == p[i]);
                }
            }
            assert forall|i: int| 0 <= i < o.len() - 1 implies !#[trigger] double_dash_at(o, i) by {
                if i < p.len() - 1 {
                    assert(o[i] == p[i] && o[i + 1] == p[i + 1]);
                    assert(!double_dash_at(p, i));
                } else {
                    assert(o[i + 1] == l);
                }
            }
        } else if !pd {
            assert(o == p.push('-'));
            assert(o.drop_last() =~= p);
            assert forall|i: int| 0 <= i < o.len() implies slug_char(#[trigger] o[i]) by {
                if i < p.len() {
                    assert(o[i] == p[i]);
                }
            }
            assert forall|i: int| 0 <= i < o.len() - 1 implies !#[trigger] double_dash_at(o, i) by {
                if i < p.len() - 1 {
                    assert(o[i] == p[i] && o[i + 1] == p[i + 1]);
                    assert(!double_dash_at(p, i));
                } else {
                    assert(o[i] == p.last());
                }
            }
            assert(undashed(p) + Seq::<char>::empty() =~= undashed(p));
            assert(ascii_alnums(q) + Seq::<char>::empty() =~= ascii_alnums(q));
        } else {
            assert(o == p);
            assert(ascii_alnums(q) + Seq::<char>::empty() =~= ascii_alnums(q));
        }
    }
}

/// A tidy run of slug characters scans to itself.
proof fn lemma_scan_fixed(s: Seq<char>)
    requires
        forall|i: int| 0 <= i < s.len() ==> slug_char(#[trigger] s[i]),
        forall|i: int| 0 <= i < s.len() - 1 ==> !#[trigger] double_dash_at(s, i),
        s.len() > 0 ==> s[0] != '-',
    ensures
        slug_scan(s) == (s, s.len() > 0 && s.last() == '-'),
    decreases s.len(),
{
    if s.len() > 0 {
        let p = s.drop_last();
        assert forall|i: int| 0 <= i < p.len() implies slug_char(#[trigger] p[i]) by {
            assert(p[i] == s[i]);
        }
        assert forall|i: int| 0 <= i < p.len() - 1 implies !#[trigger] double_dash_at(p, i) by {
            assert(p[i] == s[i] && p[i + 1] == s[i + 1]);
            assert(!double_dash_at(s, i));
        }
        if p.len() > 0 {
            assert(p[0] == s[0]);
        }
        lemma_scan_fixed(p);
        let c = s.last();
        assert(slug_char(s[s.len() - 1]));
        if c == '-' {
            assert(s.len() >= 2);
            assert(!double_dash_at(s, s.len() - 2));
            assert(p.last() == s[s.len() - 2]);
            assert(p.push('-') =~= s);
        } else {
            assert(ascii_alnum(c));
            lemma_ascii_lower(c);
            assert(p + seq![c] =~= s);
        }
    }
}

/// Law: the slug of ASCII text is made of lowercase letters, digits and
/// dashes, never starts or ends with a dash nor has two in a row, keeps the
/// text's letters and digits (lowercased, in order) or is `section` when there
/// are none, and is its own slug.
pub proof fn lemma_slug_shape(text: Seq<char>)
    requires
        is_ascii_text(text),
    ensures
        ({
            let s = slugify_spec(text);
            &&& s.len() > 0
            &&& forall|i: int| 0 <= i < s.len() ==> slug_char(#[trigger] s[i])
            &&& dashes_tidy(s)
            &&& ascii_alnums(text).len() == 0 ==> s == "section"@
            &&& ascii_alnums(text).len() > 0 ==> undashed(s) == ascii_alnums(text)
            &&& slugify_spec(s) == s
        }),
{
    reveal_strlit("section");
    lemma_scan_ascii(text);
    let (o, d) = slug_scan(text);
    let l = lead_count(o, '-');
    let tr = trail_count(o, '-');
    lemma_lead_count_facts(o, '-');
    lemma_trail_count_facts(o, '-');
    let s = slugify_spec(text);
    if l >= o.len() {
        lemma_undashed_dashes(o);
        assert(s == "section"@);
        assert forall|i: int| 0 <= i < s.len() implies slug_char(#[trigger] s[i]) by {
            assert(s[i] != '-' && 'a' <= s[i] && s[i] <= 'z');
        }
        assert forall|i: int| 0 <= i < s.len() - 1 implies !#[trigger] double_dash_at(s, i) by {}
    } else {
        assert(o[l] != '-');
        if o.len() - tr <= l {
            assert(o[l] == '-');
        }
        let t = o.subrange(l, o.len() - tr);
        assert(trim_char(o, '-') == t);
        assert(s == t);
        assert(t[0] == o[l]);
        assert(t.last() == o[o.len() - 1 - tr]);
        assert forall|i: int| 0 <= i < t.len() implies slug_char(#[trigger] t[i]) by {
            assert(t[i] == o[l + i]);
        }
        assert forall|i: int| 0 <= i < t.len() - 1 implies !#[trigger] double_dash_at(t, i) by {
            assert(t[i] == o[l + i] && t[i + 1] == o[l + i + 1]);
            assert(!double_dash_at(o, l + i));
        }
        let a = o.take(l);
        let b = o.skip(o.len() - tr);
        assert(o =~= a + t + b);
        lemma_undashed_add(a + t, b);
        lemma_undashed_add(a, t);
        assert forall|j: int| 0 <= j < a.len() implies a[j] == '-' by {}
        assert forall|j: int| 0 <= j < b.len() implies b[j] == '-' by {
            assert(b[j] == o[o.len() - tr + j]);
        }
        lemma_undashed_dashes(a);
        lemma_undashed_dashes(b);
        assert(undashed(o) =~= undashed(t));
        lemma_undashed_nonempty(t, 0);
    }
    lemma_scan_fixed(s);
    lemma_lead_count(s, '-', 0);
    lemma_trail_count(s, '-', 0);
    assert(s.subrange(0, s.len() as int) =~= s);
}

proof fn lemma_lead_count(s: Seq<char>, c: char, i: int)
    requires
        0 <= i <= s.len(),
        forall|j: int| 0 <= j < i ==> s[j] == c,
        i == s.len() || s[i] != c,
    ensures
        lead_count(s, c) == i,
    decreases i,
{
    if i > 0 {
        lemma_lead_count(s.drop_first(), c, i - 1);
    }
}

proof fn lemma_trail_count(s: Seq<char>, c: char, i: int)
    requires
        0 <= i <= s.len(),
        forall|j: int| s.len() - i <= j < s.len() ==> s[j] == c,
        i == s.len() || s[s.len() - 1 - i] != c,
    ensures
        trail_count(s, c) == i,
    decreases i,
{
    if i > 0 {
        lemma_trail_count(s.drop_last(), c, i - 1);
    }
}

fn trim_char_exec(s: &Vec<char>, c: char) -> (r: Vec<char>)
    ensures
        r@ == trim_char(s@, c),
{
    let mut a: usize = 0;
    while a < s.len() && s[a] == c
        invariant
            a <= s.len(),
            forall|j: int| 0 <= j < a ==> s@[j] == c,
        decreases s.len() - a,
    {
        a = a + 1;
    }
    proof {
        lemma_lead_count(s@, c, a as int);
    }
    if a >= s.len() {
        return Vec::new();
    }
    let mut t: usize = 0;
    while t < s.len() && s[s.len() - 1 - t] == c
        invariant
            t <= s.len(),
            forall|j: int| s.len() - t <= j < s.len() ==> s@[j] == c,
        decreases s.len() - t,
    {
        t = t + 1;
    }
    proof {
        lemma_trail_count(s@, c, t as int);
        if t + a > s.len() {
            assert(s@[a as int] != c);
        }
    }
    chars_slice(s, a, s.len() - t)
}

/// The heading slug of `text`.
pub fn slugify(text: &Vec<char>) -> (r: Vec<char>)
    ensures
        r@ == slugify_spec(text@),
{
    let mut s: Vec<char> = Vec::new();
    let mut prev_dash = false;
    let mut i: usize = 0;
    while i < text.len()
        invariant
            i <= text.len(),
            (s@, prev_dash) == slug_scan(text@.take(i as int)),
        decreases text.len() - i,
    {
        let c = text[i];
        assert(text@.take(i + 1).drop_last() =~= text@.take(i as int));
        if char_is_alphanumeric(c) {
            let lc = char_to_lowercase(c);
            push_chars(&mut s, &lc);
            prev_dash = false;
        } else if !prev_dash {
            s.push('-');
            prev_dash = true;
        }
        i = i + 1;
    }
    assert(text@.take(text.len() as int) =~= text@);
    let t = trim_char_exec(&s, '-');
    if t.len() == 0 {
        chars_of("section")
    } else {
        t
    }
}

// ---- unique ids ----

/// The id `base` numbered `n`: `base` itself for 0, else `base-n`.
pub open spec fn numbered(base: Seq<char>, n: int) -> Seq<char> {
    if n == 0 {
        base
    } else {
        base + "-"@ + int_text(n)
    }
}

/// The first `m >= n` (up to `issued.len()`) whose numbering of `base` is not
/// in `issued`.
pub open spec fn first_free(base: Seq<char>, issued: Seq<Seq<char>>, n: int) -> int
    decreases issued.len() + 1 - n,
{
    if n < 0 || n >= issued.len() || !issued.contains(numbered(base, n)) {
        n
    } else {
        first_free(base, issued, n + 1)
    }
}

/// The id handed out for slug `base` when the ids in `issued` are taken: the
/// slug itself if it is free, else the slug numbered with the smallest `n >= 1`
/// that is free.
pub open spec fn fresh_id(base: Seq<char>, issued: Seq<Seq<char>>) -> Seq<char> {
    numbered(base, first_free(base, issued, 0))
}

/// The ids handed out, in turn, to headings with the texts `texts`, the ids in
/// `issued` taken before the first.
pub open spec fn slug_ids(texts: Seq<Seq<char>>, issued: Seq<Seq<char>>) -> Seq<Seq<char>>
    decreases texts.len(),
{
    if texts.len() == 0 {
        Seq::empty()
    } else {
        let id = fresh_id(slugify_spec(texts[0]), issued);
        seq![id] + slug_ids(texts.drop_first(), issued.push(id))
    }
}

pub open spec fn view_ids(s: Seq<Vec<char>>) -> Seq<Seq<char>> {
    Seq::new(s.len(), |i: int| s[i]@)
}

/// Some numbering of `base` from 0 to `issued.len()` is free.
proof fn lemma_some_free(base: Seq<char>, issued: Seq<Seq<char>>)
    ensures
        exists|m: int| 0 <= m <= issued.len() && !issued.contains(#[trigger] numbered(base, m)),
{
    let l = issued.len() as int;
    if forall|m: int| 0 <= m <= l ==> issued.contains(#[trigger] numbered(base, m)) {
        let x = vstd::set_lib::set_int_range(0, l + 1);
        let f = |n: int| numbered(base, n);
        vstd::set_lib::lemma_int_range(0, l + 1);
        assert(vstd::relations::injective_on(f, x)) by {
            assert forall|m: int, n: int| x.contains(m) && x.contains(n) && #[trigger] f(m) == #[trigger] f(n) implies m == n by {
                lemma_numbered_injective(base, m, n);
            }
        }
        let y = x.map(f);
        vstd::set_lib::lemma_map_size(x, y, f);
        let t = issued.to_set();
        assert(y.subset_of(t)) by {
            assert forall|z: Seq<char>| y.contains(z) implies t.contains(z) by {
                let m = choose|m: int| x.contains(m) && f(m) == z;
                assert(issued.contains(numbered(base, m)));
            }
        }
        issued.lemma_cardinality_of_set();
        vstd::set_lib::lemma_len_subset(y, t);
        assert(false);
    }
}

proof fn lemma_first_free(base: Seq<char>, issued: Seq<Seq<char>>, n: int, m: int)
    requires
        0 <= n <= m <= issued.len(),
        !issued.contains(numbered(base, m)),
    ensures
        n <= first_free(base, issued, n) <= m,
        !issued.contains(numbered(base, first_free(base, issued, n))),
    decreases m - n,
{
    if n < issued.len() && issued.contains(numbered(base, n)) {
        lemma_first_free(base, issued, n + 1, m);
    }
}

/// A fresh id is not among the ids already handed out.
pub proof fn lemma_fresh_id_is_fresh(base: Seq<char>, issued: Seq<Seq<char>>)
    ensures
        !issued.contains(fresh_id(base, issued)),
        0 <= first_free(base, issued, 0) <= issued.len(),
{
    lemma_some_free(base, issued);
    let m = choose|m: int| 0 <= m <= issued.len() && !issued.contains(#[trigger] numbered(base, m));
    lemma_first_free(base, issued, 0, m);
}

/// Law: headings get ids unique within their document: the ids handed out in
/// turn are pairwise distinct and none was already taken.
pub proof fn lemma_slug_ids_distinct(texts: Seq<Seq<char>>, issued: Seq<Seq<char>>)
    ensures
        slug_ids(texts, issued).len() == texts.len(),
        forall|a: int| 0 <= a < texts.len() ==> !issued.contains(#[trigger] slug_ids(texts, issued)[a]),
        forall|a: int, b: int|
            0 <= a < b < texts.len() ==> #[trigger] slug_ids(texts, issued)[a] != #[trigger] slug_ids(texts, issued)[b],
    decreases texts.len(),
{
    if texts.len() > 0 {
        let id = fresh_id(slugify_spec(texts[0]), issued);
        let i2 = issued.push(id);
        lemma_fresh_id_is_fresh(slugify_spec(texts[0]), issued);
        lemma_slug_ids_distinct(texts.drop_first(), i2);
        let ids = slug_ids(texts, issued);
        let rest = slug_ids(texts.drop_first(), i2);
        assert(ids == seq![id] + rest);
        assert forall|a: int| 0 <= a < texts.len() implies !issued.contains(#[trigger] ids[a]) by {
            if a > 0 {
                assert(ids[a] == rest[a - 1]);
                if issued.contains(ids[a]) {
                    let k = choose|k: int| 0 <= k < issued.len() && issued[k] == ids[a];
                    assert(i2[k] == ids[a]);
                }
            }
        }
        assert forall|a: int, b: int| 0 <= a < b < texts.len() implies #[trigger] ids[a] != #[trigger] ids[b] by {
            assert(ids[b] == rest[b - 1]);
            if a > 0 {
                assert(ids[a] == rest[a - 1]);
            } else {
                assert(i2[issued.len() as int] == id);
            }
        }
    }
}

/// Whether any id in `seen` equals `id`.
fn ids_contain(seen: &Vec<Vec<char>>, id: &Vec<char>) -> (r: bool)
    ensures
        r == view_ids(seen@).contains(id@),
{
    let mut i: usize = 0;
    while i < seen.len()
        invariant
            i <= seen.len(),
            forall|j: int| 0 <= j < i ==> seen@[j]@ != id@,
        decreases seen.len() - i,
    {
        if chars_eq(&seen[i], id) {
            assert(view_ids(seen@)[i as int] == id@);
            return true;
        }
        i = i + 1;
    }
    assert forall|j: int| 0 <= j < view_ids(seen@).len() implies view_ids(seen@)[j] != id@ by {
        assert(view_ids(seen@)[j] == seen@[j]@);
    }
    false
}

/// `base` numbered `n`.
fn numbered_exec(base: &Vec<char>, n: usize) -> (r: Vec<char>)
    ensures
        r@ == numbered(base@, n as int),
{
    let mut id = base.clone();
    proof {
        assert(id@ =~= base@);
        reveal_strlit("-");
    }
    if n != 0 {
        push_str(&mut id, "-");
        let d = nat_to_chars(n as u64);
        push_chars(&mut id, &d);
    }
    id
}

/// Slugify, then disambiguate against the ids already handed out in this
/// document (`seen`, to which the new id is added): a slug already taken gets
/// the smallest free number, `-1`, `-2`, and so on.
pub fn unique_slug(text: &Vec<char>, seen: &mut Vec<Vec<char>>) -> (r: Vec<char>)
    ensures
        r@ == fresh_id(slugify_spec(text@), view_ids(old(seen)@)),
        !view_ids(old(seen)@).contains(r@),
        view_ids(final(seen)@) == view_ids(old(seen)@).push(r@),
        view_ids(old(seen)@).no_duplicates() ==> view_ids(final(seen)@).no_duplicates(),
{
    let base = slugify(text);
    let ghost issued = view_ids(seen@);
    proof {
        lemma_some_free(base@, issued);
    }
    let ghost m = choose|m: int| 0 <= m <= issued.len() && !issued.contains(#[trigger] numbered(base@, m));
    let mut n: usize = 0;
    let mut id = numbered_exec(&base, 0);
    while ids_contain(seen, &id)
        invariant
            seen@ == old(seen)@,
            issued == view_ids(seen@),
            0 <= n <= m <= issued.len(),
            !issued.contains(numbered(base@, m)),
            id@ == numbered(base@, n as int),
            first_free(base@, issued, 0) == first_free(base@, issued, n as int),
        decreases m - n,
    {
        assert(issued.len() == seen@.len());
        assert(seen@.len() == seen.len());
        assert(n < issued.len());
        n = n + 1;
        id = numbered_exec(&base, n);
    }
    proof {
        lemma_fresh_id_is_fresh(base@, issued);
    }
    let r = id.clone();
    proof {
        assert(r@ =~= id@);
    }
    seen.push(id);
    assert(view_ids(seen@) =~= issued.push(r@));
    proof {
        if issued.no_duplicates() {
            let f = issued.push(r@);
            assert forall|a: int, b: int| 0 <= a < f.len() && 0 <= b < f.len() && a != b implies f[a] != f[b] by {
                if a < issued.len() && b < issued.len() {
                    assert(f[a] == issued[a] && f[b] == issued[b]);
                } else if a < issued.len() {
                    assert(f[a] == issued[a]);
                    assert(issued.contains(f[a]));
                } else {
                    assert(f[b] == issued[b]);
                    assert(issued.contains(f[b]));
                }
            }
        }
    }
    r
}


// ---- parsed markdown events ----

/// The part of a parsed markdown event that the table of contents reads.
pub enum MdEvent {
    /// The start of a heading, with its level (1 to 6).
    HeadingStart(u32),
    HeadingEnd,
    Text(String),
    Code(String),
    Other,
}

pub enum VMdEvent {
    HeadingStart(int),
    HeadingEnd,
    Text(Seq<char>),
    Code(Seq<char>),
    Other,
}

pub open spec fn view_md_events(s: Seq<MdEvent>) -> Seq<VMdEvent> {
    Seq::new(
        s.len(),
        |i: int|
            match s[i] {
                MdEvent::HeadingStart(l) => VMdEvent::HeadingStart(l as int),
                MdEvent::HeadingEnd => VMdEvent::HeadingEnd,
                MdEvent::Text(t) => VMdEvent::Text(t@),
                MdEvent::Code(t) => VMdEvent::Code(t@),
                MdEvent::Other => VMdEvent::Other,
            },
    )
}

/// The events pulldown-cmark's `Parser::new_ext` yields for a markdown body
/// (strikethrough, tables and footnotes enabled), as the table of contents sees them.
pub uninterp spec fn markdown_events(body: Seq<char>) -> Seq<VMdEvent>;

/// The HTML pulldown-cmark's `html::push_html` writes for the events of a
/// markdown body (strikethrough, tables and footnotes enabled) when event `k`,
/// a heading start, carries the id `ids[k]` (none where `ids[k]` is `None`).
pub uninterp spec fn markdown_html(body: Seq<char>, ids: Seq<Option<Seq<char>>>) -> Seq<char>;

/// pulldown-cmark's parser event, carried through opaquely.
#[verifier::external_type_specification]
#[verifier::external_body]
pub struct ExMdEvent<'a>(Event<'a>);

/// The events pulldown-cmark parsed from a markdown body, owned.
pub struct MdEvents {
    events: Vec<Event<'static>>,
}

/// The body a list of events was parsed from.
pub uninterp spec fn md_source(e: MdEvents) -> Seq<char>;

/// The id each event of a list carries: `None` for all but the heading starts
/// that were given one.
pub uninterp spec fn md_event_ids(e: MdEvents) -> Seq<Option<Seq<char>>>;

/// Parses a markdown body with pulldown-cmark's `Parser::new_ext` (strikethrough,
/// tables and footnotes enabled) and keeps the events. Without the heading
/// attributes option no heading carries an id.
#[verifier::external_body]
pub(crate) fn md_parse(body: &str) -> (r: MdEvents)
    ensures
        md_source(r) == body@,
        md_event_ids(r) == Seq::new(markdown_events(body@).len(), |k: int| None::<Seq<char>>),
{
    let opts = Options::ENABLE_STRIKETHROUGH | Options::ENABLE_TABLES | Options::ENABLE_FOOTNOTES;
    MdEvents { events: pulldown_cmark::Parser::new_ext(body, opts).map(|e| e.into_static()).collect() }
}

/// Converts each event, one for one, to the part the table of contents reads.
/// Setting heading ids changes none of these parts.
#[verifier::external_body]
pub(crate) fn md_kinds(e: &MdEvents) -> (r: Vec<MdEvent>)
    ensures
        view_md_events(r@) == markdown_events(md_source(*e)),
        md_event_ids(*e).len() == r@.len(),
{
    e.events.iter().map(|ev| match ev {
        Event::Start(Tag::Heading { level, .. }) => MdEvent::HeadingStart(*level as u32),
        Event::End(TagEnd::Heading(_)) => MdEvent::HeadingEnd,
        Event::Text(t) => MdEvent::Text(t.to_string()),
        Event::Code(t) => MdEvent::Code(t.to_string()),
        _ => MdEvent::Other,
    }).collect()
}

/// Sets the `id` field of event `i`, a heading start.
#[verifier::external_body]
pub(crate) fn set_heading_id(e: &mut MdEvents, i: usize, id: String)
    requires
        i < md_event_ids(*old(e)).len(),
        markdown_events(md_source(*old(e)))[i as int] is HeadingStart,
    ensures
        md_source(*final(e)) == md_source(*old(e)),
        md_event_ids(*final(e)) == md_event_ids(*old(e)).update(i as int, Some(id@)),
{
    if let Event::Start(Tag::Heading { id: hid, .. }) = &mut e.events[i] {
        *hid = Some(id.into());
    }
}

/// Writes the events as HTML with pulldown-cmark's `html::push_html`.
#[verifier::external_body]
pub(crate) fn md_render(e: MdEvents) -> (r: String)
    ensures
        r@ == markdown_html(md_source(e), md_event_ids(e)),
{
    let mut out = String::new();
    pulldown_cmark::html::push_html(&mut out, e.events.into_iter());
    out
}

// ---- table of contents ----

/// The visible label of a heading whose content starts at event `j`: the text
/// and inline code up to the heading's end.
pub open spec fn heading_text(ev: Seq<VMdEvent>, j: int) -> Seq<char>
    decreases ev.len() - j,
{
    if j < 0 || j >= ev.len() {
        Seq::empty()
    } else {
        match ev[j] {
            VMdEvent::HeadingEnd => Seq::empty(),
            VMdEvent::Text(t) => t + heading_text(ev, j + 1),
            VMdEvent::Code(t) => t + heading_text(ev, j + 1),
            _ => heading_text(ev, j + 1),
        }
    }
}

/// The index of the heading end at or after `j` (or the end of the events).
pub open spec fn heading_end(ev: Seq<VMdEvent>, j: int) -> int
    decreases ev.len() - j,
{
    if j < 0 || j >= ev.len() {
        ev.len() as int
    } else {
        match ev[j] {
            VMdEvent::HeadingEnd => j,
            _ => heading_end(ev, j + 1),
        }
    }
}

/// The table of contents from event `i` on: (level, text, id) for each
/// heading, in order, each id slugged from the text and made unique against
/// the ids `seen` before it.
pub open spec fn toc_from(ev: Seq<VMdEvent>, i: int, seen: Seq<Seq<char>>) -> Seq<(int, Seq<char>, Seq<char>)>
    decreases ev.len() - i,
{
    if i < 0 || i >= ev.len() {
        Seq::empty()
    } else {
        match ev[i] {
            VMdEvent::HeadingStart(l) => {
                let text = heading_text(ev, i + 1);
                let base = slugify_spec(text);
                let id = fresh_id(base, seen);
                let j = heading_end(ev, i + 1);
                if i < j + 1 < ev.len() {
                    seq![(l, text, id)] + toc_from(ev, j + 1, seen.push(id))
                } else {
                    seq![(l, text, id)]
                }
            },
            _ => toc_from(ev, i + 1, seen),
        }
    }
}

/// The table of contents of a list of events.
pub open spec fn toc(ev: Seq<VMdEvent>) -> Seq<(int, Seq<char>, Seq<char>)> {
    toc_from(ev, 0, Seq::empty())
}

/// A table-of-contents entry as a value: a dictionary with `level`, `text` and `id`.
pub open spec fn toc_entry(e: (int, Seq<char>, Seq<char>)) -> VValue {
    VValue::Dict(seq![("level"@, VValue::Number(e.0)), ("text"@, VValue::Str(e.1)), ("id"@, VValue::Str(e.2))])
}

proof fn lemma_heading_end(ev: Seq<VMdEvent>, j: int)
    requires
        0 <= j,
    ensures
        j <= heading_end(ev, j) <= ev.len() || (j > ev.len() && heading_end(ev, j) == ev.len()),
    decreases ev.len() - j,
{
    if j < ev.len() {
        match ev[j] {
            VMdEvent::HeadingEnd => {},
            _ => lemma_heading_end(ev, j + 1),
        }
    }
}

/// Walks the events of a heading starting at `j`, gathering its label.
fn heading_label(ev: &Vec<MdEvent>, j: usize) -> (r: (Vec<char>, usize))
    ensures
        r.0@ == heading_text(view_md_events(ev@), j as int),
        r.1 as int == heading_end(view_md_events(ev@), j as int) || (j > ev.len() && r.1 == j),
        r.1 >= j,
{
    let ghost v = view_md_events(ev@);
    let mut text: Vec<char> = Vec::new();
    let mut k = j;
    while k < ev.len()
        invariant
            j <= k,
            k <= ev.len() || k == j,
            heading_text(v, j as int) == text@ + heading_text(v, k as int),
            heading_end(v, j as int) == heading_end(v, k as int),
            v == view_md_events(ev@),
        decreases ev.len() - k,
    {
        match &ev[k] {
            MdEvent::HeadingEnd => {
                assert(text@ + Seq::<char>::empty() =~= text@);
                return (text, k);
            },
            MdEvent::Text(t) => {
                let cs = chars_of(t.as_str());
                push_chars(&mut text, &cs);
                assert(heading_text(v, j as int) =~= text@ + heading_text(v, k + 1));
            },
            MdEvent::Code(t) => {
                let cs = chars_of(t.as_str());
                push_chars(&mut text, &cs);
                assert(heading_text(v, j as int) =~= text@ + heading_text(v, k + 1));
            },
            _ => {},
        }
        k = k + 1;
    }
    assert(text@ + Seq::<char>::empty() =~= text@);
    (text, k)
}

fn toc_entry_value(level: u32, text: Vec<char>, id: Vec<char>) -> (r: Value)
    ensures
        r@ == toc_entry((level as int, text@, id@)),
{
    let mut m: Vec<(String, Value)> = Vec::new();
    m.push((owned("level"), Value::Number(level as i64)));
    m.push((owned("text"), Value::Str(string_from_chars(&text))));
    m.push((owned("id"), Value::Str(string_from_chars(&id))));
    proof {
        lemma_view_entries(m@);
        assert(view_entries(m@) =~= seq![
            ("level"@, VValue::Number(level as int)),
            ("text"@, VValue::Str(text@)),
            ("id"@, VValue::Str(id@)),
        ]);
    }
    Value::Dict(m)
}

/// The positions of the headings the table of contents lists, from event `i`
/// on, in order (the same scan as `toc_from`).
pub open spec fn toc_pos_from(ev: Seq<VMdEvent>, i: int) -> Seq<int>
    decreases ev.len() - i,
{
    if i < 0 || i >= ev.len() {
        Seq::empty()
    } else {
        match ev[i] {
            VMdEvent::HeadingStart(l) => {
                let j = heading_end(ev, i + 1);
                if i < j + 1 < ev.len() {
                    seq![i] + toc_pos_from(ev, j + 1)
                } else {
                    seq![i]
                }
            },
            _ => toc_pos_from(ev, i + 1),
        }
    }
}

/// `base` with event `ps[a]` given the id `ids[a]`, for each `a < n` in turn.
pub open spec fn overlay_ids(base: Seq<Option<Seq<char>>>, ps: Seq<int>, ids: Seq<Seq<char>>, n: int) -> Seq<
    Option<Seq<char>>,
>
    decreases n,
{
    if n <= 0 {
        base
    } else {
        overlay_ids(base, ps, ids, n - 1).update(ps[n - 1], Some(ids[n - 1]))
    }
}

/// The ids of a document's events once each listed heading carries its table
/// of contents id: the `a`-th listed heading gets the `a`-th id.
pub open spec fn heading_ids_over(base: Seq<Option<Seq<char>>>, ev: Seq<VMdEvent>) -> Seq<Option<Seq<char>>> {
    overlay_ids(
        base,
        toc_pos_from(ev, 0),
        toc(ev).map_values(|e: (int, Seq<char>, Seq<char>)| e.2),
        toc(ev).len() as int,
    )
}

/// The ids of a freshly parsed document's events once its headings carry their ids.
pub open spec fn heading_ids(ev: Seq<VMdEvent>) -> Seq<Option<Seq<char>>> {
    heading_ids_over(Seq::new(ev.len(), |k: int| None::<Seq<char>>), ev)
}

proof fn lemma_toc_pos(ev: Seq<VMdEvent>, i: int, seen: Seq<Seq<char>>)
    requires
        0 <= i,
    ensures
        toc_pos_from(ev, i).len() == toc_from(ev, i, seen).len(),
        forall|a: int|
            0 <= a < toc_pos_from(ev, i).len() ==> i <= #[trigger] toc_pos_from(ev, i)[a] < ev.len()
                && ev[toc_pos_from(ev, i)[a]] is HeadingStart,
        forall|a: int, b: int|
            0 <= a < b < toc_pos_from(ev, i).len() ==> #[trigger] toc_pos_from(ev, i)[a] < #[trigger] toc_pos_from(
                ev,
                i,
            )[b],
    decreases ev.len() - i,
{
    if i < ev.len() {
        match ev[i] {
            VMdEvent::HeadingStart(l) => {
                let j = heading_end(ev, i + 1);
                let id = fresh_id(slugify_spec(heading_text(ev, i + 1)), seen);
                lemma_heading_end(ev, i + 1);
                if i < j + 1 < ev.len() {
                    lemma_toc_pos(ev, j + 1, seen.push(id));
                    let ps = toc_pos_from(ev, i);
                    let rest = toc_pos_from(ev, j + 1);
                    assert(ps == seq![i] + rest);
                    assert forall|a: int| 0 <= a < ps.len() implies i <= #[trigger] ps[a] < ev.len()
                        && ev[ps[a]] is HeadingStart by {
                        if a > 0 {
                            assert(ps[a] == rest[a - 1]);
                        }
                    }
                    assert forall|a: int, b: int| 0 <= a < b < ps.len() implies #[trigger] ps[a] < #[trigger] ps[b] by {
                        assert(ps[b] == rest[b - 1]);
                        if a > 0 {
                            assert(ps[a] == rest[a - 1]);
                        }
                    }
                } else {
                    assert(toc_pos_from(ev, i) == seq![i]);
                }
            },
            _ => {
                lemma_toc_pos(ev, i + 1, seen);
                assert(toc_pos_from(ev, i) == toc_pos_from(ev, i + 1));
            },
        }
    } else {
        assert(toc_pos_from(ev, i).len() == 0);
    }
}

/// Law: in the body's HTML, each heading the table of contents lists carries
/// that entry's id as its anchor (and no other event gets an id).
pub proof fn lemma_anchors_match_toc(ev: Seq<VMdEvent>)
    ensures
        heading_ids(ev).len() == ev.len(),
        forall|a: int|
            0 <= a < toc(ev).len() ==> heading_ids(ev)[#[trigger] toc_pos_from(ev, 0)[a]] == Some(toc(ev)[a].2),
        forall|k: int|
            0 <= k < ev.len() && !toc_pos_from(ev, 0).contains(k) ==> #[trigger] heading_ids(ev)[k] is None,
{
    lemma_toc_pos(ev, 0, Seq::empty());
    let ps = toc_pos_from(ev, 0);
    let ids = toc(ev).map_values(|e: (int, Seq<char>, Seq<char>)| e.2);
    let base = Seq::new(ev.len(), |k: int| None::<Seq<char>>);
    lemma_overlay(base, ps, ids, toc(ev).len() as int);
}

proof fn lemma_overlay(base: Seq<Option<Seq<char>>>, ps: Seq<int>, ids: Seq<Seq<char>>, n: int)
    requires
        0 <= n <= ps.len(),
        n <= ids.len(),
        forall|a: int| 0 <= a < ps.len() ==> 0 <= #[trigger] ps[a] < base.len(),
        forall|a: int, b: int| 0 <= a < b < ps.len() ==> #[trigger] ps[a] < #[trigger] ps[b],
    ensures
        overlay_ids(base, ps, ids, n).len() == base.len(),
        forall|a: int| 0 <= a < n ==> overlay_ids(base, ps, ids, n)[#[trigger] ps[a]] == Some(ids[a]),
        forall|k: int|
            0 <= k < base.len() && (forall|a: int| 0 <= a < n ==> ps[a] != k) ==> #[trigger] overlay_ids(
                base,
                ps,
                ids,
                n,
            )[k] == base[k],
    decreases n,
{
    if n > 0 {
        lemma_overlay(base, ps, ids, n - 1);
        let o = overlay_ids(base, ps, ids, n - 1);
        assert forall|a: int| 0 <= a < n implies overlay_ids(base, ps, ids, n)[#[trigger] ps[a]] == Some(ids[a]) by {
            if a < n - 1 {
                assert(ps[a] < ps[n - 1]);
            }
        }
        assert forall|k: int|
            0 <= k < base.len() && (forall|a: int| 0 <= a < n ==> ps[a] != k) implies #[trigger] overlay_ids(
            base,
            ps,
            ids,
            n,
        )[k] == base[k] by {
            assert(ps[n - 1] != k);
        }
    }
}

/// Walk the events, give every heading the table of contents lists a slug id
/// (numbered when its slug is taken), setting it on the heading's event so the
/// HTML carries it, and return the table of contents as values.
#[verifier::loop_isolation(false)]
pub fn extract_headings(events: &mut MdEvents) -> (r: Vec<Value>)
    ensures
        md_source(*final(events)) == md_source(*old(events)),
        view_values(r@) == toc(markdown_events(md_source(*old(events)))).map_values(
            |e: (int, Seq<char>, Seq<char>)| toc_entry(e),
        ),
        md_event_ids(*final(events)) == heading_ids_over(
            md_event_ids(*old(events)),
            markdown_events(md_source(*old(events))),
        ),
{
    let ev = md_kinds(events);
    let ghost v = view_md_events(ev@);
    let ghost src = md_source(*events);
    let ghost base = md_event_ids(*events);
    let ghost ps = toc_pos_from(v, 0);
    let ghost tids = toc(v).map_values(|e: (int, Seq<char>, Seq<char>)| e.2);
    proof {
        lemma_toc_pos(v, 0, Seq::empty());
    }
    let mut entries: Vec<Value> = Vec::new();
    let mut seen: Vec<Vec<char>> = Vec::new();
    let mut i: usize = 0;
    let ghost mut done: Seq<(int, Seq<char>, Seq<char>)> = Seq::empty();
    assert(view_ids(seen@) =~= Seq::<Seq<char>>::empty());
    assert(ps == Seq::<int>::empty() + toc_pos_from(v, 0));
    while i < ev.len()
        invariant
            v == view_md_events(ev@),
            v == markdown_events(src),
            md_source(*events) == src,
            md_event_ids(*events).len() == v.len(),
            toc(v) == done + toc_from(v, i as int, view_ids(seen@)),
            ps == ps.take(done.len() as int) + toc_pos_from(v, i as int),
            done.len() <= ps.len(),
            md_event_ids(*events) == overlay_ids(base, ps, tids, done.len() as int),
            view_values(entries@) == done.map_values(|e: (int, Seq<char>, Seq<char>)| toc_entry(e)),
        decreases ev.len() - i,
    {
        match &ev[i] {
            MdEvent::HeadingStart(level) => {
                let level = *level;
                let (text, end) = heading_label(&ev, i + 1);
                proof {
                    lemma_heading_end(v, i + 1);
                }
                let ghost seen_before = view_ids(seen@);
                let ghost n = done.len() as int;
                let id = unique_slug(&text, &mut seen);
                let entry = toc_entry_value(level, text.clone(), id.clone());
                proof {
                    lemma_view_values_push(entries@, entry);
                    assert(text@ =~= text@);
                }
                entries.push(entry);
                let ghost e = (level as int, text@, id@);
                proof {
                    assert(done.push(e).map_values(|e: (int, Seq<char>, Seq<char>)| toc_entry(e))
                        =~= done.map_values(|e: (int, Seq<char>, Seq<char>)| toc_entry(e)).push(toc_entry(e)));
                    assert(toc_from(v, i as int, seen_before) == seq![e] + toc_from(v, end + 1, view_ids(seen@)));
                    assert(done + toc_from(v, i as int, seen_before) =~= done.push(e) + toc_from(v, end + 1, view_ids(seen@)));
                    assert(toc(v)[n] == e);
                    assert(tids[n] == id@);
                    if end + 1 < ev.len() {
                        assert(toc_pos_from(v, i as int) == seq![i as int] + toc_pos_from(v, end + 1));
                    } else {
                        assert(toc_pos_from(v, i as int) == seq![i as int]);
                    }
                    assert(ps[n] == i);
                }
                set_heading_id(events, i, string_from_chars(&id));
                proof {
                    assert(md_event_ids(*events) == overlay_ids(base, ps, tids, n + 1));
                    done = done.push(e);
                }
                if end >= ev.len() {
                    proof {
                        assert(toc_from(v, end + 1, view_ids(seen@)) =~= Seq::<(int, Seq<char>, Seq<char>)>::empty());
                        assert(done + Seq::<(int, Seq<char>, Seq<char>)>::empty() =~= done);
                        assert(ps =~= ps.take(done.len() as int));
                    }
                    i = ev.len();
                    proof {
                        assert(toc_from(v, i as int, view_ids(seen@)) =~= Seq::<(int, Seq<char>, Seq<char>)>::empty());
                        assert(ps =~= ps.take(done.len() as int) + toc_pos_from(v, i as int));
                    }
                } else {
                    proof {
                        assert(ps =~= ps.take(done.len() as int) + toc_pos_from(v, end + 1));
                    }
                    i = end + 1;
                }
            },
            _ => {
                proof {
                    assert(toc_pos_from(v, i as int) == toc_pos_from(v, i + 1));
                }
                i = i + 1;
            },
        }
    }
    proof {
        assert(toc_from(v, i as int, view_ids(seen@)) =~= Seq::<(int, Seq<char>, Seq<char>)>::empty());
        assert(done + Seq::<(int, Seq<char>, Seq<char>)>::empty() =~= done);
        assert(done.len() == toc(v).len());
    }
    entries
}


// ---- frontmatter ----

/// The number of leading whitespace characters of `s`.
pub open spec fn lead_ws(s: Seq<char>) -> int
    decreases s.len(),
{
    if s.len() == 0 || !unicode_whitespace(s[0]) {
        0
    } else {
        1 + lead_ws(s.drop_first())
    }
}

/// Split a `---`-delimited YAML frontmatter block from the markdown body: after
/// leading whitespace, a `---`, the frontmatter up to the next line that starts
/// with `---`, and the body after that marker with its leading newlines
/// dropped. Without both markers there is no frontmatter and the body is the
/// whole text.
pub open spec fn split_frontmatter_spec(raw: Seq<char>) -> (Option<Seq<char>>, Seq<char>) {
    let t = raw.skip(lead_ws(raw));
    if starts_with(t, "---"@) {
        let rest = t.skip(3);
        let e = find_from(rest, "\n---"@, 0);
        if e >= 0 {
            let after = rest.skip(e + 4);
            (Some(rest.take(e)), after.skip(lead_count(after, '\n')))
        } else {
            (None, raw)
        }
    } else {
        (None, raw)
    }
}

proof fn lemma_lead_ws(s: Seq<char>, i: int)
    requires
        0 <= i <= s.len(),
        forall|j: int| 0 <= j < i ==> unicode_whitespace(#[trigger] s[j]),
        i == s.len() || !unicode_whitespace(s[i]),
    ensures
        lead_ws(s) == i,
    decreases i,
{
    if i > 0 {
        lemma_lead_ws(s.drop_first(), i - 1);
    }
}

/// Split a frontmatter block from a markdown file's text.
pub fn split_frontmatter(raw: &str) -> (r: (Option<String>, String))
    ensures
        opt_string_view(r.0) == split_frontmatter_spec(raw@).0,
        r.1@ == split_frontmatter_spec(raw@).1,
{
    let cs = chars_of(raw);
    let mut a: usize = 0;
    while a < cs.len() && char_is_whitespace(cs[a])
        invariant
            a <= cs.len(),
            forall|j: int| 0 <= j < a ==> unicode_whitespace(#[trigger] cs@[j]),
        decreases cs.len() - a,
    {
        a = a + 1;
    }
    proof {
        lemma_lead_ws(cs@, a as int);
    }
    let t = chars_slice(&cs, a, cs.len());
    assert(t@ =~= cs@.skip(a as int));
    let dashes = chars_of("---");
    if !chars_occur_at(&t, &dashes, 0) {
        return (None, owned(raw));
    }
    proof {
        reveal_strlit("---");
    }
    let rest = chars_slice(&t, 3, t.len());
    assert(rest@ =~= t@.skip(3));
    let marker = chars_of("\n---");
    match chars_find_from(&rest, &marker, 0) {
        None => (None, owned(raw)),
        Some(e) => {
            proof {
                reveal_strlit("\n---");
                crate::text::lemma_find_from(rest@, marker@, 0);
            }
            let fm = chars_slice(&rest, 0, e);
            let after = chars_slice(&rest, e + 4, rest.len());
            assert(after@ =~= rest@.skip(e + 4));
            let mut b: usize = 0;
            while b < after.len() && after[b] == '\n'
                invariant
                    b <= after.len(),
                    forall|j: int| 0 <= j < b ==> after@[j] == '\n',
                decreases after.len() - b,
            {
                b = b + 1;
            }
            proof {
                lemma_lead_count(after@, '\n', b as int);
            }
            let body = chars_slice(&after, b, after.len());
            assert(body@ =~= after@.skip(b as int));
            assert(fm@ =~= rest@.take(e as int));
            (Some(string_from_chars(&fm)), string_from_chars(&body))
        },
    }
}

pub open spec fn opt_string_view(o: Option<String>) -> Option<Seq<char>> {
    match o {
        Some(s) => Some(s@),
        None => None,
    }
}

// ---- slugs of paths ----

/// The last `/`-separated segment of a path.
pub open spec fn file_name(p: Seq<char>) -> Seq<char> {
    p.skip(last_index_of(p, '/') + 1)
}

/// The index of the last `c` in `s`, or -1.
pub open spec fn last_index_of(s: Seq<char>, c: char) -> int
    decreases s.len(),
{
    if s.len() == 0 {
        -1
    } else if s.last() == c {
        s.len() - 1
    } else {
        last_index_of(s.drop_last(), c)
    }
}

/// A file's stem: its name without the final `.extension`, unless the only dot
/// leads the name (`.hidden` is its own stem).
pub open spec fn file_stem(p: Seq<char>) -> Seq<char> {
    let name = file_name(p);
    if name == ".."@ {
        Seq::empty()
    } else if last_index_of(name, '.') > 0 {
        name.take(last_index_of(name, '.'))
    } else {
        name
    }
}

proof fn lemma_last_index_of(s: Seq<char>, c: char)
    ensures
        -1 <= last_index_of(s, c) < s.len(),
        last_index_of(s, c) >= 0 ==> s[last_index_of(s, c)] == c,
        forall|j: int| last_index_of(s, c) < j < s.len() ==> s[j] != c,
    decreases s.len(),
{
    if s.len() > 0 {
        lemma_last_index_of(s.drop_last(), c);
        assert forall|j: int| last_index_of(s, c) < j < s.len() implies s[j] != c by {
            if j < s.len() - 1 {
                assert(s[j] == s.drop_last()[j]);
            }
        }
    }
}

/// The index of the last `c` in `s`.
pub fn chars_last_index(s: &Vec<char>, c: char) -> (r: Option<usize>)
    ensures
        match r {
            Some(i) => i as int == last_index_of(s@, c),
            None => last_index_of(s@, c) == -1,
        },
{
    proof {
        lemma_last_index_take(s@, c);
    }
    let mut i = s.len();
    while i > 0
        invariant
            i <= s.len(),
            last_index_of(s@, c) == last_index_of(s@.take(i as int), c),
        decreases i,
    {
        if s[i - 1] == c {
            return Some(i - 1);
        }
        assert(s@.take(i as int).drop_last() =~= s@.take(i - 1));
        i = i - 1;
    }
    None
}

proof fn lemma_last_index_take(s: Seq<char>, c: char)
    ensures
        last_index_of(s, c) == last_index_of(s.take(s.len() as int), c),
{
    assert(s.take(s.len() as int) =~= s);
}

/// The slug of a content path: its file stem.
pub fn slug_of(rel: &str) -> (r: String)
    ensures
        r@ == file_stem(rel@),
{
    let cs = chars_of(rel);
    proof {
        lemma_last_index_take(cs@, '/');
        lemma_last_index_of(cs@, '/');
    }
    let start = match chars_last_index(&cs, '/') {
        Some(i) => i + 1,
        None => 0,
    };
    let name = chars_slice(&cs, start, cs.len());
    assert(name@ =~= file_name(cs@));
    let dots = chars_of("..");
    if chars_eq(&name, &dots) {
        proof {
            reveal_strlit("");
        }
        return owned("");
    }
    proof {
        lemma_last_index_take(name@, '.');
        lemma_last_index_of(name@, '.');
    }
    match chars_last_index(&name, '.') {
        Some(d) if d > 0 => {
            let stem = chars_slice(&name, 0, d);
            assert(stem@ =~= name@.take(d as int));
            string_from_chars(&stem)
        },
        _ => string_from_chars(&name),
    }
}


pub proof fn lemma_last_index_of_pub(s: Seq<char>, c: char)
    ensures
        -1 <= last_index_of(s, c) < s.len(),
        last_index_of(s, c) >= 0 ==> s[last_index_of(s, c)] == c,
{
    lemma_last_index_of(s, c);
}

// ---- distinct ids ----

proof fn lemma_nat_text_nonempty(n: nat)
    ensures
        nat_text(n).len() >= 1,
        n >= 10 ==> nat_text(n).len() >= 2,
    decreases n,
{
    if n >= 10 {
        lemma_nat_text_nonempty(n / 10);
    }
}

proof fn lemma_digit_char(d: int)
    requires
        0 <= d < 10,
    ensures
        digit_char(d) as int == 48 + d,
{
    assert((48 + d) as u8 == 48 + d);
}

proof fn lemma_nat_text_injective(a: nat, b: nat)
    requires
        nat_text(a) == nat_text(b),
    ensures
        a == b,
    decreases a,
{
    lemma_nat_text_nonempty(a);
    lemma_nat_text_nonempty(b);
    if a < 10 && b < 10 {
        assert(nat_text(a) == seq![digit_char(a as int)]);
        assert(nat_text(b) == seq![digit_char(b as int)]);
        assert(digit_char(a as int) == nat_text(a)[0]);
        assert(digit_char(b as int) == nat_text(b)[0]);
        lemma_digit_char(a as int);
        lemma_digit_char(b as int);
        assert(digit_char(a as int) as int == digit_char(b as int) as int);
    } else if a >= 10 && b >= 10 {
        let qa = a / 10;
        let qb = b / 10;
        let ra = (a % 10) as int;
        let rb = (b % 10) as int;
        assert(nat_text(a) == nat_text(qa).push(digit_char(ra)));
        assert(nat_text(b) == nat_text(qb).push(digit_char(rb)));
        assert(nat_text(a).drop_last() =~= nat_text(qa));
        assert(nat_text(b).drop_last() =~= nat_text(qb));
        lemma_nat_text_injective(qa, qb);
        assert(nat_text(a).last() == digit_char(ra));
        assert(nat_text(b).last() == digit_char(rb));
        lemma_digit_char(ra);
        lemma_digit_char(rb);
        assert(ra == rb);
        assert(a == 10 * qa + ra) by (nonlinear_arith)
            requires
                qa == a / 10,
                ra == a % 10,
        ;
        assert(b == 10 * qb + rb) by (nonlinear_arith)
            requires
                qb == b / 10,
                rb == b % 10,
        ;
    } else {
        assert(nat_text(a).len() != nat_text(b).len());
    }
}

proof fn lemma_numbered_injective(base: Seq<char>, m: int, n: int)
    requires
        0 <= m,
        0 <= n,
        numbered(base, m) == numbered(base, n),
    ensures
        m == n,
{
    reveal_strlit("-");
    lemma_nat_text_nonempty(m as nat);
    lemma_nat_text_nonempty(n as nat);
    if m > 0 && n > 0 {
        assert(numbered(base, m).skip(base.len() + 1int) =~= nat_text(m as nat));
        assert(numbered(base, n).skip(base.len() + 1int) =~= nat_text(n as nat));
        lemma_nat_text_injective(m as nat, n as nat);
    } else if m > 0 || n > 0 {
        assert(numbered(base, m).len() != numbered(base, n).len());
    }
}

/// The ids of the table of contents from event `i` on are not in `seen` and
/// are pairwise distinct.
proof fn lemma_toc_ids(ev: Seq<VMdEvent>, i: int, seen: Seq<Seq<char>>)
    ensures
        ({
            let t = toc_from(ev, i, seen);
            &&& forall|a: int| 0 <= a < t.len() ==> !seen.contains(#[trigger] t[a].2)
            &&& forall|a: int, b: int| 0 <= a < b < t.len() ==> #[trigger] t[a].2 != #[trigger] t[b].2
        }),
    decreases ev.len() - i,
{
    if i < 0 || i >= ev.len() {
        assert(toc_from(ev, i, seen).len() == 0);
    } else {
        match ev[i] {
            VMdEvent::HeadingStart(l) => {
                let text = heading_text(ev, i + 1);
                let base = slugify_spec(text);
                let id = fresh_id(base, seen);
                let j = heading_end(ev, i + 1);
                lemma_fresh_id_is_fresh(base, seen);
                let t = toc_from(ev, i, seen);
                if i < j + 1 < ev.len() {
                    let s2 = seen.push(id);
                    lemma_toc_ids(ev, j + 1, s2);
                    let t2 = toc_from(ev, j + 1, s2);
                    assert(t == seq![(l, text, id)] + t2);
                    assert(t[0].2 == id);
                    assert forall|a: int| 0 <= a < t.len() implies !seen.contains(#[trigger] t[a].2) by {
                        if a > 0 {
                            assert(t[a] == t2[a - 1]);
                            if seen.contains(t[a].2) {
                                let k = choose|k: int| 0 <= k < seen.len() && seen[k] == t[a].2;
                                assert(s2[k] == t[a].2);
                            }
                        }
                    }
                    assert forall|a: int, b: int| 0 <= a < b < t.len() implies #[trigger] t[a].2 != #[trigger] t[b].2 by {
                        assert(t[b] == t2[b - 1]);
                        if a > 0 {
                            assert(t[a] == t2[a - 1]);
                        } else {
                            assert(s2[seen.len() as int] == id);
                        }
                    }
                } else {
                    assert(t == seq![(l, text, id)]);
                    assert(t[0].2 == id);
                }
            },
            _ => {
                lemma_toc_ids(ev, i + 1, seen);
                assert(toc_from(ev, i, seen) == toc_from(ev, i + 1, seen));
            },
        }
    }
}

/// Law: every heading id is unique within its document.
pub proof fn lemma_toc_ids_distinct(ev: Seq<VMdEvent>)
    ensures
        forall|a: int, b: int| 0 <= a < b < toc(ev).len() ==> #[trigger] toc(ev)[a].2 != #[trigger] toc(ev)[b].2,
{
    lemma_toc_ids(ev, 0, Seq::empty());
}

} // verus!

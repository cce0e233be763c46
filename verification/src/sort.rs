//! A stable insertion sort by character-sequence keys.

use vstd::prelude::*;
use crate::text::{seq_lt, chars_less, lemma_seq_lt_asym, lemma_seq_le_trans};

verus! {

/// Whether key `a` goes before key `b`: ascending, or descending when `desc`.
pub open spec fn goes_before(a: Seq<char>, b: Seq<char>, desc: bool) -> bool {
    if desc {
        seq_lt(b, a)
    } else {
        seq_lt(a, b)
    }
}

/// Inserts `x` into `s`, after every entry it does not go before.
pub open spec fn insert_sorted<T>(s: Seq<(Seq<char>, T)>, x: (Seq<char>, T), desc: bool) -> Seq<(Seq<char>, T)>
    decreases s.len(),
{
    if s.len() == 0 {
        seq![x]
    } else if goes_before(x.0, s.last().0, desc) {
        insert_sorted(s.drop_last(), x, desc).push(s.last())
    } else {
        s.push(x)
    }
}

/// `s` stably sorted by key: entries with equal keys keep their order.
pub open spec fn sort_keyed<T>(s: Seq<(Seq<char>, T)>, desc: bool) -> Seq<(Seq<char>, T)>
    decreases s.len(),
{
    if s.len() == 0 {
        Seq::empty()
    } else {
        insert_sorted(sort_keyed(s.drop_last(), desc), s.last(), desc)
    }
}

proof fn lemma_insert_at<T>(s: Seq<(Seq<char>, T)>, x: (Seq<char>, T), desc: bool, p: int)
    requires
        0 <= p <= s.len(),
        forall|j: int| p <= j < s.len() ==> goes_before(x.0, #[trigger] s[j].0, desc),
        p == 0 || !goes_before(x.0, s[p - 1].0, desc),
    ensures
        insert_sorted(s, x, desc) == s.take(p).push(x) + s.skip(p),
    decreases s.len(),
{
    if s.len() == 0 {
        assert(s.take(p).push(x) + s.skip(p) =~= seq![x]);
    } else if p == s.len() {
        assert(s.take(p).push(x) + s.skip(p) =~= s.push(x));
    } else {
        assert(goes_before(x.0, s.last().0, desc));
        lemma_insert_at(s.drop_last(), x, desc, p);
        assert(s.drop_last().take(p).push(x) + s.drop_last().skip(p) + seq![s.last()]
            =~= s.take(p).push(x) + s.skip(p));
    }
}

/// Whether key `a` goes before key `b`.
pub fn before(a: &Vec<char>, b: &Vec<char>, desc: bool) -> (r: bool)
    ensures
        r == goes_before(a@, b@, desc),
{
    if desc {
        chars_less(b, a)
    } else {
        chars_less(a, b)
    }
}

pub open spec fn keyed_view<T: View>(s: Seq<(Vec<char>, T)>) -> Seq<(Seq<char>, T::V)> {
    Seq::new(s.len(), |i: int| (s[i].0@, s[i].1@))
}

/// Stably sorts entries by key (ascending, or descending when `desc`).
pub fn sort_by_key<T: View>(v: Vec<(Vec<char>, T)>, desc: bool) -> (r: Vec<(Vec<char>, T)>)
    ensures
        keyed_view(r@) == sort_keyed(keyed_view(v@), desc),
{
    let ghost orig = keyed_view(v@);
    let mut rest = v;
    let mut out: Vec<(Vec<char>, T)> = Vec::new();
    let ghost mut k: int = 0;
    while rest.len() > 0
        invariant
            0 <= k <= orig.len(),
            keyed_view(rest@) == orig.skip(k),
            keyed_view(out@) == sort_keyed(orig.take(k), desc),
        decreases rest.len(),
    {
        assert(keyed_view(rest@).len() == rest@.len());
        assert(orig.skip(k).len() == orig.len() - k);
        let ghost rest_before = rest@;
        let x = rest.remove(0);
        assert(orig.take(k + 1).drop_last() =~= orig.take(k));
        assert(keyed_view(rest_before)[0] == orig[k]);
        assert((x.0@, x.1@) == orig[k]);
        let mut p = out.len();
        while p > 0 && before(&x.0, &out[p - 1].0, desc)
            invariant
                p <= out.len(),
                forall|j: int| p <= j < out.len() ==> goes_before(x.0@, #[trigger] keyed_view(out@)[j].0, desc),
            decreases p,
        {
            p = p - 1;
        }
        proof {
            lemma_insert_at(keyed_view(out@), (x.0@, x.1@), desc, p as int);
        }
        let ghost out_before = keyed_view(out@);
        out.insert(p, x);
        assert(keyed_view(out@) =~= out_before.take(p as int).push((x.0@, x.1@)) + out_before.skip(p as int));
        proof {
            k = k + 1;
        }
        assert forall|j: int| 0 <= j < rest@.len() implies keyed_view(rest@)[j] == orig.skip(k)[j] by {
            assert(rest@[j] == rest_before[j + 1]);
            assert(keyed_view(rest_before)[j + 1] == orig.skip(k - 1)[j + 1]);
        }
        assert(keyed_view(rest@) =~= orig.skip(k));
    }
    assert(orig.take(k) =~= orig);
    out
}

/// Inserting keeps exactly the entries there were, and the new one.
pub proof fn lemma_insert_sorted_members<T>(s: Seq<(Seq<char>, T)>, x: (Seq<char>, T), desc: bool)
    ensures
        forall|y: (Seq<char>, T)| #[trigger] insert_sorted(s, x, desc).contains(y) ==> s.contains(y) || y == x,
    decreases s.len(),
{
    if s.len() > 0 && goes_before(x.0, s.last().0, desc) {
        lemma_insert_sorted_members(s.drop_last(), x, desc);
        let t = insert_sorted(s.drop_last(), x, desc);
        assert forall|y: (Seq<char>, T)| #[trigger] t.push(s.last()).contains(y) implies s.contains(y) || y == x by {
            let j = choose|j: int| 0 <= j < t.push(s.last()).len() && t.push(s.last())[j] == y;
            if j < t.len() {
                assert(t.contains(y));
                if s.drop_last().contains(y) {
                    let k = choose|k: int| 0 <= k < s.drop_last().len() && s.drop_last()[k] == y;
                    assert(s[k] == y);
                }
            } else {
                assert(s[s.len() - 1] == y);
            }
        }
    } else if s.len() > 0 {
        assert forall|y: (Seq<char>, T)| #[trigger] s.push(x).contains(y) implies s.contains(y) || y == x by {
            let j = choose|j: int| 0 <= j < s.push(x).len() && s.push(x)[j] == y;
            if j < s.len() {
                assert(s[j] == y);
            }
        }
    } else {
        assert forall|y: (Seq<char>, T)| #[trigger] seq![x].contains(y) implies s.contains(y) || y == x by {
            let j = choose|j: int| 0 <= j < seq![x].len() && seq![x][j] == y;
        }
    }
}

/// Sorting keeps only entries that were there.
pub proof fn lemma_sort_keyed_members<T>(s: Seq<(Seq<char>, T)>, desc: bool)
    ensures
        forall|y: (Seq<char>, T)| #[trigger] sort_keyed(s, desc).contains(y) ==> s.contains(y),
    decreases s.len(),
{
    if s.len() > 0 {
        lemma_sort_keyed_members(s.drop_last(), desc);
        lemma_insert_sorted_members(sort_keyed(s.drop_last(), desc), s.last(), desc);
        assert forall|y: (Seq<char>, T)| #[trigger] sort_keyed(s, desc).contains(y) implies s.contains(y) by {
            if sort_keyed(s.drop_last(), desc).contains(y) {
                assert(s.drop_last().contains(y));
                let k = choose|k: int| 0 <= k < s.drop_last().len() && s.drop_last()[k] == y;
                assert(s[k] == y);
            } else {
                assert(y == s.last());
                assert(s[s.len() - 1] == y);
            }
        }
    }
}

/// Whether entries are in key order: no entry goes before an earlier one.
pub open spec fn sorted_by_key<T>(s: Seq<(Seq<char>, T)>, desc: bool) -> bool {
    forall|i: int, j: int| 0 <= i < j < s.len() ==> !goes_before(#[trigger] s[j].0, #[trigger] s[i].0, desc)
}

proof fn lemma_not_before_trans(a: Seq<char>, b: Seq<char>, c: Seq<char>, desc: bool)
    requires
        !goes_before(a, b, desc),
        !goes_before(b, c, desc),
    ensures
        !goes_before(a, c, desc),
{
    if desc {
        lemma_seq_le_trans(a, b, c);
    } else {
        lemma_seq_le_trans(c, b, a);
    }
}

proof fn lemma_insert_sorted_sorted<T>(s: Seq<(Seq<char>, T)>, x: (Seq<char>, T), desc: bool)
    requires
        sorted_by_key(s, desc),
    ensures
        sorted_by_key(insert_sorted(s, x, desc), desc),
    decreases s.len(),
{
    if s.len() == 0 {
    } else if goes_before(x.0, s.last().0, desc) {
        let d = s.drop_last();
        assert(sorted_by_key(d, desc)) by {
            assert forall|i: int, j: int| 0 <= i < j < d.len() implies !goes_before(#[trigger] d[j].0, #[trigger] d[i].0, desc) by {
                assert(d[i] == s[i] && d[j] == s[j]);
            }
        }
        lemma_insert_sorted_sorted(d, x, desc);
        lemma_insert_sorted_members(d, x, desc);
        let t = insert_sorted(d, x, desc);
        let r = t.push(s.last());
        assert forall|i: int, j: int| 0 <= i < j < r.len() implies !goes_before(#[trigger] r[j].0, #[trigger] r[i].0, desc) by {
            if j < t.len() {
                assert(r[i] == t[i] && r[j] == t[j]);
            } else {
                assert(r[i] == t[i]);
                assert(t.contains(t[i]));
                if t[i] == x {
                    lemma_seq_lt_asym(x.0, s.last().0);
                } else {
                    let k = choose|k: int| 0 <= k < d.len() && d[k] == t[i];
                    assert(s[k] == t[i]);
                    assert(!goes_before(s[s.len() - 1].0, s[k].0, desc));
                }
            }
        }
    } else {
        let r = s.push(x);
        assert forall|i: int, j: int| 0 <= i < j < r.len() implies !goes_before(#[trigger] r[j].0, #[trigger] r[i].0, desc) by {
            if j < s.len() {
                assert(r[i] == s[i] && r[j] == s[j]);
            } else {
                assert(r[i] == s[i]);
                if i < s.len() - 1 {
                    assert(!goes_before(s[s.len() - 1].0, s[i].0, desc));
                    lemma_not_before_trans(x.0, s.last().0, s[i].0, desc);
                }
            }
        }
    }
}

/// Law: sorting leaves entries in key order.
pub proof fn lemma_sort_keyed_sorted<T>(s: Seq<(Seq<char>, T)>, desc: bool)
    ensures
        sorted_by_key(sort_keyed(s, desc), desc),
    decreases s.len(),
{
    if s.len() > 0 {
        lemma_sort_keyed_sorted(s.drop_last(), desc);
        lemma_insert_sorted_sorted(sort_keyed(s.drop_last(), desc), s.last(), desc);
    }
}

} // verus!

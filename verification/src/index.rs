//! The page index: the central in-memory structure of the library.
//!
//! Three co-maintained association vectors over the full metadata set:
//! page to metadata (the authoritative snapshot), title to the pages
//! carrying it (an inverted index whose keys are pruned as soon as their
//! set empties), and page to the pages linking to it (the inverted link
//! index). The well-formedness predicate `wf` ties the derived vectors to
//! the metadata exactly, so every mutation is proved to preserve both
//! inversion invariants.

use crate::ids::{ids_copy, ids_insert, ids_remove, ids_sorted, ids_wf};
use crate::page_id::PageId;
use crate::page_meta::PageMeta;
use crate::text::str_eq;
use vstd::prelude::*;

verus! {

/// `b` is recorded as a source under key `a` in a backlink vector.
pub open spec fn src_has(s: Seq<(PageId, Vec<PageId>)>, a: PageId, b: PageId) -> bool {
    exists|i: int| 0 <= i < s.len() && (#[trigger] s[i]).0 == a && s[i].1@.contains(b)
}

/// Key `a` is present in a backlink vector.
pub open spec fn src_key(s: Seq<(PageId, Vec<PageId>)>, a: PageId) -> bool {
    exists|i: int| 0 <= i < s.len() && (#[trigger] s[i]).0 == a
}

/// A backlink vector is well formed: keys unique and well formed, every
/// source list ascending, duplicate free, well formed and non-empty.
pub open spec fn src_wf(s: Seq<(PageId, Vec<PageId>)>) -> bool {
    &&& forall|i: int, j: int| 0 <= i < j < s.len() ==> (#[trigger] s[i]).0 != (#[trigger] s[j]).0
    &&& forall|i: int| 0 <= i < s.len() ==> (#[trigger] s[i]).0.wf()
    &&& forall|i: int| 0 <= i < s.len() ==> ids_sorted((#[trigger] s[i]).1@) && ids_wf(s[i].1@)
    &&& forall|i: int| 0 <= i < s.len() ==> (#[trigger] s[i]).1@.len() > 0
}

/// Page `p` is recorded under title `t` in a title vector.
pub open spec fn tset_has(s: Seq<(String, Vec<PageId>)>, t: Seq<char>, p: PageId) -> bool {
    exists|i: int| 0 <= i < s.len() && (#[trigger] s[i]).0@ == t && s[i].1@.contains(p)
}

/// Title key `t` is present in a title vector.
pub open spec fn tset_key(s: Seq<(String, Vec<PageId>)>, t: Seq<char>) -> bool {
    exists|i: int| 0 <= i < s.len() && (#[trigger] s[i]).0@ == t
}

/// A title vector is well formed: keys unique, every page list ascending,
/// duplicate free, well formed and non-empty.
pub open spec fn tset_wf(s: Seq<(String, Vec<PageId>)>) -> bool {
    &&& forall|i: int, j: int| 0 <= i < j < s.len() ==> (#[trigger] s[i]).0@ != (#[trigger] s[j]).0@
    &&& forall|i: int| 0 <= i < s.len() ==> ids_sorted((#[trigger] s[i]).1@) && ids_wf(s[i].1@)
    &&& forall|i: int| 0 <= i < s.len() ==> (#[trigger] s[i]).1@.len() > 0
}

/// Page `p` has an entry in a metadata vector.
pub open spec fn metas_has(s: Seq<(PageId, PageMeta)>, p: PageId) -> bool {
    exists|i: int| 0 <= i < s.len() && (#[trigger] s[i]).0 == p
}

/// The entry index for page `p` (meaningful when `metas_has` holds).
pub open spec fn metas_idx(s: Seq<(PageId, PageMeta)>, p: PageId) -> int {
    choose|i: int| 0 <= i < s.len() && (#[trigger] s[i]).0 == p
}

/// The metadata stored for page `p` (meaningful when `metas_has` holds).
pub open spec fn metas_at(s: Seq<(PageId, PageMeta)>, p: PageId) -> PageMeta {
    s[metas_idx(s, p)].1
}

/// A metadata vector is well formed: keys strictly ascending (hence
/// unique) and every entry well formed.
pub open spec fn metas_wf(s: Seq<(PageId, PageMeta)>) -> bool {
    &&& forall|i: int, j: int| 0 <= i < j < s.len() ==> (#[trigger] s[i]).0.raw() < (
    #[trigger] s[j]).0.raw()
    &&& forall|i: int| 0 <= i < s.len() ==> (#[trigger] s[i]).0.wf() && s[i].1.wf()
}

/// An entry of a well-formed metadata vector is the one `metas_idx` finds
/// for its own key.
pub proof fn lemma_metas_entry(s: Seq<(PageId, PageMeta)>, i: int)
    requires
        metas_wf(s),
        0 <= i < s.len(),
    ensures
        metas_has(s, s[i].0),
        metas_idx(s, s[i].0) == i,
        metas_at(s, s[i].0) == s[i].1,
{
    assert(metas_has(s, s[i].0));
    let j = metas_idx(s, s[i].0);
    if i < j {
        assert(s[i].0.raw() < s[j].0.raw());
    } else if j < i {
        assert(s[j].0.raw() < s[i].0.raw());
    }
}

/// Remove `x` from every source list of a backlink vector, pruning the
/// keys whose list empties.
fn strip_sources(v: Vec<(PageId, Vec<PageId>)>, x: &PageId) -> (r: Vec<(PageId, Vec<PageId>)>)
    requires
        src_wf(v@),
    ensures
        src_wf(r@),
        forall|a: PageId, b: PageId| src_has(r@, a, b) <==> src_has(v@, a, b) && b != *x,
        forall|a: PageId| src_key(r@, a) ==> src_key(v@, a),
{
    let ghost orig = v@;
    let mut v = v;
    let mut out: Vec<(PageId, Vec<PageId>)> = Vec::new();
    while v.len() > 0
        invariant
            src_wf(orig),
            v@.len() <= orig.len(),
            v@ =~= orig.subrange(orig.len() - v@.len(), orig.len() as int),
            src_wf(out@),
            forall|i: int|
                0 <= i < out@.len() ==> exists|j: int|
                    0 <= j < orig.len() - v@.len() && (#[trigger] out@[i]).0 == orig[j].0,
            forall|a: PageId, b: PageId|
                src_has(out@, a, b) <==> src_has(
                    orig.subrange(0, orig.len() - v@.len()),
                    a,
                    b,
                ) && b != *x,
        decreases v@.len(),
    {
        let ghost p = orig.len() - v@.len();
        let ghost prefix = orig.subrange(0, p);
        let mut e = v.remove(0);
        proof {
            assert(e == orig[p]);
            assert(v@ =~= orig.subrange(orig.len() - v@.len(), orig.len() as int));
            assert(ids_sorted(orig[p].1@) && ids_wf(orig[p].1@));
        }
        ids_remove(&mut e.1, x);
        let ghost longer = orig.subrange(0, p + 1);
        proof {
            assert(longer =~= prefix.push(orig[p]));
            assert forall|a: PageId, b: PageId|
                src_has(longer, a, b) <==> src_has(prefix, a, b) || (orig[p].0 == a
                    && orig[p].1@.contains(b)) by {
                if src_has(longer, a, b) {
                    let i = choose|i: int|
                        0 <= i < longer.len() && (#[trigger] longer[i]).0 == a
                            && longer[i].1@.contains(b);
                    if i < p {
                        assert(prefix[i] == longer[i]);
                        assert(src_has(prefix, a, b));
                    } else {
                        assert(longer[p] == orig[p]);
                    }
                }
                if src_has(prefix, a, b) {
                    let i = choose|i: int|
                        0 <= i < prefix.len() && (#[trigger] prefix[i]).0 == a
                            && prefix[i].1@.contains(b);
                    assert(longer[i] == prefix[i]);
                    assert(src_has(longer, a, b));
                }
                if orig[p].0 == a && orig[p].1@.contains(b) {
                    assert(longer[p as int] == orig[p]);
                    assert(src_has(longer, a, b));
                }
            }
        }
        if e.1.len() > 0 {
            let ghost out_old = out@;
            out.push(e);
            proof {
                assert forall|i: int| 0 <= i < out@.len() implies exists|j: int|
                    0 <= j < p + 1 && (#[trigger] out@[i]).0 == orig[j].0 by {
                    if i < out@.len() - 1 {
                        assert(out@[i] == out_old[i]);
                        let j = choose|j: int|
                            0 <= j < p && (#[trigger] out_old[i]).0 == orig[j].0;
                        assert(out@[i].0 == orig[j].0);
                    } else {
                        assert(out@[i].0 == orig[p].0);
                    }
                }
                assert forall|i: int, j: int| 0 <= i < j < out@.len() implies (
                #[trigger] out@[i]).0 != (#[trigger] out@[j]).0 by {
                    if j == out@.len() - 1 {
                        let jj = choose|jj: int|
                            0 <= jj < p && (#[trigger] out_old[i]).0 == orig[jj].0;
                        assert(orig[jj].0 != orig[p].0);
                    }
                }
                assert forall|a: PageId, b: PageId|
                    src_has(out@, a, b) <==> src_has(longer, a, b) && b != *x by {
                    if src_has(out@, a, b) {
                        let i = choose|i: int|
                            0 <= i < out@.len() && (#[trigger] out@[i]).0 == a
                                && out@[i].1@.contains(b);
                        if i < out@.len() - 1 {
                            assert(out@[i] == out_old[i]);
                            assert(src_has(out_old, a, b));
                        } else {
                            assert(orig[p].0 == a && orig[p].1@.contains(b) && b != *x);
                        }
                    }
                    if src_has(longer, a, b) && b != *x {
                        if src_has(prefix, a, b) {
                            assert(src_has(out_old, a, b));
                            let i = choose|i: int|
                                0 <= i < out_old.len() && (#[trigger] out_old[i]).0 == a
                                    && out_old[i].1@.contains(b);
                            assert(out@[i] == out_old[i]);
                            assert(src_has(out@, a, b));
                        } else {
                            assert(orig[p].0 == a && orig[p].1@.contains(b));
                            assert(out@[out@.len() - 1].0 == a);
                            assert(out@[out@.len() - 1].1@.contains(b));
                            assert(src_has(out@, a, b));
                        }
                    }
                }
            }
        } else {
            proof {
                assert forall|a: PageId, b: PageId|
                    src_has(out@, a, b) <==> src_has(longer, a, b) && b != *x by {
                    if src_has(longer, a, b) && b != *x {
                        if !src_has(prefix, a, b) {
                            assert(orig[p].0 == a && orig[p].1@.contains(b));
                            assert(e.1@.contains(b));
                            assert(false);
                        }
                    }
                }
            }
        }
    }
    proof {
        assert(orig.subrange(0, orig.len() as int) =~= orig);
        assert forall|a: PageId| src_key(out@, a) implies src_key(orig, a) by {
            if src_key(out@, a) {
                let i = choose|i: int| 0 <= i < out@.len() && (#[trigger] out@[i]).0 == a;
                let j = choose|j: int| 0 <= j < orig.len() && (#[trigger] out@[i]).0 == orig[j].0;
                assert(orig[j].0 == a);
            }
        }
    }
    out
}

/// Record `x` as a source under `key` in a backlink vector, creating the
/// key when absent.
fn add_source(v: &mut Vec<(PageId, Vec<PageId>)>, key: &PageId, x: PageId)
    requires
        src_wf(old(v)@),
        key.wf(),
        x.wf(),
    ensures
        src_wf(final(v)@),
        forall|a: PageId, b: PageId|
            src_has(final(v)@, a, b) <==> src_has(old(v)@, a, b) || (a == *key && b == x),
{
    let n = v.len();
    let mut i: usize = 0;
    while i < n
        invariant
            i <= n,
            n == v@.len(),
            v@ == old(v)@,
            src_wf(old(v)@),
            key.wf(),
            x.wf(),
            forall|k: int| 0 <= k < i ==> (#[trigger] v@[k]).0 != *key,
        decreases n - i,
    {
        if v[i].0 == *key {
            let mut e = v.remove(i);
            ids_insert(&mut e.1, x);
            v.insert(i, e);
            proof {
                assert(v@ =~= old(v)@.update(i as int, (old(v)@[i as int].0, e.1)));
                assert forall|a: PageId, b: PageId|
                    src_has(v@, a, b) <==> src_has(old(v)@, a, b) || (a == *key && b == x) by {
                    if src_has(v@, a, b) {
                        let j = choose|j: int|
                            0 <= j < v@.len() && (#[trigger] v@[j]).0 == a && v@[j].1@.contains(b);
                        if j != i {
                            assert(v@[j] == old(v)@[j]);
                            assert(src_has(old(v)@, a, b));
                        } else {
                            assert(a == *key);
                            if b != x {
                                assert(old(v)@[i as int].1@.contains(b));
                                assert(src_has(old(v)@, a, b));
                            }
                        }
                    }
                    if src_has(old(v)@, a, b) {
                        let j = choose|j: int|
                            0 <= j < old(v)@.len() && (#[trigger] old(v)@[j]).0 == a && old(
                                v,
                            )@[j].1@.contains(b);
                        if j != i {
                            assert(v@[j] == old(v)@[j]);
                            assert(src_has(v@, a, b));
                        } else {
                            assert(v@[i as int].0 == a && v@[i as int].1@.contains(b));
                            assert(src_has(v@, a, b));
                        }
                    }
                    if a == *key && b == x {
                        assert(v@[i as int].0 == a && v@[i as int].1@.contains(b));
                        assert(src_has(v@, a, b));
                    }
                }
                assert forall|j: int, k: int| 0 <= j < k < v@.len() implies (#[trigger] v@[j]).0
                    != (#[trigger] v@[k]).0 by {
                    assert(old(v)@[j].0 != old(v)@[k].0);
                    assert(v@[j].0 == old(v)@[j].0 && v@[k].0 == old(v)@[k].0);
                }
            }
            return ;
        }
        i += 1;
    }
    let mut single: Vec<PageId> = Vec::new();
    single.push(x);
    v.push((*key, single));
    proof {
        assert forall|a: PageId, b: PageId|
            src_has(v@, a, b) <==> src_has(old(v)@, a, b) || (a == *key && b == x) by {
            if src_has(v@, a, b) {
                let j = choose|j: int|
                    0 <= j < v@.len() && (#[trigger] v@[j]).0 == a && v@[j].1@.contains(b);
                if j < v@.len() - 1 {
                    assert(v@[j] == old(v)@[j]);
                    assert(src_has(old(v)@, a, b));
                } else {
                    assert(a == *key);
                    assert(v@[j].1@ =~= seq![x]);
                    assert(b == x);
                }
            }
            if src_has(old(v)@, a, b) {
                let j = choose|j: int|
                    0 <= j < old(v)@.len() && (#[trigger] old(v)@[j]).0 == a && old(
                        v,
                    )@[j].1@.contains(b);
                assert(v@[j] == old(v)@[j]);
                assert(src_has(v@, a, b));
            }
            if a == *key && b == x {
                assert(v@[v@.len() - 1].0 == a && v@[v@.len() - 1].1@[0] == b);
                assert(v@[v@.len() - 1].1@.contains(b));
                assert(src_has(v@, a, b));
            }
        }
        assert forall|j: int, k: int| 0 <= j < k < v@.len() implies (#[trigger] v@[j]).0 != (
        #[trigger] v@[k]).0 by {
            if k == v@.len() - 1 {
                assert(v@[j] == old(v)@[j]);
                assert(old(v)@[j].0 != *key);
            } else {
                assert(v@[j] == old(v)@[j] && v@[k] == old(v)@[k]);
                assert(old(v)@[j].0 != old(v)@[k].0);
            }
        }
    }
}

/// Remove `x` from every page list of a title vector, pruning the titles
/// whose list empties.
fn strip_title_sources(v: Vec<(String, Vec<PageId>)>, x: &PageId) -> (r: Vec<(String, Vec<PageId>)>)
    requires
        tset_wf(v@),
    ensures
        tset_wf(r@),
        forall|t: Seq<char>, b: PageId| tset_has(r@, t, b) <==> tset_has(v@, t, b) && b != *x,
        forall|t: Seq<char>| tset_key(r@, t) ==> tset_key(v@, t),
{
    let ghost orig = v@;
    let mut v = v;
    let mut out: Vec<(String, Vec<PageId>)> = Vec::new();
    while v.len() > 0
        invariant
            tset_wf(orig),
            v@.len() <= orig.len(),
            v@ =~= orig.subrange(orig.len() - v@.len(), orig.len() as int),
            tset_wf(out@),
            forall|i: int|
                0 <= i < out@.len() ==> exists|j: int|
                    0 <= j < orig.len() - v@.len() && (#[trigger] out@[i]).0@ == orig[j].0@,
            forall|t: Seq<char>, b: PageId|
                tset_has(out@, t, b) <==> tset_has(
                    orig.subrange(0, orig.len() - v@.len()),
                    t,
                    b,
                ) && b != *x,
        decreases v@.len(),
    {
        let ghost p = orig.len() - v@.len();
        let ghost prefix = orig.subrange(0, p);
        let mut e = v.remove(0);
        proof {
            assert(e == orig[p]);
            assert(v@ =~= orig.subrange(orig.len() - v@.len(), orig.len() as int));
            assert(ids_sorted(orig[p].1@) && ids_wf(orig[p].1@));
        }
        ids_remove(&mut e.1, x);
        let ghost longer = orig.subrange(0, p + 1);
        proof {
            assert forall|t: Seq<char>, b: PageId|
                tset_has(longer, t, b) <==> tset_has(prefix, t, b) || (orig[p].0@ == t
                    && orig[p].1@.contains(b)) by {
                if tset_has(longer, t, b) {
                    let i = choose|i: int|
                        0 <= i < longer.len() && (#[trigger] longer[i]).0@ == t
                            && longer[i].1@.contains(b);
                    if i < p {
                        assert(prefix[i] == longer[i]);
                        assert(tset_has(prefix, t, b));
                    } else {
                        assert(longer[p] == orig[p]);
                    }
                }
                if tset_has(prefix, t, b) {
                    let i = choose|i: int|
                        0 <= i < prefix.len() && (#[trigger] prefix[i]).0@ == t
                            && prefix[i].1@.contains(b);
                    assert(longer[i] == prefix[i]);
                    assert(tset_has(longer, t, b));
                }
                if orig[p].0@ == t && orig[p].1@.contains(b) {
                    assert(longer[p as int] == orig[p]);
                    assert(tset_has(longer, t, b));
                }
            }
        }
        if e.1.len() > 0 {
            let ghost out_old = out@;
            out.push(e);
            proof {
                assert forall|i: int| 0 <= i < out@.len() implies exists|j: int|
                    0 <= j < p + 1 && (#[trigger] out@[i]).0@ == orig[j].0@ by {
                    if i < out@.len() - 1 {
                        assert(out@[i] == out_old[i]);
                        let j = choose|j: int|
                            0 <= j < p && (#[trigger] out_old[i]).0@ == orig[j].0@;
                        assert(out@[i].0@ == orig[j].0@);
                    } else {
                        assert(out@[i].0@ == orig[p].0@);
                    }
                }
                assert forall|i: int, j: int| 0 <= i < j < out@.len() implies (
                #[trigger] out@[i]).0@ != (#[trigger] out@[j]).0@ by {
                    if j == out@.len() - 1 {
                        let jj = choose|jj: int|
                            0 <= jj < p && (#[trigger] out_old[i]).0@ == orig[jj].0@;
                        assert(orig[jj].0@ != orig[p].0@);
                    }
                }
                assert forall|t: Seq<char>, b: PageId|
                    tset_has(out@, t, b) <==> tset_has(longer, t, b) && b != *x by {
                    if tset_has(out@, t, b) {
                        let i = choose|i: int|
                            0 <= i < out@.len() && (#[trigger] out@[i]).0@ == t
                                && out@[i].1@.contains(b);
                        if i < out@.len() - 1 {
                            assert(out@[i] == out_old[i]);
                            assert(tset_has(out_old, t, b));
                        } else {
                            assert(orig[p].0@ == t && orig[p].1@.contains(b) && b != *x);
                        }
                    }
                    if tset_has(longer, t, b) && b != *x {
                        if tset_has(prefix, t, b) {
                            assert(tset_has(out_old, t, b));
                            let i = choose|i: int|
                                0 <= i < out_old.len() && (#[trigger] out_old[i]).0@ == t
                                    && out_old[i].1@.contains(b);
                            assert(out@[i] == out_old[i]);
                            assert(tset_has(out@, t, b));
                        } else {
                            assert(orig[p].0@ == t && orig[p].1@.contains(b));
                            assert(out@[out@.len() - 1].0@ == t);
                            assert(out@[out@.len() - 1].1@.contains(b));
                            assert(tset_has(out@, t, b));
                        }
                    }
                }
            }
        } else {
            proof {
                assert forall|t: Seq<char>, b: PageId|
                    tset_has(out@, t, b) <==> tset_has(longer, t, b) && b != *x by {
                    if tset_has(longer, t, b) && b != *x {
                        if !tset_has(prefix, t, b) {
                            assert(orig[p].0@ == t && orig[p].1@.contains(b));
                            assert(e.1@.contains(b));
                            assert(false);
                        }
                    }
                }
            }
        }
    }
    proof {
        assert(orig.subrange(0, orig.len() as int) =~= orig);
        assert forall|t: Seq<char>| tset_key(out@, t) implies tset_key(orig, t) by {
            if tset_key(out@, t) {
                let i = choose|i: int| 0 <= i < out@.len() && (#[trigger] out@[i]).0@ == t;
                let j = choose|j: int| 0 <= j < orig.len() && (#[trigger] out@[i]).0@ == orig[j].0@;
                assert(orig[j].0@ == t);
            }
        }
    }
    out
}

/// Record page `x` under `key` in a title vector, creating the title when
/// absent.
fn add_title_source(v: &mut Vec<(String, Vec<PageId>)>, key: String, x: PageId)
    requires
        tset_wf(old(v)@),
        x.wf(),
    ensures
        tset_wf(final(v)@),
        forall|t: Seq<char>, b: PageId|
            tset_has(final(v)@, t, b) <==> tset_has(old(v)@, t, b) || (t == key@ && b == x),
{
    let n = v.len();
    let mut i: usize = 0;
    while i < n
        invariant
            i <= n,
            n == v@.len(),
            v@ == old(v)@,
            tset_wf(old(v)@),
            x.wf(),
            forall|k: int| 0 <= k < i ==> (#[trigger] v@[k]).0@ != key@,
        decreases n - i,
    {
        if str_eq(v[i].0.as_str(), key.as_str()) {
            let mut e = v.remove(i);
            ids_insert(&mut e.1, x);
            v.insert(i, e);
            proof {
                assert(v@ =~= old(v)@.update(i as int, (old(v)@[i as int].0, e.1)));
                assert forall|t: Seq<char>, b: PageId|
                    tset_has(v@, t, b) <==> tset_has(old(v)@, t, b) || (t == key@ && b == x) by {
                    if tset_has(v@, t, b) {
                        let j = choose|j: int|
                            0 <= j < v@.len() && (#[trigger] v@[j]).0@ == t && v@[j].1@.contains(b);
                        if j != i {
                            assert(v@[j] == old(v)@[j]);
                            assert(tset_has(old(v)@, t, b));
                        } else {
                            assert(t == key@);
                            if b != x {
                                assert(old(v)@[i as int].1@.contains(b));
                                assert(tset_has(old(v)@, t, b));
                            }
                        }
                    }
                    if tset_has(old(v)@, t, b) {
                        let j = choose|j: int|
                            0 <= j < old(v)@.len() && (#[trigger] old(v)@[j]).0@ == t && old(
                                v,
                            )@[j].1@.contains(b);
                        if j != i {
                            assert(v@[j] == old(v)@[j]);
                            assert(tset_has(v@, t, b));
                        } else {
                            assert(v@[i as int].0@ == t && v@[i as int].1@.contains(b));
                            assert(tset_has(v@, t, b));
                        }
                    }
                    if t == key@ && b == x {
                        assert(v@[i as int].0@ == t && v@[i as int].1@.contains(b));
                        assert(tset_has(v@, t, b));
                    }
                }
                assert forall|j: int, k: int| 0 <= j < k < v@.len() implies (#[trigger] v@[j]).0@
                    != (#[trigger] v@[k]).0@ by {
                    assert(old(v)@[j].0@ != old(v)@[k].0@);
                    assert(v@[j].0@ == old(v)@[j].0@ && v@[k].0@ == old(v)@[k].0@);
                }
            }
            return ;
        }
        i += 1;
    }
    let mut single: Vec<PageId> = Vec::new();
    single.push(x);
    v.push((key, single));
    proof {
        assert forall|t: Seq<char>, b: PageId|
            tset_has(v@, t, b) <==> tset_has(old(v)@, t, b) || (t == key@ && b == x) by {
            if tset_has(v@, t, b) {
                let j = choose|j: int|
                    0 <= j < v@.len() && (#[trigger] v@[j]).0@ == t && v@[j].1@.contains(b);
                if j < v@.len() - 1 {
                    assert(v@[j] == old(v)@[j]);
                    assert(tset_has(old(v)@, t, b));
                } else {
                    assert(t == key@);
                    assert(v@[j].1@ =~= seq![x]);
                    assert(b == x);
                }
            }
            if tset_has(old(v)@, t, b) {
                let j = choose|j: int|
                    0 <= j < old(v)@.len() && (#[trigger] old(v)@[j]).0@ == t && old(
                        v,
                    )@[j].1@.contains(b);
                assert(v@[j] == old(v)@[j]);
                assert(tset_has(v@, t, b));
            }
            if t == key@ && b == x {
                assert(v@[v@.len() - 1].0@ == t && v@[v@.len() - 1].1@[0] == b);
                assert(v@[v@.len() - 1].1@.contains(b));
                assert(tset_has(v@, t, b));
            }
        }
        assert forall|j: int, k: int| 0 <= j < k < v@.len() implies (#[trigger] v@[j]).0@ != (
        #[trigger] v@[k]).0@ by {
            if k == v@.len() - 1 {
                assert(v@[j] == old(v)@[j]);
                assert(old(v)@[j].0@ != key@);
            } else {
                assert(v@[j] == old(v)@[j] && v@[k] == old(v)@[k]);
                assert(old(v)@[j].0@ != old(v)@[k].0@);
            }
        }
    }
}

/// Store `m` as the metadata of `id`, replacing any earlier entry and
/// keeping the vector ascending.
fn put_meta(v: &mut Vec<(PageId, PageMeta)>, id: PageId, m: PageMeta)
    requires
        metas_wf(old(v)@),
        id.wf(),
        m.wf(),
    ensures
        metas_wf(final(v)@),
        forall|p: PageId| metas_has(final(v)@, p) <==> metas_has(old(v)@, p) || p == id,
        metas_has(final(v)@, id) && metas_at(final(v)@, id) == m,
        forall|p: PageId|
            p != id && metas_has(old(v)@, p) ==> metas_at(final(v)@, p) == metas_at(old(v)@, p),
{
    let n = v.len();
    let mut i: usize = 0;
    while i < n && v[i].0.lt(&id)
        invariant
            i <= n,
            n == v@.len(),
            v@ == old(v)@,
            forall|k: int| 0 <= k < i ==> (#[trigger] v@[k]).0.raw() < id.raw(),
        decreases n - i,
    {
        i += 1;
    }
    let replace = i < n && v[i].0 == id;
    if replace {
        v.remove(i);
    }
    proof {
        if i < v@.len() && !replace {
            if v@[i as int].0.raw() == id.raw() {
                crate::ids::lemma_raw_injective(old(v)@[i as int].0, id);
                assert(false);
            }
        }
        if replace {
            assert(v@ =~= old(v)@.remove(i as int));
        }
    }
    v.insert(i, (id, m));
    proof {
        let ghost mid = if replace {
            old(v)@.remove(i as int)
        } else {
            old(v)@
        };
        assert(v@ =~= mid.insert(i as int, (id, m)));
        assert forall|a: int, c: int| 0 <= a < c < v@.len() implies (#[trigger] v@[a]).0.raw() < (
        #[trigger] v@[c]).0.raw() by {
            let oa = if a < i {
                a
            } else if replace {
                a
            } else {
                a - 1
            };
            let oc = if c < i {
                c
            } else if replace {
                c
            } else {
                c - 1
            };
            if a != i && c != i {
                assert(v@[a] == old(v)@[oa] && v@[c] == old(v)@[oc]);
                assert(old(v)@[oa].0.raw() < old(v)@[oc].0.raw());
            } else if a == i {
                assert(v@[a].0 == id);
                assert(v@[c] == old(v)@[oc]);
                if replace {
                    assert(old(v)@[i as int].0 == id);
                    assert(old(v)@[i as int].0.raw() < old(v)@[oc].0.raw());
                } else {
                    assert(oc >= i);
                    assert(old(v)@[oc].0.raw() >= id.raw());
                    if old(v)@[oc].0.raw() == id.raw() {
                        crate::ids::lemma_raw_injective(old(v)@[oc].0, id);
                        assert(metas_has(old(v)@, id));
                        assert(false);
                    }
                }
            } else {
                assert(v@[c].0 == id);
                assert(v@[a] == old(v)@[oa]);
                assert(oa < i);
                assert(old(v)@[oa].0.raw() < id.raw());
            }
        }
        assert forall|k: int| 0 <= k < v@.len() implies (#[trigger] v@[k]).0.wf()
            && v@[k].1.wf() by {
            if k != i {
                let ok = if k < i {
                    k
                } else if replace {
                    k
                } else {
                    k - 1
                };
                assert(v@[k] == old(v)@[ok]);
                assert(old(v)@[ok].0.wf() && old(v)@[ok].1.wf());
            }
        }
        assert(metas_wf(v@));
        assert forall|p: PageId| metas_has(v@, p) implies metas_has(old(v)@, p) || p == id by {
            let j = choose|j: int| 0 <= j < v@.len() && (#[trigger] v@[j]).0 == p;
            if j != i {
                let oj = if j < i {
                    j
                } else if replace {
                    j
                } else {
                    j - 1
                };
                assert(v@[j] == old(v)@[oj]);
                assert(metas_has(old(v)@, p));
            }
        }
        assert forall|p: PageId| metas_has(old(v)@, p) implies metas_has(v@, p) by {
            let j = choose|j: int| 0 <= j < old(v)@.len() && (#[trigger] old(v)@[j]).0 == p;
            if replace && j == i {
                assert(v@[i as int].0 == id);
                assert(old(v)@[j].0 == id);
                assert(metas_has(v@, p));
            } else {
                let nj = if j < i {
                    j
                } else if replace {
                    j
                } else {
                    j + 1
                };
                assert(v@[nj] == old(v)@[j]);
                assert(metas_has(v@, p));
            }
        }
        assert(v@[i as int].0 == id);
        lemma_metas_entry(v@, i as int);
        assert(metas_at(v@, id) == m);
        assert forall|p: PageId| p != id && metas_has(old(v)@, p) implies metas_at(v@, p)
            == metas_at(old(v)@, p) by {
            let j = choose|j: int| 0 <= j < old(v)@.len() && (#[trigger] old(v)@[j]).0 == p;
            lemma_metas_entry(old(v)@, j);
            assert(j != i || !replace);
            let nj = if j < i {
                j
            } else if replace {
                j
            } else {
                j + 1
            };
            assert(v@[nj] == old(v)@[j]);
            lemma_metas_entry(v@, nj);
        }
    }
}

/// Delete the metadata entry of `id`, if present.
fn remove_meta(v: &mut Vec<(PageId, PageMeta)>, id: &PageId)
    requires
        metas_wf(old(v)@),
    ensures
        metas_wf(final(v)@),
        forall|p: PageId| metas_has(final(v)@, p) <==> metas_has(old(v)@, p) && p != *id,
        forall|p: PageId|
            p != *id && metas_has(old(v)@, p) ==> metas_at(final(v)@, p) == metas_at(old(v)@, p),
{
    let n = v.len();
    let mut i: usize = 0;
    while i < n
        invariant
            i <= n,
            n == v@.len(),
            v@ == old(v)@,
            metas_wf(old(v)@),
            forall|k: int| 0 <= k < i ==> (#[trigger] v@[k]).0 != *id,
        decreases n - i,
    {
        if v[i].0 == *id {
            v.remove(i);
            proof {
                assert(v@ =~= old(v)@.remove(i as int));
                assert forall|a: int, c: int| 0 <= a < c < v@.len() implies (
                #[trigger] v@[a]).0.raw() < (#[trigger] v@[c]).0.raw() by {
                    let oa = if a < i {
                        a
                    } else {
                        a + 1
                    };
                    let oc = if c < i {
                        c
                    } else {
                        c + 1
                    };
                    assert(v@[a] == old(v)@[oa] && v@[c] == old(v)@[oc]);
                    assert(old(v)@[oa].0.raw() < old(v)@[oc].0.raw());
                }
                assert forall|k: int| 0 <= k < v@.len() implies (#[trigger] v@[k]).0.wf()
                    && v@[k].1.wf() by {
                    let ok = if k < i {
                        k
                    } else {
                        k + 1
                    };
                    assert(v@[k] == old(v)@[ok]);
                    assert(old(v)@[ok].0.wf() && old(v)@[ok].1.wf());
                }
                assert(metas_wf(v@));
                assert forall|p: PageId| metas_has(v@, p) implies metas_has(old(v)@, p) && p
                    != *id by {
                    let j = choose|j: int| 0 <= j < v@.len() && (#[trigger] v@[j]).0 == p;
                    let oj = if j < i {
                        j
                    } else {
                        j + 1
                    };
                    assert(v@[j] == old(v)@[oj]);
                    assert(metas_has(old(v)@, p));
                    if p == *id {
                        assert(oj != i);
                        assert(old(v)@[i as int].0 == *id);
                        if oj < i {
                            assert(old(v)@[oj].0.raw() < old(v)@[i as int].0.raw());
                        } else {
                            assert(old(v)@[i as int].0.raw() < old(v)@[oj].0.raw());
                        }
                        assert(false);
                    }
                }
                assert forall|p: PageId| metas_has(old(v)@, p) && p != *id implies metas_has(
                    v@,
                    p,
                ) by {
                    let j = choose|j: int| 0 <= j < old(v)@.len() && (#[trigger] old(v)@[j]).0 == p;
                    assert(j != i);
                    let nj = if j < i {
                        j
                    } else {
                        j - 1
                    };
                    assert(v@[nj] == old(v)@[j]);
                    assert(metas_has(v@, p));
                }
                assert forall|p: PageId| p != *id && metas_has(old(v)@, p) implies metas_at(v@, p)
                    == metas_at(old(v)@, p) by {
                    let j = choose|j: int| 0 <= j < old(v)@.len() && (#[trigger] old(v)@[j]).0 == p;
                    lemma_metas_entry(old(v)@, j);
                    assert(j != i);
                    let nj = if j < i {
                        j
                    } else {
                        j - 1
                    };
                    assert(v@[nj] == old(v)@[j]);
                    lemma_metas_entry(v@, nj);
                }
            }
            return ;
        }
        i += 1;
    }
    proof {
        assert forall|p: PageId| metas_has(old(v)@, p) implies p != *id by {
            let j = choose|j: int| 0 <= j < old(v)@.len() && (#[trigger] old(v)@[j]).0 == p;
        }
    }
}

/// The incremental page index.
pub struct Index {
    page_metas: Vec<(PageId, PageMeta)>,
    page_titles: Vec<(String, Vec<PageId>)>,
    backlinks: Vec<(PageId, Vec<PageId>)>,
}

impl Index {
    /// Page `p` is known to the index.
    pub closed spec fn has_page(&self, p: PageId) -> bool {
        metas_has(self.page_metas@, p)
    }

    /// The metadata recorded for page `p`.
    pub closed spec fn meta_of(&self, p: PageId) -> PageMeta {
        metas_at(self.page_metas@, p)
    }

    /// The recorded title of page `p`.
    pub open spec fn title_of(&self, p: PageId) -> Option<Seq<char>> {
        self.meta_of(p).title_view()
    }

    /// The recorded outgoing links of page `p`.
    pub open spec fn links_of(&self, p: PageId) -> Set<PageId> {
        self.meta_of(p).links_set()
    }

    /// `source` is recorded as a backlink of `target`.
    pub closed spec fn bl_has(&self, target: PageId, source: PageId) -> bool {
        src_has(self.backlinks@, target, source)
    }

    /// Page `p` is recorded under title `t` in the title index.
    pub closed spec fn title_has(&self, t: Seq<char>, p: PageId) -> bool {
        tset_has(self.page_titles@, t, p)
    }

    /// Title `t` is a key of the title index.
    pub closed spec fn has_title_key(&self, t: Seq<char>) -> bool {
        tset_key(self.page_titles@, t)
    }

    /// The metadata entries in ascending identifier order.
    pub closed spec fn entries(&self) -> Seq<(PageId, PageMeta)> {
        self.page_metas@
    }

    /// The index invariant: each vector is well formed, and the two
    /// derived vectors record exactly what the metadata implies — a
    /// backlink entry exists if and only if the linking page's metadata
    /// lists the link, and a title entry exists if and only if some page's
    /// metadata carries that title.
    pub closed spec fn wf(&self) -> bool {
        &&& metas_wf(self.page_metas@)
        &&& src_wf(self.backlinks@)
        &&& tset_wf(self.page_titles@)
        &&& forall|i: int, k: int|
            #![trigger self.backlinks@[i].1@[k]]
            0 <= i < self.backlinks@.len() && 0 <= k < self.backlinks@[i].1@.len()
                ==> self.has_page(self.backlinks@[i].1@[k]) && self.links_of(
                self.backlinks@[i].1@[k],
            ).contains(self.backlinks@[i].0)
        &&& forall|j: int, k: int|
            #![trigger self.page_metas@[j].1.links@[k]]
            0 <= j < self.page_metas@.len() && 0 <= k < self.page_metas@[j].1.links@.len()
                ==> src_has(self.backlinks@, self.page_metas@[j].1.links@[k], self.page_metas@[j].0)
        &&& forall|i: int, k: int|
            #![trigger self.page_titles@[i].1@[k]]
            0 <= i < self.page_titles@.len() && 0 <= k < self.page_titles@[i].1@.len()
                ==> self.has_page(self.page_titles@[i].1@[k]) && self.title_of(
                self.page_titles@[i].1@[k],
            ) == Some(self.page_titles@[i].0@)
        &&& forall|j: int|
            #![trigger self.page_metas@[j]]
            0 <= j < self.page_metas@.len() ==> match self.page_metas@[j].1.title_view() {
                Some(t) => tset_has(self.page_titles@, t, self.page_metas@[j].0),
                None => true,
            }
    }

    /// The empty index.
    pub fn empty() -> (r: Index)
        ensures
            r.wf(),
            forall|p: PageId| !r.has_page(p),
    {
        Index { page_metas: Vec::new(), page_titles: Vec::new(), backlinks: Vec::new() }
    }

    /// Look up the metadata of one page.
    pub fn get_meta(&self, p: &PageId) -> (r: Option<&PageMeta>)
        requires
            self.wf(),
        ensures
            r is Some <==> self.has_page(*p),
            match r {
                Some(m) => *m == self.meta_of(*p) && m.wf(),
                None => true,
            },
    {
        let n = self.page_metas.len();
        let mut i: usize = 0;
        while i < n
            invariant
                i <= n,
                n == self.page_metas@.len(),
                self.wf(),
                forall|k: int| 0 <= k < i ==> (#[trigger] self.page_metas@[k]).0 != *p,
            decreases n - i,
        {
            if self.page_metas[i].0 == *p {
                proof {
                    lemma_metas_entry(self.page_metas@, i as int);
                }
                return Some(&self.page_metas[i].1);
            }
            i += 1;
        }
        proof {
            if self.has_page(*p) {
                let j = choose|j: int|
                    0 <= j < self.page_metas@.len() && (#[trigger] self.page_metas@[j]).0 == *p;
                assert(false);
            }
        }
        None
    }

    /// The pages that link to `p`, in ascending order; empty when none
    /// does.
    pub fn get_backlinks(&self, p: &PageId) -> (r: Vec<PageId>)
        requires
            self.wf(),
        ensures
            ids_sorted(r@),
            ids_wf(r@),
            forall|b: PageId| r@.contains(b) <==> self.bl_has(*p, b),
    {
        let n = self.backlinks.len();
        let mut i: usize = 0;
        while i < n
            invariant
                i <= n,
                n == self.backlinks@.len(),
                self.wf(),
                forall|k: int| 0 <= k < i ==> (#[trigger] self.backlinks@[k]).0 != *p,
            decreases n - i,
        {
            if self.backlinks[i].0 == *p {
                let r = ids_copy(&self.backlinks[i].1);
                proof {
                    assert forall|b: PageId| r@.contains(b) implies self.bl_has(*p, b) by {
                        assert(src_has(self.backlinks@, *p, b));
                    }
                    assert forall|b: PageId| self.bl_has(*p, b) implies r@.contains(b) by {
                        let j = choose|j: int|
                            0 <= j < self.backlinks@.len() && (#[trigger] self.backlinks@[j]).0
                                == *p && self.backlinks@[j].1@.contains(b);
                        if j < i {
                            assert(false);
                        } else if i < j {
                            assert(self.backlinks@[i as int].0 != self.backlinks@[j].0);
                            assert(false);
                        }
                    }
                }
                return r;
            }
            i += 1;
        }
        proof {
            if exists|b: PageId| self.bl_has(*p, b) {
                let b = choose|b: PageId| self.bl_has(*p, b);
                let j = choose|j: int|
                    0 <= j < self.backlinks@.len() && (#[trigger] self.backlinks@[j]).0 == *p
                        && self.backlinks@[j].1@.contains(b);
                assert(false);
            }
        }
        Vec::new()
    }

    /// The pages recorded under a title, in ascending order; empty when
    /// the title is unknown.
    pub fn find_by_title(&self, title: &str) -> (r: Vec<PageId>)
        requires
            self.wf(),
        ensures
            ids_sorted(r@),
            ids_wf(r@),
            forall|b: PageId| r@.contains(b) <==> self.title_has(title@, b),
    {
        let n = self.page_titles.len();
        let mut i: usize = 0;
        while i < n
            invariant
                i <= n,
                n == self.page_titles@.len(),
                self.wf(),
                forall|k: int| 0 <= k < i ==> (#[trigger] self.page_titles@[k]).0@ != title@,
            decreases n - i,
        {
            if str_eq(self.page_titles[i].0.as_str(), title) {
                let r = ids_copy(&self.page_titles[i].1);
                proof {
                    assert forall|b: PageId| r@.contains(b) implies self.title_has(title@, b) by {
                        assert(tset_has(self.page_titles@, title@, b));
                    }
                    assert forall|b: PageId| self.title_has(title@, b) implies r@.contains(b) by {
                        let j = choose|j: int|
                            0 <= j < self.page_titles@.len() && (#[trigger] self.page_titles@[j]).0@
                                == title@ && self.page_titles@[j].1@.contains(b);
                        if j < i {
                            assert(false);
                        } else if i < j {
                            assert(self.page_titles@[i as int].0@ != self.page_titles@[j].0@);
                            assert(false);
                        }
                    }
                }
                return r;
            }
            i += 1;
        }
        proof {
            if exists|b: PageId| self.title_has(title@, b) {
                let b = choose|b: PageId| self.title_has(title@, b);
                let j = choose|j: int|
                    0 <= j < self.page_titles@.len() && (#[trigger] self.page_titles@[j]).0@
                        == title@ && self.page_titles@[j].1@.contains(b);
                assert(false);
            }
        }
        Vec::new()
    }

    /// The title index entries.
    pub closed spec fn titles_entries(&self) -> Seq<(String, Vec<PageId>)> {
        self.page_titles@
    }

    /// The title index: every known title with the pages recorded under
    /// it.
    pub fn title_entries(&self) -> (r: &Vec<(String, Vec<PageId>)>)
        ensures
            r@ == self.titles_entries(),
    {
        &self.page_titles
    }

    /// What `titles_entries` holds: distinct non-empty titles, each with
    /// an ascending list of exactly the pages recorded under it.
    pub proof fn lemma_title_entries(&self)
        requires
            self.wf(),
        ensures
            forall|i: int, j: int|
                0 <= i < j < self.titles_entries().len() ==> (#[trigger] self.titles_entries()[i]).0@
                    != (#[trigger] self.titles_entries()[j]).0@,
            forall|i: int|
                0 <= i < self.titles_entries().len() ==> ids_sorted(
                    (#[trigger] self.titles_entries()[i]).1@,
                ) && ids_wf(self.titles_entries()[i].1@) && self.titles_entries()[i].1@.len() > 0,
            forall|i: int, k: int|
                #![trigger self.titles_entries()[i].1@[k]]
                0 <= i < self.titles_entries().len() && 0 <= k < self.titles_entries()[i].1@.len()
                    ==> self.title_has(
                    self.titles_entries()[i].0@,
                    self.titles_entries()[i].1@[k],
                ),
            forall|t: Seq<char>, p: PageId|
                #[trigger] self.title_has(t, p) ==> exists|i: int|
                    0 <= i < self.titles_entries().len() && (#[trigger] self.titles_entries()[i]).0@
                        == t && self.titles_entries()[i].1@.contains(p),
    {
        assert forall|i: int, k: int|
            #![trigger self.titles_entries()[i].1@[k]]
            0 <= i < self.titles_entries().len() && 0 <= k
                < self.titles_entries()[i].1@.len() implies self.title_has(
            self.titles_entries()[i].0@,
            self.titles_entries()[i].1@[k],
        ) by {
            assert(self.page_titles@[i].1@.contains(self.page_titles@[i].1@[k]));
        }
        assert forall|t: Seq<char>, p: PageId| #[trigger] self.title_has(t, p) implies exists|
            i: int,
        |
            0 <= i < self.titles_entries().len() && (#[trigger] self.titles_entries()[i]).0@ == t
                && self.titles_entries()[i].1@.contains(p) by {
            let i = choose|i: int|
                0 <= i < self.page_titles@.len() && (#[trigger] self.page_titles@[i]).0@ == t
                    && self.page_titles@[i].1@.contains(p);
            assert(0 <= i < self.titles_entries().len() && self.titles_entries()[i].0@ == t
                && self.titles_entries()[i].1@.contains(p));
        }
    }

    /// All pages with their metadata, in ascending identifier order.
    pub fn list_all(&self) -> (r: &Vec<(PageId, PageMeta)>)
        ensures
            r@ == self.entries(),
    {
        &self.page_metas
    }

    /// What `entries` holds: exactly the known pages, each with its
    /// recorded metadata, strictly ascending by identifier.
    pub proof fn lemma_entries(&self)
        requires
            self.wf(),
        ensures
            forall|i: int, j: int|
                0 <= i < j < self.entries().len() ==> (#[trigger] self.entries()[i]).0.raw() < (
                #[trigger] self.entries()[j]).0.raw(),
            forall|i: int|
                0 <= i < self.entries().len() ==> self.has_page(
                    (#[trigger] self.entries()[i]).0,
                ) && self.meta_of(self.entries()[i].0) == self.entries()[i].1
                    && self.entries()[i].0.wf(),
            forall|p: PageId|
                self.has_page(p) ==> exists|i: int|
                    0 <= i < self.entries().len() && (#[trigger] self.entries()[i]) == (
                    p,
                    self.meta_of(p),
                    ),
    {
        assert forall|i: int|
            0 <= i < self.entries().len() implies self.has_page((#[trigger] self.entries()[i]).0)
            && self.meta_of(self.entries()[i].0) == self.entries()[i].1
            && self.entries()[i].0.wf() by {
            lemma_metas_entry(self.page_metas@, i);
        }
        assert forall|p: PageId| self.has_page(p) implies exists|i: int|
            0 <= i < self.entries().len() && (#[trigger] self.entries()[i]) == (
            p,
            self.meta_of(p),
            ) by {
            let j = choose|j: int|
                0 <= j < self.page_metas@.len() && (#[trigger] self.page_metas@[j]).0 == p;
            lemma_metas_entry(self.page_metas@, j);
            assert(self.entries()[j] == (p, self.meta_of(p)));
        }
    }

    /// Remove one page from the index: its metadata entry is deleted, it
    /// is taken out of every backlink set and every title set, and keys
    /// whose set empties are pruned. Entries pointing *at* the removed
    /// page are kept: another page may still link to it. A no-op when the
    /// page is unknown.
    pub fn remove(&mut self, page_id: &PageId)
        requires
            old(self).wf(),
        ensures
            final(self).wf(),
            forall|p: PageId|
                final(self).has_page(p) <==> old(self).has_page(p) && p != *page_id,
            forall|p: PageId|
                p != *page_id && old(self).has_page(p) ==> final(self).meta_of(p) == old(
                    self,
                ).meta_of(p),
            forall|a: PageId, b: PageId|
                final(self).bl_has(a, b) <==> old(self).bl_has(a, b) && b != *page_id,
            forall|t: Seq<char>, p: PageId|
                final(self).title_has(t, p) <==> old(self).title_has(t, p) && p != *page_id,
    {
        let mut bl: Vec<(PageId, Vec<PageId>)> = Vec::new();
        core::mem::swap(&mut bl, &mut self.backlinks);
        let bl = strip_sources(bl, page_id);
        self.backlinks = bl;
        let mut ts: Vec<(String, Vec<PageId>)> = Vec::new();
        core::mem::swap(&mut ts, &mut self.page_titles);
        let ts = strip_title_sources(ts, page_id);
        self.page_titles = ts;
        remove_meta(&mut self.page_metas, page_id);
        proof {
            let id = *page_id;
            let o = old(self);
            assert forall|i: int, k: int|
                0 <= i < self.backlinks@.len() && 0 <= k < self.backlinks@[i].1@.len() implies {
                let b = #[trigger] self.backlinks@[i].1@[k];
                self.has_page(b) && self.links_of(b).contains(self.backlinks@[i].0)
            } by {
                let b = self.backlinks@[i].1@[k];
                let a = self.backlinks@[i].0;
                assert(self.backlinks@[i].1@.contains(b));
                assert(src_has(self.backlinks@, a, b));
                assert(src_has(o.backlinks@, a, b) && b != id);
                let oi = choose|oi: int|
                    0 <= oi < o.backlinks@.len() && (#[trigger] o.backlinks@[oi]).0 == a
                        && o.backlinks@[oi].1@.contains(b);
                let ok = choose|ok: int|
                    0 <= ok < o.backlinks@[oi].1@.len() && o.backlinks@[oi].1@[ok] == b;
                assert(o.has_page(o.backlinks@[oi].1@[ok]));
                assert(o.has_page(b) && o.links_of(b).contains(a));
            }
            assert forall|j: int, k: int|
                0 <= j < self.page_metas@.len() && 0 <= k
                    < self.page_metas@[j].1.links@.len() implies src_has(
                self.backlinks@,
                #[trigger] self.page_metas@[j].1.links@[k],
                self.page_metas@[j].0,
            ) by {
                let b = self.page_metas@[j].0;
                let a = self.page_metas@[j].1.links@[k];
                lemma_metas_entry(self.page_metas@, j);
                assert(self.has_page(b));
                assert(o.has_page(b) && b != id);
                assert(self.meta_of(b) == o.meta_of(b));
                let oj = choose|oj: int|
                    0 <= oj < o.page_metas@.len() && (#[trigger] o.page_metas@[oj]).0 == b;
                lemma_metas_entry(o.page_metas@, oj);
                assert(o.page_metas@[oj].1 == self.page_metas@[j].1);
                assert(src_has(o.backlinks@, o.page_metas@[oj].1.links@[k], o.page_metas@[oj].0));
            }
            assert forall|i: int, k: int|
                0 <= i < self.page_titles@.len() && 0 <= k
                    < self.page_titles@[i].1@.len() implies {
                let b = #[trigger] self.page_titles@[i].1@[k];
                self.has_page(b) && self.title_of(b) == Some(self.page_titles@[i].0@)
            } by {
                let b = self.page_titles@[i].1@[k];
                let t = self.page_titles@[i].0@;
                assert(self.page_titles@[i].1@.contains(b));
                assert(tset_has(self.page_titles@, t, b));
                assert(tset_has(o.page_titles@, t, b) && b != id);
                let oi = choose|oi: int|
                    0 <= oi < o.page_titles@.len() && (#[trigger] o.page_titles@[oi]).0@ == t
                        && o.page_titles@[oi].1@.contains(b);
                let ok = choose|ok: int|
                    0 <= ok < o.page_titles@[oi].1@.len() && o.page_titles@[oi].1@[ok] == b;
                assert(o.has_page(o.page_titles@[oi].1@[ok]));
                assert(o.has_page(b) && o.title_of(b) == Some(t));
            }
            assert forall|j: int|
                0 <= j < self.page_metas@.len() implies match (
            #[trigger] self.page_metas@[j]).1.title_view() {
                Some(t) => tset_has(self.page_titles@, t, self.page_metas@[j].0),
                None => true,
            } by {
                let b = self.page_metas@[j].0;
                lemma_metas_entry(self.page_metas@, j);
                assert(self.has_page(b));
                assert(o.has_page(b) && b != id);
                assert(self.meta_of(b) == o.meta_of(b));
                let oj = choose|oj: int|
                    0 <= oj < o.page_metas@.len() && (#[trigger] o.page_metas@[oj]).0 == b;
                lemma_metas_entry(o.page_metas@, oj);
                assert(o.page_metas@[oj].1 == self.page_metas@[j].1);
                match self.page_metas@[j].1.title_view() {
                    Some(t) => {
                        assert(tset_has(o.page_titles@, t, b));
                        assert(tset_has(self.page_titles@, t, b));
                    },
                    None => {},
                }
            }
        }
    }

    /// Replace (or create) the metadata of one page as a single logical
    /// transaction: the page leaves every backlink and title set derived
    /// from its old metadata and enters the ones derived from the new.
    fn set_meta(&mut self, id: PageId, meta: PageMeta)
        requires
            old(self).wf(),
            id.wf(),
            meta.wf(),
        ensures
            final(self).wf(),
            forall|p: PageId| final(self).has_page(p) <==> old(self).has_page(p) || p == id,
            final(self).has_page(id) && final(self).meta_of(id) == meta,
            forall|p: PageId|
                p != id && old(self).has_page(p) ==> final(self).meta_of(p) == old(self).meta_of(
                    p,
                ),
            forall|a: PageId, b: PageId|
                final(self).bl_has(a, b) <==> (old(self).bl_has(a, b) && b != id) || (b == id
                    && meta.links@.contains(a)),
            forall|t: Seq<char>, p: PageId|
                final(self).title_has(t, p) <==> (old(self).title_has(t, p) && p != id) || (p == id
                    && meta.title_view() == Some(t)),
    {
        let links = ids_copy(&meta.links);
        let title: Option<String> = match &meta.title {
            Some(t) => Some(t.clone()),
            None => None,
        };
        proof {
            assert(match title {
                Some(t) => meta.title_view() == Some(t@),
                None => meta.title_view() is None,
            });
        }
        let mut bl: Vec<(PageId, Vec<PageId>)> = Vec::new();
        core::mem::swap(&mut bl, &mut self.backlinks);
        let bl = strip_sources(bl, &id);
        self.backlinks = bl;
        let mut ts: Vec<(String, Vec<PageId>)> = Vec::new();
        core::mem::swap(&mut ts, &mut self.page_titles);
        let ts = strip_title_sources(ts, &id);
        self.page_titles = ts;
        put_meta(&mut self.page_metas, id, meta);
        let ghost stripped_bl = self.backlinks@;
        let ghost metas_snap = self.page_metas@;
        let ghost titles_snap = self.page_titles@;
        let n = links.len();
        let mut k: usize = 0;
        while k < n
            invariant
                k <= n,
                n == links@.len(),
                links@ == meta.links@,
                meta.wf(),
                id.wf(),
                src_wf(self.backlinks@),
                self.page_metas@ == metas_snap,
                self.page_titles@ == titles_snap,
                forall|a: PageId, b: PageId|
                    #![trigger src_has(self.backlinks@, a, b)]
                    src_has(self.backlinks@, a, b) <==> src_has(stripped_bl, a, b) || (b == id
                        && links@.take(k as int).contains(a)),
            decreases n - k,
        {
            add_source(&mut self.backlinks, &links[k], id);
            proof {
                assert(links@.take(k + 1) =~= links@.take(k as int).push(links@[k as int]));
                assert forall|a: PageId|
                    links@.take(k + 1).contains(a) <==> links@.take(k as int).contains(a) || a
                        == links@[k as int] by {
                    if links@.take(k + 1).contains(a) {
                        let j = choose|j: int|
                            0 <= j < k + 1 && #[trigger] links@.take(k + 1)[j] == a;
                        if j < k {
                            assert(links@.take(k as int)[j] == a);
                        }
                    }
                    if links@.take(k as int).contains(a) {
                        let j = choose|j: int|
                            0 <= j < k && #[trigger] links@.take(k as int)[j] == a;
                        assert(links@.take(k + 1)[j] == a);
                    }
                    if a == links@[k as int] {
                        assert(links@.take(k + 1)[k as int] == a);
                    }
                }
            }
            k += 1;
        }
        proof {
            assert(links@.take(n as int) =~= links@);
        }
        match title {
            Some(t) => {
                add_title_source(&mut self.page_titles, t, id);
            },
            None => {},
        }
        proof {
            let o = old(self);
            assert forall|t: Seq<char>, p: PageId|
                tset_has(self.page_titles@, t, p) <==> (tset_has(o.page_titles@, t, p) && p != id)
                    || (p == id && meta.title_view() == Some(t)) by {}
            assert forall|a: PageId, b: PageId|
                src_has(self.backlinks@, a, b) <==> (src_has(o.backlinks@, a, b) && b != id) || (b
                    == id && meta.links@.contains(a)) by {
                assert(src_has(self.backlinks@, a, b) <==> src_has(stripped_bl, a, b) || (b == id
                    && meta.links@.contains(a)));
                assert(src_has(stripped_bl, a, b) <==> src_has(o.backlinks@, a, b) && b != id);
            }
            assert forall|i: int, k2: int|
                0 <= i < self.backlinks@.len() && 0 <= k2 < self.backlinks@[i].1@.len() implies {
                let b = #[trigger] self.backlinks@[i].1@[k2];
                self.has_page(b) && self.links_of(b).contains(self.backlinks@[i].0)
            } by {
                let b = self.backlinks@[i].1@[k2];
                let a = self.backlinks@[i].0;
                assert(self.backlinks@[i].1@.contains(b));
                assert(src_has(self.backlinks@, a, b));
                if b == id {
                    assert(meta.links@.contains(a));
                    assert(self.meta_of(id) == meta);
                } else {
                    assert(src_has(o.backlinks@, a, b));
                    let oi = choose|oi: int|
                        0 <= oi < o.backlinks@.len() && (#[trigger] o.backlinks@[oi]).0 == a
                            && o.backlinks@[oi].1@.contains(b);
                    let ok = choose|ok: int|
                        0 <= ok < o.backlinks@[oi].1@.len() && o.backlinks@[oi].1@[ok] == b;
                    assert(o.has_page(o.backlinks@[oi].1@[ok]));
                    assert(o.has_page(b) && o.links_of(b).contains(a));
                    assert(self.meta_of(b) == o.meta_of(b));
                }
            }
            assert forall|j: int, k2: int|
                0 <= j < self.page_metas@.len() && 0 <= k2
                    < self.page_metas@[j].1.links@.len() implies src_has(
                self.backlinks@,
                #[trigger] self.page_metas@[j].1.links@[k2],
                self.page_metas@[j].0,
            ) by {
                let b = self.page_metas@[j].0;
                let a = self.page_metas@[j].1.links@[k2];
                lemma_metas_entry(self.page_metas@, j);
                assert(self.has_page(b));
                if b == id {
                    assert(self.page_metas@[j].1 == meta);
                    assert(meta.links@.contains(a));
                } else {
                    assert(o.has_page(b));
                    assert(self.meta_of(b) == o.meta_of(b));
                    let oj = choose|oj: int|
                        0 <= oj < o.page_metas@.len() && (#[trigger] o.page_metas@[oj]).0 == b;
                    lemma_metas_entry(o.page_metas@, oj);
                    assert(o.page_metas@[oj].1 == self.page_metas@[j].1);
                    assert(src_has(
                        o.backlinks@,
                        o.page_metas@[oj].1.links@[k2],
                        o.page_metas@[oj].0,
                    ));
                }
            }
            assert forall|i: int, k2: int|
                0 <= i < self.page_titles@.len() && 0 <= k2
                    < self.page_titles@[i].1@.len() implies {
                let b = #[trigger] self.page_titles@[i].1@[k2];
                self.has_page(b) && self.title_of(b) == Some(self.page_titles@[i].0@)
            } by {
                let b = self.page_titles@[i].1@[k2];
                let t = self.page_titles@[i].0@;
                assert(self.page_titles@[i].1@.contains(b));
                assert(tset_has(self.page_titles@, t, b));
                if b == id {
                    assert(meta.title_view() == Some(t));
                    assert(self.meta_of(id) == meta);
                } else {
                    assert(tset_has(o.page_titles@, t, b));
                    let oi = choose|oi: int|
                        0 <= oi < o.page_titles@.len() && (#[trigger] o.page_titles@[oi]).0@ == t
                            && o.page_titles@[oi].1@.contains(b);
                    let ok = choose|ok: int|
                        0 <= ok < o.page_titles@[oi].1@.len() && o.page_titles@[oi].1@[ok] == b;
                    assert(o.has_page(o.page_titles@[oi].1@[ok]));
                    assert(o.has_page(b) && o.title_of(b) == Some(t));
                    assert(self.meta_of(b) == o.meta_of(b));
                }
            }
            assert forall|j: int|
                0 <= j < self.page_metas@.len() implies match (
            #[trigger] self.page_metas@[j]).1.title_view() {
                Some(t) => tset_has(self.page_titles@, t, self.page_metas@[j].0),
                None => true,
            } by {
                let b = self.page_metas@[j].0;
                lemma_metas_entry(self.page_metas@, j);
                assert(self.has_page(b));
                if b == id {
                    assert(self.page_metas@[j].1 == meta);
                } else {
                    assert(o.has_page(b));
                    assert(self.meta_of(b) == o.meta_of(b));
                    let oj = choose|oj: int|
                        0 <= oj < o.page_metas@.len() && (#[trigger] o.page_metas@[oj]).0 == b;
                    lemma_metas_entry(o.page_metas@, oj);
                    assert(o.page_metas@[oj].1 == self.page_metas@[j].1);
                    match self.page_metas@[j].1.title_view() {
                        Some(t) => {
                            assert(tset_has(o.page_titles@, t, b));
                            assert(tset_has(self.page_titles@, t, b));
                        },
                        None => {},
                    }
                }
            }
        }
    }

    /// What one `update` call does to the index, stated over the spec
    /// views: the page's entry now carries exactly the given title and
    /// links, every other entry is untouched, and the derived backlink
    /// and title structures change only in the rows owned by that page.
    pub open spec fn update_step(
        pre: Index,
        post: Index,
        id: PageId,
        title: Option<Seq<char>>,
        links: Set<PageId>,
    ) -> bool {
        &&& forall|p: PageId| post.has_page(p) <==> pre.has_page(p) || p == id
        &&& post.has_page(id)
        &&& post.title_of(id) == title
        &&& post.links_of(id) == links
        &&& forall|p: PageId|
            p != id && pre.has_page(p) ==> post.meta_of(p) == pre.meta_of(p)
        &&& forall|a: PageId, b: PageId|
            post.bl_has(a, b) <==> (pre.bl_has(a, b) && b != id) || (b == id && links.contains(a))
        &&& forall|t: Seq<char>, p: PageId|
            post.title_has(t, p) <==> (pre.title_has(t, p) && p != id) || (p == id && title
                == Some(t))
    }

    /// Re-derive and replace the metadata of one page from its current
    /// source text, as a single logical transaction against all three
    /// structures.
    pub fn update(&mut self, page_id: &PageId, content: &str)
        requires
            old(self).wf(),
            page_id.wf(),
        ensures
            final(self).wf(),
            Index::update_step(
                *old(self),
                *final(self),
                *page_id,
                crate::page_meta::spec_title(content@),
                crate::page_meta::spec_links(content@),
            ),
    {
        let meta = PageMeta::from_markdown(content);
        self.set_meta(*page_id, meta);
        proof {
            assert forall|a: PageId| meta.links@.contains(a) <==> crate::page_meta::spec_links(
                content@,
            ).contains(a) by {
                assert(meta.links_set().contains(a) == meta.links@.contains(a));
            }
        }
    }

    /// Build an index from a listing of all pages with their source
    /// texts, as the startup rebuild does. The identifiers must be
    /// pairwise distinct.
    pub fn new(pages: &Vec<(PageId, String)>) -> (r: Index)
        requires
            forall|i: int, j: int|
                0 <= i < j < pages@.len() ==> (#[trigger] pages@[i]).0 != (#[trigger] pages@[j]).0,
            forall|i: int| 0 <= i < pages@.len() ==> (#[trigger] pages@[i]).0.wf(),
        ensures
            r.wf(),
            forall|p: PageId|
                r.has_page(p) <==> exists|i: int|
                    0 <= i < pages@.len() && (#[trigger] pages@[i]).0 == p,
            forall|i: int|
                0 <= i < pages@.len() ==> r.title_of((#[trigger] pages@[i]).0)
                    == crate::page_meta::spec_title(pages@[i].1@) && r.links_of(pages@[i].0)
                    == crate::page_meta::spec_links(pages@[i].1@),
    {
        let mut r = Index::empty();
        let n = pages.len();
        let mut k: usize = 0;
        while k < n
            invariant
                r.wf(),
                k <= n,
                n == pages@.len(),
                forall|i: int, j: int|
                    0 <= i < j < pages@.len() ==> (#[trigger] pages@[i]).0 != (
                    #[trigger] pages@[j]).0,
                forall|i: int| 0 <= i < pages@.len() ==> (#[trigger] pages@[i]).0.wf(),
                forall|p: PageId|
                    r.has_page(p) <==> exists|i: int|
                        0 <= i < k && (#[trigger] pages@[i]).0 == p,
                forall|i: int|
                    0 <= i < k ==> r.title_of((#[trigger] pages@[i]).0)
                        == crate::page_meta::spec_title(pages@[i].1@) && r.links_of(pages@[i].0)
                        == crate::page_meta::spec_links(pages@[i].1@),
            decreases n - k,
        {
            let e = &pages[k];
            let ghost r_pre = r;
            r.update(&e.0, e.1.as_str());
            proof {
                assert forall|p: PageId| r.has_page(p) implies exists|i: int|
                    0 <= i < k + 1 && (#[trigger] pages@[i]).0 == p by {
                    if p == pages@[k as int].0 {
                        assert(pages@[k as int].0 == p);
                    } else {
                        let i = choose|i: int| 0 <= i < k && (#[trigger] pages@[i]).0 == p;
                    }
                }
                assert forall|i: int|
                    0 <= i < k + 1 implies r.title_of((#[trigger] pages@[i]).0)
                    == crate::page_meta::spec_title(pages@[i].1@) && r.links_of(pages@[i].0)
                    == crate::page_meta::spec_links(pages@[i].1@) by {
                    if i < k {
                        assert(pages@[i].0 != pages@[k as int].0);
                        assert(r.meta_of(pages@[i].0) == r_pre.meta_of(pages@[i].0));
                    }
                }
            }
            k += 1;
        }
        r
    }

    /// Backlink inversion: `b` is recorded as a backlink of `a` if and
    /// only if `b` is a known page whose metadata links to `a`. This holds
    /// of every well-formed index, hence after any sequence of mutations.
    pub proof fn lemma_backlink_inversion(&self, a: PageId, b: PageId)
        requires
            self.wf(),
        ensures
            self.bl_has(a, b) <==> self.has_page(b) && self.links_of(b).contains(a),
    {
        if self.bl_has(a, b) {
            let i = choose|i: int|
                0 <= i < self.backlinks@.len() && (#[trigger] self.backlinks@[i]).0 == a
                    && self.backlinks@[i].1@.contains(b);
            let k = choose|k: int|
                0 <= k < self.backlinks@[i].1@.len() && self.backlinks@[i].1@[k] == b;
            assert(self.has_page(self.backlinks@[i].1@[k]));
        }
        if self.has_page(b) && self.links_of(b).contains(a) {
            let j = choose|j: int|
                0 <= j < self.page_metas@.len() && (#[trigger] self.page_metas@[j]).0 == b;
            lemma_metas_entry(self.page_metas@, j);
            assert(self.page_metas@[j].1.links@.contains(a));
            let k = choose|k: int|
                0 <= k < self.page_metas@[j].1.links@.len() && self.page_metas@[j].1.links@[k]
                    == a;
            assert(src_has(self.backlinks@, self.page_metas@[j].1.links@[k], b));
        }
    }

    /// Title pruning: a title is a key of the title index if and only if
    /// some page is recorded under it — empty title sets never linger.
    pub proof fn lemma_title_key_nonempty(&self, t: Seq<char>)
        requires
            self.wf(),
        ensures
            self.has_title_key(t) <==> exists|p: PageId| self.title_has(t, p),
    {
        if self.has_title_key(t) {
            let i = choose|i: int|
                0 <= i < self.page_titles@.len() && (#[trigger] self.page_titles@[i]).0@ == t;
            assert(self.page_titles@[i].1@.len() > 0);
            let p = self.page_titles@[i].1@[0];
            assert(self.page_titles@[i].1@.contains(p));
            assert(self.title_has(t, p));
        }
    }

    /// Title inversion: page `p` is recorded under title `t` if and only
    /// if `p` is a known page whose metadata carries that title.
    pub proof fn lemma_title_inversion(&self, t: Seq<char>, p: PageId)
        requires
            self.wf(),
        ensures
            self.title_has(t, p) <==> self.has_page(p) && self.title_of(p) == Some(t),
    {
        if self.title_has(t, p) {
            let i = choose|i: int|
                0 <= i < self.page_titles@.len() && (#[trigger] self.page_titles@[i]).0@ == t
                    && self.page_titles@[i].1@.contains(p);
            let k = choose|k: int|
                0 <= k < self.page_titles@[i].1@.len() && self.page_titles@[i].1@[k] == p;
            assert(self.has_page(self.page_titles@[i].1@[k]));
        }
        if self.has_page(p) && self.title_of(p) == Some(t) {
            let j = choose|j: int|
                0 <= j < self.page_metas@.len() && (#[trigger] self.page_metas@[j]).0 == p;
            lemma_metas_entry(self.page_metas@, j);
            assert(self.page_metas@[j].1.title_view() == Some(t));
        }
    }
}

/// Idempotence: updating a page twice with unchanged content leaves the
/// index exactly as one update does. Both calls take the same step, and
/// a second step from the state the first produced changes nothing: the
/// two states agree on every page, every piece of metadata, every
/// backlink and every title entry.
pub proof fn lemma_update_idempotent(
    i0: Index,
    i1: Index,
    i2: Index,
    id: PageId,
    title: Option<Seq<char>>,
    links: Set<PageId>,
)
    requires
        Index::update_step(i0, i1, id, title, links),
        Index::update_step(i1, i2, id, title, links),
    ensures
        forall|p: PageId| i2.has_page(p) <==> i1.has_page(p),
        i2.title_of(id) == i1.title_of(id) && i2.links_of(id) == i1.links_of(id),
        forall|p: PageId| p != id && i1.has_page(p) ==> i2.meta_of(p) == i1.meta_of(p),
        forall|a: PageId, b: PageId| i2.bl_has(a, b) <==> i1.bl_has(a, b),
        forall|t: Seq<char>, p: PageId| i2.title_has(t, p) <==> i1.title_has(t, p),
{
    assert forall|a: PageId, b: PageId| i2.bl_has(a, b) <==> i1.bl_has(a, b) by {
        if b == id {
            assert(i1.bl_has(a, id) <==> links.contains(a));
        }
    }
    assert forall|t: Seq<char>, p: PageId| i2.title_has(t, p) <==> i1.title_has(t, p) by {
        if p == id {
            assert(i1.title_has(t, id) <==> title == Some(t));
        }
    }
}

} // verus!

//! Helpers on vectors of page identifiers kept strictly ascending, the
//! executable form the index uses for every set of identifiers.

use crate::page_id::PageId;
use vstd::prelude::*;

verus! {

/// The identifiers are strictly ascending (hence also duplicate-free).
pub open spec fn ids_sorted(s: Seq<PageId>) -> bool {
    forall|i: int, j: int| 0 <= i < j < s.len() ==> s[i].raw() < s[j].raw()
}

/// Every identifier in the sequence is well formed.
pub open spec fn ids_wf(s: Seq<PageId>) -> bool {
    forall|i: int| 0 <= i < s.len() ==> (#[trigger] s[i]).wf()
}

/// Two identifiers with the same packed digits are equal.
pub proof fn lemma_raw_injective(a: PageId, b: PageId)
    requires
        a.raw() == b.raw(),
    ensures
        a == b,
{
    crate::page_id::lemma_raw_eq(a, b);
}

/// Insert `x` into the ascending vector `v`, keeping it ascending; a
/// no-op when `x` is already present.
pub fn ids_insert(v: &mut Vec<PageId>, x: PageId)
    requires
        ids_sorted(old(v)@),
        ids_wf(old(v)@),
        x.wf(),
    ensures
        ids_sorted(final(v)@),
        ids_wf(final(v)@),
        forall|b: PageId| final(v)@.contains(b) <==> old(v)@.contains(b) || b == x,
        final(v)@.len() > 0,
{
    let mut i: usize = 0;
    while i < v.len() && v[i].lt(&x)
        invariant
            i <= v@.len(),
            forall|k: int| 0 <= k < i ==> v@[k].raw() < x.raw(),
        decreases v@.len() - i,
    {
        i += 1;
    }
    if i < v.len() && v[i] == x {
        proof {
            assert(v@.contains(x));
        }
        return ;
    }
    proof {
        if i < v@.len() {
            assert(v@[i as int].raw() >= x.raw());
            if v@[i as int].raw() == x.raw() {
                lemma_raw_injective(v@[i as int], x);
                assert(false);
            }
        }
    }
    v.insert(i, x);
    proof {
        assert forall|b: PageId| v@.contains(b) implies old(v)@.contains(b) || b == x by {
            let k = choose|k: int| 0 <= k < v@.len() && v@[k] == b;
            if k < i {
                assert(old(v)@[k] == b);
            } else if k > i {
                assert(old(v)@[k - 1] == b);
            }
        }
        assert forall|b: PageId| old(v)@.contains(b) implies v@.contains(b) by {
            let k = choose|k: int| 0 <= k < old(v)@.len() && old(v)@[k] == b;
            if k < i {
                assert(v@[k] == b);
            } else {
                assert(v@[k + 1] == b);
            }
        }
        assert(v@.contains(x)) by {
            assert(v@[i as int] == x);
        }
    }
}

/// Remove `x` from the ascending vector `v`, if present.
pub fn ids_remove(v: &mut Vec<PageId>, x: &PageId)
    requires
        ids_sorted(old(v)@),
        ids_wf(old(v)@),
    ensures
        ids_sorted(final(v)@),
        ids_wf(final(v)@),
        forall|b: PageId| final(v)@.contains(b) <==> old(v)@.contains(b) && b != *x,
{
    let mut i: usize = 0;
    while i < v.len()
        invariant
            i <= v@.len(),
            v@ == old(v)@,
            ids_sorted(old(v)@),
            ids_wf(old(v)@),
            forall|k: int| 0 <= k < i ==> v@[k] != *x,
        decreases v@.len() - i,
    {
        if v[i] == *x {
            proof {
                assert(old(v)@[i as int] == *x);
            }
            v.remove(i);
            proof {
                assert(v@ =~= old(v)@.remove(i as int));
                assert forall|a: int, c: int| 0 <= a < c < v@.len() implies v@[a].raw()
                    < v@[c].raw() by {
                    if c < i {
                        assert(old(v)@[a] == v@[a] && old(v)@[c] == v@[c]);
                        assert(old(v)@[a].raw() < old(v)@[c].raw());
                    } else if a < i {
                        assert(old(v)@[a] == v@[a] && old(v)@[c + 1] == v@[c]);
                        assert(old(v)@[a].raw() < old(v)@[c + 1].raw());
                    } else {
                        assert(old(v)@[a + 1] == v@[a] && old(v)@[c + 1] == v@[c]);
                        assert(old(v)@[a + 1].raw() < old(v)@[c + 1].raw());
                    }
                }
                assert forall|k: int| 0 <= k < v@.len() implies (#[trigger] v@[k]).wf() by {
                    if k < i {
                        assert(old(v)@[k] == v@[k]);
                        assert(old(v)@[k].wf());
                    } else {
                        assert(old(v)@[k + 1] == v@[k]);
                        assert(old(v)@[k + 1].wf());
                    }
                }
                assert forall|b: PageId| v@.contains(b) implies old(v)@.contains(b) && b != *x by {
                    let k = choose|k: int| 0 <= k < v@.len() && v@[k] == b;
                    if k < i {
                        assert(old(v)@[k] == b);
                        assert(b != *x);
                    } else {
                        assert(old(v)@[k + 1] == b);
                        if b == *x {
                            assert(old(v)@[i as int].raw() < old(v)@[k + 1].raw());
                            assert(false);
                        }
                    }
                }
                assert forall|b: PageId| old(v)@.contains(b) && b != *x implies v@.contains(
                    b,
                ) by {
                    let k = choose|k: int| 0 <= k < old(v)@.len() && old(v)@[k] == b;
                    if k < i {
                        assert(v@[k] == b);
                    } else {
                        assert(k != i);
                        assert(v@[k - 1] == b);
                    }
                }
            }
            return ;
        }
        i += 1;
    }
    proof {
        assert forall|b: PageId| old(v)@.contains(b) implies b != *x by {
            let k = choose|k: int| 0 <= k < old(v)@.len() && old(v)@[k] == b;
        }
    }
}

/// Copy an identifier vector.
pub fn ids_copy(v: &Vec<PageId>) -> (r: Vec<PageId>)
    ensures
        r@ == v@,
{
    let mut r: Vec<PageId> = Vec::new();
    let mut i: usize = 0;
    while i < v.len()
        invariant
            i <= v@.len(),
            r@ == v@.take(i as int),
        decreases v@.len() - i,
    {
        r.push(v[i]);
        proof {
            assert(r@ =~= v@.take(i + 1));
        }
        i += 1;
    }
    proof {
        assert(r@ =~= v@);
    }
    r
}

} // verus!

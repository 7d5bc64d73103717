//! Character-level string helpers shared by the index and the query
//! matcher.

use vstd::prelude::*;

verus! {

/// Character-by-character string equality.
pub fn str_eq(a: &str, b: &str) -> (r: bool)
    ensures
        r == (a@ == b@),
{
    let alen = a.unicode_len();
    let blen = b.unicode_len();
    if alen != blen {
        proof {
            assert(a@ != b@);
        }
        return false;
    }
    let mut i: usize = 0;
    while i < alen
        invariant
            i <= alen,
            alen == a@.len(),
            blen == b@.len(),
            alen == blen,
            forall|k: int| 0 <= k < i ==> a@[k] == b@[k],
        decreases alen - i,
    {
        if a.get_char(i) != b.get_char(i) {
            proof {
                assert(a@[i as int] != b@[i as int]);
            }
            return false;
        }
        i += 1;
    }
    proof {
        assert(a@ =~= b@);
    }
    true
}

/// `a` orders strictly before `b` at witness position `i`: the two agree
/// before `i`, and there `a` either ends or carries the smaller code
/// point.
pub open spec fn lex_lt_at(a: Seq<char>, b: Seq<char>, i: int) -> bool {
    &&& 0 <= i <= a.len()
    &&& i <= b.len()
    &&& forall|k: int| 0 <= k < i ==> a[k] == b[k]
    &&& ((i == a.len() && i < b.len()) || (i < a.len() && i < b.len() && (a[i] as u32) < (
    b[i] as u32)))
}

/// Strict lexicographic order on character sequences, by code point —
/// the order `String` comparison gives.
pub open spec fn lex_lt(a: Seq<char>, b: Seq<char>) -> bool {
    exists|i: int| #[trigger] lex_lt_at(a, b, i)
}

/// Lexicographic order is transitive.
pub proof fn lemma_lex_trans(a: Seq<char>, b: Seq<char>, c: Seq<char>)
    requires
        lex_lt(a, b),
        lex_lt(b, c),
    ensures
        lex_lt(a, c),
{
    let i = choose|i: int| #[trigger] lex_lt_at(a, b, i);
    let j = choose|j: int| #[trigger] lex_lt_at(b, c, j);
    if i < j {
        assert forall|k: int| 0 <= k < i implies a[k] == c[k] by {
            assert(a[k] == b[k] && b[k] == c[k]);
        }
        if i == a.len() {
            assert(lex_lt_at(a, c, i));
        } else {
            assert(b[i] == c[i]);
            assert(lex_lt_at(a, c, i));
        }
    } else if j < i {
        assert forall|k: int| 0 <= k < j implies a[k] == c[k] by {
            assert(a[k] == b[k] && b[k] == c[k]);
        }
        assert(j < b.len());
        assert(a[j] == b[j]);
        assert(lex_lt_at(a, c, j));
    } else {
        assert forall|k: int| 0 <= k < i implies a[k] == c[k] by {
            assert(a[k] == b[k] && b[k] == c[k]);
        }
        if i == a.len() {
            assert(lex_lt_at(a, c, i));
        } else {
            assert(i < b.len());
            assert((b[i] as u32) < (c[i] as u32));
            assert(lex_lt_at(a, c, i));
        }
    }
}

/// The three-way outcome of comparing two strings.
pub enum StrOrder {
    Before,
    Equal,
    After,
}

/// Character-by-character three-way lexicographic comparison.
pub fn str_cmp(a: &str, b: &str) -> (r: StrOrder)
    ensures
        match r {
            StrOrder::Before => lex_lt(a@, b@),
            StrOrder::Equal => a@ == b@,
            StrOrder::After => lex_lt(b@, a@),
        },
{
    let alen = a.unicode_len();
    let blen = b.unicode_len();
    let mut i: usize = 0;
    while i < alen && i < blen
        invariant
            i <= alen,
            i <= blen,
            alen == a@.len(),
            blen == b@.len(),
            forall|k: int| 0 <= k < i ==> a@[k] == b@[k],
        decreases alen - i,
    {
        let ca = a.get_char(i);
        let cb = b.get_char(i);
        if ca != cb {
            if (ca as u32) < (cb as u32) {
                proof {
                    assert(lex_lt_at(a@, b@, i as int));
                }
                return StrOrder::Before;
            } else {
                proof {
                    assert((cb as u32) < (ca as u32));
                    assert(lex_lt_at(b@, a@, i as int));
                }
                return StrOrder::After;
            }
        }
        i += 1;
    }
    if alen < blen {
        proof {
            assert(lex_lt_at(a@, b@, alen as int));
        }
        StrOrder::Before
    } else if blen < alen {
        proof {
            assert(lex_lt_at(b@, a@, blen as int));
        }
        StrOrder::After
    } else {
        proof {
            assert(a@ =~= b@);
        }
        StrOrder::Equal
    }
}

/// Nothing orders strictly before itself.
pub proof fn lemma_lex_irrefl(a: Seq<char>)
    ensures
        !lex_lt(a, a),
{
    if lex_lt(a, a) {
        let i = choose|i: int| #[trigger] lex_lt_at(a, a, i);
        assert(false);
    }
}

/// Whether `a` orders strictly before `b`.
pub fn str_lt(a: &str, b: &str) -> (r: bool)
    ensures
        r == lex_lt(a@, b@),
{
    match str_cmp(a, b) {
        StrOrder::Before => true,
        StrOrder::Equal => {
            proof {
                lemma_lex_irrefl(a@);
            }
            false
        },
        StrOrder::After => {
            proof {
                if lex_lt(a@, b@) {
                    lemma_lex_trans(a@, b@, a@);
                    lemma_lex_irrefl(a@);
                }
            }
            false
        },
    }
}

} // verus!

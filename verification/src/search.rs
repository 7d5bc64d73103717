//! Full-text query matching.
//!
//! A page matches a query when every whitespace-separated token of the
//! lower-cased query occurs as a substring of the lower-cased content:
//! boolean AND semantics, case-insensitive, whitespace-insensitive.

use vstd::prelude::*;

verus! {

/// A Unicode whitespace character, the set `str::split_whitespace`
/// separates on.
pub open spec fn is_space_char(c: char) -> bool {
    let u = c as u32;
    ||| u == 0x09
    ||| u == 0x0A
    ||| u == 0x0B
    ||| u == 0x0C
    ||| u == 0x0D
    ||| u == 0x20
    ||| u == 0x85
    ||| u == 0xA0
    ||| u == 0x1680
    ||| (0x2000 <= u <= 0x200A)
    ||| u == 0x2028
    ||| u == 0x2029
    ||| u == 0x202F
    ||| u == 0x205F
    ||| u == 0x3000
}

/// `needle` occurs contiguously somewhere in `hay`.
pub open spec fn is_substring(needle: Seq<char>, hay: Seq<char>) -> bool {
    exists|k: int|
        0 <= k && k + needle.len() <= hay.len() && #[trigger] hay.subrange(k, k + needle.len())
            == needle
}

/// `[i, j)` is a maximal run of non-whitespace characters of `q`: one
/// token of the query.
pub open spec fn token_run(q: Seq<char>, i: int, j: int) -> bool {
    &&& 0 <= i < j <= q.len()
    &&& forall|k: int| i <= k < j ==> !is_space_char(#[trigger] q[k])
    &&& i == 0 || is_space_char(q[i - 1])
    &&& j == q.len() || is_space_char(q[j])
}

/// Every token of `q` occurs as a substring of `c`.
pub open spec fn spec_match(c: Seq<char>, q: Seq<char>) -> bool {
    forall|i: int, j: int| #[trigger] token_run(q, i, j) ==> is_substring(q.subrange(i, j), c)
}

/// The lower-cased form of a string, as `str::to_lowercase` computes it;
/// it depends on the characters alone.
pub uninterp spec fn lower_of(s: Seq<char>) -> Seq<char>;

/// Relies on `str::to_lowercase`: the full Unicode lowercase mapping of
/// the string, a function of its characters alone.
#[verifier::external_body]
fn to_lowercase(s: &str) -> (r: String)
    ensures
        r@ == lower_of(s@),
{
    s.to_lowercase()
}

/// Whether a character separates tokens.
fn is_space(c: char) -> (r: bool)
    ensures
        r == is_space_char(c),
{
    let u = c as u32;
    u == 0x09 || u == 0x0A || u == 0x0B || u == 0x0C || u == 0x0D || u == 0x20 || u == 0x85 || u
        == 0xA0 || u == 0x1680 || (0x2000 <= u && u <= 0x200A) || u == 0x2028 || u == 0x2029 || u
        == 0x202F || u == 0x205F || u == 0x3000
}

/// Whether `c[k .. k + m]` equals `q[i .. i + m]`.
fn match_at(c: &str, q: &str, k: usize, i: usize, m: usize) -> (r: bool)
    requires
        k + m <= c@.len(),
        i + m <= q@.len(),
        k + m <= usize::MAX,
        i + m <= usize::MAX,
    ensures
        r == (c@.subrange(k as int, k + m) == q@.subrange(i as int, i + m)),
{
    let mut t: usize = 0;
    while t < m
        invariant
            t <= m,
            k + m <= c@.len(),
            i + m <= q@.len(),
            k + m <= usize::MAX,
            i + m <= usize::MAX,
            forall|u: int| 0 <= u < t ==> #[trigger] c@[k + u] == q@[i + u],
        decreases m - t,
    {
        if c.get_char(k + t) != q.get_char(i + t) {
            proof {
                assert(c@.subrange(k as int, k + m)[t as int] != q@.subrange(i as int, i + m)[
                t as int]);
            }
            return false;
        }
        t += 1;
    }
    proof {
        assert forall|u: int| 0 <= u < m implies #[trigger] c@.subrange(k as int, k + m)[u]
            == q@.subrange(i as int, i + m)[u] by {
            assert(c@[k + u] == q@[i + u]);
        }
        assert(c@.subrange(k as int, k + m) =~= q@.subrange(i as int, i + m));
    }
    true
}

/// Whether the token `q[i .. j]` occurs as a substring of `c`.
fn run_is_substring(c: &str, q: &str, i: usize, j: usize) -> (r: bool)
    requires
        i <= j <= q@.len(),
    ensures
        r == is_substring(q@.subrange(i as int, j as int), c@),
{
    let ghost needle = q@.subrange(i as int, j as int);
    let m = j - i;
    let clen = c.unicode_len();
    if m > clen {
        proof {
            if is_substring(needle, c@) {
                let k = choose|k: int|
                    0 <= k && k + needle.len() <= c@.len() && #[trigger] c@.subrange(
                        k,
                        k + needle.len(),
                    ) == needle;
                assert(false);
            }
        }
        return false;
    }
    if m == 0 {
        proof {
            assert(needle.len() == 0);
            assert(c@.subrange(0, 0 + needle.len() as int) =~= needle);
            assert(is_substring(needle, c@));
        }
        return true;
    }
    let mut k: usize = 0;
    while k <= clen - m
        invariant
            1 <= m <= clen,
            clen == c@.len(),
            i + m == j <= q@.len(),
            k <= clen - m + 1,
            needle == q@.subrange(i as int, j as int),
            forall|k2: int|
                0 <= k2 < k ==> #[trigger] c@.subrange(k2, k2 + m) != needle,
        decreases clen - k,
    {
        if match_at(c, q, k, i, m) {
            proof {
                assert(q@.subrange(i as int, i + m) =~= needle);
                assert(c@.subrange(k as int, k + needle.len()) == needle);
                assert(is_substring(needle, c@));
            }
            return true;
        }
        k += 1;
    }
    proof {
        if is_substring(needle, c@) {
            let k2 = choose|k2: int|
                0 <= k2 && k2 + needle.len() <= c@.len() && #[trigger] c@.subrange(
                    k2,
                    k2 + needle.len(),
                ) == needle;
            assert(needle.len() == m);
            assert(c@.subrange(k2, k2 + m) == needle);
            assert(k2 < k);
            assert(false);
        }
    }
    false
}

/// Whether already lower-cased content matches an already lower-cased
/// query: every whitespace-separated token of the query is a substring
/// of the content.
pub fn match_content_lower(c: &str, q: &str) -> (r: bool)
    ensures
        r == spec_match(c@, q@),
{
    let qlen = q.unicode_len();
    let mut pos: usize = 0;
    while pos < qlen
        invariant
            pos <= qlen,
            qlen == q@.len(),
            pos == 0 || pos >= qlen || is_space_char(q@[pos as int - 1]) || is_space_char(
                q@[pos as int],
            ),
            forall|i: int, j: int|
                #[trigger] token_run(q@, i, j) && i < pos ==> is_substring(q@.subrange(i, j), c@),
        decreases qlen - pos,
    {
        if is_space(q.get_char(pos)) {
            proof {
                assert forall|i: int, j: int|
                    #[trigger] token_run(q@, i, j) && i < pos + 1 implies is_substring(
                    q@.subrange(i, j),
                    c@,
                ) by {
                    if i == pos {
                        assert(!is_space_char(q@[i]));
                        assert(false);
                    }
                }
            }
            pos += 1;
        } else {
            let mut j: usize = pos + 1;
            while j < qlen && !is_space(q.get_char(j))
                invariant
                    pos < j <= qlen,
                    qlen == q@.len(),
                    forall|k: int| pos <= k < j ==> !is_space_char(#[trigger] q@[k]),
                decreases qlen - j,
            {
                j += 1;
            }
            proof {
                assert(token_run(q@, pos as int, j as int));
            }
            if !run_is_substring(c, q, pos, j) {
                proof {
                    assert(!spec_match(c@, q@));
                }
                return false;
            }
            proof {
                assert forall|i2: int, j2: int|
                    #[trigger] token_run(q@, i2, j2) && i2 < j implies is_substring(
                    q@.subrange(i2, j2),
                    c@,
                ) by {
                    if i2 >= pos {
                        if i2 > pos {
                            assert(!is_space_char(q@[i2 - 1]));
                            assert(false);
                        } else {
                            if j2 < j {
                                assert(!is_space_char(q@[j2]));
                                assert(false);
                            } else if j2 > j {
                                assert(j < qlen && is_space_char(q@[j as int]));
                                assert(!is_space_char(q@[j as int]));
                                assert(false);
                            }
                            assert(j2 == j);
                        }
                    }
                }
            }
            pos = j;
        }
    }
    proof {
        assert forall|i: int, j: int| #[trigger] token_run(q@, i, j) implies is_substring(
            q@.subrange(i, j),
            c@,
        ) by {
            assert(i < pos);
        }
    }
    true
}

/// Whether the content matches the query, both taken case-insensitively:
/// every whitespace-separated token of the lower-cased query must occur
/// in the lower-cased content.
pub fn match_content(content: &str, q: &str) -> (r: bool)
    ensures
        r == spec_match(lower_of(content@), lower_of(q@)),
{
    let c = to_lowercase(content);
    let ql = to_lowercase(q);
    match_content_lower(c.as_str(), ql.as_str())
}

} // verus!

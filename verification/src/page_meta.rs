//! Metadata derived from one page's markdown source.
//!
//! Extraction is a pure function of the text and never fails: a page
//! without a top-level heading has no title, a page without well-formed
//! wiki-links has no links. The title is the text after `# ` on the first
//! line that starts with it and stands outside fenced code blocks;
//! setext (`Title` over `===`) and indented headings are deliberately not
//! recognized. A wiki-link is `[[` followed by the sixteen-character text
//! form of a page identifier and `]]`, found anywhere in the raw source —
//! any other bracketed reference is ignored and passes through as
//! ordinary text.

use crate::ids::{ids_insert, ids_sorted, ids_wf};
use crate::page_id::{is_id_text, PageId};
use vstd::prelude::*;

verus! {

/// The number of characters before the first newline; the whole length
/// when there is none.
pub open spec fn first_line_len(s: Seq<char>) -> nat
    decreases s.len(),
{
    if s.len() == 0 {
        0
    } else if s[0] == '\n' {
        0
    } else {
        1 + first_line_len(s.drop_first())
    }
}

/// A line that opens or closes a fenced code block: it starts with three
/// backticks.
pub open spec fn is_fence_line(line: Seq<char>) -> bool {
    line.len() >= 3 && line[0] == '`' && line[1] == '`' && line[2] == '`'
}

/// The title of the remaining document, given whether it starts inside a
/// fenced code block: the text after `# ` on the first line that starts
/// with `# ` outside every fence, or nothing when no line does.
pub open spec fn spec_title_from(s: Seq<char>, in_fence: bool) -> Option<Seq<char>>
    decreases s.len(),
{
    let n = first_line_len(s) as int;
    if !in_fence && n >= 2 && s[0] == '#' && s[1] == ' ' {
        Some(s.subrange(2, n))
    } else if n >= s.len() {
        None
    } else {
        spec_title_from(
            s.subrange(n + 1, s.len() as int),
            if is_fence_line(s.subrange(0, n)) {
                !in_fence
            } else {
                in_fence
            },
        )
    }
}

/// The title of a document: the text after `# ` on the first line that
/// starts with `# ` outside fenced code blocks, or nothing when no line
/// does.
pub open spec fn spec_title(s: Seq<char>) -> Option<Seq<char>> {
    spec_title_from(s, false)
}

/// A wiki-link stands at position `i`: `[[`, the text form of a page
/// identifier, `]]`.
pub open spec fn link_at(s: Seq<char>, i: int) -> bool {
    &&& 0 <= i
    &&& i + 20 <= s.len()
    &&& s[i] == '['
    &&& s[i + 1] == '['
    &&& s[i + 18] == ']'
    &&& s[i + 19] == ']'
    &&& is_id_text(s.subrange(i + 2, i + 18))
}

/// The set of page identifiers wiki-linked from a document.
pub open spec fn spec_links(s: Seq<char>) -> Set<PageId> {
    Set::new(
        |p: PageId|
            p.wf() && exists|i: int| #[trigger] link_at(s, i) && p.text() == s.subrange(
                i + 2,
                i + 18,
            ),
    )
}

/// The first line really is `m` characters long when no newline stands
/// before `m` and either the text ends there or a newline follows.
proof fn lemma_first_line_len(u: Seq<char>, m: int)
    requires
        0 <= m <= u.len(),
        forall|j: int| 0 <= j < m ==> u[j] != '\n',
        m == u.len() || u[m] == '\n',
    ensures
        first_line_len(u) == m,
    decreases m,
{
    if m == 0 {
    } else {
        assert(u[0] != '\n');
        lemma_first_line_len(u.drop_first(), m - 1);
    }
}

/// What the index records about one page: the text of its first top-level
/// heading, if any, and the set of page identifiers it wiki-links to.
///
/// The metadata is derived wholesale from the page's source text and is
/// recomputed on every change; it is never edited in place.
pub struct PageMeta {
    /// Text of the first `# ` heading, if the page has one.
    pub title: Option<String>,
    /// The wiki-linked page identifiers, strictly ascending, no duplicates.
    pub links: Vec<PageId>,
}

impl PageMeta {
    /// The link vector is an ascending duplicate-free list of well-formed
    /// identifiers.
    pub open spec fn wf(&self) -> bool {
        ids_sorted(self.links@) && ids_wf(self.links@)
    }

    /// The title as a character sequence.
    pub open spec fn title_view(&self) -> Option<Seq<char>> {
        match self.title {
            Some(t) => Some(t@),
            None => None,
        }
    }

    /// The outgoing links as a set.
    pub open spec fn links_set(&self) -> Set<PageId> {
        self.links@.to_set()
    }

    /// Derive the metadata of a page from its markdown source. Pure and
    /// total: it yields exactly the specified title and link set.
    pub fn from_markdown(md: &str) -> (r: PageMeta)
        ensures
            r.wf(),
            r.title_view() == spec_title(md@),
            r.links_set() == spec_links(md@),
    {
        let title = extract_title(md);
        let links = extract_links(md);
        let r = PageMeta { title, links };
        proof {
            assert(r.links_set() =~= spec_links(md@));
        }
        r
    }
}

/// Scan for the first line starting with `# ` outside fenced code
/// blocks and return the text after the marker.
fn extract_title(md: &str) -> (r: Option<String>)
    ensures
        match r {
            Some(t) => spec_title(md@) == Some(t@),
            None => spec_title(md@) is None,
        },
{
    let len = md.unicode_len();
    proof {
        assert(md@.subrange(0, len as int) =~= md@);
    }
    let mut pos: usize = 0;
    let mut fence = false;
    loop
        invariant
            0 <= pos <= len,
            len == md@.len(),
            spec_title(md@) == spec_title_from(md@.subrange(pos as int, len as int), fence),
        decreases len - pos,
    {
        let ghost u = md@.subrange(pos as int, len as int);
        // find the end of the current line
        let mut e: usize = pos;
        while e < len && md.get_char(e) != '\n'
            invariant
                pos <= e <= len,
                len == md@.len(),
                forall|j: int| pos <= j < e ==> md@[j] != '\n',
            decreases len - e,
        {
            e += 1;
        }
        proof {
            assert forall|j: int| 0 <= j < e - pos implies u[j] != '\n' by {
                assert(u[j] == md@[pos + j]);
            }
            if e < len {
                assert(u[e - pos] == md@[e as int]);
            }
            lemma_first_line_len(u, e - pos);
        }
        if !fence && e - pos >= 2 && md.get_char(pos) == '#' && md.get_char(pos + 1) == ' ' {
            let t = md.substring_char(pos + 2, e);
            proof {
                assert(u[0] == md@[pos as int] && u[1] == md@[pos as int + 1]);
                assert(u.subrange(2, e - pos) =~= md@.subrange(pos + 2, e as int));
            }
            return Some(t.to_owned());
        }
        proof {
            if !fence && e - pos >= 2 {
                assert(u[0] == md@[pos as int]);
                assert(u[1] == md@[pos as int + 1]);
            }
            assert(!(!fence && first_line_len(u) as int >= 2 && u[0] == '#' && u[1] == ' '));
        }
        if e >= len {
            proof {
                assert(first_line_len(u) as int >= u.len());
                assert(spec_title_from(u, fence) is None);
            }
            return None;
        }
        let is_fence = e - pos >= 3 && md.get_char(pos) == '`' && md.get_char(pos + 1) == '`'
            && md.get_char(pos + 2) == '`';
        proof {
            let line = u.subrange(0, e - pos);
            if e - pos >= 3 {
                assert(line[0] == md@[pos as int] && line[1] == md@[pos as int + 1] && line[2]
                    == md@[pos as int + 2]);
            }
            assert(is_fence == is_fence_line(line));
            assert(u.subrange(e - pos + 1, u.len() as int) =~= md@.subrange(
                e + 1,
                len as int,
            ));
            assert(spec_title_from(u, fence) == spec_title_from(
                md@.subrange(e + 1, len as int),
                if is_fence {
                    !fence
                } else {
                    fence
                },
            ));
        }
        if is_fence {
            fence = !fence;
        }
        pos = e + 1;
    }
}

/// The wiki-link target at one position, if a well-formed link starts
/// there.
fn link_target(md: &str, i: usize) -> (r: Option<PageId>)
    requires
        i < md@.len(),
    ensures
        r is Some <==> link_at(md@, i as int),
        match r {
            Some(p) => p.wf() && p.text() == md@.subrange(i + 2, i + 18),
            None => true,
        },
{
    let len = md.unicode_len();
    if len - i < 20 {
        return None;
    }
    if md.get_char(i) != '[' || md.get_char(i + 1) != '[' || md.get_char(i + 18) != ']'
        || md.get_char(i + 19) != ']' {
        return None;
    }
    let inner = md.substring_char(i + 2, i + 18);
    proof {
        assert(inner@ =~= md@.subrange(i + 2, i + 18));
    }
    PageId::parse(inner)
}

/// Collecting the link found at position `i` extends a collection that
/// was complete below `i` to one complete below `i + 1`.
proof fn lemma_collect_step(s: Seq<char>, old_l: Seq<PageId>, new_l: Seq<PageId>, i: int, p: PageId)
    requires
        link_at(s, i),
        p.wf(),
        p.text() == s.subrange(i + 2, i + 18),
        forall|q: PageId|
            #![trigger old_l.contains(q)]
            old_l.contains(q) <==> q.wf() && exists|ii: int|
                ii < i && #[trigger] link_at(s, ii) && q.text() == s.subrange(ii + 2, ii + 18),
        forall|q: PageId| #![trigger new_l.contains(q)]
            new_l.contains(q) <==> old_l.contains(q) || q == p,
    ensures
        forall|q: PageId|
            #![trigger new_l.contains(q)]
            new_l.contains(q) <==> q.wf() && exists|ii: int|
                ii < i + 1 && #[trigger] link_at(s, ii) && q.text() == s.subrange(ii + 2, ii + 18),
{
    assert forall|q: PageId| new_l.contains(q) implies q.wf() && exists|ii: int|
        ii < i + 1 && #[trigger] link_at(s, ii) && q.text() == s.subrange(ii + 2, ii + 18) by {
        if q == p {
            assert(link_at(s, i) && q.text() == s.subrange(i + 2, i + 18));
        } else {
            assert(old_l.contains(q));
            let ii = choose|ii: int|
                ii < i && #[trigger] link_at(s, ii) && q.text() == s.subrange(ii + 2, ii + 18);
            assert(ii < i + 1 && link_at(s, ii) && q.text() == s.subrange(ii + 2, ii + 18));
        }
    }
    assert forall|q: PageId|
        (q.wf() && exists|ii: int|
            ii < i + 1 && #[trigger] link_at(s, ii) && q.text() == s.subrange(
                ii + 2,
                ii + 18,
            )) implies new_l.contains(q) by {
        let ii = choose|ii: int|
            ii < i + 1 && #[trigger] link_at(s, ii) && q.text() == s.subrange(ii + 2, ii + 18);
        if ii == i {
            crate::page_id::lemma_text_injective(q, p);
        }
    }
}

/// When no link starts at position `i`, a collection complete below `i`
/// is already complete below `i + 1`.
proof fn lemma_skip_step(s: Seq<char>, l: Seq<PageId>, i: int)
    requires
        !link_at(s, i),
        forall|q: PageId|
            #![trigger l.contains(q)]
            l.contains(q) <==> q.wf() && exists|ii: int|
                ii < i && #[trigger] link_at(s, ii) && q.text() == s.subrange(ii + 2, ii + 18),
    ensures
        forall|q: PageId|
            #![trigger l.contains(q)]
            l.contains(q) <==> q.wf() && exists|ii: int|
                ii < i + 1 && #[trigger] link_at(s, ii) && q.text() == s.subrange(ii + 2, ii + 18),
{
    assert forall|q: PageId|
        (q.wf() && exists|ii: int|
            ii < i + 1 && #[trigger] link_at(s, ii) && q.text() == s.subrange(
                ii + 2,
                ii + 18,
            )) implies l.contains(q) by {
        let ii = choose|ii: int|
            ii < i + 1 && #[trigger] link_at(s, ii) && q.text() == s.subrange(ii + 2, ii + 18);
        assert(ii != i);
        assert(ii < i && link_at(s, ii) && q.text() == s.subrange(ii + 2, ii + 18));
    }
    assert forall|q: PageId| l.contains(q) implies q.wf() && exists|ii: int|
        ii < i + 1 && #[trigger] link_at(s, ii) && q.text() == s.subrange(ii + 2, ii + 18) by {
        let ii = choose|ii: int|
            ii < i && #[trigger] link_at(s, ii) && q.text() == s.subrange(ii + 2, ii + 18);
        assert(ii < i + 1 && link_at(s, ii) && q.text() == s.subrange(ii + 2, ii + 18));
    }
}

/// Collect every well-formed wiki-link in the document, ascending and
/// duplicate free.
fn extract_links(md: &str) -> (r: Vec<PageId>)
    ensures
        ids_sorted(r@),
        ids_wf(r@),
        forall|p: PageId|
            #![trigger r@.contains(p)]
            r@.contains(p) <==> p.wf() && exists|i: int| #[trigger] link_at(md@, i) && p.text()
                == md@.subrange(i + 2, i + 18),
{
    let len = md.unicode_len();
    let mut links: Vec<PageId> = Vec::new();
    let mut i: usize = 0;
    while i < len
        invariant
            0 <= i <= len,
            len == md@.len(),
            ids_sorted(links@),
            ids_wf(links@),
            forall|p: PageId|
                #![trigger links@.contains(p)]
                links@.contains(p) <==> p.wf() && exists|ii: int|
                    ii < i && #[trigger] link_at(md@, ii) && p.text() == md@.subrange(
                        ii + 2,
                        ii + 18,
                    ),
        decreases len - i,
    {
        match link_target(md, i) {
            Some(p) => {
                let ghost old_l = links@;
                ids_insert(&mut links, p);
                proof {
                    lemma_collect_step(md@, old_l, links@, i as int, p);
                }
            },
            None => {
                proof {
                    lemma_skip_step(md@, links@, i as int);
                }
            },
        }
        i += 1;
    }
    proof {
        assert forall|p: PageId|
            (p.wf() && exists|ii: int| #[trigger] link_at(md@, ii) && p.text() == md@.subrange(
                ii + 2,
                ii + 18,
            )) implies links@.contains(p) by {
            let ii = choose|ii: int| #[trigger] link_at(md@, ii) && p.text() == md@.subrange(
                ii + 2,
                ii + 18,
            );
            assert(ii < len);
        }
    }
    links
}

} // verus!

//! The response shapes of the read-only query paths, and the verified
//! builders that fill them from the index.
//!
//! Turning these values into HTTP responses — templating, headers,
//! status codes — is a collaborator's job.

use crate::index::Index;
use crate::page_id::PageId;
use crate::page_meta::PageMeta;
use crate::text::{lex_lt, str_lt, StrOrder};
use vstd::prelude::*;

verus! {

/// One rendered page with its navigation context.
pub struct GetResponse {
    /// Each backlink as (identifier text, title text or empty).
    pub backlinks: Vec<(String, String)>,
    /// The rendered HTML fragment.
    pub html: String,
    /// The page's identifier text.
    pub id: String,
    /// The page's title, or empty when it has none.
    pub title: String,
}

/// The title of a page as shown: its recorded title, or empty.
pub open spec fn shown_title(index: &Index, p: PageId) -> Seq<char> {
    if index.has_page(p) {
        match index.title_of(p) {
            Some(t) => t,
            None => Seq::<char>::empty(),
        }
    } else {
        Seq::<char>::empty()
    }
}

/// The title of one page as shown: its recorded title, or empty when it
/// has none or is unknown.
fn title_text(index: &Index, p: &PageId) -> (r: String)
    requires
        index.wf(),
    ensures
        r@ == shown_title(index, *p),
{
    match index.get_meta(p) {
        Some(m) => match &m.title {
            Some(t) => t.clone(),
            None => String::new(),
        },
        None => String::new(),
    }
}

/// One backlink row is accounted for: some page linking to `p` has this
/// identifier text and shown title.
pub open spec fn row_is_backlink(index: &Index, p: PageId, row: (String, String)) -> bool {
    exists|b: PageId|
        #![trigger b.text()]
        index.bl_has(p, b) && row.0@ == b.text() && row.1@ == shown_title(index, b)
}

/// One linking page is accounted for: some row carries its identifier
/// text and shown title.
pub open spec fn rows_cover(
    index: &Index,
    rows: Seq<(String, String)>,
    b: PageId,
) -> bool {
    exists|k: int|
        #![trigger rows[k]]
        0 <= k < rows.len() && rows[k].0@ == b.text() && rows[k].1@ == shown_title(index, b)
}

/// The rows are the page's backlinks exactly, in ascending identifier
/// order: some ascending duplicate-free identifier list holds exactly
/// the pages linking to `p`, and row `k` carries the text and shown
/// title of its `k`-th entry.
pub open spec fn rows_are_backlinks_ascending(
    index: &Index,
    p: PageId,
    rows: Seq<(String, String)>,
) -> bool {
    exists|ids: Seq<PageId>|
        #![trigger ids.len()]
        {
            &&& crate::ids::ids_sorted(ids)
            &&& crate::ids::ids_wf(ids)
            &&& forall|b: PageId| ids.contains(b) <==> index.bl_has(p, b)
            &&& rows.len() == ids.len()
            &&& forall|k: int|
                0 <= k < rows.len() ==> (#[trigger] rows[k]).0@ == ids[k].text() && rows[k].1@
                    == shown_title(index, ids[k])
        }
}

/// The backlink rows of one page: for every page linking to it, its
/// identifier text and its shown title, in ascending identifier order.
fn backlink_rows(index: &Index, page_id: &PageId) -> (rows: Vec<(String, String)>)
    requires
        index.wf(),
    ensures
        forall|k: int|
            0 <= k < rows@.len() ==> row_is_backlink(index, *page_id, #[trigger] rows@[k]),
        forall|b: PageId|
            #[trigger] index.bl_has(*page_id, b) ==> rows_cover(index, rows@, b),
        rows_are_backlinks_ascending(index, *page_id, rows@),
{
    let bls = index.get_backlinks(page_id);
    let n = bls.len();
    let mut rows: Vec<(String, String)> = Vec::new();
    let mut k: usize = 0;
    while k < n
        invariant
            k <= n,
            n == bls@.len(),
            index.wf(),
            crate::ids::ids_wf(bls@),
            rows@.len() == k,
            forall|j: int|
                0 <= j < k ==> (#[trigger] rows@[j]).0@ == bls@[j].text() && rows@[j].1@
                    == shown_title(index, bls@[j]),
        decreases n - k,
    {
        let b = bls[k];
        let btitle = title_text(index, &b);
        rows.push((b.to_text(), btitle));
        k += 1;
    }
    proof {
        assert forall|k2: int|
            0 <= k2 < rows@.len() implies row_is_backlink(index, *page_id, #[trigger] rows@[k2]) by {
            let b = bls@[k2];
            assert(bls@.contains(b));
            assert(index.bl_has(*page_id, b) && rows@[k2].0@ == b.text() && rows@[k2].1@
                == shown_title(index, b));
        }
        assert forall|b: PageId| #[trigger] index.bl_has(*page_id, b) implies rows_cover(
            index,
            rows@,
            b,
        ) by {
            assert(bls@.contains(b));
            let k2 = choose|k2: int| 0 <= k2 < bls@.len() && bls@[k2] == b;
            assert(0 <= k2 < rows@.len() && rows@[k2].0@ == b.text() && rows@[k2].1@
                == shown_title(index, b));
        }
        assert(bls@.len() == rows@.len());
        assert forall|b: PageId| bls@.contains(b) <==> index.bl_has(*page_id, b) by {}
        assert(rows_are_backlinks_ascending(index, *page_id, rows@));
    }
    rows
}

/// Assemble the response for one page: its rendered HTML together with
/// its identifier, title, and every page linking to it. `None` exactly
/// when the page is unknown to the index.
pub fn build_get_response(index: &Index, page_id: &PageId, html: String) -> (r: Option<
    GetResponse,
>)
    requires
        index.wf(),
        page_id.wf(),
    ensures
        r is Some <==> index.has_page(*page_id),
        match r {
            Some(g) => {
                &&& g.id@ == page_id.text()
                &&& g.html@ == html@
                &&& g.title@ == shown_title(index, *page_id)
                &&& forall|k: int|
                    0 <= k < g.backlinks@.len() ==> row_is_backlink(
                        index,
                        *page_id,
                        #[trigger] g.backlinks@[k],
                    )
                &&& forall|b: PageId|
                    #[trigger] index.bl_has(*page_id, b) ==> rows_cover(index, g.backlinks@, b)
                &&& rows_are_backlinks_ascending(index, *page_id, g.backlinks@)
            },
            None => true,
        },
{
    if index.get_meta(page_id).is_none() {
        return None;
    }
    let title = title_text(index, page_id);
    let rows = backlink_rows(index, page_id);
    Some(GetResponse { backlinks: rows, html, id: page_id.to_text(), title })
}

/// A redirect to the one page chosen for a title.
pub struct GetPageByTitleResponse(pub PageId);

/// Choose the page a title leads to: the lowest identifier recorded
/// under it, an arbitrary but deterministic tie-break. `None` exactly
/// when no page carries the title.
pub fn build_get_page_by_title(index: &Index, title: &str) -> (r: Option<GetPageByTitleResponse>)
    requires
        index.wf(),
    ensures
        r is Some <==> exists|p: PageId| index.title_has(title@, p),
        match r {
            Some(g) => index.title_has(title@, g.0) && g.0.wf() && forall|p: PageId|
                #[trigger] index.title_has(title@, p) ==> g.0.raw() <= p.raw(),
            None => true,
        },
{
    let ids = index.find_by_title(title);
    if ids.len() == 0 {
        proof {
            if exists|p: PageId| index.title_has(title@, p) {
                let p = choose|p: PageId| index.title_has(title@, p);
                assert(ids@.contains(p));
            }
        }
        None
    } else {
        let id = ids[0];
        proof {
            assert(ids@.contains(ids@[0]));
            assert forall|p: PageId| #[trigger] index.title_has(title@, p) implies id.raw()
                <= p.raw() by {
                assert(ids@.contains(p));
                let k = choose|k: int| 0 <= k < ids@.len() && ids@[k] == p;
                if k > 0 {
                    assert(ids@[0].raw() < ids@[k].raw());
                }
            }
        }
        Some(GetPageByTitleResponse(id))
    }
}

/// The root path either renders the reserved root page or redirects to
/// the page list.
pub enum GetRootOrListPagesResponse {
    Get(GetResponse),
    List,
}

impl From<GetResponse> for GetRootOrListPagesResponse {
    fn from(value: GetResponse) -> (r: Self)
        ensures
            r == GetRootOrListPagesResponse::Get(value),
    {
        GetRootOrListPagesResponse::Get(value)
    }
}

impl vstd::std_specs::convert::FromSpecImpl<GetResponse> for GetRootOrListPagesResponse {
    open spec fn obeys_from_spec() -> bool {
        true
    }

    open spec fn from_spec(t: GetResponse) -> Self {
        GetRootOrListPagesResponse::Get(t)
    }
}

/// The page listing, optionally filtered by a query.
pub struct ListResponse {
    pub page_metas: Vec<ListResponsePageMeta>,
    pub q: String,
}

/// One row of the page listing.
pub struct ListResponsePageMeta {
    pub id: String,
    pub title: String,
}

/// The query parameters of the page listing.
pub struct ListRequestQuery {
    pub q: Option<String>,
}

/// One listing row for a page: its identifier text and its title, empty
/// when it has none.
pub fn list_entry(page_id: &PageId, meta: &PageMeta) -> (r: ListResponsePageMeta)
    requires
        page_id.wf(),
    ensures
        r.id@ == page_id.text(),
        r.title@ == match meta.title_view() {
            Some(t) => t,
            None => Seq::<char>::empty(),
        },
{
    let title = match &meta.title {
        Some(t) => t.clone(),
        None => String::new(),
    };
    ListResponsePageMeta { id: page_id.to_text(), title }
}

/// The listing of all known titles.
pub struct ListTitlesResponse {
    pub page_titles: Vec<ListTitlesResponsePageTitle>,
}

/// One known title with the pages recorded under it.
pub struct ListTitlesResponsePageTitle {
    pub page_ids: Vec<String>,
    pub value: String,
}

/// Row `row` mirrors one of the first `hi` title entries: same title,
/// and the identifier texts of that entry's pages in order.
pub open spec fn title_row_from(
    entries: Seq<(String, Vec<PageId>)>,
    row: ListTitlesResponsePageTitle,
    hi: int,
) -> bool {
    exists|j: int|
        #![trigger entries[j]]
        0 <= j < hi && row.value@ == entries[j].0@ && row.page_ids@.len() == entries[j].1@.len()
            && (forall|k: int|
            0 <= k < row.page_ids@.len() ==> (#[trigger] row.page_ids@[k])@
                == entries[j].1@[k].text())
}

/// Row `row` mirrors one title entry of the index.
pub open spec fn title_row_matches(index: &Index, row: ListTitlesResponsePageTitle) -> bool {
    title_row_from(index.titles_entries(), row, index.titles_entries().len() as int)
}

/// Some row carries title `t`.
pub open spec fn titles_covered(rows: Seq<ListTitlesResponsePageTitle>, t: Seq<char>) -> bool {
    exists|i: int| #![trigger rows[i]] 0 <= i < rows.len() && rows[i].value@ == t
}

/// Assemble the title listing: one row per title key of the index, the
/// titles in ascending lexicographic order, each row carrying the
/// identifier texts of the pages recorded under it, ascending.
pub fn build_list_titles_response(index: &Index) -> (r: ListTitlesResponse)
    requires
        index.wf(),
    ensures
        r.page_titles@.len() == index.titles_entries().len(),
        forall|i: int|
            0 <= i < r.page_titles@.len() ==> title_row_matches(index, #[trigger] r.page_titles@[i]),
        forall|j: int|
            0 <= j < index.titles_entries().len() ==> titles_covered(
                r.page_titles@,
                (#[trigger] index.titles_entries()[j]).0@,
            ),
        forall|i1: int, i2: int|
            0 <= i1 < i2 < r.page_titles@.len() ==> lex_lt(
                (#[trigger] r.page_titles@[i1]).value@,
                (#[trigger] r.page_titles@[i2]).value@,
            ),
{
    proof {
        index.lemma_title_entries();
    }
    let entries = index.title_entries();
    let n = entries.len();
    let mut rows: Vec<ListTitlesResponsePageTitle> = Vec::new();
    let mut i: usize = 0;
    while i < n
        invariant
            i <= n,
            n == entries@.len(),
            entries@ == index.titles_entries(),
            forall|a: int, b: int|
                0 <= a < b < entries@.len() ==> (#[trigger] entries@[a]).0@ != (
                #[trigger] entries@[b]).0@,
            forall|j: int| 0 <= j < entries@.len() ==> crate::ids::ids_wf((#[trigger] entries@[j]).1@),
            rows@.len() == i,
            forall|k: int|
                0 <= k < rows@.len() ==> title_row_from(entries@, #[trigger] rows@[k], i as int),
            forall|j: int|
                0 <= j < i ==> titles_covered(rows@, (#[trigger] entries@[j]).0@),
            forall|k1: int, k2: int|
                0 <= k1 < k2 < rows@.len() ==> lex_lt(
                    (#[trigger] rows@[k1]).value@,
                    (#[trigger] rows@[k2]).value@,
                ),
        decreases n - i,
    {
        let e = &entries[i];
        let m = e.1.len();
        let mut texts: Vec<String> = Vec::new();
        let mut k: usize = 0;
        while k < m
            invariant
                k <= m,
                m == e.1@.len(),
                crate::ids::ids_wf(e.1@),
                texts@.len() == k,
                forall|k2: int| 0 <= k2 < k ==> (#[trigger] texts@[k2])@ == e.1@[k2].text(),
            decreases m - k,
        {
            texts.push(e.1[k].to_text());
            k += 1;
        }
        let row = ListTitlesResponsePageTitle { page_ids: texts, value: e.0.clone() };
        proof {
            assert(entries@[i as int] == *e);
            assert(title_row_from(entries@, row, i + 1));
        }
        // insert the row at its place in the ascending order
        let mut p: usize = 0;
        while p < rows.len() && str_lt(rows[p].value.as_str(), row.value.as_str())
            invariant
                p <= rows@.len(),
                forall|k2: int| 0 <= k2 < p ==> lex_lt((#[trigger] rows@[k2]).value@, row.value@),
            decreases rows@.len() - p,
        {
            p += 1;
        }
        proof {
            if p < rows@.len() {
                // the row at the stop position orders strictly after the new one
                let j = choose|j: int|
                    0 <= j < i && (#[trigger] entries@[j]).0@ == rows@[p as int].value@
                        && rows@[p as int].page_ids@.len() == entries@[j].1@.len() && (forall|
                        k2: int,
                    |
                        0 <= k2 < rows@[p as int].page_ids@.len()
                            ==> (#[trigger] rows@[p as int].page_ids@[k2])@
                            == entries@[j].1@[k2].text());
                assert(entries@[j].0@ != entries@[i as int].0@);
                assert(rows@[p as int].value@ != row.value@);
            }
        }
        if p < rows.len() {
            match crate::text::str_cmp(row.value.as_str(), rows[p].value.as_str()) {
                StrOrder::Before => {},
                StrOrder::Equal => {
                    proof {
                        assert(false);
                    }
                },
                StrOrder::After => {
                    proof {
                        assert(false);
                    }
                },
            }
        }
        let ghost rows_old = rows@;
        rows.insert(p, row);
        proof {
            assert forall|k2: int|
                0 <= k2 < rows@.len() implies title_row_from(
                entries@,
                #[trigger] rows@[k2],
                i + 1,
            ) by {
                if k2 < p {
                    assert(rows@[k2] == rows_old[k2]);
                    assert(title_row_from(entries@, rows_old[k2], i as int));
                    let j = choose|j: int|
                        0 <= j < i && rows_old[k2].value@ == (#[trigger] entries@[j]).0@
                            && rows_old[k2].page_ids@.len() == entries@[j].1@.len() && (forall|
                            k3: int,
                        |
                            0 <= k3 < rows_old[k2].page_ids@.len()
                                ==> (#[trigger] rows_old[k2].page_ids@[k3])@
                                == entries@[j].1@[k3].text());
                } else if k2 > p {
                    assert(rows@[k2] == rows_old[k2 - 1]);
                    assert(title_row_from(entries@, rows_old[k2 - 1], i as int));
                    let j = choose|j: int|
                        0 <= j < i && rows_old[k2 - 1].value@ == (#[trigger] entries@[j]).0@
                            && rows_old[k2 - 1].page_ids@.len() == entries@[j].1@.len() && (forall|
                            k3: int,
                        |
                            0 <= k3 < rows_old[k2 - 1].page_ids@.len()
                                ==> (#[trigger] rows_old[k2 - 1].page_ids@[k3])@
                                == entries@[j].1@[k3].text());
                } else {
                    assert(rows@[k2] == row);
                }
            }
            assert forall|j: int| 0 <= j < i + 1 implies titles_covered(
                rows@,
                (#[trigger] entries@[j]).0@,
            ) by {
                if j < i {
                    let k2 = choose|k2: int|
                        0 <= k2 < rows_old.len() && (#[trigger] rows_old[k2]).value@
                            == entries@[j].0@;
                    if k2 < p {
                        assert(rows@[k2] == rows_old[k2]);
                    } else {
                        assert(rows@[k2 + 1] == rows_old[k2]);
                    }
                } else {
                    assert(rows@[p as int] == row);
                    assert(rows@[p as int].value@ == entries@[j].0@);
                }
            }
            assert forall|k1: int, k2: int| 0 <= k1 < k2 < rows@.len() implies lex_lt(
                (#[trigger] rows@[k1]).value@,
                (#[trigger] rows@[k2]).value@,
            ) by {
                let o1 = if k1 < p { k1 } else { k1 - 1 };
                let o2 = if k2 < p { k2 } else { k2 - 1 };
                if k1 != p && k2 != p {
                    assert(rows@[k1] == rows_old[o1] && rows@[k2] == rows_old[o2]);
                    assert(lex_lt(rows_old[o1].value@, rows_old[o2].value@));
                } else if k1 == p {
                    assert(rows@[k2] == rows_old[o2]);
                    assert(o2 >= p);
                    if o2 == p {
                        assert(lex_lt(row.value@, rows_old[p as int].value@));
                    } else {
                        assert(lex_lt(rows_old[p as int].value@, rows_old[o2].value@));
                        crate::text::lemma_lex_trans(
                            row.value@,
                            rows_old[p as int].value@,
                            rows_old[o2].value@,
                        );
                    }
                } else {
                    assert(rows@[k1] == rows_old[o1]);
                    assert(o1 < p);
                    assert(lex_lt(rows_old[o1].value@, row.value@));
                }
            }
        }
        i += 1;
    }
    ListTitlesResponse { page_titles: rows }
}

} // verus!

//! The textual side of page storage: where a page's file lives under the
//! data directory, and which page a file path denotes.
//!
//! Reading and writing the files themselves is a collaborator's job.

use crate::config::Config;
use crate::page_id::{is_id_text, PageId};
use vstd::prelude::*;

verus! {

/// `[b, e)` is the stem of the path `s`: the final path component — what
/// follows the last `/` — shorn of its extension, the part from its last
/// `.` on.
pub open spec fn stem_spec(s: Seq<char>, b: int, e: int) -> bool {
    &&& 0 <= b <= e <= s.len()
    &&& b == 0 || s[b - 1] == '/'
    &&& forall|k: int| b <= k < s.len() ==> s[k] != '/'
    &&& (e == s.len() && (forall|k: int| b <= k < s.len() ==> s[k] != '.')) || (e < s.len()
        && s[e] == '.' && (forall|k: int| e < k < s.len() ==> s[k] != '.'))
}

/// Naming for the page files.
pub struct PageIo;

impl PageIo {
    /// The page a file path denotes: its stem parsed as a page
    /// identifier. `None` exactly when the stem is not one.
    pub fn page_id(path: &str) -> (r: Option<PageId>)
        ensures
            forall|b: int, e: int|
                stem_spec(path@, b, e) ==> {
                    &&& (r is Some <==> is_id_text(path@.subrange(b, e)))
                    &&& match r {
                        Some(id) => id.wf() && id.text() == path@.subrange(b, e),
                        None => true,
                    }
                },
    {
        let len = path.unicode_len();
        // start of the final component: one past the last slash
        let mut b: usize = 0;
        let mut i: usize = 0;
        while i < len
            invariant
                0 <= b <= i <= len,
                len == path@.len(),
                b == 0 || path@[b - 1] == '/',
                forall|k: int| b <= k < i ==> path@[k] != '/',
            decreases len - i,
        {
            if path.get_char(i) == '/' {
                b = i + 1;
            }
            i += 1;
        }
        // end of the stem: the last dot of the component, or the end
        let mut e: usize = len;
        let mut j: usize = b;
        while j < len
            invariant
                b <= j <= len,
                b <= e <= len,
                len == path@.len(),
                e == len || (path@[e as int] == '.' && forall|k: int|
                    e < k < j ==> path@[k] != '.'),
                e == len ==> forall|k: int| b <= k < j ==> path@[k] != '.',
            decreases len - j,
        {
            if path.get_char(j) == '.' {
                e = j;
            }
            j += 1;
        }
        proof {
            assert(stem_spec(path@, b as int, e as int));
            assert forall|b2: int, e2: int| stem_spec(path@, b2, e2) implies b2 == b && e2
                == e by {
                if b2 < b {
                    assert(path@[b - 1] == '/');
                } else if b2 > b {
                    assert(path@[b2 - 1] != '/');
                }
                if e2 < e {
                    assert(path@[e as int] == '.');
                } else if e2 > e && e2 < path@.len() {
                    assert(path@[e2] == '.');
                } else if e2 == path@.len() && e < path@.len() {
                    assert(path@[e as int] == '.');
                }
            }
        }
        let stem = path.substring_char(b, e);
        proof {
            assert(stem@ =~= path@.subrange(b as int, e as int));
        }
        PageId::parse(stem)
    }

    /// The file path of a page: its identifier with the `md` extension,
    /// directly under the data directory.
    pub fn page_path(config: &Config, page_id: &PageId) -> (r: String)
        requires
            page_id.wf(),
        ensures
            r@ == config.spec_data_dir() + "/"@ + page_id.text() + ".md"@,
    {
        let mut r = String::new();
        r.append(config.data_dir());
        r.append("/");
        let text = page_id.to_text();
        r.append(text.as_str());
        r.append(".md");
        r
    }
}

} // verus!

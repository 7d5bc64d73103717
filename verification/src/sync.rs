//! The change synchronizer's decision: what one filesystem notification
//! means for the index.
//!
//! The watcher loop itself — receiving events, checking the disk,
//! holding the lock — is a collaborator's job; it feeds every changed
//! path and its current existence here and applies the returned action.

use crate::page_id::{is_id_text, PageId};
use crate::page_io::{stem_spec, PageIo};
use vstd::prelude::*;

verus! {

/// What the index should do about one changed path.
pub enum SyncAction {
    /// The path does not denote a page: log and skip.
    Skip,
    /// The page's file is gone: remove it from the index.
    Remove(PageId),
    /// The page's file exists: re-read and update it.
    Update(PageId),
}

/// Decide the fate of one filesystem notification: a path whose stem is
/// not a page identifier is skipped, a vanished page is removed, an
/// existing one is updated.
pub fn sync_decision(path: &str, exists_on_disk: bool) -> (r: SyncAction)
    ensures
        forall|b: int, e: int|
            stem_spec(path@, b, e) ==> match r {
                SyncAction::Skip => !is_id_text(path@.subrange(b, e)),
                SyncAction::Remove(id) => id.wf() && id.text() == path@.subrange(b, e)
                    && !exists_on_disk,
                SyncAction::Update(id) => id.wf() && id.text() == path@.subrange(b, e)
                    && exists_on_disk,
            },
{
    match PageIo::page_id(path) {
        None => SyncAction::Skip,
        Some(id) => {
            if exists_on_disk {
                SyncAction::Update(id)
            } else {
                SyncAction::Remove(id)
            }
        },
    }
}

} // verus!

//! BookmarkStore: translates between the in-memory pending-bookmark set
//! / tracked list and the durable form, and prepares the asynchronous
//! load and save requests that the caller hands to the external command
//! facility. A save is content-gated: a write request is issued only
//! when the durable content differs from what was last written.

use vstd::prelude::*;
use vstd::string::StringExecFns;
use crate::codec::{encode_bookmarks, parse_bookmarks, spec_encode_bookmarks, spec_parse_bookmarks};
use crate::matcher::{match_pass, spec_match_pass};
use crate::model::{
    bookmark_keys, bookmarks_of, pane_ids, Pane, PaneBookmark, PaneManifest, TabInfo,
};

verus! {

/// The persistence component: the bookmarks still pending resolution
/// after a load, and the durable content last written.
pub struct Persistence {
    pub pending_bookmarks: Vec<PaneBookmark>,
    pub last_saved: Option<Vec<PaneBookmark>>,
}

/// A failure surfaced by the persistence component.
pub enum PersistenceError {
    LoadFromDiskFailed,
}

/// A write request for the external command facility: the durable file
/// and the payload that replaces its whole content.
pub struct SaveRequest {
    pub file_path: String,
    pub payload: String,
}

/// The durable file for one session: one file per session name, under
/// the tool's fixed per-user data directory.
pub open spec fn spec_session_file_path(name: Seq<char>) -> Seq<char> {
    "${XDG_DATA_HOME:-$HOME/.local/share}/zellij-harpoon"@ + "/"@ + name + ".json"@
}

/// Whether a save must issue a write: nothing was written yet, or the
/// durable content — membership, titles, tab names, in order — changed.
pub open spec fn spec_save_needed(last: Option<Vec<PaneBookmark>>, panes: Seq<Pane>) -> bool {
    match last {
        None => true,
        Some(ls) => bookmark_keys(ls@) != bookmark_keys(bookmarks_of(panes)),
    }
}

/// Save suppression: once the durable content of a tracked list has been
/// written, a save of any tracked list with the same durable content
/// issues no further write request.
pub proof fn lemma_save_suppression(saved: Vec<PaneBookmark>, panes1: Seq<Pane>, panes2: Seq<Pane>)
    requires
        saved@ == bookmarks_of(panes1),
        bookmark_keys(bookmarks_of(panes2)) == bookmark_keys(bookmarks_of(panes1)),
    ensures
        !spec_save_needed(Some(saved), panes2),
{
}

/// The durable form of a tracked list.
fn bookmarks_from_panes(panes: &[Pane]) -> (r: Vec<PaneBookmark>)
    ensures
        r@ == bookmarks_of(panes@),
{
    let mut out: Vec<PaneBookmark> = Vec::new();
    let mut i: usize = 0;
    proof {
        assert(out@ =~= bookmarks_of(panes@.take(0)));
    }
    while i < panes.len()
        invariant
            i <= panes@.len(),
            out@ == bookmarks_of(panes@.take(i as int)),
        decreases panes@.len() - i,
    {
        out.push(
            PaneBookmark {
                tab_name: panes[i].tab_info.name.clone(),
                pane_title: panes[i].pane_info.title.clone(),
            },
        );
        proof {
            assert(out@ =~= bookmarks_of(panes@.take(i as int + 1)));
        }
        i += 1;
    }
    proof {
        assert(panes@.take(i as int) =~= panes@);
    }
    out
}

/// Whether two bookmark lists hold the same durable content.
fn bookmark_list_eq(a: &Vec<PaneBookmark>, b: &Vec<PaneBookmark>) -> (r: bool)
    ensures
        r == (bookmark_keys(a@) == bookmark_keys(b@)),
{
    if a.len() != b.len() {
        proof {
            assert(bookmark_keys(a@).len() != bookmark_keys(b@).len());
        }
        return false;
    }
    let mut i: usize = 0;
    while i < a.len()
        invariant
            i <= a@.len(),
            a@.len() == b@.len(),
            forall|k: int|
                0 <= k < i ==> #[trigger] bookmark_keys(a@)[k] == bookmark_keys(b@)[k],
        decreases a@.len() - i,
    {
        if !(a[i].tab_name == b[i].tab_name && a[i].pane_title == b[i].pane_title) {
            proof {
                assert(bookmark_keys(a@)[i as int] != bookmark_keys(b@)[i as int]);
            }
            return false;
        }
        proof {
            assert(bookmark_keys(a@)[i as int] == bookmark_keys(b@)[i as int]);
        }
        i += 1;
    }
    proof {
        assert(bookmark_keys(a@) =~= bookmark_keys(b@));
    }
    true
}

impl Persistence {
    /// A fresh store: nothing pending, nothing written.
    pub fn new() -> (r: Self)
        ensures
            r.pending_bookmarks@ == Seq::<PaneBookmark>::empty(),
            r.last_saved is None,
    {
        Persistence { pending_bookmarks: Vec::new(), last_saved: None }
    }

    /// The tool's fixed per-user data directory, as the external shell
    /// expands it.
    pub fn data_dir_path(&self) -> (r: String)
        ensures
            r@ == "${XDG_DATA_HOME:-$HOME/.local/share}/zellij-harpoon"@,
    {
        String::from_str("${XDG_DATA_HOME:-$HOME/.local/share}/zellij-harpoon")
    }

    /// The durable file for this session; none without a session name.
    pub fn session_file_path(&self, session_name: &Option<String>) -> (r: Option<String>)
        ensures
            r is Some <==> session_name is Some,
            session_name matches Some(name) ==> r matches Some(p) && p@ == spec_session_file_path(
                name@,
            ),
    {
        match session_name {
            None => None,
            Some(name) => {
                let mut path = self.data_dir_path();
                path.append("/");
                path.append(name.as_str());
                path.append(".json");
                Some(path)
            },
        }
    }

    /// Prepares the read request for this session's durable file; the
    /// caller hands the path to the external command facility and later
    /// delivers the command's output to `on_load_command`.
    pub fn load_from_disk(&self, session_name: &Option<String>) -> (r: Option<String>)
        ensures
            r is Some <==> session_name is Some,
            session_name matches Some(name) ==> r matches Some(p) && p@ == spec_session_file_path(
                name@,
            ),
    {
        self.session_file_path(session_name)
    }

    /// Takes the delivered content of a load request. A parsed payload
    /// replaces the whole pending set; a malformed payload changes
    /// nothing and is reported once.
    pub fn on_load_command(&mut self, content: &str) -> (r: Result<(), PersistenceError>)
        ensures
            final(self).last_saved == old(self).last_saved,
            match spec_parse_bookmarks(content@) {
                Some(keys) => r is Ok && bookmark_keys(final(self).pending_bookmarks@) == keys,
                None => r == Result::<(), PersistenceError>::Err(
                    PersistenceError::LoadFromDiskFailed,
                ) && *final(self) == *old(self),
            },
    {
        match parse_bookmarks(content) {
            Some(bookmarks) => {
                self.pending_bookmarks = bookmarks;
                Ok(())
            },
            None => Err(PersistenceError::LoadFromDiskFailed),
        }
    }

    /// One matching pass: resolves pending bookmarks against the latest
    /// snapshot, in pending-list order, never claiming an identity twice
    /// nor one already tracked. Returns the new tracked entries; what
    /// found no live pane stays pending for a future snapshot.
    pub fn match_pending_bookmarks(
        &mut self,
        panes: &[Pane],
        pane_manifest: &PaneManifest,
        tab_infos: &[TabInfo],
    ) -> (r: Vec<Pane>)
        ensures
            ({
                let pass = spec_match_pass(
                    old(self).pending_bookmarks@,
                    pane_manifest.panes@,
                    tab_infos@,
                    pane_ids(panes@),
                );
                r@ == pass.0 && final(self).pending_bookmarks@ == pass.1 && final(self).last_saved
                    == old(self).last_saved
            }),
    {
        let pair = match_pass(&self.pending_bookmarks, panes, pane_manifest, tab_infos);
        self.pending_bookmarks = pair.1;
        pair.0
    }

    /// Prepares the write request that re-serializes the whole tracked
    /// list, if one is owed: without a session name nothing can be
    /// addressed, and unchanged durable content issues no write.
    pub fn save_to_disk(&mut self, session_name: &Option<String>, panes: &[Pane]) -> (r: Option<
        SaveRequest,
    >)
        ensures
            final(self).pending_bookmarks == old(self).pending_bookmarks,
            session_name is None ==> r is None && *final(self) == *old(self),
            session_name matches Some(name) ==> ({
                if spec_save_needed(old(self).last_saved, panes@) {
                    &&& r matches Some(req) && req.file_path@ == spec_session_file_path(name@)
                        && req.payload@ == spec_encode_bookmarks(bookmarks_of(panes@))
                    &&& final(self).last_saved matches Some(ls) && ls@ == bookmarks_of(panes@)
                } else {
                    r is None && *final(self) == *old(self)
                }
            }),
    {
        let path = match self.session_file_path(session_name) {
            Some(p) => p,
            None => {
                return None;
            },
        };
        let form = bookmarks_from_panes(panes);
        let needed = match &self.last_saved {
            None => true,
            Some(ls) => !bookmark_list_eq(ls, &form),
        };
        if !needed {
            return None;
        }
        let payload = encode_bookmarks(&form);
        self.last_saved = Some(form);
        Some(SaveRequest { file_path: path, payload })
    }
}

impl PersistenceError {
    /// The human-readable description of the failure.
    pub fn describe(&self) -> (r: String)
        ensures
            r@ == "Failed to load session from disk"@,
    {
        match self {
            PersistenceError::LoadFromDiskFailed => String::from_str(
                "Failed to load session from disk",
            ),
        }
    }
}

impl Default for Persistence {
    /// A fresh store: nothing pending, nothing written.
    fn default() -> (r: Self)
        ensures
            r.pending_bookmarks@ == Seq::<PaneBookmark>::empty(),
            r.last_saved is None,
    {
        Persistence::new()
    }
}

} // verus!

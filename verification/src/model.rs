//! The data model: live panes and tabs as reported by the host, tracked
//! entries, and the durable bookmark key.

use vstd::prelude::*;
use vstd::string::StringExecFns;

verus! {

/// One live pane as reported by the host: a per-session identity, the
/// display title, and the focus / overlay flags. The identity is unique
/// among live, non-overlay panes for one host session only.
#[derive(Debug)]
pub struct PaneInfo {
    pub id: u32,
    pub title: String,
    pub is_focused: bool,
    pub is_plugin: bool,
}

/// One tab: display name, position in the tab bar, and whether it is the
/// active tab. The position shifts as tabs are created, closed or
/// reordered; it is never a durable key.
#[derive(Debug)]
pub struct TabInfo {
    pub position: usize,
    pub name: String,
    pub active: bool,
}

/// The pane list of one tab, keyed by the tab's position.
#[derive(Debug)]
pub struct TabPanes {
    pub position: usize,
    pub panes: Vec<PaneInfo>,
}

/// The host's latest report of every pane, grouped by tab position: one
/// entry per tab. Entries carry distinct positions when the host report
/// is well formed, and are scanned in order everywhere they are read.
#[derive(Debug)]
pub struct PaneManifest {
    pub panes: Vec<TabPanes>,
}

/// A tracked entry of the shortlist: a pane together with a copy of its
/// owning tab's metadata.
#[derive(Debug)]
pub struct Pane {
    pub pane_info: PaneInfo,
    pub tab_info: TabInfo,
}

/// The durable surrogate key for one tracked pane: (tab name, pane title).
/// It re-identifies a pane across a session restart, when the runtime
/// identities are no longer valid.
#[derive(Debug)]
pub struct PaneBookmark {
    pub tab_name: String,
    pub pane_title: String,
}

/// The identities of a tracked list, in list order.
pub open spec fn pane_ids(s: Seq<Pane>) -> Seq<u32> {
    s.map_values(|p: Pane| p.pane_info.id)
}

/// No two entries of the list share a pane identity.
pub open spec fn distinct_ids(s: Seq<Pane>) -> bool {
    forall|i: int, j: int|
        0 <= i < s.len() && 0 <= j < s.len() && i != j ==> s[i].pane_info.id != s[j].pane_info.id
}

/// Some entry of the list carries this pane identity.
pub open spec fn contains_id(s: Seq<Pane>, id: u32) -> bool {
    exists|i: int| 0 <= i < s.len() && s[i].pane_info.id == id
}

/// The durable key of one tracked entry.
pub open spec fn bookmark_of(p: Pane) -> PaneBookmark {
    PaneBookmark { tab_name: p.tab_info.name, pane_title: p.pane_info.title }
}

/// The durable form of a tracked list: its keys, in list order.
pub open spec fn bookmarks_of(s: Seq<Pane>) -> Seq<PaneBookmark> {
    s.map_values(|p: Pane| bookmark_of(p))
}

/// A bookmark reduced to the character sequences it is compared by.
pub open spec fn bookmark_key(b: PaneBookmark) -> (Seq<char>, Seq<char>) {
    (b.tab_name@, b.pane_title@)
}

/// A bookmark list reduced to the character sequences it is compared by:
/// two lists with equal keys hold the same durable content.
pub open spec fn bookmark_keys(s: Seq<PaneBookmark>) -> Seq<(Seq<char>, Seq<char>)> {
    s.map_values(|b: PaneBookmark| bookmark_key(b))
}

/// An identity stands in a list's identity sequence iff some entry
/// carries it.
pub proof fn lemma_pane_ids_contains(s: Seq<Pane>, x: u32)
    ensures
        pane_ids(s).contains(x) <==> contains_id(s, x),
{
    if pane_ids(s).contains(x) {
        let i = choose|i: int| 0 <= i < pane_ids(s).len() && pane_ids(s)[i] == x;
        assert(s[i].pane_info.id == x);
    }
    if contains_id(s, x) {
        let i = choose|i: int| 0 <= i < s.len() && s[i].pane_info.id == x;
        assert(pane_ids(s)[i] == x);
    }
}

/// Appending entries whose identities are pairwise distinct and absent
/// from the list keeps identity uniqueness.
pub proof fn lemma_distinct_append_ids(a: Seq<Pane>, b: Seq<Pane>)
    requires
        distinct_ids(a),
        distinct_ids(b),
        forall|i: int| 0 <= i < b.len() ==> !contains_id(a, #[trigger] b[i].pane_info.id),
    ensures
        distinct_ids(a + b),
{
    let c = a + b;
    assert forall|i: int, j: int|
        0 <= i < c.len() && 0 <= j < c.len() && i != j implies c[i].pane_info.id
        != c[j].pane_info.id by {
        if i < a.len() && j < a.len() {
            assert(c[i] == a[i] && c[j] == a[j]);
        } else if i >= a.len() && j >= a.len() {
            assert(c[i] == b[i - a.len()] && c[j] == b[j - a.len()]);
        } else if i < a.len() {
            assert(c[i] == a[i] && c[j] == b[j - a.len()]);
            if a[i].pane_info.id == b[j - a.len()].pane_info.id {
                assert(contains_id(a, b[j - a.len()].pane_info.id));
            }
        } else {
            assert(c[j] == a[j] && c[i] == b[i - a.len()]);
            if a[j].pane_info.id == b[i - a.len()].pane_info.id {
                assert(contains_id(a, b[i - a.len()].pane_info.id));
            }
        }
    }
}

/// An exact copy of a live pane record.
pub fn copy_pane_info(p: &PaneInfo) -> (r: PaneInfo)
    ensures
        r == *p,
{
    PaneInfo { id: p.id, title: p.title.clone(), is_focused: p.is_focused, is_plugin: p.is_plugin }
}

/// An exact copy of a tab record.
pub fn copy_tab_info(t: &TabInfo) -> (r: TabInfo)
    ensures
        r == *t,
{
    TabInfo { position: t.position, name: t.name.clone(), active: t.active }
}

/// An exact copy of a tracked entry.
pub fn copy_pane(p: &Pane) -> (r: Pane)
    ensures
        r == *p,
{
    Pane { pane_info: copy_pane_info(&p.pane_info), tab_info: copy_tab_info(&p.tab_info) }
}

/// An exact copy of a bookmark.
pub fn copy_bookmark(b: &PaneBookmark) -> (r: PaneBookmark)
    ensures
        r == *b,
{
    PaneBookmark { tab_name: b.tab_name.clone(), pane_title: b.pane_title.clone() }
}

/// Whether some entry of the list carries this identity.
pub fn list_contains_id(panes: &[Pane], id: u32) -> (r: bool)
    ensures
        r == contains_id(panes@, id),
{
    let mut i: usize = 0;
    while i < panes.len()
        invariant
            0 <= i <= panes@.len(),
            forall|k: int| 0 <= k < i ==> panes@[k].pane_info.id != id,
        decreases panes@.len() - i,
    {
        if panes[i].pane_info.id == id {
            return true;
        }
        i += 1;
    }
    false
}

impl Pane {
    /// The one-line rendering of a tracked entry: tab name, a separator,
    /// pane title.
    pub fn display_line(&self) -> (r: String)
        ensures
            r@ == self.tab_info.name@ + " | "@ + self.pane_info.title@,
    {
        let mut line = self.tab_info.name.clone();
        line.append(" | ");
        line.append(self.pane_info.title.as_str());
        line
    }
}

} // verus!

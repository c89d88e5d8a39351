//! FocusTracker: derives the single focused, non-overlay pane from the
//! latest host snapshot.

use vstd::prelude::*;
use crate::model::{
    copy_pane_info, copy_tab_info, Pane, PaneInfo, PaneManifest, TabInfo, TabPanes,
};

verus! {

/// The first tab flagged active, in snapshot order; `None` when no tab is
/// active.
pub open spec fn spec_focused_tab(tabs: Seq<TabInfo>) -> Option<TabInfo>
    decreases tabs.len(),
{
    if tabs.len() == 0 {
        None
    } else if tabs[0].active {
        Some(tabs[0])
    } else {
        spec_focused_tab(tabs.drop_first())
    }
}

/// The first manifest entry for this tab position, in snapshot order.
pub open spec fn spec_manifest_lookup(entries: Seq<TabPanes>, position: usize) -> Option<TabPanes>
    decreases entries.len(),
{
    if entries.len() == 0 {
        None
    } else if entries[0].position == position {
        Some(entries[0])
    } else {
        spec_manifest_lookup(entries.drop_first(), position)
    }
}

/// The first pane of the tab that is flagged focused and is not the
/// tool's own overlay.
pub open spec fn spec_focused_in(panes: Seq<PaneInfo>) -> Option<PaneInfo>
    decreases panes.len(),
{
    if panes.len() == 0 {
        None
    } else if panes[0].is_focused && !panes[0].is_plugin {
        Some(panes[0])
    } else {
        spec_focused_in(panes.drop_first())
    }
}

/// The first non-overlay pane of the tab, in snapshot order.
pub open spec fn spec_first_candidate(panes: Seq<PaneInfo>) -> Option<PaneInfo>
    decreases panes.len(),
{
    if panes.len() == 0 {
        None
    } else if !panes[0].is_plugin {
        Some(panes[0])
    } else {
        spec_first_candidate(panes.drop_first())
    }
}

/// The focused pane derived for one tab: the focused non-overlay pane if
/// one exists, else the first non-overlay pane (the overlay itself may
/// hold the real focus), else none.
pub open spec fn spec_focused_pane(position: usize, entries: Seq<TabPanes>) -> Option<PaneInfo> {
    match spec_manifest_lookup(entries, position) {
        None => None,
        Some(e) => match spec_focused_in(e.panes@) {
            Some(p) => Some(p),
            None => spec_first_candidate(e.panes@),
        },
    }
}

/// The focused tracked entry derived from a whole snapshot: the focused
/// pane of the active tab, paired with that tab's metadata.
pub open spec fn spec_derived_focus(tabs: Seq<TabInfo>, entries: Seq<TabPanes>) -> Option<Pane> {
    match spec_focused_tab(tabs) {
        None => None,
        Some(t) => match spec_focused_pane(t.position, entries) {
            None => None,
            Some(p) => Some(Pane { pane_info: p, tab_info: t }),
        },
    }
}

/// Finds the tab flagged active; no focused pane is derivable without one.
pub fn get_focused_tab(tab_infos: &Vec<TabInfo>) -> (r: Option<TabInfo>)
    ensures
        r == spec_focused_tab(tab_infos@),
{
    let s = Ghost(tab_infos@);
    let mut i: usize = 0;
    proof {
        assert(s@.skip(0) =~= s@);
    }
    while i < tab_infos.len()
        invariant
            s@ == tab_infos@,
            i <= s@.len(),
            spec_focused_tab(s@) == spec_focused_tab(s@.skip(i as int)),
        decreases s@.len() - i,
    {
        proof {
            assert(s@.skip(i as int)[0] == s@[i as int]);
        }
        if tab_infos[i].active {
            return Some(copy_tab_info(&tab_infos[i]));
        }
        proof {
            assert(s@.skip(i as int).drop_first() =~= s@.skip(i as int + 1));
        }
        i += 1;
    }
    proof {
        assert(s@.skip(i as int) =~= Seq::<TabInfo>::empty());
    }
    None
}

/// Finds the manifest entry for a tab position.
fn manifest_lookup<'a>(pane_manifest: &'a PaneManifest, position: usize) -> (r: Option<
    &'a TabPanes,
>)
    ensures
        match r {
            Some(e) => spec_manifest_lookup(pane_manifest.panes@, position) == Some(*e),
            None => spec_manifest_lookup(pane_manifest.panes@, position) is None,
        },
{
    let s = Ghost(pane_manifest.panes@);
    let mut i: usize = 0;
    proof {
        assert(s@.skip(0) =~= s@);
    }
    while i < pane_manifest.panes.len()
        invariant
            s@ == pane_manifest.panes@,
            i <= s@.len(),
            spec_manifest_lookup(s@, position) == spec_manifest_lookup(
                s@.skip(i as int),
                position,
            ),
        decreases s@.len() - i,
    {
        proof {
            assert(s@.skip(i as int)[0] == s@[i as int]);
        }
        if pane_manifest.panes[i].position == position {
            return Some(&pane_manifest.panes[i]);
        }
        proof {
            assert(s@.skip(i as int).drop_first() =~= s@.skip(i as int + 1));
        }
        i += 1;
    }
    proof {
        assert(s@.skip(i as int) =~= Seq::<TabPanes>::empty());
    }
    None
}

/// Finds the focused non-overlay pane within one tab's pane list.
fn focused_in(panes: &Vec<PaneInfo>) -> (r: Option<&PaneInfo>)
    ensures
        match r {
            Some(p) => spec_focused_in(panes@) == Some(*p),
            None => spec_focused_in(panes@) is None,
        },
{
    let s = Ghost(panes@);
    let mut i: usize = 0;
    proof {
        assert(s@.skip(0) =~= s@);
    }
    while i < panes.len()
        invariant
            s@ == panes@,
            i <= s@.len(),
            spec_focused_in(s@) == spec_focused_in(s@.skip(i as int)),
        decreases s@.len() - i,
    {
        proof {
            assert(s@.skip(i as int)[0] == s@[i as int]);
        }
        if panes[i].is_focused && !panes[i].is_plugin {
            return Some(&panes[i]);
        }
        proof {
            assert(s@.skip(i as int).drop_first() =~= s@.skip(i as int + 1));
        }
        i += 1;
    }
    proof {
        assert(s@.skip(i as int) =~= Seq::<PaneInfo>::empty());
    }
    None
}

/// Finds the first non-overlay pane within one tab's pane list.
fn first_candidate(panes: &Vec<PaneInfo>) -> (r: Option<&PaneInfo>)
    ensures
        match r {
            Some(p) => spec_first_candidate(panes@) == Some(*p),
            None => spec_first_candidate(panes@) is None,
        },
{
    let s = Ghost(panes@);
    let mut i: usize = 0;
    proof {
        assert(s@.skip(0) =~= s@);
    }
    while i < panes.len()
        invariant
            s@ == panes@,
            i <= s@.len(),
            spec_first_candidate(s@) == spec_first_candidate(s@.skip(i as int)),
        decreases s@.len() - i,
    {
        proof {
            assert(s@.skip(i as int)[0] == s@[i as int]);
        }
        if !panes[i].is_plugin {
            return Some(&panes[i]);
        }
        proof {
            assert(s@.skip(i as int).drop_first() =~= s@.skip(i as int + 1));
        }
        i += 1;
    }
    proof {
        assert(s@.skip(i as int) =~= Seq::<PaneInfo>::empty());
    }
    None
}

/// Derives the focused pane of one tab: prefer the focused non-overlay
/// pane, fall back to the first non-overlay pane, else none.
pub fn get_focused_pane(tab_position: usize, pane_manifest: &PaneManifest) -> (r: Option<PaneInfo>)
    ensures
        r == spec_focused_pane(tab_position, pane_manifest.panes@),
{
    match manifest_lookup(pane_manifest, tab_position) {
        None => None,
        Some(entry) => {
            match focused_in(&entry.panes) {
                Some(p) => Some(copy_pane_info(p)),
                None => match first_candidate(&entry.panes) {
                    Some(p) => Some(copy_pane_info(p)),
                    None => None,
                },
            }
        },
    }
}

} // verus!

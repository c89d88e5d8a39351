//! Reconciler: validates a tracked list against the latest snapshot. An
//! entry survives iff a live, non-overlay pane with the same identity
//! still exists anywhere in the snapshot — searched by identity, never by
//! the last-known tab position — and a surviving entry's metadata is
//! refreshed wholesale from the snapshot. Entries with no live match are
//! dropped silently; the relative order of survivors is preserved.

use vstd::prelude::*;
use crate::model::{
    contains_id, copy_pane_info, copy_tab_info, distinct_ids, Pane, PaneInfo, PaneManifest,
    TabInfo, TabPanes,
};

verus! {

/// The first live, non-overlay pane with this identity within one tab's
/// pane list.
pub open spec fn spec_live_in(panes: Seq<PaneInfo>, id: u32) -> Option<PaneInfo>
    decreases panes.len(),
{
    if panes.len() == 0 {
        None
    } else if !panes[0].is_plugin && panes[0].id == id {
        Some(panes[0])
    } else {
        spec_live_in(panes.drop_first(), id)
    }
}

/// The first tab record carrying this position.
pub open spec fn spec_find_tab(tabs: Seq<TabInfo>, position: usize) -> Option<TabInfo>
    decreases tabs.len(),
{
    if tabs.len() == 0 {
        None
    } else if tabs[0].position == position {
        Some(tabs[0])
    } else {
        spec_find_tab(tabs.drop_first(), position)
    }
}

/// Searches the whole snapshot for a live, non-overlay pane with this
/// identity, paired with its owning tab's current metadata. An entry
/// whose tab record is missing from the tab list yields no match.
pub open spec fn spec_find_live(entries: Seq<TabPanes>, tabs: Seq<TabInfo>, id: u32) -> Option<
    Pane,
>
    decreases entries.len(),
{
    if entries.len() == 0 {
        None
    } else {
        match spec_live_in(entries[0].panes@, id) {
            Some(pi) => match spec_find_tab(tabs, entries[0].position) {
                Some(ti) => Some(Pane { pane_info: pi, tab_info: ti }),
                None => spec_find_live(entries.drop_first(), tabs, id),
            },
            None => spec_find_live(entries.drop_first(), tabs, id),
        }
    }
}

/// The reconciled tracked list: for each prior entry in order, the
/// refreshed (pane, tab) pair iff its identity is still live, nothing
/// otherwise.
pub open spec fn spec_reconcile(panes: Seq<Pane>, entries: Seq<TabPanes>, tabs: Seq<TabInfo>) -> Seq<
    Pane,
>
    decreases panes.len(),
{
    if panes.len() == 0 {
        Seq::empty()
    } else {
        let rest = spec_reconcile(panes.drop_last(), entries, tabs);
        match spec_find_live(entries, tabs, panes.last().pane_info.id) {
            Some(p) => rest.push(p),
            None => rest,
        }
    }
}

/// A live match carries the identity it was searched by and is never the
/// overlay.
proof fn lemma_live_in_id(panes: Seq<PaneInfo>, id: u32)
    ensures
        spec_live_in(panes, id) matches Some(p) ==> p.id == id && !p.is_plugin,
    decreases panes.len(),
{
    if panes.len() > 0 && !(!panes[0].is_plugin && panes[0].id == id) {
        lemma_live_in_id(panes.drop_first(), id);
    }
}

/// A snapshot match carries the identity it was searched by.
pub proof fn lemma_find_live_id(entries: Seq<TabPanes>, tabs: Seq<TabInfo>, id: u32)
    ensures
        spec_find_live(entries, tabs, id) matches Some(p) ==> p.pane_info.id == id
            && !p.pane_info.is_plugin,
    decreases entries.len(),
{
    if entries.len() > 0 {
        lemma_live_in_id(entries[0].panes@, id);
        lemma_find_live_id(entries.drop_first(), tabs, id);
    }
}

/// Disappearance and survival, exactly: an identity stands in the
/// reconciled list iff it stood in the prior list and a live, non-overlay
/// pane with that identity is in the snapshot. An absent identity is
/// removed the moment the snapshot is reconciled, and can return only
/// through a snapshot that reports it live again.
pub proof fn lemma_reconcile_membership(
    panes: Seq<Pane>,
    entries: Seq<TabPanes>,
    tabs: Seq<TabInfo>,
    id: u32,
)
    ensures
        contains_id(spec_reconcile(panes, entries, tabs), id) <==> (contains_id(panes, id)
            && spec_find_live(entries, tabs, id) is Some),
    decreases panes.len(),
{
    if panes.len() == 0 {
    } else {
        let prefix = panes.drop_last();
        lemma_reconcile_membership(prefix, entries, tabs, id);
        let rest = spec_reconcile(prefix, entries, tabs);
        let last_id = panes.last().pane_info.id;
        lemma_find_live_id(entries, tabs, last_id);
        assert(contains_id(panes, id) <==> contains_id(prefix, id) || last_id == id) by {
            if contains_id(prefix, id) {
                let i = choose|i: int| 0 <= i < prefix.len() && prefix[i].pane_info.id == id;
                assert(panes[i].pane_info.id == id);
            }
            if last_id == id {
                assert(panes[panes.len() - 1].pane_info.id == id);
            }
            if contains_id(panes, id) {
                let i = choose|i: int| 0 <= i < panes.len() && panes[i].pane_info.id == id;
                if i < panes.len() - 1 {
                    assert(prefix[i].pane_info.id == id);
                }
            }
        }
        match spec_find_live(entries, tabs, last_id) {
            Some(p) => {
                let full = rest.push(p);
                assert(contains_id(full, id) <==> contains_id(rest, id) || p.pane_info.id == id)
                    by {
                    if contains_id(rest, id) {
                        let i = choose|i: int|
                            0 <= i < rest.len() && rest[i].pane_info.id == id;
                        assert(full[i].pane_info.id == id);
                    }
                    if p.pane_info.id == id {
                        assert(full[full.len() - 1].pane_info.id == id);
                    }
                    if contains_id(full, id) {
                        let i = choose|i: int|
                            0 <= i < full.len() && full[i].pane_info.id == id;
                        if i < full.len() - 1 {
                            assert(rest[i].pane_info.id == id);
                        }
                    }
                }
            },
            None => {},
        }
    }
}

/// Identity uniqueness is preserved: reconciling a list without duplicate
/// identities yields a list without duplicate identities.
pub proof fn lemma_reconcile_distinct(panes: Seq<Pane>, entries: Seq<TabPanes>, tabs: Seq<TabInfo>)
    requires
        distinct_ids(panes),
    ensures
        distinct_ids(spec_reconcile(panes, entries, tabs)),
    decreases panes.len(),
{
    if panes.len() > 0 {
        let prefix = panes.drop_last();
        assert(distinct_ids(prefix));
        lemma_reconcile_distinct(prefix, entries, tabs);
        let rest = spec_reconcile(prefix, entries, tabs);
        let last_id = panes.last().pane_info.id;
        match spec_find_live(entries, tabs, last_id) {
            Some(p) => {
                lemma_find_live_id(entries, tabs, last_id);
                assert(!contains_id(prefix, last_id)) by {
                    if contains_id(prefix, last_id) {
                        let i = choose|i: int|
                            0 <= i < prefix.len() && prefix[i].pane_info.id == last_id;
                        assert(panes[i].pane_info.id == panes[panes.len() - 1].pane_info.id);
                    }
                }
                lemma_reconcile_membership(prefix, entries, tabs, last_id);
                assert(!contains_id(rest, last_id));
                let full = rest.push(p);
                assert forall|i: int, j: int|
                    0 <= i < full.len() && 0 <= j < full.len() && i != j implies full[i]
                    .pane_info
                    .id != full[j].pane_info.id by {
                    if i < full.len() - 1 && j < full.len() - 1 {
                        assert(full[i] == rest[i] && full[j] == rest[j]);
                    } else if i == full.len() - 1 {
                        assert(full[j] == rest[j]);
                        assert(rest[j].pane_info.id != last_id);
                    } else {
                        assert(full[i] == rest[i]);
                        assert(rest[i].pane_info.id != last_id);
                    }
                }
            },
            None => {},
        }
    }
}

/// Idempotence: reconciling twice against the same snapshot yields the
/// same tracked list as reconciling once.
pub proof fn lemma_reconcile_idempotent(
    panes: Seq<Pane>,
    entries: Seq<TabPanes>,
    tabs: Seq<TabInfo>,
)
    ensures
        spec_reconcile(spec_reconcile(panes, entries, tabs), entries, tabs) == spec_reconcile(
            panes,
            entries,
            tabs,
        ),
    decreases panes.len(),
{
    if panes.len() > 0 {
        let prefix = panes.drop_last();
        lemma_reconcile_idempotent(prefix, entries, tabs);
        let rest = spec_reconcile(prefix, entries, tabs);
        let last_id = panes.last().pane_info.id;
        match spec_find_live(entries, tabs, last_id) {
            Some(p) => {
                lemma_find_live_id(entries, tabs, last_id);
                let full = rest.push(p);
                assert(full.drop_last() =~= rest);
                assert(full.last() == p);
                assert(spec_reconcile(full, entries, tabs) == spec_reconcile(
                    rest,
                    entries,
                    tabs,
                ).push(p));
            },
            None => {},
        }
    }
}

/// Finds the first live, non-overlay pane with this identity in one tab's
/// pane list.
fn live_in(panes: &Vec<PaneInfo>, id: u32) -> (r: Option<&PaneInfo>)
    ensures
        match r {
            Some(p) => spec_live_in(panes@, id) == Some(*p),
            None => spec_live_in(panes@, id) is None,
        },
{
    let s = Ghost(panes@);
    let mut i: usize = 0;
    proof {
        assert(s@.skip(0) =~= s@);
    }
    while i < panes.len()
        invariant
            s@ == panes@,
            i <= s@.len(),
            spec_live_in(s@, id) == spec_live_in(s@.skip(i as int), id),
        decreases s@.len() - i,
    {
        proof {
            assert(s@.skip(i as int)[0] == s@[i as int]);
        }
        if !panes[i].is_plugin && panes[i].id == id {
            return Some(&panes[i]);
        }
        proof {
            assert(s@.skip(i as int).drop_first() =~= s@.skip(i as int + 1));
        }
        i += 1;
    }
    proof {
        assert(s@.skip(i as int) =~= Seq::<PaneInfo>::empty());
    }
    None
}

/// Finds the tab record carrying this position.
pub(crate) fn find_tab(tab_infos: &[TabInfo], position: usize) -> (r: Option<&TabInfo>)
    ensures
        match r {
            Some(t) => spec_find_tab(tab_infos@, position) == Some(*t),
            None => spec_find_tab(tab_infos@, position) is None,
        },
{
    let s = Ghost(tab_infos@);
    let mut i: usize = 0;
    proof {
        assert(s@.skip(0) =~= s@);
    }
    while i < tab_infos.len()
        invariant
            s@ == tab_infos@,
            i <= s@.len(),
            spec_find_tab(s@, position) == spec_find_tab(s@.skip(i as int), position),
        decreases s@.len() - i,
    {
        proof {
            assert(s@.skip(i as int)[0] == s@[i as int]);
        }
        if tab_infos[i].position == position {
            return Some(&tab_infos[i]);
        }
        proof {
            assert(s@.skip(i as int).drop_first() =~= s@.skip(i as int + 1));
        }
        i += 1;
    }
    proof {
        assert(s@.skip(i as int) =~= Seq::<TabInfo>::empty());
    }
    None
}

/// Searches the whole snapshot, by identity, for a live pane and its
/// owning tab, and refreshes both records from the snapshot.
pub(crate) fn find_live_pane(
    pane_manifest: &PaneManifest,
    tab_infos: &[TabInfo],
    id: u32,
) -> (r: Option<Pane>)
    ensures
        r == spec_find_live(pane_manifest.panes@, tab_infos@, id),
{
    let s = Ghost(pane_manifest.panes@);
    let mut i: usize = 0;
    proof {
        assert(s@.skip(0) =~= s@);
    }
    while i < pane_manifest.panes.len()
        invariant
            s@ == pane_manifest.panes@,
            i <= s@.len(),
            spec_find_live(s@, tab_infos@, id) == spec_find_live(
                s@.skip(i as int),
                tab_infos@,
                id,
            ),
        decreases s@.len() - i,
    {
        proof {
            assert(s@.skip(i as int)[0] == s@[i as int]);
        }
        let entry = &pane_manifest.panes[i];
        if let Some(pi) = live_in(&entry.panes, id) {
            if let Some(ti) = find_tab(tab_infos, entry.position) {
                return Some(Pane { pane_info: copy_pane_info(pi), tab_info: copy_tab_info(ti) });
            }
        }
        proof {
            assert(s@.skip(i as int).drop_first() =~= s@.skip(i as int + 1));
        }
        i += 1;
    }
    proof {
        assert(s@.skip(i as int) =~= Seq::<TabPanes>::empty());
    }
    None
}

/// Reconciles a tracked list against the latest snapshot: keeps, in
/// order, exactly the entries whose identity is still live, each with
/// metadata refreshed from the snapshot.
pub fn get_valid_panes(
    panes: &Vec<Pane>,
    pane_manifest: &PaneManifest,
    tab_infos: &Vec<TabInfo>,
) -> (r: Vec<Pane>)
    ensures
        r@ == spec_reconcile(panes@, pane_manifest.panes@, tab_infos@),
{
    let mut new_panes: Vec<Pane> = Vec::new();
    let mut i: usize = 0;
    proof {
        assert(panes@.take(0) =~= Seq::<Pane>::empty());
    }
    while i < panes.len()
        invariant
            i <= panes@.len(),
            new_panes@ == spec_reconcile(
                panes@.take(i as int),
                pane_manifest.panes@,
                tab_infos@,
            ),
        decreases panes@.len() - i,
    {
        proof {
            assert(panes@.take(i as int + 1).drop_last() =~= panes@.take(i as int));
            assert(panes@.take(i as int + 1).last() == panes@[i as int]);
        }
        match find_live_pane(pane_manifest, tab_infos, panes[i].pane_info.id) {
            Some(p) => new_panes.push(p),
            None => {},
        }
        i += 1;
    }
    proof {
        assert(panes@.take(i as int) =~= panes@);
    }
    new_panes
}

} // verus!

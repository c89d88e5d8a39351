//! BookmarkMatcher: resolves pending durable bookmarks into concrete
//! tracked entries after a session restart, by scanning the snapshot for
//! live panes whose (tab name, pane title) equals the bookmark's key.
//! A claimed-identity set — seeded with every identity already tracked —
//! guarantees that one pass never claims the same live pane twice.

use vstd::prelude::*;
use crate::model::{
    contains_id, copy_bookmark, copy_pane_info, copy_tab_info, distinct_ids, pane_ids, Pane,
    PaneBookmark, PaneInfo, PaneManifest, TabInfo, TabPanes,
};
use crate::reconcile::{find_tab, spec_find_tab};

verus! {

/// One identity list is contained in another.
pub open spec fn ids_subset(a: Seq<u32>, b: Seq<u32>) -> bool {
    forall|x: u32| a.contains(x) ==> b.contains(x)
}

/// The first non-overlay pane of one tab's list whose title equals the
/// bookmark's title and whose identity is not yet claimed.
pub open spec fn spec_match_in(panes: Seq<PaneInfo>, title: Seq<char>, claimed: Seq<u32>) -> Option<
    PaneInfo,
>
    decreases panes.len(),
{
    if panes.len() == 0 {
        None
    } else if !panes[0].is_plugin && panes[0].title@ == title && !claimed.contains(panes[0].id) {
        Some(panes[0])
    } else {
        spec_match_in(panes.drop_first(), title, claimed)
    }
}

/// Scans the snapshot, entry by entry in snapshot order, for the first
/// live pane matching the bookmark: the entry's tab must exist and carry
/// the bookmark's tab name, and the pane's title and unclaimed identity
/// must match. Exact string equality only.
pub open spec fn spec_find_match(
    entries: Seq<TabPanes>,
    tabs: Seq<TabInfo>,
    bookmark: PaneBookmark,
    claimed: Seq<u32>,
) -> Option<Pane>
    decreases entries.len(),
{
    if entries.len() == 0 {
        None
    } else {
        let here = match spec_find_tab(tabs, entries[0].position) {
            Some(t) => if t.name@ == bookmark.tab_name@ {
                match spec_match_in(entries[0].panes@, bookmark.pane_title@, claimed) {
                    Some(p) => Some(Pane { pane_info: p, tab_info: t }),
                    None => None,
                }
            } else {
                None
            },
            None => None,
        };
        if here is Some {
            here
        } else {
            spec_find_match(entries.drop_first(), tabs, bookmark, claimed)
        }
    }
}

/// One matching pass: resolves the pending bookmarks in pending-list
/// order, threading the claimed-identity list. Yields the new tracked
/// entries, in match order, and the bookmarks left pending.
pub open spec fn spec_match_pass(
    pending: Seq<PaneBookmark>,
    entries: Seq<TabPanes>,
    tabs: Seq<TabInfo>,
    claimed: Seq<u32>,
) -> (Seq<Pane>, Seq<PaneBookmark>)
    decreases pending.len(),
{
    if pending.len() == 0 {
        (Seq::empty(), Seq::empty())
    } else {
        match spec_find_match(entries, tabs, pending[0], claimed) {
            Some(p) => {
                let rest = spec_match_pass(
                    pending.drop_first(),
                    entries,
                    tabs,
                    claimed.push(p.pane_info.id),
                );
                (seq![p] + rest.0, rest.1)
            },
            None => {
                let rest = spec_match_pass(pending.drop_first(), entries, tabs, claimed);
                (rest.0, seq![pending[0]] + rest.1)
            },
        }
    }
}

/// A matched pane's identity was unclaimed, and it is never the overlay.
proof fn lemma_match_in_props(panes: Seq<PaneInfo>, title: Seq<char>, claimed: Seq<u32>)
    ensures
        spec_match_in(panes, title, claimed) matches Some(p) ==> !claimed.contains(p.id)
            && !p.is_plugin && p.title@ == title,
    decreases panes.len(),
{
    if panes.len() > 0 {
        lemma_match_in_props(panes.drop_first(), title, claimed);
    }
}

/// A match found anywhere in the snapshot has an unclaimed identity.
pub proof fn lemma_find_match_props(
    entries: Seq<TabPanes>,
    tabs: Seq<TabInfo>,
    bookmark: PaneBookmark,
    claimed: Seq<u32>,
)
    ensures
        spec_find_match(entries, tabs, bookmark, claimed) matches Some(p) ==> !claimed.contains(
            p.pane_info.id,
        ) && !p.pane_info.is_plugin && p.pane_info.title@ == bookmark.pane_title@,
    decreases entries.len(),
{
    if entries.len() > 0 {
        lemma_match_in_props(entries[0].panes@, bookmark.pane_title@, claimed);
        lemma_find_match_props(entries.drop_first(), tabs, bookmark, claimed);
    }
}

/// No double-claim: the entries resolved by one pass carry pairwise
/// distinct identities, and none of them is an identity that was already
/// claimed when the pass began.
pub proof fn lemma_match_pass_no_double_claim(
    pending: Seq<PaneBookmark>,
    entries: Seq<TabPanes>,
    tabs: Seq<TabInfo>,
    claimed: Seq<u32>,
)
    ensures
        distinct_ids(spec_match_pass(pending, entries, tabs, claimed).0),
        forall|i: int|
            0 <= i < spec_match_pass(pending, entries, tabs, claimed).0.len()
                ==> !claimed.contains(
                #[trigger] spec_match_pass(pending, entries, tabs, claimed).0[i].pane_info.id,
            ),
    decreases pending.len(),
{
    if pending.len() > 0 {
        let m = spec_match_pass(pending, entries, tabs, claimed).0;
        match spec_find_match(entries, tabs, pending[0], claimed) {
            Some(p) => {
                lemma_find_match_props(entries, tabs, pending[0], claimed);
                let claimed2 = claimed.push(p.pane_info.id);
                lemma_match_pass_no_double_claim(
                    pending.drop_first(),
                    entries,
                    tabs,
                    claimed2,
                );
                let rest = spec_match_pass(pending.drop_first(), entries, tabs, claimed2).0;
                assert(m == seq![p] + rest);
                assert(m[0] == p);
                assert(forall|i: int| 1 <= i < m.len() ==> m[i] == rest[i - 1]);
                assert(claimed2.contains(p.pane_info.id)) by {
                    assert(claimed2[claimed2.len() - 1] == p.pane_info.id);
                }
                assert(forall|x: u32| claimed.contains(x) ==> claimed2.contains(x)) by {
                    assert forall|x: u32| claimed.contains(x) implies claimed2.contains(x) by {
                        let k = choose|k: int| 0 <= k < claimed.len() && claimed[k] == x;
                        assert(claimed2[k] == x);
                    }
                }
            },
            None => {
                lemma_match_pass_no_double_claim(pending.drop_first(), entries, tabs, claimed);
                let rest = spec_match_pass(pending.drop_first(), entries, tabs, claimed).0;
                assert(m == rest);
            },
        }
    }
}

/// A pane that finds no unclaimed match under one claimed list finds none
/// under any larger claimed list.
proof fn lemma_match_in_monotone(
    panes: Seq<PaneInfo>,
    title: Seq<char>,
    c1: Seq<u32>,
    c2: Seq<u32>,
)
    requires
        ids_subset(c1, c2),
        spec_match_in(panes, title, c1) is None,
    ensures
        spec_match_in(panes, title, c2) is None,
    decreases panes.len(),
{
    if panes.len() > 0 {
        lemma_match_in_monotone(panes.drop_first(), title, c1, c2);
    }
}

/// A bookmark that resolves nowhere under one claimed list resolves
/// nowhere under any larger claimed list.
proof fn lemma_find_match_monotone(
    entries: Seq<TabPanes>,
    tabs: Seq<TabInfo>,
    bookmark: PaneBookmark,
    c1: Seq<u32>,
    c2: Seq<u32>,
)
    requires
        ids_subset(c1, c2),
        spec_find_match(entries, tabs, bookmark, c1) is None,
    ensures
        spec_find_match(entries, tabs, bookmark, c2) is None,
    decreases entries.len(),
{
    if entries.len() > 0 {
        match spec_find_tab(tabs, entries[0].position) {
            Some(t) => {
                if t.name@ == bookmark.tab_name@ {
                    lemma_match_in_monotone(entries[0].panes@, bookmark.pane_title@, c1, c2);
                }
            },
            None => {},
        }
        lemma_find_match_monotone(entries.drop_first(), tabs, bookmark, c1, c2);
    }
}

/// Idempotence of matching: once a pass has resolved what it can, a
/// second pass against the same snapshot — with the resolved identities
/// claimed — resolves nothing and leaves the pending list as it stands.
pub proof fn lemma_match_pass_rerun(
    pending: Seq<PaneBookmark>,
    entries: Seq<TabPanes>,
    tabs: Seq<TabInfo>,
    claimed: Seq<u32>,
    claimed2: Seq<u32>,
)
    requires
        ids_subset(claimed + pane_ids(spec_match_pass(pending, entries, tabs, claimed).0), claimed2),
    ensures
        spec_match_pass(
            spec_match_pass(pending, entries, tabs, claimed).1,
            entries,
            tabs,
            claimed2,
        ) == (Seq::<Pane>::empty(), spec_match_pass(pending, entries, tabs, claimed).1),
    decreases pending.len(),
{
    let pass = spec_match_pass(pending, entries, tabs, claimed);
    if pending.len() == 0 {
        assert(pass.1.len() == 0);
    } else {
        match spec_find_match(entries, tabs, pending[0], claimed) {
            Some(p) => {
                let c_in = claimed.push(p.pane_info.id);
                let rest = spec_match_pass(pending.drop_first(), entries, tabs, c_in);
                assert(pass.1 == rest.1);
                assert(ids_subset(c_in + pane_ids(rest.0), claimed2)) by {
                    let lhs = c_in + pane_ids(rest.0);
                    let big = claimed + pane_ids(pass.0);
                    assert forall|x: u32| lhs.contains(x) implies claimed2.contains(x) by {
                        let k = choose|k: int| 0 <= k < lhs.len() && lhs[k] == x;
                        if k < claimed.len() {
                            assert(big[k] == x);
                        } else if k == claimed.len() {
                            // x is the newly claimed identity p
                            assert(pass.0 == seq![p] + rest.0);
                            assert(pane_ids(pass.0)[0] == p.pane_info.id);
                            assert(big[claimed.len() as int] == p.pane_info.id);
                        } else {
                            // x is one of the identities matched later
                            let j = k - claimed.len() - 1;
                            assert(pane_ids(rest.0)[j] == x);
                            assert(pass.0 == seq![p] + rest.0);
                            assert(pass.0[j + 1] == rest.0[j]);
                            assert(pane_ids(pass.0)[j + 1] == x);
                            assert(big[claimed.len() + j + 1] == x);
                        }
                        assert(big.contains(x));
                    }
                }
                lemma_match_pass_rerun(pending.drop_first(), entries, tabs, c_in, claimed2);
            },
            None => {
                let rest = spec_match_pass(pending.drop_first(), entries, tabs, claimed);
                assert(pass.1 == seq![pending[0]] + rest.1);
                assert(ids_subset(claimed, claimed2)) by {
                    let big = claimed + pane_ids(pass.0);
                    assert forall|x: u32| claimed.contains(x) implies claimed2.contains(x) by {
                        let k = choose|k: int| 0 <= k < claimed.len() && claimed[k] == x;
                        assert(big[k] == x);
                    }
                }
                lemma_find_match_monotone(entries, tabs, pending[0], claimed, claimed2);
                assert(ids_subset(claimed + pane_ids(rest.0), claimed2)) by {
                    let lhs = claimed + pane_ids(rest.0);
                    let big = claimed + pane_ids(pass.0);
                    assert(pass.0 == rest.0);
                    assert forall|x: u32| lhs.contains(x) implies claimed2.contains(x) by {
                        let k = choose|k: int| 0 <= k < lhs.len() && lhs[k] == x;
                        assert(big[k] == x);
                    }
                }
                lemma_match_pass_rerun(pending.drop_first(), entries, tabs, claimed, claimed2);
                let rerun = spec_match_pass(pass.1, entries, tabs, claimed2);
                assert(pass.1[0] == pending[0]);
                assert(pass.1.drop_first() =~= rest.1);
                assert(rerun.0 =~= Seq::<Pane>::empty());
                assert(rerun.1 =~= seq![pending[0]] + rest.1);
            },
        }
    }
}

/// The identities already present in a tracked list, as the seed of the
/// claimed-identity list.
pub(crate) fn collect_ids(panes: &[Pane]) -> (r: Vec<u32>)
    ensures
        r@ == pane_ids(panes@),
{
    let mut ids: Vec<u32> = Vec::new();
    let mut i: usize = 0;
    proof {
        assert(ids@ =~= pane_ids(panes@.take(0)));
    }
    while i < panes.len()
        invariant
            i <= panes@.len(),
            ids@ == pane_ids(panes@.take(i as int)),
        decreases panes@.len() - i,
    {
        ids.push(panes[i].pane_info.id);
        proof {
            assert(ids@ =~= pane_ids(panes@.take(i as int + 1)));
        }
        i += 1;
    }
    proof {
        assert(panes@.take(i as int) =~= panes@);
    }
    ids
}

/// Whether an identity is already claimed.
fn claimed_contains(claimed: &Vec<u32>, id: u32) -> (r: bool)
    ensures
        r == claimed@.contains(id),
{
    let mut i: usize = 0;
    while i < claimed.len()
        invariant
            i <= claimed@.len(),
            forall|k: int| 0 <= k < i ==> claimed@[k] != id,
        decreases claimed@.len() - i,
    {
        if claimed[i] == id {
            return true;
        }
        i += 1;
    }
    false
}

/// Finds, within one tab's pane list, the first non-overlay pane with
/// this title and an unclaimed identity.
fn match_in<'a>(panes: &'a Vec<PaneInfo>, title: &String, claimed: &Vec<u32>) -> (r: Option<
    &'a PaneInfo,
>)
    ensures
        match r {
            Some(p) => spec_match_in(panes@, title@, claimed@) == Some(*p),
            None => spec_match_in(panes@, title@, claimed@) is None,
        },
{
    let s = Ghost(panes@);
    let mut i: usize = 0;
    proof {
        assert(s@.skip(0) =~= s@);
    }
    while i < panes.len()
        invariant
            s@ == panes@,
            i <= s@.len(),
            spec_match_in(s@, title@, claimed@) == spec_match_in(
                s@.skip(i as int),
                title@,
                claimed@,
            ),
        decreases s@.len() - i,
    {
        proof {
            assert(s@.skip(i as int)[0] == s@[i as int]);
        }
        if !panes[i].is_plugin && panes[i].title == *title && !claimed_contains(claimed, panes[i].id) {
            return Some(&panes[i]);
        }
        proof {
            assert(s@.skip(i as int).drop_first() =~= s@.skip(i as int + 1));
        }
        i += 1;
    }
    proof {
        assert(s@.skip(i as int) =~= Seq::<PaneInfo>::empty());
    }
    None
}

/// Scans the snapshot for the first live pane that resolves this
/// bookmark, honoring the claimed identities.
fn find_match(
    pane_manifest: &PaneManifest,
    tab_infos: &[TabInfo],
    bookmark: &PaneBookmark,
    claimed: &Vec<u32>,
) -> (r: Option<Pane>)
    ensures
        r == spec_find_match(pane_manifest.panes@, tab_infos@, *bookmark, claimed@),
{
    let s = Ghost(pane_manifest.panes@);
    let mut i: usize = 0;
    proof {
        assert(s@.skip(0) =~= s@);
    }
    while i < pane_manifest.panes.len()
        invariant
            s@ == pane_manifest.panes@,
            i <= s@.len(),
            spec_find_match(s@, tab_infos@, *bookmark, claimed@) == spec_find_match(
                s@.skip(i as int),
                tab_infos@,
                *bookmark,
                claimed@,
            ),
        decreases s@.len() - i,
    {
        proof {
            assert(s@.skip(i as int)[0] == s@[i as int]);
        }
        let entry = &pane_manifest.panes[i];
        if let Some(t) = find_tab(tab_infos, entry.position) {
            if t.name == bookmark.tab_name {
                if let Some(p) = match_in(&entry.panes, &bookmark.pane_title, claimed) {
                    return Some(
                        Pane { pane_info: copy_pane_info(p), tab_info: copy_tab_info(t) },
                    );
                }
            }
        }
        proof {
            assert(s@.skip(i as int).drop_first() =~= s@.skip(i as int + 1));
        }
        i += 1;
    }
    proof {
        assert(s@.skip(i as int) =~= Seq::<TabPanes>::empty());
    }
    None
}

/// One matching pass over the pending bookmarks, in pending-list order.
/// Returns the resolved tracked entries and the bookmarks left pending;
/// the claimed-identity list is seeded with every identity of `panes`.
pub fn match_pass(
    pending: &Vec<PaneBookmark>,
    panes: &[Pane],
    pane_manifest: &PaneManifest,
    tab_infos: &[TabInfo],
) -> (r: (Vec<Pane>, Vec<PaneBookmark>))
    ensures
        (r.0@, r.1@) == spec_match_pass(
            pending@,
            pane_manifest.panes@,
            tab_infos@,
            pane_ids(panes@),
        ),
{
    let ghost entries = pane_manifest.panes@;
    let ghost tabs = tab_infos@;
    let ghost whole = spec_match_pass(pending@, entries, tabs, pane_ids(panes@));
    let mut claimed: Vec<u32> = collect_ids(panes);
    let mut matched: Vec<Pane> = Vec::new();
    let mut remaining: Vec<PaneBookmark> = Vec::new();
    let mut i: usize = 0;
    proof {
        assert(pending@.skip(0) =~= pending@);
        assert(claimed@ =~= pane_ids(panes@) + pane_ids(matched@));
        let tail = spec_match_pass(pending@, entries, tabs, claimed@);
        assert(matched@ + tail.0 =~= tail.0);
        assert(remaining@ + tail.1 =~= tail.1);
    }
    while i < pending.len()
        invariant
            i <= pending@.len(),
            entries == pane_manifest.panes@,
            tabs == tab_infos@,
            whole == spec_match_pass(pending@, entries, tabs, pane_ids(panes@)),
            claimed@ == pane_ids(panes@) + pane_ids(matched@),
            whole.0 == matched@ + spec_match_pass(
                pending@.skip(i as int),
                entries,
                tabs,
                claimed@,
            ).0,
            whole.1 == remaining@ + spec_match_pass(
                pending@.skip(i as int),
                entries,
                tabs,
                claimed@,
            ).1,
        decreases pending@.len() - i,
    {
        proof {
            assert(pending@.skip(i as int)[0] == pending@[i as int]);
            assert(pending@.skip(i as int).drop_first() =~= pending@.skip(i as int + 1));
        }
        let ghost claimed_pre = claimed@;
        let bookmark = &pending[i];
        match find_match(pane_manifest, tab_infos, bookmark, &claimed) {
            Some(p) => {
                let id = p.pane_info.id;
                matched.push(p);
                claimed.push(id);
                proof {
                    assert(claimed@ =~= pane_ids(panes@) + pane_ids(matched@));
                    let tail = spec_match_pass(
                        pending@.skip(i as int),
                        entries,
                        tabs,
                        claimed_pre,
                    );
                    let next = spec_match_pass(
                        pending@.skip(i as int + 1),
                        entries,
                        tabs,
                        claimed@,
                    );
                    assert(tail.0 == seq![matched@.last()] + next.0);
                    assert(matched@.drop_last() + tail.0 =~= matched@ + next.0);
                }
            },
            None => {
                remaining.push(copy_bookmark(bookmark));
                proof {
                    let tail = spec_match_pass(
                        pending@.skip(i as int),
                        entries,
                        tabs,
                        claimed@,
                    );
                    let next = spec_match_pass(
                        pending@.skip(i as int + 1),
                        entries,
                        tabs,
                        claimed@,
                    );
                    assert(tail.1 == seq![pending@[i as int]] + next.1);
                    assert(remaining@.drop_last() + tail.1 =~= remaining@ + next.1);
                }
            },
        }
        i += 1;
    }
    proof {
        assert(pending@.skip(i as int) =~= Seq::<PaneBookmark>::empty());
        let tail = spec_match_pass(pending@.skip(i as int), entries, tabs, claimed@);
        assert(matched@ + tail.0 =~= matched@);
        assert(remaining@ + tail.1 =~= remaining@);
    }
    (matched, remaining)
}

} // verus!

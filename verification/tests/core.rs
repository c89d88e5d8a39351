//! Reconciliation, focus derivation, bookmark matching, and the
//! selection cursor, exercised on concrete workspaces.

use zellij_harpoon::matcher::match_pass;
use zellij_harpoon::model::{Pane, PaneBookmark, PaneInfo, PaneManifest, TabInfo, TabPanes};
use zellij_harpoon::persistence::Persistence;
use zellij_harpoon::reconcile::get_valid_panes;
use zellij_harpoon::focus::{get_focused_pane, get_focused_tab};
use zellij_harpoon::state::State;

fn pane(id: u32, title: &str, focused: bool, overlay: bool) -> PaneInfo {
    PaneInfo { id, title: String::from(title), is_focused: focused, is_plugin: overlay }
}

fn tab(position: usize, name: &str, active: bool) -> TabInfo {
    TabInfo { position, name: String::from(name), active }
}

fn entry(position: usize, panes: Vec<PaneInfo>) -> TabPanes {
    TabPanes { position, panes }
}

fn listed(id: u32, title: &str, tab_position: usize, tab_name: &str) -> Pane {
    Pane {
        pane_info: pane(id, title, false, false),
        tab_info: tab(tab_position, tab_name, false),
    }
}

#[test]
fn reconcile_drops_tab_removed_entirely() {
    // A tracked pane in tab "work"; the snapshot no longer has that tab.
    let tracked_list = vec![listed(1, "server", 0, "work")];
    let manifest = PaneManifest { panes: vec![entry(0, vec![pane(9, "other", true, false)])] };
    let tabs = vec![tab(0, "mail", true)];
    let out = get_valid_panes(&tracked_list, &manifest, &tabs);
    assert_eq!(out.len(), 0);
}

#[test]
fn reconcile_refreshes_metadata_from_snapshot() {
    // The pane moved to another tab and was retitled; identity matches.
    let tracked_list = vec![listed(7, "old title", 0, "old tab")];
    let manifest = PaneManifest { panes: vec![entry(2, vec![pane(7, "new title", false, false)])] };
    let tabs = vec![tab(2, "new tab", false)];
    let out = get_valid_panes(&tracked_list, &manifest, &tabs);
    assert_eq!(out.len(), 1);
    assert_eq!(out[0].pane_info.id, 7);
    assert_eq!(out[0].pane_info.title, "new title");
    assert_eq!(out[0].tab_info.name, "new tab");
    assert_eq!(out[0].tab_info.position, 2);
}

#[test]
fn reconcile_keeps_survivor_order_and_drops_absent() {
    let tracked_list = vec![
        listed(1, "a", 0, "t0"),
        listed(2, "b", 0, "t0"),
        listed(3, "c", 1, "t1"),
    ];
    let manifest = PaneManifest {
        panes: vec![
            entry(0, vec![pane(3, "c2", false, false)]),
            entry(1, vec![pane(1, "a2", false, false)]),
        ],
    };
    let tabs = vec![tab(0, "t0", true), tab(1, "t1", false)];
    let out = get_valid_panes(&tracked_list, &manifest, &tabs);
    // 2 disappeared; 1 and 3 survive in their prior relative order.
    assert_eq!(out.len(), 2);
    assert_eq!(out[0].pane_info.id, 1);
    assert_eq!(out[1].pane_info.id, 3);
}

#[test]
fn reconcile_ignores_overlay_with_same_identity() {
    let tracked_list = vec![listed(5, "x", 0, "t")];
    let manifest = PaneManifest { panes: vec![entry(0, vec![pane(5, "x", false, true)])] };
    let tabs = vec![tab(0, "t", true)];
    let out = get_valid_panes(&tracked_list, &manifest, &tabs);
    assert_eq!(out.len(), 0);
}

#[test]
fn reconcile_twice_equals_once() {
    let tracked_list = vec![listed(1, "a", 0, "t0"), listed(2, "b", 1, "t1")];
    let manifest = PaneManifest {
        panes: vec![
            entry(0, vec![pane(2, "b2", false, false)]),
            entry(1, vec![pane(4, "d", true, false)]),
        ],
    };
    let tabs = vec![tab(0, "t0", true), tab(1, "t1", false)];
    let once = get_valid_panes(&tracked_list, &manifest, &tabs);
    let twice = get_valid_panes(&once, &manifest, &tabs);
    assert_eq!(once.len(), twice.len());
    for (a, b) in once.iter().zip(twice.iter()) {
        assert_eq!(a.pane_info.id, b.pane_info.id);
        assert_eq!(a.pane_info.title, b.pane_info.title);
        assert_eq!(a.tab_info.name, b.tab_info.name);
        assert_eq!(a.tab_info.position, b.tab_info.position);
    }
}

#[test]
fn focused_tab_is_first_active() {
    let tabs = vec![tab(0, "a", false), tab(1, "b", true), tab(2, "c", true)];
    let t = get_focused_tab(&tabs).expect("one tab is active");
    assert_eq!(t.name, "b");
    assert_eq!(t.position, 1);
}

#[test]
fn focused_tab_none_without_active() {
    let tabs = vec![tab(0, "a", false), tab(1, "b", false)];
    assert!(get_focused_tab(&tabs).is_none());
}

#[test]
fn focused_pane_prefers_focused_non_overlay() {
    let manifest = PaneManifest {
        panes: vec![entry(
            1,
            vec![
                pane(1, "first", false, false),
                pane(2, "overlay", true, true),
                pane(3, "real", true, false),
            ],
        )],
    };
    let p = get_focused_pane(1, &manifest).expect("a pane is focused");
    assert_eq!(p.id, 3);
}

#[test]
fn focused_pane_falls_back_to_first_non_overlay() {
    // Only the overlay holds focus: the first non-overlay pane stands in.
    let manifest = PaneManifest {
        panes: vec![entry(
            0,
            vec![pane(2, "overlay", true, true), pane(4, "a", false, false), pane(
                5, "b", false, false,
            )],
        )],
    };
    let p = get_focused_pane(0, &manifest).expect("fallback pane");
    assert_eq!(p.id, 4);
}

#[test]
fn focused_pane_none_without_candidates() {
    let manifest = PaneManifest {
        panes: vec![entry(0, vec![pane(2, "overlay", true, true)])],
    };
    assert!(get_focused_pane(0, &manifest).is_none());
}

#[test]
fn focused_pane_none_for_unknown_position() {
    let manifest = PaneManifest { panes: vec![entry(0, vec![pane(1, "a", true, false)])] };
    assert!(get_focused_pane(3, &manifest).is_none());
}

#[test]
fn matching_resolves_only_present_bookmark() {
    // Pending [("T1","P1"), ("T2","P2")]; only ("T1","P1") is live.
    let pending = vec![
        PaneBookmark { tab_name: String::from("T1"), pane_title: String::from("P1") },
        PaneBookmark { tab_name: String::from("T2"), pane_title: String::from("P2") },
    ];
    let manifest = PaneManifest { panes: vec![entry(0, vec![pane(11, "P1", false, false)])] };
    let tabs = vec![tab(0, "T1", true)];
    let (matched, remaining) = match_pass(&pending, &[], &manifest, &tabs);
    assert_eq!(matched.len(), 1);
    assert_eq!(matched[0].pane_info.id, 11);
    assert_eq!(matched[0].tab_info.name, "T1");
    assert_eq!(remaining.len(), 1);
    assert_eq!(remaining[0].tab_name, "T2");
    assert_eq!(remaining[0].pane_title, "P2");
}

#[test]
fn matching_never_claims_one_pane_twice() {
    // Two identical bookmarks, one matching live pane: at most one resolves.
    let pending = vec![
        PaneBookmark { tab_name: String::from("work"), pane_title: String::from("server") },
        PaneBookmark { tab_name: String::from("work"), pane_title: String::from("server") },
    ];
    let manifest = PaneManifest { panes: vec![entry(0, vec![pane(21, "server", false, false)])] };
    let tabs = vec![tab(0, "work", true)];
    let (matched, remaining) = match_pass(&pending, &[], &manifest, &tabs);
    assert_eq!(matched.len(), 1);
    assert_eq!(matched[0].pane_info.id, 21);
    assert_eq!(remaining.len(), 1);
    assert_eq!(remaining[0].tab_name, "work");
    assert_eq!(remaining[0].pane_title, "server");
}

#[test]
fn matching_takes_first_of_duplicate_titles() {
    // Two live panes titled "server": snapshot order decides; id 8 is untouched.
    let mut store = Persistence::new();
    store.pending_bookmarks = vec![PaneBookmark {
        tab_name: String::from("work"),
        pane_title: String::from("server"),
    }];
    let manifest = PaneManifest {
        panes: vec![entry(
            0,
            vec![pane(7, "server", false, false), pane(8, "server copy", false, false)],
        )],
    };
    let tabs = vec![tab(0, "work", true)];
    let matched = store.match_pending_bookmarks(&[], &manifest, &tabs);
    assert_eq!(matched.len(), 1);
    assert_eq!(matched[0].pane_info.id, 7);
    assert!(store.pending_bookmarks.is_empty());
}

#[test]
fn matching_honors_already_tracked_identities() {
    // The only live "server" pane is already tracked: the bookmark stays pending.
    let already = vec![listed(7, "server", 0, "work")];
    let pending = vec![PaneBookmark {
        tab_name: String::from("work"),
        pane_title: String::from("server"),
    }];
    let manifest = PaneManifest { panes: vec![entry(0, vec![pane(7, "server", false, false)])] };
    let tabs = vec![tab(0, "work", true)];
    let (matched, remaining) = match_pass(&pending, &already, &manifest, &tabs);
    assert_eq!(matched.len(), 0);
    assert_eq!(remaining.len(), 1);
}

#[test]
fn matching_requires_exact_strings() {
    let pending = vec![PaneBookmark {
        tab_name: String::from("work"),
        pane_title: String::from("server"),
    }];
    let manifest = PaneManifest {
        panes: vec![entry(0, vec![pane(1, "Server", false, false), pane(
            2,
            "server ",
            false,
            false,
        )])],
    };
    let tabs = vec![tab(0, "work", true)];
    let (matched, remaining) = match_pass(&pending, &[], &manifest, &tabs);
    assert_eq!(matched.len(), 0);
    assert_eq!(remaining.len(), 1);
}

#[test]
fn matching_empty_pending_is_noop() {
    let manifest = PaneManifest { panes: vec![entry(0, vec![pane(1, "a", false, false)])] };
    let tabs = vec![tab(0, "t", true)];
    let mut store = Persistence::new();
    let matched = store.match_pending_bookmarks(&[], &manifest, &tabs);
    assert!(matched.is_empty());
    assert!(store.pending_bookmarks.is_empty());
}

#[test]
fn cursor_advance_wraps_past_end() {
    let mut s = State::new();
    s.panes = vec![listed(1, "a", 0, "t"), listed(2, "b", 0, "t"), listed(3, "c", 1, "u")];
    s.selected = 2;
    s.select_down();
    assert_eq!(s.selected, 0);
    s.select_down();
    assert_eq!(s.selected, 1);
}

#[test]
fn cursor_retreat_wraps_before_zero() {
    let mut s = State::new();
    s.panes = vec![listed(1, "a", 0, "t"), listed(2, "b", 0, "t")];
    s.selected = 0;
    s.select_up();
    assert_eq!(s.selected, 1);
    s.select_up();
    assert_eq!(s.selected, 0);
}

#[test]
fn cursor_clamp_is_zero_on_empty_list() {
    let mut s = State::new();
    s.selected = 0;
    s.clamp_selected();
    assert_eq!(s.selected, 0);
}

#[test]
fn cursor_clamp_pulls_back_into_range() {
    let mut s = State::new();
    s.panes = vec![listed(1, "a", 0, "t"), listed(2, "b", 0, "t")];
    s.selected = 1;
    s.clamp_selected();
    assert_eq!(s.selected, 1);
    // Simulate a stale out-of-range cursor after the list shrank.
    s.panes.pop();
    s.clamp_selected();
    assert_eq!(s.selected, 0);
}

#[test]
fn sort_orders_by_tab_position_stably() {
    let mut s = State::new();
    s.panes = vec![
        listed(1, "a", 2, "w"),
        listed(2, "b", 0, "u"),
        listed(3, "c", 2, "w"),
        listed(4, "d", 1, "v"),
    ];
    s.sort_panes();
    let ids: Vec<u32> = s.panes.iter().map(|p| p.pane_info.id).collect();
    assert_eq!(ids, vec![2, 4, 1, 3]);
}

#[test]
fn display_line_joins_tab_and_title() {
    let p = listed(1, "server", 0, "work");
    assert_eq!(p.display_line(), "work | server");
}

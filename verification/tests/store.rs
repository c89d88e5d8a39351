//! The persistence store and the session context's event handling.

use zellij_harpoon::model::{Pane, PaneBookmark, PaneInfo, PaneManifest, TabInfo, TabPanes};
use zellij_harpoon::persistence::{Persistence, PersistenceError};
use zellij_harpoon::state::{Action, Event, KeyAction, RequestPurpose, State};

fn pane(id: u32, title: &str, focused: bool, overlay: bool) -> PaneInfo {
    PaneInfo { id, title: String::from(title), is_focused: focused, is_plugin: overlay }
}

fn tab(position: usize, name: &str, active: bool) -> TabInfo {
    TabInfo { position, name: String::from(name), active }
}

fn entry(position: usize, panes: Vec<PaneInfo>) -> TabPanes {
    TabPanes { position, panes }
}

fn listed(id: u32, title: &str, tab_position: usize, tab_name: &str) -> Pane {
    Pane {
        pane_info: pane(id, title, false, false),
        tab_info: tab(tab_position, tab_name, false),
    }
}

#[test]
fn session_file_path_is_under_data_dir() {
    let store = Persistence::new();
    let path = store.session_file_path(&Some(String::from("main"))).expect("path");
    assert_eq!(path, "${XDG_DATA_HOME:-$HOME/.local/share}/zellij-harpoon/main.json");
    assert!(store.session_file_path(&None).is_none());
}

#[test]
fn load_from_disk_needs_a_session_name() {
    let store = Persistence::new();
    assert!(store.load_from_disk(&None).is_none());
    let path = store.load_from_disk(&Some(String::from("s1"))).expect("path");
    assert_eq!(path, "${XDG_DATA_HOME:-$HOME/.local/share}/zellij-harpoon/s1.json");
}

#[test]
fn on_load_command_replaces_pending_set() {
    let mut store = Persistence::new();
    store.pending_bookmarks = vec![PaneBookmark {
        tab_name: String::from("stale"),
        pane_title: String::from("stale"),
    }];
    let r = store.on_load_command("[{\"tab_name\":\"work\",\"pane_title\":\"server\"}]");
    assert!(r.is_ok());
    assert_eq!(store.pending_bookmarks.len(), 1);
    assert_eq!(store.pending_bookmarks[0].tab_name, "work");
    assert_eq!(store.pending_bookmarks[0].pane_title, "server");
}

#[test]
fn on_load_command_reports_malformed_payload() {
    let mut store = Persistence::new();
    store.pending_bookmarks = vec![PaneBookmark {
        tab_name: String::from("kept"),
        pane_title: String::from("kept"),
    }];
    let r = store.on_load_command("not json");
    assert!(matches!(r, Err(PersistenceError::LoadFromDiskFailed)));
    // The pending set is left unchanged, never partially populated.
    assert_eq!(store.pending_bookmarks.len(), 1);
    assert_eq!(store.pending_bookmarks[0].tab_name, "kept");
}

#[test]
fn persistence_error_describes_itself() {
    let e = PersistenceError::LoadFromDiskFailed;
    assert_eq!(e.describe(), "Failed to load session from disk");
}

#[test]
fn save_needs_a_session_name() {
    let mut store = Persistence::new();
    let panes = vec![listed(1, "a", 0, "t")];
    assert!(store.save_to_disk(&None, &panes).is_none());
}

#[test]
fn save_issues_write_then_suppresses_unchanged_content() {
    let mut store = Persistence::new();
    let session = Some(String::from("main"));
    let panes = vec![listed(1, "server", 0, "work")];
    let req = store.save_to_disk(&session, &panes).expect("first save writes");
    assert_eq!(req.file_path, "${XDG_DATA_HOME:-$HOME/.local/share}/zellij-harpoon/main.json");
    assert_eq!(req.payload, "[{\"tab_name\":\"work\",\"pane_title\":\"server\"}]");
    // Same durable content, other identity: no second write.
    let same_content = vec![listed(9, "server", 3, "work")];
    assert!(store.save_to_disk(&session, &same_content).is_none());
    // Changed content: a write again.
    let changed = vec![listed(9, "logs", 3, "work")];
    let req2 = store.save_to_disk(&session, &changed).expect("changed content writes");
    assert_eq!(req2.payload, "[{\"tab_name\":\"work\",\"pane_title\":\"logs\"}]");
}

#[test]
fn session_update_issues_one_load_request() {
    let mut s = State::new();
    let (render, actions) = s.update(Event::SessionUpdate(Some(String::from("main"))));
    assert!(!render);
    assert_eq!(actions.len(), 1);
    match &actions[0] {
        Action::ReadBookmarks(path) => {
            assert_eq!(path, "${XDG_DATA_HOME:-$HOME/.local/share}/zellij-harpoon/main.json");
        },
        _ => panic!("expected a read request"),
    }
    // A repeated identity update issues no second load.
    let (_, again) = s.update(Event::SessionUpdate(Some(String::from("main"))));
    assert!(again.is_empty());
}

#[test]
fn snapshot_updates_reconcile_and_resolve_bookmarks() {
    let mut s = State::new();
    s.update(Event::CommandResult(
        RequestPurpose::Load,
        String::from("[{\"tab_name\":\"work\",\"pane_title\":\"server\"}]"),
    ));
    assert_eq!(s.persistence.pending_bookmarks.len(), 1);
    let (render, _) = s.update(Event::TabUpdate(vec![tab(0, "work", true)]));
    assert!(render);
    // The manifest completes the snapshot; the bookmark resolves now.
    let manifest = PaneManifest {
        panes: vec![entry(0, vec![pane(7, "server", true, false), pane(8, "other", false, false)])],
    };
    let (render2, _) = s.update(Event::PaneUpdate(manifest));
    assert!(render2);
    assert!(s.persistence.pending_bookmarks.is_empty());
    assert_eq!(s.panes.len(), 1);
    assert_eq!(s.panes[0].pane_info.id, 7);
    assert_eq!(s.panes[0].tab_info.name, "work");
}

#[test]
fn refresh_saves_once_and_suppresses_the_second() {
    let mut s = State::new();
    s.update(Event::SessionUpdate(Some(String::from("main"))));
    s.update(Event::CommandResult(
        RequestPurpose::Load,
        String::from("[{\"tab_name\":\"work\",\"pane_title\":\"server\"}]"),
    ));
    s.update(Event::TabUpdate(vec![tab(0, "work", true)]));
    let manifest = PaneManifest { panes: vec![entry(0, vec![pane(7, "server", true, false)])] };
    let (_, actions) = s.update(Event::PaneUpdate(manifest));
    // The resolved bookmark changed the tracked content: one write request.
    let writes: Vec<&Action> = actions
        .iter()
        .filter(|a| matches!(a, Action::WriteBookmarks(_)))
        .collect();
    assert_eq!(writes.len(), 1);
    match writes[0] {
        Action::WriteBookmarks(req) => {
            assert_eq!(req.payload, "[{\"tab_name\":\"work\",\"pane_title\":\"server\"}]");
        },
        _ => unreachable!(),
    }
    // The same snapshot again: nothing changed, no second write.
    let manifest2 = PaneManifest { panes: vec![entry(0, vec![pane(7, "server", true, false)])] };
    let (_, actions2) = s.update(Event::PaneUpdate(manifest2));
    assert!(actions2.iter().all(|a| !matches!(a, Action::WriteBookmarks(_))));
}

#[test]
fn add_focused_tracks_sorts_and_hides() {
    let mut s = State::new();
    s.update(Event::TabUpdate(vec![tab(0, "alpha", false), tab(1, "beta", true)]));
    let manifest = PaneManifest {
        panes: vec![
            entry(0, vec![pane(1, "left", false, false)]),
            entry(1, vec![pane(2, "right", true, false)]),
        ],
    };
    s.update(Event::PaneUpdate(manifest));
    // The focused pane is (2, "right") in the active tab "beta".
    let (render, actions) = s.update(Event::Key(KeyAction::AddFocused));
    assert!(render);
    assert!(matches!(actions[0], Action::HideSelf));
    assert_eq!(s.panes.len(), 1);
    assert_eq!(s.panes[0].pane_info.id, 2);
    // Adding the same pane again changes nothing.
    let (_, _) = s.update(Event::Key(KeyAction::AddFocused));
    assert_eq!(s.panes.len(), 1);
}

#[test]
fn delete_selected_removes_and_retreats() {
    let mut s = State::new();
    s.panes = vec![listed(1, "a", 0, "t"), listed(2, "b", 1, "u"), listed(3, "c", 2, "v")];
    s.selected = 1;
    let (render, _) = s.update(Event::Key(KeyAction::DeleteSelected));
    assert!(render);
    let ids: Vec<u32> = s.panes.iter().map(|p| p.pane_info.id).collect();
    assert_eq!(ids, vec![1, 3]);
    assert_eq!(s.selected, 0);
    // Deleting from an empty list is a no-op.
    let mut empty = State::new();
    let (render2, _) = empty.update(Event::Key(KeyAction::DeleteSelected));
    assert!(render2);
    assert!(empty.panes.is_empty());
    assert_eq!(empty.selected, 0);
}

#[test]
fn focus_selected_hides_and_focuses_by_identity() {
    let mut s = State::new();
    s.panes = vec![listed(4, "a", 0, "t"), listed(9, "b", 1, "u")];
    s.selected = 1;
    let (render, actions) = s.update(Event::Key(KeyAction::FocusSelected));
    assert!(!render);
    assert_eq!(actions.len(), 2);
    assert!(matches!(actions[0], Action::HideSelf));
    assert!(matches!(actions[1], Action::FocusPane(9)));
}

#[test]
fn dismiss_only_hides() {
    let mut s = State::new();
    let (render, actions) = s.update(Event::Key(KeyAction::Dismiss));
    assert!(!render);
    assert_eq!(actions.len(), 1);
    assert!(matches!(actions[0], Action::HideSelf));
}

#[test]
fn move_keys_wrap_and_render() {
    let mut s = State::new();
    s.panes = vec![listed(1, "a", 0, "t"), listed(2, "b", 1, "u")];
    s.selected = 1;
    let (render, _) = s.update(Event::Key(KeyAction::MoveDown));
    assert!(render);
    assert_eq!(s.selected, 0);
    let (render2, _) = s.update(Event::Key(KeyAction::MoveUp));
    assert!(render2);
    assert_eq!(s.selected, 1);
    // On an empty list nothing moves and nothing renders.
    let mut empty = State::new();
    let (render3, _) = empty.update(Event::Key(KeyAction::MoveDown));
    assert!(!render3);
}

#[test]
fn save_result_event_is_ignored() {
    let mut s = State::new();
    let (render, actions) = s.update(Event::CommandResult(RequestPurpose::Save, String::new()));
    assert!(!render);
    assert!(actions.is_empty());
}

#[test]
fn cursor_snaps_to_focused_pane_entry() {
    let mut s = State::new();
    s.panes = vec![listed(1, "a", 0, "t"), listed(2, "b", 1, "u")];
    s.update(Event::TabUpdate(vec![tab(0, "t", false), tab(1, "u", true)]));
    let manifest = PaneManifest {
        panes: vec![
            entry(0, vec![pane(1, "a", false, false)]),
            entry(1, vec![pane(2, "b", true, false)]),
        ],
    };
    s.update(Event::PaneUpdate(manifest));
    // The focused pane (id 2) is tracked at index 1: the cursor follows it.
    assert_eq!(s.selected, 1);
}

#[test]
fn render_lines_follow_the_tracked_list() {
    let mut s = State::new();
    s.panes = vec![listed(1, "server", 0, "work"), listed(2, "inbox", 1, "mail")];
    let lines = s.render_lines();
    assert_eq!(lines, vec![String::from("work | server"), String::from("mail | inbox")]);
}

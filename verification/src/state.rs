//! The session context: owns the tracked list, the selection cursor, the
//! pending bookmarks and the last-seen snapshot, and threads them
//! together on each host event. The event surface is a closed union; the
//! handler yields whether a re-render is owed and the actions the host
//! shell must perform on the context's behalf.

use vstd::prelude::*;
use crate::codec::spec_encode_bookmarks;
use crate::codec::spec_parse_bookmarks;
use crate::focus::{get_focused_pane, get_focused_tab, spec_derived_focus};
use crate::matcher::{lemma_match_pass_no_double_claim, spec_match_pass};
use crate::model::{
    bookmark_keys, bookmarks_of, contains_id, copy_pane, distinct_ids, list_contains_id, pane_ids,
    Pane, PaneManifest, TabInfo,
};
use crate::order::{lemma_sort_panes_props, sort_by_position, spec_sort_panes};
use crate::persistence::{
    spec_save_needed, spec_session_file_path, Persistence, SaveRequest,
};
use crate::reconcile::{get_valid_panes, lemma_reconcile_distinct, spec_reconcile};

verus! {

/// A key input, decoded to its meaning for this tool.
pub enum KeyAction {
    AddFocused,
    DeleteSelected,
    MoveDown,
    MoveUp,
    FocusSelected,
    Dismiss,
}

/// The purpose a command request was issued for; it is carried with the
/// request and delivered back with the command's result, and the result
/// is demultiplexed by it.
pub enum RequestPurpose {
    Load,
    Save,
}

/// One host event, as the closed union the context handles.
pub enum Event {
    TabUpdate(Vec<TabInfo>),
    PaneUpdate(PaneManifest),
    Key(KeyAction),
    SessionUpdate(Option<String>),
    CommandResult(RequestPurpose, String),
}

/// One action the host shell performs on the context's behalf.
pub enum Action {
    HideSelf,
    FocusPane(u32),
    ReadBookmarks(String),
    WriteBookmarks(SaveRequest),
}

/// The session context.
pub struct State {
    pub selected: usize,
    pub panes: Vec<Pane>,
    pub focused_pane: Option<Pane>,
    pub tab_info: Option<Vec<TabInfo>>,
    pub pane_manifest: Option<PaneManifest>,
    pub session_name: Option<String>,
    pub persistence: Persistence,
}

/// The cursor invariant: zero on an empty list, in range otherwise.
pub open spec fn cursor_ok(selected: usize, len: nat) -> bool {
    if len == 0 {
        selected == 0
    } else {
        (selected as nat) < len
    }
}

/// The clamped cursor: zero on an empty list, pulled back into range
/// otherwise.
pub open spec fn spec_clamp(selected: int, len: int) -> int {
    if len == 0 {
        0
    } else if selected < len {
        selected
    } else {
        len - 1
    }
}

/// Selection clamp: for any list length and any prior cursor, the
/// clamped cursor is zero when the list is empty and lies within
/// `[0, length - 1]` otherwise.
pub proof fn lemma_clamp_in_range(selected: int, len: int)
    requires
        selected >= 0,
        len >= 0,
    ensures
        len == 0 ==> spec_clamp(selected, len) == 0,
        len > 0 ==> 0 <= spec_clamp(selected, len) < len,
{
}

/// `k` is the first index of the list carrying this identity.
pub open spec fn is_first_index_of(s: Seq<Pane>, id: u32, k: int) -> bool {
    &&& 0 <= k < s.len()
    &&& s[k].pane_info.id == id
    &&& forall|j: int| 0 <= j < k ==> s[j].pane_info.id != id
}

/// The state with a fresh tab list, everything else as it stands.
pub open spec fn spec_with_tabs(s: State, tab_info: Vec<TabInfo>) -> State {
    State {
        selected: s.selected,
        panes: s.panes,
        focused_pane: s.focused_pane,
        tab_info: Some(tab_info),
        pane_manifest: s.pane_manifest,
        session_name: s.session_name,
        persistence: s.persistence,
    }
}

/// The state with a fresh pane manifest, everything else as it stands.
pub open spec fn spec_with_manifest(s: State, pane_manifest: PaneManifest) -> State {
    State {
        selected: s.selected,
        panes: s.panes,
        focused_pane: s.focused_pane,
        tab_info: s.tab_info,
        pane_manifest: Some(pane_manifest),
        session_name: s.session_name,
        persistence: s.persistence,
    }
}

/// The content-gated save: with a session name and changed durable
/// content, exactly one write request for this session's file, carrying
/// the canonical payload, and the written content remembered; otherwise
/// no action and no change.
pub open spec fn spec_gated_save(
    session_name: Option<String>,
    last_before: Option<Vec<crate::model::PaneBookmark>>,
    last_after: Option<Vec<crate::model::PaneBookmark>>,
    panes_now: Seq<Pane>,
    sacts: Seq<Action>,
) -> bool {
    match session_name {
        Some(name) => if spec_save_needed(last_before, panes_now) {
            &&& sacts.len() == 1
            &&& sacts[0] matches Action::WriteBookmarks(req) && req.file_path@
                == spec_session_file_path(name@) && req.payload@ == spec_encode_bookmarks(
                bookmarks_of(panes_now),
            )
            &&& last_after matches Some(ls) && ls@ == bookmarks_of(panes_now)
        } else {
            sacts == Seq::<Action>::empty() && last_after == last_before
        },
        None => sacts == Seq::<Action>::empty() && last_after == last_before,
    }
}

/// Where the cursor stands after a snapshot refresh: snapped to the
/// focused pane's entry if it is tracked, else clamped.
pub open spec fn spec_selected_after_refresh(
    selected_before: usize,
    rec: Seq<Pane>,
    focus: Option<Pane>,
    selected_after: usize,
) -> bool {
    match focus {
        Some(fp) => if contains_id(rec, fp.pane_info.id) {
            is_first_index_of(rec, fp.pane_info.id, selected_after as int)
        } else {
            selected_after as int == spec_clamp(selected_before as int, rec.len() as int)
        },
        None => selected_after as int == spec_clamp(selected_before as int, rec.len() as int),
    }
}

/// One snapshot-refresh cycle, exactly: reconcile the tracked list,
/// derive the focused pane, re-snap the cursor, resolve pending
/// bookmarks, re-sort if any were appended, and gate a save of the new
/// content. Without a complete snapshot nothing changes.
pub open spec fn spec_refresh_rel(pre: State, post: State, actions: Seq<Action>) -> bool {
    match (pre.pane_manifest, pre.tab_info) {
        (Some(pm), Some(ti)) => {
            let rec = spec_reconcile(pre.panes@, pm.panes@, ti@);
            let focus = spec_derived_focus(ti@, pm.panes@);
            let pass = spec_match_pass(
                pre.persistence.pending_bookmarks@,
                pm.panes@,
                ti@,
                pane_ids(rec),
            );
            let merged = if pass.0.len() > 0 {
                spec_sort_panes(rec + pass.0)
            } else {
                rec
            };
            &&& post.panes@ == merged
            &&& post.focused_pane == focus
            &&& spec_selected_after_refresh(pre.selected, rec, focus, post.selected)
            &&& post.persistence.pending_bookmarks@ == pass.1
            &&& post.tab_info == pre.tab_info
            &&& post.pane_manifest == pre.pane_manifest
            &&& post.session_name == pre.session_name
            &&& spec_gated_save(
                pre.session_name,
                pre.persistence.last_saved,
                post.persistence.last_saved,
                merged,
                actions,
            )
        },
        _ => post == pre && actions == Seq::<Action>::empty(),
    }
}

/// What one key input does, exactly.
pub open spec fn spec_key_rel(
    pre: State,
    k: KeyAction,
    post: State,
    render: bool,
    actions: Seq<Action>,
) -> bool {
    match k {
        KeyAction::AddFocused => {
            let newp = match pre.focused_pane {
                Some(fp) => if !contains_id(pre.panes@, fp.pane_info.id) {
                    spec_sort_panes(pre.panes@.push(fp))
                } else {
                    pre.panes@
                },
                None => pre.panes@,
            };
            &&& render == true
            &&& post.panes@ == newp
            &&& post.selected == pre.selected
            &&& post.focused_pane == pre.focused_pane
            &&& post.tab_info == pre.tab_info
            &&& post.pane_manifest == pre.pane_manifest
            &&& post.session_name == pre.session_name
            &&& post.persistence.pending_bookmarks == pre.persistence.pending_bookmarks
            &&& actions.len() >= 1 && actions[0] == Action::HideSelf
            &&& spec_gated_save(
                pre.session_name,
                pre.persistence.last_saved,
                post.persistence.last_saved,
                newp,
                actions.skip(1),
            )
        },
        KeyAction::DeleteSelected => {
            let had = (pre.selected as int) < pre.panes@.len();
            let newp = if had {
                pre.panes@.remove(pre.selected as int)
            } else {
                pre.panes@
            };
            &&& render == true
            &&& post.panes@ == newp
            &&& (if had && newp.len() > 0 {
                post.selected as int == (if pre.selected == 0 {
                    newp.len() - 1
                } else {
                    pre.selected - 1
                })
            } else {
                post.selected == pre.selected
            })
            &&& post.focused_pane == pre.focused_pane
            &&& post.tab_info == pre.tab_info
            &&& post.pane_manifest == pre.pane_manifest
            &&& post.session_name == pre.session_name
            &&& post.persistence.pending_bookmarks == pre.persistence.pending_bookmarks
            &&& spec_gated_save(
                pre.session_name,
                pre.persistence.last_saved,
                post.persistence.last_saved,
                newp,
                actions,
            )
        },
        KeyAction::MoveDown => {
            &&& (if pre.panes@.len() > 0 {
                render == true && post.selected as int == (pre.selected + 1) % (
                pre.panes@.len() as int)
            } else {
                render == false && post.selected == pre.selected
            })
            &&& post.panes == pre.panes
            &&& post.focused_pane == pre.focused_pane
            &&& post.tab_info == pre.tab_info
            &&& post.pane_manifest == pre.pane_manifest
            &&& post.session_name == pre.session_name
            &&& post.persistence == pre.persistence
            &&& actions == Seq::<Action>::empty()
        },
        KeyAction::MoveUp => {
            &&& (if pre.panes@.len() > 0 {
                render == true && post.selected as int == (if pre.selected == 0 {
                    pre.panes@.len() - 1
                } else {
                    pre.selected - 1
                })
            } else {
                render == false && post.selected == pre.selected
            })
            &&& post.panes == pre.panes
            &&& post.focused_pane == pre.focused_pane
            &&& post.tab_info == pre.tab_info
            &&& post.pane_manifest == pre.pane_manifest
            &&& post.session_name == pre.session_name
            &&& post.persistence == pre.persistence
            &&& actions == Seq::<Action>::empty()
        },
        KeyAction::FocusSelected => {
            &&& post == pre
            &&& render == false
            &&& (if (pre.selected as int) < pre.panes@.len() {
                actions == seq![
                    Action::HideSelf,
                    Action::FocusPane(pre.panes@[pre.selected as int].pane_info.id),
                ]
            } else {
                actions == Seq::<Action>::empty()
            })
        },
        KeyAction::Dismiss => {
            &&& post == pre
            &&& render == false
            &&& actions == seq![Action::HideSelf]
        },
    }
}

/// Finds the first tracked entry carrying this identity.
fn index_of_id(panes: &Vec<Pane>, id: u32) -> (r: Option<usize>)
    ensures
        match r {
            Some(k) => is_first_index_of(panes@, id, k as int),
            None => !contains_id(panes@, id),
        },
{
    let mut i: usize = 0;
    while i < panes.len()
        invariant
            i <= panes@.len(),
            forall|j: int| 0 <= j < i ==> panes@[j].pane_info.id != id,
        decreases panes@.len() - i,
    {
        if panes[i].pane_info.id == id {
            return Some(i);
        }
        i += 1;
    }
    None
}

impl State {
    /// The context's invariant: the cursor invariant, and no two tracked
    /// entries sharing a pane identity.
    pub open spec fn inv(self) -> bool {
        cursor_ok(self.selected, self.panes@.len()) && distinct_ids(self.panes@)
    }

    /// A fresh context: nothing tracked, nothing cached, cursor at zero.
    pub fn new() -> (r: State)
        ensures
            r.selected == 0,
            r.panes@ == Seq::<Pane>::empty(),
            r.focused_pane is None,
            r.tab_info is None,
            r.pane_manifest is None,
            r.session_name is None,
            r.persistence.pending_bookmarks@ == Seq::<crate::model::PaneBookmark>::empty(),
            r.persistence.last_saved is None,
            r.inv(),
    {
        State {
            selected: 0,
            panes: Vec::new(),
            focused_pane: None,
            tab_info: None,
            pane_manifest: None,
            session_name: None,
            persistence: Persistence::new(),
        }
    }

    /// Advances the cursor, wrapping to zero past the end.
    pub fn select_down(&mut self)
        requires
            old(self).panes@.len() > 0,
            (old(self).selected as int) < old(self).panes@.len(),
        ensures
            final(self).selected as int == (old(self).selected + 1) % (old(
                self,
            ).panes@.len() as int),
            final(self).panes == old(self).panes,
            final(self).focused_pane == old(self).focused_pane,
            final(self).tab_info == old(self).tab_info,
            final(self).pane_manifest == old(self).pane_manifest,
            final(self).session_name == old(self).session_name,
            final(self).persistence == old(self).persistence,
    {
        let len = self.panes.len();
        self.selected = (self.selected + 1) % len;
    }

    /// Retreats the cursor, wrapping to the last index before zero.
    pub fn select_up(&mut self)
        requires
            old(self).panes@.len() > 0,
            old(self).selected <= old(self).panes@.len(),
        ensures
            final(self).selected as int == (if old(self).selected == 0 {
                old(self).panes@.len() - 1
            } else {
                old(self).selected - 1
            }),
            final(self).panes == old(self).panes,
            final(self).focused_pane == old(self).focused_pane,
            final(self).tab_info == old(self).tab_info,
            final(self).pane_manifest == old(self).pane_manifest,
            final(self).session_name == old(self).session_name,
            final(self).persistence == old(self).persistence,
    {
        if self.selected == 0 {
            self.selected = self.panes.len() - 1;
            return ;
        }
        self.selected = self.selected - 1;
    }

    /// Pulls the cursor back into range after a list-length change:
    /// zero on an empty list, otherwise within `[0, length - 1]`.
    pub fn clamp_selected(&mut self)
        ensures
            final(self).selected as int == spec_clamp(
                old(self).selected as int,
                old(self).panes@.len() as int,
            ),
            final(self).panes == old(self).panes,
            final(self).focused_pane == old(self).focused_pane,
            final(self).tab_info == old(self).tab_info,
            final(self).pane_manifest == old(self).pane_manifest,
            final(self).session_name == old(self).session_name,
            final(self).persistence == old(self).persistence,
    {
        if self.panes.len() == 0 {
            self.selected = 0;
        } else if self.selected >= self.panes.len() {
            self.selected = self.panes.len() - 1;
        }
    }

    /// Re-sorts the tracked list by ascending tab position, stably.
    pub fn sort_panes(&mut self)
        ensures
            final(self).panes@ == spec_sort_panes(old(self).panes@),
            final(self).selected == old(self).selected,
            final(self).focused_pane == old(self).focused_pane,
            final(self).tab_info == old(self).tab_info,
            final(self).pane_manifest == old(self).pane_manifest,
            final(self).session_name == old(self).session_name,
            final(self).persistence == old(self).persistence,
    {
        let sorted = sort_by_position(&self.panes);
        self.panes = sorted;
    }

    /// Refreshes the tracked list and the focused pane from the latest
    /// snapshot: reconciles the list by identity, derives the focused
    /// pane, and re-snaps the cursor — to the focused pane's entry if it
    /// is tracked, else clamped. Yields nothing when either half of the
    /// snapshot has not arrived yet; nothing changes then.
    pub fn update_panes(&mut self) -> (r: Option<()>)
        requires
            old(self).inv(),
        ensures
            final(self).inv(),
            final(self).tab_info == old(self).tab_info,
            final(self).pane_manifest == old(self).pane_manifest,
            final(self).session_name == old(self).session_name,
            final(self).persistence == old(self).persistence,
            match (old(self).pane_manifest, old(self).tab_info) {
                (Some(pm), Some(ti)) => {
                    let rec = spec_reconcile(old(self).panes@, pm.panes@, ti@);
                    let focus = spec_derived_focus(ti@, pm.panes@);
                    &&& r is Some
                    &&& final(self).panes@ == rec
                    &&& final(self).focused_pane == focus
                    &&& spec_selected_after_refresh(
                        old(self).selected,
                        rec,
                        focus,
                        final(self).selected,
                    )
                },
                _ => r is None && *final(self) == *old(self),
            },
    {
        let new_panes = match (&self.pane_manifest, &self.tab_info) {
            (Some(pm), Some(ti)) => get_valid_panes(&self.panes, pm, ti),
            _ => {
                return None;
            },
        };
        proof {
            match (old(self).pane_manifest, old(self).tab_info) {
                (Some(pm), Some(ti)) => {
                    lemma_reconcile_distinct(old(self).panes@, pm.panes@, ti@);
                },
                _ => {},
            }
        }
        self.panes = new_panes;
        let focused = match (&self.tab_info, &self.pane_manifest) {
            (Some(ti), Some(pm)) => match get_focused_tab(ti) {
                Some(t) => match get_focused_pane(t.position, pm) {
                    Some(p) => Some(Pane { pane_info: p, tab_info: t }),
                    None => None,
                },
                None => None,
            },
            _ => None,
        };
        self.focused_pane = focused;
        let focus_id = match &self.focused_pane {
            Some(fp) => Some(fp.pane_info.id),
            None => None,
        };
        match focus_id {
            Some(id) => match index_of_id(&self.panes, id) {
                Some(k) => {
                    self.selected = k;
                },
                None => {
                    self.clamp_selected();
                },
            },
            None => {
                self.clamp_selected();
            },
        }
        proof {
            lemma_clamp_in_range(old(self).selected as int, self.panes@.len() as int);
        }
        Some(())
    }

    /// Runs the content-gated save and appends the write request, if one
    /// is owed, to the actions.
    fn gated_save_into(&mut self, acts: &mut Vec<Action>)
        ensures
            final(self).selected == old(self).selected,
            final(self).panes == old(self).panes,
            final(self).focused_pane == old(self).focused_pane,
            final(self).tab_info == old(self).tab_info,
            final(self).pane_manifest == old(self).pane_manifest,
            final(self).session_name == old(self).session_name,
            final(self).persistence.pending_bookmarks == old(self).persistence.pending_bookmarks,
            final(acts)@.len() >= old(acts)@.len(),
            final(acts)@.take(old(acts)@.len() as int) == old(acts)@,
            spec_gated_save(
                old(self).session_name,
                old(self).persistence.last_saved,
                final(self).persistence.last_saved,
                old(self).panes@,
                final(acts)@.skip(old(acts)@.len() as int),
            ),
    {
        let req = self.persistence.save_to_disk(&self.session_name, self.panes.as_slice());
        match req {
            Some(r) => {
                acts.push(Action::WriteBookmarks(r));
                proof {
                    assert(acts@.take(old(acts)@.len() as int) =~= old(acts)@);
                    assert(acts@.skip(old(acts)@.len() as int) =~= seq![
                        acts@[acts@.len() - 1],
                    ]);
                }
            },
            None => {
                proof {
                    assert(acts@.take(old(acts)@.len() as int) =~= old(acts)@);
                    assert(acts@.skip(old(acts)@.len() as int) =~= Seq::<Action>::empty());
                }
            },
        }
    }

    /// One full snapshot-refresh cycle: reconcile, derive focus, re-snap
    /// the cursor, resolve pending bookmarks, re-sort if any resolved,
    /// and gate a save of the new content.
    fn refresh(&mut self) -> (actions: Vec<Action>)
        requires
            old(self).inv(),
        ensures
            final(self).inv(),
            spec_refresh_rel(*old(self), *final(self), actions@),
    {
        let mut actions: Vec<Action> = Vec::new();
        if self.pane_manifest.is_none() || self.tab_info.is_none() {
            return actions;
        }
        let r = self.update_panes();
        proof {
            assert(r is Some);
        }
        let ghost rec = self.panes@;
        let matched = match (&self.pane_manifest, &self.tab_info) {
            (Some(pm), Some(ti)) => self.persistence.match_pending_bookmarks(
                self.panes.as_slice(),
                pm,
                ti.as_slice(),
            ),
            _ => {
                proof {
                    assert(false);
                }
                return actions;
            },
        };
        proof {
            match (old(self).pane_manifest, old(self).tab_info) {
                (Some(pm), Some(ti)) => {
                    let pending = old(self).persistence.pending_bookmarks@;
                    lemma_match_pass_no_double_claim(pending, pm.panes@, ti@, pane_ids(rec));
                    let pass = spec_match_pass(pending, pm.panes@, ti@, pane_ids(rec));
                    assert(matched@ == pass.0);
                    assert forall|i: int|
                        0 <= i < matched@.len() implies !contains_id(
                        rec,
                        #[trigger] matched@[i].pane_info.id,
                    ) by {
                        assert(matched@[i] == pass.0[i]);
                        assert(!pane_ids(rec).contains(pass.0[i].pane_info.id));
                        crate::model::lemma_pane_ids_contains(rec, pass.0[i].pane_info.id);
                    }
                },
                _ => {},
            }
        }
        if matched.len() > 0 {
            let mut i: usize = 0;
            let ghost mid = *self;
            proof {
                assert(self.panes@ =~= rec + matched@.take(0));
            }
            while i < matched.len()
                invariant
                    i <= matched@.len(),
                    self.panes@ == rec + matched@.take(i as int),
                    self.selected == mid.selected,
                    self.focused_pane == mid.focused_pane,
                    self.tab_info == mid.tab_info,
                    self.pane_manifest == mid.pane_manifest,
                    self.session_name == mid.session_name,
                    self.persistence == mid.persistence,
                decreases matched@.len() - i,
            {
                self.panes.push(copy_pane(&matched[i]));
                proof {
                    assert(self.panes@ =~= rec + matched@.take(i as int + 1));
                }
                i += 1;
            }
            proof {
                assert(matched@.take(i as int) =~= matched@);
                crate::model::lemma_distinct_append_ids(rec, matched@);
                lemma_sort_panes_props(rec + matched@);
            }
            self.sort_panes();
        }
        self.gated_save_into(&mut actions);
        proof {
            assert(actions@.skip(0) =~= actions@);
        }
        actions
    }

    /// Handles one host event: updates the context, and yields whether a
    /// re-render is owed together with the actions the host shell must
    /// perform.
    pub fn update(&mut self, event: Event) -> (r: (bool, Vec<Action>))
        requires
            old(self).inv(),
        ensures
            final(self).inv(),
            match event {
                Event::TabUpdate(ti) => r.0 == true && spec_refresh_rel(
                    spec_with_tabs(*old(self), ti),
                    *final(self),
                    r.1@,
                ),
                Event::PaneUpdate(pm) => r.0 == true && spec_refresh_rel(
                    spec_with_manifest(*old(self), pm),
                    *final(self),
                    r.1@,
                ),
                Event::Key(k) => spec_key_rel(*old(self), k, *final(self), r.0, r.1@),
                Event::SessionUpdate(name) => {
                    &&& r.0 == false
                    &&& final(self).session_name == name
                    &&& final(self).selected == old(self).selected
                    &&& final(self).panes == old(self).panes
                    &&& final(self).focused_pane == old(self).focused_pane
                    &&& final(self).tab_info == old(self).tab_info
                    &&& final(self).pane_manifest == old(self).pane_manifest
                    &&& final(self).persistence == old(self).persistence
                    &&& (match name {
                        Some(n) => if old(self).session_name is None {
                            r.1@.len() == 1 && (r.1@[0] matches Action::ReadBookmarks(p) && p@
                                == spec_session_file_path(n@))
                        } else {
                            r.1@ == Seq::<Action>::empty()
                        },
                        None => r.1@ == Seq::<Action>::empty(),
                    })
                },
                Event::CommandResult(purpose, content) => {
                    &&& r.0 == false
                    &&& r.1@ == Seq::<Action>::empty()
                    &&& final(self).selected == old(self).selected
                    &&& final(self).panes == old(self).panes
                    &&& final(self).focused_pane == old(self).focused_pane
                    &&& final(self).tab_info == old(self).tab_info
                    &&& final(self).pane_manifest == old(self).pane_manifest
                    &&& final(self).session_name == old(self).session_name
                    &&& final(self).persistence.last_saved == old(self).persistence.last_saved
                    &&& match purpose {
                        RequestPurpose::Save => final(self).persistence == old(self).persistence,
                        RequestPurpose::Load => match spec_parse_bookmarks(content@) {
                            Some(keys) => bookmark_keys(
                                final(self).persistence.pending_bookmarks@,
                            ) == keys,
                            None => final(self).persistence == old(self).persistence,
                        },
                    }
                },
            },
    {
        match event {
            Event::TabUpdate(ti) => {
                self.tab_info = Some(ti);
                let actions = self.refresh();
                (true, actions)
            },
            Event::PaneUpdate(pm) => {
                self.pane_manifest = Some(pm);
                let actions = self.refresh();
                (true, actions)
            },
            Event::Key(k) => self.on_key(k),
            Event::SessionUpdate(name) => {
                let issue = self.session_name.is_none();
                self.session_name = name;
                let mut acts: Vec<Action> = Vec::new();
                if issue {
                    match self.persistence.load_from_disk(&self.session_name) {
                        Some(path) => {
                            acts.push(Action::ReadBookmarks(path));
                        },
                        None => {},
                    }
                }
                (false, acts)
            },
            Event::CommandResult(purpose, content) => {
                match purpose {
                    RequestPurpose::Load => {
                        match self.persistence.on_load_command(content.as_str()) {
                            Ok(()) => {},
                            Err(_) => {},
                        }
                    },
                    RequestPurpose::Save => {},
                }
                (false, Vec::new())
            },
        }
    }

    /// Handles one key input.
    fn on_key(&mut self, k: KeyAction) -> (r: (bool, Vec<Action>))
        requires
            old(self).inv(),
        ensures
            final(self).inv(),
            spec_key_rel(*old(self), k, *final(self), r.0, r.1@),
    {
        match k {
            KeyAction::AddFocused => {
                let mut acts: Vec<Action> = Vec::new();
                acts.push(Action::HideSelf);
                proof {
                    assert(acts@ =~= seq![Action::HideSelf]);
                }
                let fp_opt = match &self.focused_pane {
                    Some(fp) => Some(copy_pane(fp)),
                    None => None,
                };
                match fp_opt {
                    Some(fp) => {
                        if !list_contains_id(self.panes.as_slice(), fp.pane_info.id) {
                            let ghost before = self.panes@;
                            let ghost fpg = fp;
                            self.panes.push(fp);
                            proof {
                                crate::model::lemma_distinct_append_ids(before, seq![fpg]);
                                assert(before + seq![fpg] =~= before.push(fpg));
                                lemma_sort_panes_props(before.push(fpg));
                            }
                            self.sort_panes();
                        }
                    },
                    None => {},
                }
                self.gated_save_into(&mut acts);
                proof {
                    assert(acts@.take(1)[0] == acts@[0]);
                }
                (true, acts)
            },
            KeyAction::DeleteSelected => {
                let mut acts: Vec<Action> = Vec::new();
                if self.selected < self.panes.len() {
                    self.panes.remove(self.selected);
                    if self.panes.len() > 0 {
                        self.select_up();
                    }
                    proof {
                        assert forall|i: int, j: int|
                            0 <= i < self.panes@.len() && 0 <= j < self.panes@.len() && i
                                != j implies self.panes@[i].pane_info.id
                            != self.panes@[j].pane_info.id by {
                            let s0 = old(self).panes@;
                            let k = old(self).selected as int;
                            let i0: int = if i < k {
                                i
                            } else {
                                i + 1
                            };
                            let j0: int = if j < k {
                                j
                            } else {
                                j + 1
                            };
                            assert(self.panes@[i] == s0[i0] && self.panes@[j] == s0[j0]);
                        }
                    }
                }
                self.gated_save_into(&mut acts);
                proof {
                    assert(acts@.skip(0) =~= acts@);
                }
                (true, acts)
            },
            KeyAction::MoveDown => {
                if self.panes.len() > 0 {
                    self.select_down();
                    (true, Vec::new())
                } else {
                    (false, Vec::new())
                }
            },
            KeyAction::MoveUp => {
                if self.panes.len() > 0 {
                    self.select_up();
                    (true, Vec::new())
                } else {
                    (false, Vec::new())
                }
            },
            KeyAction::FocusSelected => {
                let mut acts: Vec<Action> = Vec::new();
                if self.selected < self.panes.len() {
                    acts.push(Action::HideSelf);
                    acts.push(Action::FocusPane(self.panes[self.selected].pane_info.id));
                    proof {
                        assert(acts@ =~= seq![
                            Action::HideSelf,
                            Action::FocusPane(
                                self.panes@[self.selected as int].pane_info.id,
                            ),
                        ]);
                    }
                }
                (false, acts)
            },
            KeyAction::Dismiss => {
                let mut acts: Vec<Action> = Vec::new();
                acts.push(Action::HideSelf);
                proof {
                    assert(acts@ =~= seq![Action::HideSelf]);
                }
                (false, acts)
            },
        }
    }

    /// The plain display lines of the tracked list, in list order: tab
    /// name, a separator, pane title.
    pub fn render_lines(&self) -> (r: Vec<String>)
        ensures
            r@.len() == self.panes@.len(),
            forall|i: int|
                0 <= i < r@.len() ==> #[trigger] r@[i]@ == self.panes@[i].tab_info.name@ + " | "@
                    + self.panes@[i].pane_info.title@,
    {
        let mut lines: Vec<String> = Vec::new();
        let mut i: usize = 0;
        while i < self.panes.len()
            invariant
                i <= self.panes@.len(),
                lines_match(lines@, self.panes@, i as int),
            decreases self.panes@.len() - i,
        {
            lines.push(self.panes[i].display_line());
            i += 1;
        }
        lines
    }
}

/// The first `n` display lines agree with the tracked list.
spec fn lines_match(lines: Seq<String>, panes: Seq<Pane>, n: int) -> bool {
    &&& lines.len() == n
    &&& forall|i: int|
        0 <= i < n ==> #[trigger] lines[i]@ == panes[i].tab_info.name@ + " | "@
            + panes[i].pane_info.title@
}

impl Default for State {
    /// A fresh context, as `new` yields it.
    fn default() -> (r: Self)
        ensures
            r.selected == 0,
            r.panes@ == Seq::<Pane>::empty(),
            r.focused_pane is None,
            r.tab_info is None,
            r.pane_manifest is None,
            r.session_name is None,
            r.inv(),
    {
        State::new()
    }
}

} // verus!

//! The tracked list's ordering: ascending tab position, re-established
//! by a stable sort whenever new entries are appended, and preserved
//! otherwise.

use vstd::prelude::*;
use crate::model::{contains_id, copy_pane, distinct_ids, Pane};

verus! {

/// Ascending tab position.
pub open spec fn spec_sorted(s: Seq<Pane>) -> bool {
    forall|i: int, j: int|
        0 <= i < j < s.len() ==> s[i].tab_info.position <= s[j].tab_info.position
}

/// Stable insertion: the entry goes after every entry whose tab position
/// does not exceed its own.
pub open spec fn spec_insert_sorted(p: Pane, s: Seq<Pane>) -> Seq<Pane>
    decreases s.len(),
{
    if s.len() == 0 {
        seq![p]
    } else if p.tab_info.position < s[0].tab_info.position {
        seq![p] + s
    } else {
        seq![s[0]] + spec_insert_sorted(p, s.drop_first())
    }
}

/// Stable sort of a tracked list by ascending tab position.
pub open spec fn spec_sort_panes(s: Seq<Pane>) -> Seq<Pane>
    decreases s.len(),
{
    if s.len() == 0 {
        Seq::empty()
    } else {
        spec_insert_sorted(s.last(), spec_sort_panes(s.drop_last()))
    }
}

/// Insertion keeps the length, the identities, the order, and identity
/// uniqueness when the inserted identity is new.
pub proof fn lemma_insert_sorted_props(p: Pane, s: Seq<Pane>)
    ensures
        spec_insert_sorted(p, s).len() == s.len() + 1,
        forall|x: u32| #![trigger contains_id(spec_insert_sorted(p, s), x)]
            contains_id(spec_insert_sorted(p, s), x) <==> (contains_id(s, x)
            || x == p.pane_info.id),
        spec_sorted(s) ==> spec_sorted(spec_insert_sorted(p, s)),
        distinct_ids(s) && !contains_id(s, p.pane_info.id) ==> distinct_ids(
            spec_insert_sorted(p, s),
        ),
    decreases s.len(),
{
    let ins = spec_insert_sorted(p, s);
    if s.len() == 0 {
        assert forall|x: u32| contains_id(ins, x) implies contains_id(s, x) || x
            == p.pane_info.id by {
            let i = choose|i: int| 0 <= i < ins.len() && ins[i].pane_info.id == x;
            assert(ins[0] == p);
        }
        assert(contains_id(ins, p.pane_info.id)) by {
            assert(ins[0].pane_info.id == p.pane_info.id);
        }
    } else if p.tab_info.position < s[0].tab_info.position {
        assert(ins == seq![p] + s);
        assert forall|x: u32| contains_id(ins, x) implies contains_id(s, x) || x
            == p.pane_info.id by {
            let i = choose|i: int| 0 <= i < ins.len() && ins[i].pane_info.id == x;
            if i > 0 {
                assert(s[i - 1].pane_info.id == x);
            }
        }
        assert forall|x: u32| contains_id(s, x) || x == p.pane_info.id implies contains_id(
            ins,
            x,
        ) by {
            if contains_id(s, x) {
                let i = choose|i: int| 0 <= i < s.len() && s[i].pane_info.id == x;
                assert(ins[i + 1].pane_info.id == x);
            } else {
                assert(ins[0].pane_info.id == x);
            }
        }
        if spec_sorted(s) {
            assert forall|i: int, j: int| 0 <= i < j < ins.len() implies ins[i].tab_info.position
                <= ins[j].tab_info.position by {
                if i > 0 {
                    assert(ins[i] == s[i - 1] && ins[j] == s[j - 1]);
                } else {
                    assert(ins[j] == s[j - 1]);
                    assert(p.tab_info.position <= s[j - 1].tab_info.position);
                }
            }
        }
        if distinct_ids(s) && !contains_id(s, p.pane_info.id) {
            assert forall|i: int, j: int|
                0 <= i < ins.len() && 0 <= j < ins.len() && i != j implies ins[i].pane_info.id
                != ins[j].pane_info.id by {
                if i > 0 && j > 0 {
                    assert(ins[i] == s[i - 1] && ins[j] == s[j - 1]);
                } else if i == 0 && j > 0 {
                    assert(ins[j] == s[j - 1]);
                    assert(s[j - 1].pane_info.id != p.pane_info.id);
                } else {
                    assert(ins[i] == s[i - 1]);
                    assert(s[i - 1].pane_info.id != p.pane_info.id);
                }
            }
        }
    } else {
        let rest = s.drop_first();
        lemma_insert_sorted_props(p, rest);
        let tail = spec_insert_sorted(p, rest);
        assert(ins == seq![s[0]] + tail);
        assert forall|x: u32| contains_id(ins, x) implies contains_id(s, x) || x
            == p.pane_info.id by {
            let i = choose|i: int| 0 <= i < ins.len() && ins[i].pane_info.id == x;
            if i == 0 {
                assert(s[0].pane_info.id == x);
            } else {
                assert(tail[i - 1].pane_info.id == x);
                assert(contains_id(tail, x));
                if contains_id(rest, x) {
                    let k = choose|k: int| 0 <= k < rest.len() && rest[k].pane_info.id == x;
                    assert(s[k + 1].pane_info.id == x);
                }
            }
        }
        assert forall|x: u32| contains_id(s, x) || x == p.pane_info.id implies contains_id(
            ins,
            x,
        ) by {
            if contains_id(s, x) {
                let i = choose|i: int| 0 <= i < s.len() && s[i].pane_info.id == x;
                if i == 0 {
                    assert(ins[0].pane_info.id == x);
                } else {
                    assert(rest[i - 1].pane_info.id == x);
                    assert(contains_id(rest, x));
                    assert(contains_id(tail, x));
                    let k = choose|k: int| 0 <= k < tail.len() && tail[k].pane_info.id == x;
                    assert(ins[k + 1].pane_info.id == x);
                }
            } else {
                assert(contains_id(tail, x));
                let k = choose|k: int| 0 <= k < tail.len() && tail[k].pane_info.id == x;
                assert(ins[k + 1].pane_info.id == x);
            }
        }
        if spec_sorted(s) {
            assert(spec_sorted(rest));
            assert forall|i: int, j: int| 0 <= i < j < ins.len() implies ins[i].tab_info.position
                <= ins[j].tab_info.position by {
                if i > 0 {
                    assert(ins[i] == tail[i - 1] && ins[j] == tail[j - 1]);
                } else {
                    assert(ins[j] == tail[j - 1]);
                    // the head does not exceed the inserted entry nor any of the rest
                    assert(contains_id(tail, tail[j - 1].pane_info.id));
                    if tail[j - 1] == p {
                        assert(s[0].tab_info.position <= p.tab_info.position);
                    } else {
                        // every element of the tail is the inserted entry or one of the rest
                        lemma_insert_sorted_elements(p, rest, j - 1);
                    }
                }
            }
        }
        if distinct_ids(s) && !contains_id(s, p.pane_info.id) {
            assert(distinct_ids(rest));
            assert(!contains_id(rest, p.pane_info.id)) by {
                if contains_id(rest, p.pane_info.id) {
                    let k = choose|k: int|
                        0 <= k < rest.len() && rest[k].pane_info.id == p.pane_info.id;
                    assert(s[k + 1].pane_info.id == p.pane_info.id);
                }
            }
            assert forall|i: int, j: int|
                0 <= i < ins.len() && 0 <= j < ins.len() && i != j implies ins[i].pane_info.id
                != ins[j].pane_info.id by {
                if i > 0 && j > 0 {
                    assert(ins[i] == tail[i - 1] && ins[j] == tail[j - 1]);
                } else if i == 0 && j > 0 {
                    assert(ins[j] == tail[j - 1]);
                    assert(contains_id(tail, tail[j - 1].pane_info.id));
                    assert(s[0].pane_info.id != tail[j - 1].pane_info.id) by {
                        if contains_id(rest, tail[j - 1].pane_info.id) {
                            let k = choose|k: int|
                                0 <= k < rest.len() && rest[k].pane_info.id == tail[j
                                    - 1].pane_info.id;
                            assert(s[k + 1].pane_info.id == tail[j - 1].pane_info.id);
                        }
                    }
                } else if j == 0 && i > 0 {
                    assert(ins[i] == tail[i - 1]);
                    assert(contains_id(tail, tail[i - 1].pane_info.id));
                    assert(s[0].pane_info.id != tail[i - 1].pane_info.id) by {
                        if contains_id(rest, tail[i - 1].pane_info.id) {
                            let k = choose|k: int|
                                0 <= k < rest.len() && rest[k].pane_info.id == tail[i
                                    - 1].pane_info.id;
                            assert(s[k + 1].pane_info.id == tail[i - 1].pane_info.id);
                        }
                    }
                }
            }
        }
    }
}

/// Every element of an insertion result is the inserted entry or one of
/// the list's own, and the list's elements do not move before the head.
proof fn lemma_insert_sorted_elements(p: Pane, s: Seq<Pane>, k: int)
    requires
        0 <= k < spec_insert_sorted(p, s).len(),
    ensures
        spec_insert_sorted(p, s)[k] == p || exists|j: int|
            0 <= j < s.len() && s[j] == #[trigger] spec_insert_sorted(p, s)[k],
    decreases s.len(),
{
    let ins = spec_insert_sorted(p, s);
    if s.len() == 0 {
        assert(ins[0] == p);
    } else if p.tab_info.position < s[0].tab_info.position {
        if k > 0 {
            assert(s[k - 1] == ins[k]);
        }
    } else {
        if k == 0 {
            assert(s[0] == ins[0]);
        } else {
            let rest = s.drop_first();
            lemma_insert_sorted_elements(p, rest, k - 1);
            let tail = spec_insert_sorted(p, rest);
            assert(ins[k] == tail[k - 1]);
            if tail[k - 1] == p {
            } else {
                let j = choose|j: int| 0 <= j < rest.len() && rest[j] == tail[k - 1];
                assert(s[j + 1] == ins[k]);
            }
        }
    }
}

/// Sorting keeps the length, the identities and identity uniqueness,
/// and yields ascending tab positions.
pub proof fn lemma_sort_panes_props(s: Seq<Pane>)
    ensures
        spec_sort_panes(s).len() == s.len(),
        forall|x: u32| #![trigger contains_id(spec_sort_panes(s), x)]
            contains_id(spec_sort_panes(s), x) <==> contains_id(s, x),
        spec_sorted(spec_sort_panes(s)),
        distinct_ids(s) ==> distinct_ids(spec_sort_panes(s)),
    decreases s.len(),
{
    if s.len() > 0 {
        let prefix = s.drop_last();
        lemma_sort_panes_props(prefix);
        lemma_insert_sorted_props(s.last(), spec_sort_panes(prefix));
        assert forall|x: u32| contains_id(s, x) implies contains_id(spec_sort_panes(s), x) by {
            let i = choose|i: int| 0 <= i < s.len() && s[i].pane_info.id == x;
            if i < s.len() - 1 {
                assert(prefix[i].pane_info.id == x);
                assert(contains_id(prefix, x));
            } else {
                assert(x == s.last().pane_info.id);
            }
        }
        assert forall|x: u32| contains_id(spec_sort_panes(s), x) implies contains_id(s, x) by {
            if contains_id(prefix, x) {
                let i = choose|i: int| 0 <= i < prefix.len() && prefix[i].pane_info.id == x;
                assert(s[i].pane_info.id == x);
            } else {
                assert(x == s.last().pane_info.id);
                assert(s[s.len() - 1].pane_info.id == x);
            }
        }
        if distinct_ids(s) {
            assert(distinct_ids(prefix));
            assert(!contains_id(prefix, s.last().pane_info.id)) by {
                if contains_id(prefix, s.last().pane_info.id) {
                    let i = choose|i: int|
                        0 <= i < prefix.len() && prefix[i].pane_info.id
                            == s.last().pane_info.id;
                    assert(s[i].pane_info.id == s[s.len() - 1].pane_info.id);
                }
            }
            assert(!contains_id(spec_sort_panes(prefix), s.last().pane_info.id));
        }
    }
}

/// A sorted insertion is an insertion at the first index whose tab
/// position exceeds the entry's.
proof fn lemma_insert_at_index(p: Pane, s: Seq<Pane>, idx: int)
    requires
        0 <= idx <= s.len(),
        forall|k: int| 0 <= k < idx ==> s[k].tab_info.position <= p.tab_info.position,
        idx < s.len() ==> p.tab_info.position < s[idx].tab_info.position,
    ensures
        spec_insert_sorted(p, s) == s.insert(idx, p),
    decreases s.len(),
{
    if s.len() == 0 {
        assert(s.insert(0, p) =~= seq![p]);
    } else if p.tab_info.position < s[0].tab_info.position {
        assert(idx == 0);
        assert(s.insert(0, p) =~= seq![p] + s);
    } else {
        assert(idx >= 1);
        let rest = s.drop_first();
        lemma_insert_at_index(p, rest, idx - 1);
        assert(s.insert(idx, p) =~= seq![s[0]] + rest.insert(idx - 1, p));
    }
}

/// The first index whose tab position exceeds `position`, or the length.
fn insertion_point(out: &Vec<Pane>, position: usize) -> (idx: usize)
    ensures
        idx <= out@.len(),
        forall|k: int| 0 <= k < idx ==> out@[k].tab_info.position <= position,
        idx < out@.len() ==> position < out@[idx as int].tab_info.position,
{
    let mut idx: usize = 0;
    while idx < out.len()
        invariant
            idx <= out@.len(),
            forall|k: int| 0 <= k < idx ==> out@[k].tab_info.position <= position,
        decreases out@.len() - idx,
    {
        if position < out[idx].tab_info.position {
            return idx;
        }
        idx += 1;
    }
    idx
}

/// Inserts one entry at its stable position.
fn insert_sorted(out: &mut Vec<Pane>, p: Pane)
    ensures
        final(out)@ == spec_insert_sorted(p, old(out)@),
{
    let idx = insertion_point(out, p.tab_info.position);
    proof {
        lemma_insert_at_index(p, out@, idx as int);
    }
    out.insert(idx, p);
}

/// The tracked list, stably sorted by ascending tab position.
pub fn sort_by_position(panes: &Vec<Pane>) -> (r: Vec<Pane>)
    ensures
        r@ == spec_sort_panes(panes@),
{
    let mut out: Vec<Pane> = Vec::new();
    let mut i: usize = 0;
    proof {
        assert(panes@.take(0) =~= Seq::<Pane>::empty());
    }
    while i < panes.len()
        invariant
            i <= panes@.len(),
            out@ == spec_sort_panes(panes@.take(i as int)),
        decreases panes@.len() - i,
    {
        proof {
            assert(panes@.take(i as int + 1).drop_last() =~= panes@.take(i as int));
            assert(panes@.take(i as int + 1).last() == panes@[i as int]);
        }
        insert_sorted(&mut out, copy_pane(&panes[i]));
        i += 1;
    }
    proof {
        assert(panes@.take(i as int) =~= panes@);
    }
    out
}

} // verus!

//! What a subtree commit does with the widgets it replaces. Before the
//! swap the outgoing widgets leave keyed by their node's `data-path`;
//! after it each goes back onto the first fresh node with that key and a
//! freshly mounted widget of the same kind and variant, so typing and the
//! caret outlive the re-render. A focused widget that finds no place waits
//! in a one-slot stash for a later commit (a nested input re-renders in
//! two). Then every controlled widget takes the `value` the markup carries.

use vstd::prelude::*;

use crate::strings::{chars_eq, chars_of, string_of};

verus! {

/// A waiting widget's key: the `data-path`, kind and variant it must find.
#[derive(Debug)]
pub struct WidgetKey {
    pub path: String,
    pub kind: u64,
    pub variant: u64,
}

/// A descendant of the committed subtree before the swap, in document
/// order: its node, its `data-path` and its widget's kind and variant.
#[derive(Debug)]
pub struct OldNode {
    pub node: u64,
    pub path: Option<String>,
    pub widget: Option<(u64, u64)>,
}

/// A descendant after the swap and the widget mount, in document order:
/// its node, its `data-path`, its freshly mounted widget's kind and
/// variant, and the `value` attribute the markup carries.
#[derive(Debug)]
pub struct NewNode {
    pub node: u64,
    pub path: Option<String>,
    pub widget: Option<(u64, u64)>,
    pub value: Option<String>,
}

/// Where a transplanted widget comes from: an outgoing node (by its index
/// among them) or the stash.
#[derive(Debug, Clone, Copy, PartialEq, Eq, Structural)]
pub enum Carried {
    Outgoing(usize),
    Stashed,
}

/// What the commit does: the widgets it installs, in order, on fresh nodes
/// (a later install on the same node replaces an earlier one); the widget
/// left in the stash; the controlled widgets' value syncs.
#[derive(Debug)]
pub struct CommitPlan {
    pub installs: Vec<(u64, Carried)>,
    pub stash: Option<Carried>,
    pub syncs: Vec<(u64, String)>,
}

/// A waiting widget with its key.
pub type Waiting = (Carried, Seq<char>, u64, u64);

pub open spec fn path_view(p: Option<String>) -> Option<Seq<char>> {
    match p {
        Some(s) => Some(s@),
        None => None,
    }
}

/// The first fresh node among the first `k` with this key and a mounted
/// widget of this kind and variant.
pub open spec fn slot_upto(fresh: Seq<NewNode>, path: Seq<char>, kind: u64, variant: u64, k: int) -> Option<u64>
    decreases k,
{
    if k <= 0 || k > fresh.len() {
        None
    } else {
        match slot_upto(fresh, path, kind, variant, k - 1) {
            Some(n) => Some(n),
            None => if path_view(fresh[k - 1].path) == Some(path) && fresh[k - 1].widget == Some((kind, variant)) {
                Some(fresh[k - 1].node)
            } else {
                None
            },
        }
    }
}

pub open spec fn slot_of(fresh: Seq<NewNode>, path: Seq<char>, kind: u64, variant: u64) -> Option<u64> {
    slot_upto(fresh, path, kind, variant, fresh.len() as int)
}

/// The fresh node an outgoing node's widget returns to, if it has one.
pub open spec fn return_slot(o: OldNode, fresh: Seq<NewNode>) -> Option<u64> {
    match (path_view(o.path), o.widget) {
        (Some(p), Some((kind, variant))) => slot_of(fresh, p, kind, variant),
        _ => None,
    }
}

/// The outgoing widgets among the first `k` outgoing nodes, in order: each
/// keyed one goes onto its fresh slot; a focused one without a slot takes
/// the stash (dropping what waited there); the rest are dropped.
pub open spec fn harvest_upto(
    outgoing: Seq<OldNode>,
    focused: Option<u64>,
    fresh: Seq<NewNode>,
    stash: Option<Waiting>,
    k: int,
) -> (Seq<(u64, Carried)>, Option<Waiting>)
    decreases k,
{
    if k <= 0 || k > outgoing.len() {
        (Seq::empty(), stash)
    } else {
        let pre = harvest_upto(outgoing, focused, fresh, stash, k - 1);
        let o = outgoing[k - 1];
        match (path_view(o.path), o.widget) {
            (Some(p), Some((kind, variant))) => match slot_of(fresh, p, kind, variant) {
                Some(n) => (pre.0.push((n, Carried::Outgoing((k - 1) as usize))), pre.1),
                None => if focused == Some(o.node) {
                    (pre.0, Some((Carried::Outgoing((k - 1) as usize), p, kind, variant)))
                } else {
                    pre
                },
            },
            _ => pre,
        }
    }
}

/// The value syncs of the first `k` fresh nodes: every one with a widget
/// and a `value`.
pub open spec fn syncs_upto(fresh: Seq<NewNode>, k: int) -> Seq<(u64, Seq<char>)>
    decreases k,
{
    if k <= 0 || k > fresh.len() {
        Seq::empty()
    } else {
        let pre = syncs_upto(fresh, k - 1);
        match (fresh[k - 1].widget, fresh[k - 1].value) {
            (Some(_), Some(v)) => pre.push((fresh[k - 1].node, v@)),
            _ => pre,
        }
    }
}

/// The stash's widget with its key.
pub open spec fn waiting_of(stash: Option<WidgetKey>) -> Option<Waiting> {
    match stash {
        Some(key) => Some((Carried::Stashed, key.path@, key.kind, key.variant)),
        None => None,
    }
}

/// The whole plan: the harvest, then the stash's own try at a slot; the
/// installs, the stash left behind, and the syncs.
pub open spec fn commit_plan_spec(
    outgoing: Seq<OldNode>,
    focused: Option<u64>,
    stash: Option<WidgetKey>,
    fresh: Seq<NewNode>,
) -> (Seq<(u64, Carried)>, Option<Carried>, Seq<(u64, Seq<char>)>) {
    let h = harvest_upto(outgoing, focused, fresh, waiting_of(stash), outgoing.len() as int);
    let syncs = syncs_upto(fresh, fresh.len() as int);
    match h.1 {
        Some((c, p, kind, variant)) => match slot_of(fresh, p, kind, variant) {
            Some(n) => (h.0.push((n, c)), None, syncs),
            None => (h.0, Some(c), syncs),
        },
        None => (h.0, None, syncs),
    }
}

pub open spec fn syncs_view(s: Seq<(u64, String)>) -> Seq<(u64, Seq<char>)> {
    s.map_values(|e: (u64, String)| (e.0, e.1@))
}

fn opt_chars(p: &Option<String>) -> (r: Option<Vec<char>>)
    ensures
        match r {
            Some(v) => path_view(*p) == Some(v@),
            None => path_view(*p) == None::<Seq<char>>,
        },
{
    match p {
        Some(s) => Some(chars_of(s.as_str())),
        None => None,
    }
}

proof fn lemma_slot_stable(fresh: Seq<NewNode>, path: Seq<char>, kind: u64, variant: u64, k: int, k2: int)
    requires
        1 <= k <= k2 <= fresh.len(),
        slot_upto(fresh, path, kind, variant, k) is Some,
    ensures
        slot_upto(fresh, path, kind, variant, k2) == slot_upto(fresh, path, kind, variant, k),
    decreases k2,
{
    if k2 > k {
        lemma_slot_stable(fresh, path, kind, variant, k, k2 - 1);
    }
}

/// The fresh node a widget with this key goes onto.
fn find_slot(fresh: &Vec<NewNode>, path: &Vec<char>, kind: u64, variant: u64) -> (r: Option<u64>)
    ensures
        r == slot_of(fresh@, path@, kind, variant),
{
    let mut k: usize = 0;
    while k < fresh.len()
        invariant
            0 <= k <= fresh@.len(),
            slot_upto(fresh@, path@, kind, variant, k as int) == None::<u64>,
        decreases fresh@.len() - k,
    {
        let f = &fresh[k];
        let same_path = match opt_chars(&f.path) {
            Some(p) => chars_eq(&p, path),
            None => false,
        };
        let same_widget = match f.widget {
            Some((fk, fv)) => fk == kind && fv == variant,
            None => false,
        };
        if same_path && same_widget {
            proof {
                lemma_slot_stable(fresh@, path@, kind, variant, k + 1, fresh@.len() as int);
            }
            return Some(f.node);
        }
        k = k + 1;
    }
    None
}

/// What a commit does with the widgets it replaces: `outgoing` are the
/// committed subtree's descendants before the swap, `focused` the focused
/// node then, `stash` the key of the widget waiting from an earlier
/// commit, `fresh` the descendants after the swap and the mount.
pub fn commit_plan(
    outgoing: &Vec<OldNode>,
    focused: Option<u64>,
    stash: &Option<WidgetKey>,
    fresh: &Vec<NewNode>,
) -> (plan: CommitPlan)
    ensures
        ({
            let spec = commit_plan_spec(outgoing@, focused, *stash, fresh@);
            &&& plan.installs@ == spec.0
            &&& plan.stash == spec.1
            &&& syncs_view(plan.syncs@) == spec.2
        }),
{
    let mut installs: Vec<(u64, Carried)> = Vec::new();
    let mut waiting: Option<(Carried, Vec<char>, u64, u64)> = match stash {
        Some(key) => Some((Carried::Stashed, chars_of(key.path.as_str()), key.kind, key.variant)),
        None => None,
    };
    let ghost w0: Option<Waiting> = waiting_of(*stash);
    let mut k: usize = 0;
    while k < outgoing.len()
        invariant
            0 <= k <= outgoing@.len(),
            ({
                let h = harvest_upto(outgoing@, focused, fresh@, w0, k as int);
                &&& installs@ == h.0
                &&& match waiting {
                    Some((c, p, kd, v)) => h.1 == Some((c, p@, kd, v)),
                    None => h.1 == None::<Waiting>,
                }
            }),
        decreases outgoing@.len() - k,
    {
        let o = &outgoing[k];
        match (opt_chars(&o.path), o.widget) {
            (Some(p), Some((kind, variant))) => match find_slot(fresh, &p, kind, variant) {
                Some(n) => {
                    installs.push((n, Carried::Outgoing(k)));
                },
                None => {
                    if focused == Some(o.node) {
                        waiting = Some((Carried::Outgoing(k), p, kind, variant));
                    }
                },
            },
            _ => {},
        }
        k = k + 1;
    }
    let mut left: Option<Carried> = None;
    match waiting {
        Some((c, p, kind, variant)) => match find_slot(fresh, &p, kind, variant) {
            Some(n) => {
                installs.push((n, c));
            },
            None => {
                left = Some(c);
            },
        },
        None => {},
    }
    let mut syncs: Vec<(u64, String)> = Vec::new();
    let mut j: usize = 0;
    while j < fresh.len()
        invariant
            0 <= j <= fresh@.len(),
            syncs_view(syncs@) == syncs_upto(fresh@, j as int),
        decreases fresh@.len() - j,
    {
        let f = &fresh[j];
        if f.widget.is_some() {
            match &f.value {
                Some(v) => {
                    let ghost before = syncs@;
                    let copy = string_of(&chars_of(v.as_str()));
                    syncs.push((f.node, copy));
                    assert(syncs_view(syncs@) =~= syncs_view(before).push((f.node, v@)));
                },
                None => {},
            }
        }
        j = j + 1;
    }
    CommitPlan { installs, stash: left, syncs }
}

/// A widget whose node comes back keyed alike, with a fresh widget of its
/// kind and variant, goes onto that node: an outgoing keyed widget never
/// waits in the stash or gets lost while its slot exists.
pub proof fn law_keyed_widgets_return(
    outgoing: Seq<OldNode>,
    focused: Option<u64>,
    fresh: Seq<NewNode>,
    stash: Option<Waiting>,
    i: int,
)
    requires
        0 <= i < outgoing.len(),
        return_slot(outgoing[i], fresh) is Some,
    ensures
        harvest_upto(outgoing, focused, fresh, stash, outgoing.len() as int).0.contains(
            (return_slot(outgoing[i], fresh)->0, Carried::Outgoing(i as usize)),
        ),
{
    lemma_harvest_keeps(outgoing, focused, fresh, stash, i, outgoing.len() as int);
}

proof fn lemma_harvest_keeps(
    outgoing: Seq<OldNode>,
    focused: Option<u64>,
    fresh: Seq<NewNode>,
    stash: Option<Waiting>,
    i: int,
    k: int,
)
    requires
        0 <= i < k <= outgoing.len(),
        return_slot(outgoing[i], fresh) is Some,
    ensures
        harvest_upto(outgoing, focused, fresh, stash, k).0.contains(
            (return_slot(outgoing[i], fresh)->0, Carried::Outgoing(i as usize)),
        ),
    decreases k,
{
    let entry = (return_slot(outgoing[i], fresh)->0, Carried::Outgoing(i as usize));
    let pre = harvest_upto(outgoing, focused, fresh, stash, k - 1);
    let now = harvest_upto(outgoing, focused, fresh, stash, k);
    if i < k - 1 {
        lemma_harvest_keeps(outgoing, focused, fresh, stash, i, k - 1);
        let j = choose|j: int| 0 <= j < pre.0.len() && pre.0[j] == entry;
        assert(now.0[j] == entry);
    } else {
        assert(now.0 == pre.0.push(entry));
        assert(now.0[pre.0.len() as int] == entry);
    }
}

} // verus!

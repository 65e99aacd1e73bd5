//! Flat focus indices over a component instance tree: an instance's
//! focusables are its own widget slots and its child instances, in
//! template order, and one flat index counts through all of them, child
//! subtrees included.

use vstd::prelude::*;

verus! {

/// One entry of an instance's focus order.
#[derive(Debug, Clone, Copy, PartialEq, Eq, Structural)]
pub enum Focusable {
    /// A widget slot of the instance itself.
    OwnSlot(usize),
    /// A child instance (an index into `children`), focused through its
    /// own focusables.
    Child(usize),
}

/// The focus order of one instance and its children's.
#[derive(Debug)]
pub struct FocusTree {
    pub focusables: Vec<Focusable>,
    pub children: Vec<FocusTree>,
}

/// Every child entry names an existing child, all the way down.
pub open spec fn well_formed(t: FocusTree) -> bool
    decreases t,
{
    &&& forall|i: int|
        0 <= i < t.focusables@.len() ==> (#[trigger] t.focusables@[i] matches Focusable::Child(c)
            ==> c < t.children@.len())
    &&& forall|c: int| 0 <= c < t.children@.len() ==> well_formed(#[trigger] t.children@[c])
}

/// The widgets reachable by focus: own slots plus child subtrees.
pub open spec fn flat_len(t: FocusTree) -> nat
    decreases t, t.focusables@.len() + 1,
{
    entries_len(t, t.focusables@.len() as int)
}

/// The widgets the first `k` focusables reach.
pub open spec fn entries_len(t: FocusTree, k: int) -> nat
    decreases t, k,
{
    if k <= 0 || k > t.focusables@.len() {
        0
    } else {
        entries_len(t, k - 1) + match t.focusables@[k - 1] {
            Focusable::OwnSlot(_) => 1nat,
            Focusable::Child(c) => if c < t.children@.len() {
                flat_len(t.children@[c as int])
            } else {
                0nat
            },
        }
    }
}

/// The child path and local slot behind a flat index, walking the
/// focusables from the `i`-th on.
pub open spec fn locate_from(t: FocusTree, i: int, flat: int) -> Option<(Seq<usize>, usize)>
    decreases t, t.focusables@.len() - i,
{
    if i < 0 || i >= t.focusables@.len() || flat < 0 {
        None
    } else {
        match t.focusables@[i] {
            Focusable::OwnSlot(slot) => if flat == 0 {
                Some((Seq::empty(), slot))
            } else {
                locate_from(t, i + 1, flat - 1)
            },
            Focusable::Child(c) => if c >= t.children@.len() {
                locate_from(t, i + 1, flat)
            } else {
                let len = flat_len(t.children@[c as int]);
                if flat < len {
                    match locate_from(t.children@[c as int], 0, flat) {
                        Some((path, slot)) => Some((seq![c].add(path), slot)),
                        None => None,
                    }
                } else {
                    locate_from(t, i + 1, flat - len)
                }
            },
        }
    }
}

/// The child-index path and local slot behind a flat focus index.
pub open spec fn locate_spec(t: FocusTree, flat: int) -> Option<(Seq<usize>, usize)> {
    locate_from(t, 0, flat)
}

proof fn lemma_entries_split(t: FocusTree, i: int)
    requires
        0 <= i <= t.focusables@.len(),
    ensures
        entries_len(t, i) <= flat_len(t),
    decreases t.focusables@.len() - i,
{
    if i < t.focusables@.len() {
        lemma_entries_split(t, i + 1);
    }
}

/// A flat index finds a widget exactly when it is below the count, for
/// the entries from the `i`-th on.
proof fn lemma_locate_from_total(t: FocusTree, i: int, flat: int)
    requires
        well_formed(t),
        0 <= i <= t.focusables@.len(),
        flat >= 0,
    ensures
        locate_from(t, i, flat) is Some <==> flat + entries_len(t, i) < flat_len(t),
    decreases t, t.focusables@.len() - i,
{
    lemma_entries_split(t, i);
    if i < t.focusables@.len() {
        lemma_entries_split(t, i + 1);
        assert(entries_len(t, i + 1) == entries_len(t, i) + match t.focusables@[i] {
            Focusable::OwnSlot(_) => 1nat,
            Focusable::Child(c) => if c < t.children@.len() {
                flat_len(t.children@[c as int])
            } else {
                0nat
            },
        });
        match t.focusables@[i] {
            Focusable::OwnSlot(_) => {
                if flat != 0 {
                    lemma_locate_from_total(t, i + 1, flat - 1);
                }
            },
            Focusable::Child(c) => {
                assert(c < t.children@.len());
                let child = t.children@[c as int];
                assert(well_formed(child));
                let len = flat_len(child);
                if flat < len {
                    assert(decreases_to!(t => child));
                    lemma_locate_from_total(child, 0, flat);
                } else {
                    lemma_locate_from_total(t, i + 1, flat - len);
                }
            },
        }
    } else {
        assert(entries_len(t, i) == flat_len(t));
    }
}

/// Every flat index below the count resolves to a widget, and none at or
/// past it does.
pub proof fn law_locate_is_total_below_the_count(t: FocusTree, flat: nat)
    requires
        well_formed(t),
    ensures
        locate_spec(t, flat as int) is Some <==> flat < flat_len(t),
{
    lemma_locate_from_total(t, 0, flat as int);
}

/// The widgets reachable by focus: own slots plus child subtrees.
pub fn focus_len(t: &FocusTree) -> (n: usize)
    requires
        well_formed(*t),
        flat_len(*t) <= usize::MAX,
    ensures
        n == flat_len(*t),
    decreases t,
{
    let mut n: usize = 0;
    let mut i: usize = 0;
    while i < t.focusables.len()
        invariant
            0 <= i <= t.focusables@.len(),
            well_formed(*t),
            flat_len(*t) <= usize::MAX,
            n == entries_len(*t, i as int),
        decreases t.focusables@.len() - i,
    {
        proof {
            lemma_entries_split(*t, i + 1);
        }
        match t.focusables[i] {
            Focusable::OwnSlot(_) => {
                n = n + 1;
            },
            Focusable::Child(c) => {
                assert(c < t.children@.len());
                assert(decreases_to!(t => t.children@[c as int]));
                let len = focus_len(&t.children[c]);
                n = n + len;
            },
        }
        i = i + 1;
    }
    n
}

/// The child-index path and local slot behind a flat focus index, for the
/// render pass; `None` past the last focusable.
pub fn locate_path(t: &FocusTree, flat: usize) -> (r: Option<(Vec<usize>, usize)>)
    requires
        well_formed(*t),
        flat_len(*t) <= usize::MAX,
    ensures
        match r {
            Some((path, slot)) => locate_spec(*t, flat as int) == Some((path@, slot)),
            None => locate_spec(*t, flat as int) is None,
        },
    decreases t,
{
    let mut rest = flat;
    let mut i: usize = 0;
    while i < t.focusables.len()
        invariant
            0 <= i <= t.focusables@.len(),
            well_formed(*t),
            flat_len(*t) <= usize::MAX,
            locate_from(*t, i as int, rest as int) == locate_from(*t, 0, flat as int),
        decreases t.focusables@.len() - i,
    {
        match t.focusables[i] {
            Focusable::OwnSlot(slot) => {
                if rest == 0 {
                    let path: Vec<usize> = Vec::new();
                    assert(path@ =~= Seq::<usize>::empty());
                    return Some((path, slot));
                }
                rest = rest - 1;
            },
            Focusable::Child(c) => {
                assert(c < t.children@.len());
                let child = &t.children[c];
                assert(decreases_to!(t => t.children@[c as int]));
                proof {
                    lemma_entries_split(*t, i + 1);
                    lemma_child_bound(*t, i as int);
                }
                let len = focus_len(child);
                if rest < len {
                    return match locate_path(child, rest) {
                        Some((inner, slot)) => {
                            let mut path: Vec<usize> = Vec::new();
                            path.push(c);
                            let mut k: usize = 0;
                            while k < inner.len()
                                invariant
                                    0 <= k <= inner@.len(),
                                    path@ == seq![c].add(inner@.take(k as int)),
                                decreases inner@.len() - k,
                            {
                                path.push(inner[k]);
                                assert(seq![c].add(inner@.take(k + 1)) =~= seq![c].add(
                                    inner@.take(k as int),
                                ).push(inner@[k as int]));
                                k = k + 1;
                            }
                            assert(inner@.take(inner@.len() as int) =~= inner@);
                            Some((path, slot))
                        },
                        None => None,
                    };
                }
                rest = rest - len;
            },
        }
        i = i + 1;
    }
    None
}

proof fn lemma_child_bound(t: FocusTree, i: int)
    requires
        well_formed(t),
        0 <= i < t.focusables@.len(),
        flat_len(t) <= usize::MAX,
    ensures
        t.focusables@[i] matches Focusable::Child(c) ==> flat_len(t.children@[c as int]) <= usize::MAX,
{
    lemma_entries_split(t, i + 1);
}

/// The first enabled widget after `focused`, stepping forward and
/// wrapping; `focused` itself when every other widget is disabled (it is
/// the last candidate), unchanged when nothing is enabled.
pub open spec fn next_enabled_spec(focused: int, disabled: Seq<bool>, step: int) -> int
    decreases disabled.len() + 1 - step,
{
    if step < 1 || step > disabled.len() {
        focused
    } else if !disabled[(focused + step) % (disabled.len() as int)] {
        (focused + step) % (disabled.len() as int)
    } else {
        next_enabled_spec(focused, disabled, step + 1)
    }
}

/// Moves focus to the next enabled widget, wrapping at the end;
/// `disabled[i]` tells whether the widget at flat index `i` is disabled.
/// Unchanged when nothing can take focus (no widget at all, or none
/// enabled).
pub fn focus_next(focused: usize, disabled: &Vec<bool>) -> (next: usize)
    requires
        focused + disabled@.len() <= usize::MAX,
    ensures
        next == next_enabled_spec(focused as int, disabled@, 1),
{
    let count = disabled.len();
    let mut k: usize = 0;
    while k < count
        invariant
            0 <= k <= count,
            count == disabled@.len(),
            focused + count <= usize::MAX,
            next_enabled_spec(focused as int, disabled@, k + 1) == next_enabled_spec(
                focused as int,
                disabled@,
                1,
            ),
        decreases count - k,
    {
        let candidate = (focused + (k + 1)) % count;
        if !disabled[candidate] {
            return candidate;
        }
        k = k + 1;
    }
    focused
}

/// How many forward steps from `focused` reach `j`, between 1 and the
/// count (a full round reaches `focused` itself).
pub open spec fn steps_to(focused: int, j: int, n: int) -> int {
    if (j - focused) % n == 0 {
        n
    } else {
        (j - focused) % n
    }
}

proof fn lemma_next_enabled(focused: int, disabled: Seq<bool>, step: int)
    requires
        0 <= focused < disabled.len(),
        1 <= step,
    ensures
        0 <= next_enabled_spec(focused, disabled, step) < disabled.len(),
        (exists|j: int|
            0 <= j < disabled.len() && !disabled[j] && steps_to(focused, j, disabled.len() as int)
                >= step) ==> !disabled[next_enabled_spec(focused, disabled, step)],
    decreases disabled.len() + 1 - step,
{
    let n = disabled.len() as int;
    if step <= n {
        let c = (focused + step) % n;
        assert(0 <= c < n) by (nonlinear_arith)
            requires
                n > 0,
                c == (focused + step) % n,
        ;
        if disabled[c] {
            lemma_next_enabled(focused, disabled, step + 1);
            if exists|j: int| 0 <= j < n && !disabled[j] && steps_to(focused, j, n) >= step {
                let j = choose|j: int| 0 <= j < n && !disabled[j] && steps_to(focused, j, n) >= step;
                assert(j != c);
                assert(steps_to(focused, j, n) != step) by (nonlinear_arith)
                    requires
                        0 <= focused < n,
                        0 <= j < n,
                        1 <= step <= n,
                        c == (focused + step) % n,
                        j != c,
                        steps_to(focused, j, n) == if (j - focused) % n == 0 {
                            n
                        } else {
                            (j - focused) % n
                        },
                ;
            }
        }
    } else {
        if exists|j: int| 0 <= j < n && !disabled[j] && steps_to(focused, j, n) >= step {
            let j = choose|j: int| 0 <= j < n && !disabled[j] && steps_to(focused, j, n) >= step;
            assert(steps_to(focused, j, n) <= n) by (nonlinear_arith)
                requires
                    n > 0,
                    steps_to(focused, j, n) == if (j - focused) % n == 0 {
                        n
                    } else {
                        (j - focused) % n
                    },
            ;
        }
    }
}

/// The next enabled widget is always a widget, and an enabled one
/// whenever any widget is.
pub proof fn law_focus_next_lands_on_an_enabled_widget(focused: nat, disabled: Seq<bool>)
    requires
        focused < disabled.len(),
    ensures
        next_enabled_spec(focused as int, disabled, 1) < disabled.len(),
        (exists|j: int| 0 <= j < disabled.len() && !disabled[j]) ==> !disabled[next_enabled_spec(
            focused as int,
            disabled,
            1,
        )],
{
    lemma_next_enabled(focused as int, disabled, 1);
    let n = disabled.len() as int;
    if exists|j: int| 0 <= j < n && !disabled[j] {
        let j = choose|j: int| 0 <= j < n && !disabled[j];
        assert(steps_to(focused as int, j, n) >= 1) by (nonlinear_arith)
            requires
                n > 0,
                steps_to(focused as int, j, n) == if (j - focused) % n == 0 {
                    n
                } else {
                    (j - focused) % n
                },
        ;
    }
}

} // verus!

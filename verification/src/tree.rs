//! The split tree: a binary tree of pane leaves and split branches.
//!
//! A leaf names a [`Pane`]; a branch names a [`Split`] and carries an
//! [`Axis`] and a fixed-point ratio. The tree owns its node graph
//! exclusively: every pane identifier appears in exactly one leaf, every
//! split identifier in exactly one branch, and every ratio stays within
//! the clamped range. Identifiers are allocated from monotonically
//! increasing counters and never reused.
//!
//! Every mutation either fully succeeds or leaves the tree unchanged.

use vstd::prelude::*;

use crate::geometry::clamp_ratio;
use crate::geometry::spec_clamp_ratio;
use crate::geometry::RATIO_MAX;
use crate::geometry::RATIO_MIN;

verus! {

/// Stable identifier of a pane leaf.
#[derive(Clone, Copy, PartialEq, Eq, Structural, Debug, Hash)]
pub struct Pane(pub u64);

/// Stable identifier of a split branch.
#[derive(Clone, Copy, PartialEq, Eq, Structural, Debug, Hash)]
pub struct Split(pub u64);

/// Orientation of a split branch. A `Horizontal` branch divides its
/// rectangle's width between its children; a `Vertical` branch divides
/// the height.
#[derive(Clone, Copy, PartialEq, Eq, Structural, Debug, Hash)]
pub enum Axis {
    Horizontal,
    Vertical,
}

/// Failure of a tree operation that referenced an absent pane.
#[derive(Clone, Copy, PartialEq, Eq, Structural, Debug)]
pub enum PaneError {
    PaneNotFound,
}

/// Outcome of [`Tree::remove`].
#[derive(Clone, Copy, PartialEq, Eq, Structural, Debug)]
pub enum RemoveOutcome {
    /// The leaf was removed; `sibling` names the promoted sibling if it
    /// was itself a leaf.
    Removed { sibling: Option<Pane> },
    /// The pane was the sole remaining leaf; the tree is unchanged.
    LastPane,
    /// The pane is not in the tree; the tree is unchanged.
    PaneNotFound,
}

/// A node of the split tree: a pane leaf, or a split branch owning two
/// children.
pub enum Node {
    Pane(Pane),
    Split { id: Split, axis: Axis, ratio: u32, a: Box<Node>, b: Box<Node> },
}

impl Node {
    /// All pane leaves in pre-order, first child first.
    pub open spec fn panes(self) -> Seq<Pane>
        decreases self,
    {
        match self {
            Node::Pane(p) => seq![p],
            Node::Split { a, b, .. } => a.panes() + b.panes(),
        }
    }

    /// All split branches in pre-order (branch before its children),
    /// each with its axis and ratio.
    pub open spec fn splits(self) -> Seq<(Split, Axis, u32)>
        decreases self,
    {
        match self {
            Node::Pane(_) => seq![],
            Node::Split { id, axis, ratio, a, b } => seq![(id, axis, ratio)] + a.splits()
                + b.splits(),
        }
    }

    /// Whether pane `p` names a leaf of this tree.
    pub open spec fn contains_pane(self, p: Pane) -> bool
        decreases self,
    {
        match self {
            Node::Pane(q) => q == p,
            Node::Split { a, b, .. } => a.contains_pane(p) || b.contains_pane(p),
        }
    }

    /// Whether split `s` names a branch of this tree.
    pub open spec fn contains_split(self, s: Split) -> bool
        decreases self,
    {
        match self {
            Node::Pane(_) => false,
            Node::Split { id, a, b, .. } => id == s || a.contains_split(s) || b.contains_split(s),
        }
    }

    /// The ratio stored for split `s`, if `s` is in the tree.
    pub open spec fn ratio_of(self, s: Split) -> Option<u32>
        decreases self,
    {
        match self {
            Node::Pane(_) => None,
            Node::Split { id, ratio, a, b, .. } => if id == s {
                Some(ratio)
            } else if a.ratio_of(s) is Some {
                a.ratio_of(s)
            } else {
                b.ratio_of(s)
            },
        }
    }

    /// Every stored ratio lies in the clamped range.
    pub open spec fn ratios_valid(self) -> bool
        decreases self,
    {
        match self {
            Node::Pane(_) => true,
            Node::Split { ratio, a, b, .. } => RATIO_MIN <= ratio <= RATIO_MAX && a.ratios_valid()
                && b.ratios_valid(),
        }
    }

    /// Structural well-formedness: no pane or split identifier appears
    /// twice, and every ratio is in the clamped range.
    pub open spec fn wf(self) -> bool
        decreases self,
    {
        match self {
            Node::Pane(_) => true,
            Node::Split { id, ratio, a, b, .. } => RATIO_MIN <= ratio <= RATIO_MAX && a.wf()
                && b.wf() && (forall|p: Pane|
                !(a.contains_pane(p) && b.contains_pane(p))) && (forall|s: Split|
                !(a.contains_split(s) && b.contains_split(s))) && !a.contains_split(id)
                && !b.contains_split(id),
        }
    }

    /// The tree after dividing leaf `target`: the leaf is replaced by a
    /// branch `new_split` holding `target` first and `new_pane` second,
    /// at the even ratio. Unchanged if `target` is absent.
    pub open spec fn spec_split(self, target: Pane, axis: Axis, new_pane: Pane, new_split: Split) -> Node
        decreases self,
    {
        match self {
            Node::Pane(p) => if p == target {
                Node::Split {
                    id: new_split,
                    axis,
                    ratio: 500,
                    a: Box::new(Node::Pane(target)),
                    b: Box::new(Node::Pane(new_pane)),
                }
            } else {
                self
            },
            Node::Split { id, axis: ax, ratio, a, b } => Node::Split {
                id,
                axis: ax,
                ratio,
                a: Box::new(a.spec_split(target, axis, new_pane, new_split)),
                b: Box::new(b.spec_split(target, axis, new_pane, new_split)),
            },
        }
    }

    /// The pane named by this node, if it is a leaf.
    pub open spec fn leaf_pane(self) -> Option<Pane> {
        match self {
            Node::Pane(p) => Some(p),
            Node::Split { .. } => None,
        }
    }

    /// The tree after removing leaf `target` from a branch node: the
    /// parent branch collapses and the sibling subtree takes its slot.
    /// The second component names the sibling if it was a leaf. `None`
    /// when `target` is absent or this node is itself the leaf `target`
    /// (the last pane cannot be removed).
    pub open spec fn spec_remove(self, target: Pane) -> Option<(Node, Option<Pane>)>
        decreases self,
    {
        match self {
            Node::Pane(_) => None,
            Node::Split { id, axis, ratio, a, b } => if *a == Node::Pane(target) {
                Some((*b, b.leaf_pane()))
            } else if *b == Node::Pane(target) {
                Some((*a, a.leaf_pane()))
            } else if a.spec_remove(target) is Some {
                let (na, sib) = a.spec_remove(target)->Some_0;
                Some((Node::Split { id, axis, ratio, a: Box::new(na), b }, sib))
            } else if b.spec_remove(target) is Some {
                let (nb, sib) = b.spec_remove(target)->Some_0;
                Some((Node::Split { id, axis, ratio, a, b: Box::new(nb) }, sib))
            } else {
                None
            },
        }
    }

    /// `x` and `y` exchanged, every other label kept.
    pub open spec fn swap_label(p: Pane, x: Pane, y: Pane) -> Pane {
        if p == x {
            y
        } else if p == y {
            x
        } else {
            p
        }
    }

    /// The tree with panes `x` and `y` exchanged; the shape, the splits
    /// and all other leaves are kept.
    pub open spec fn spec_swapped(self, x: Pane, y: Pane) -> Node
        decreases self,
    {
        match self {
            Node::Pane(p) => Node::Pane(Node::swap_label(p, x, y)),
            Node::Split { id, axis, ratio, a, b } => Node::Split {
                id,
                axis,
                ratio,
                a: Box::new(a.spec_swapped(x, y)),
                b: Box::new(b.spec_swapped(x, y)),
            },
        }
    }

    /// The tree with split `s` set to `ratio`; unchanged if `s` is
    /// absent.
    pub open spec fn spec_resized(self, s: Split, ratio: u32) -> Node
        decreases self,
    {
        match self {
            Node::Pane(_) => self,
            Node::Split { id, axis, ratio: r, a, b } => if id == s {
                Node::Split { id, axis, ratio, a, b }
            } else {
                Node::Split {
                    id,
                    axis,
                    ratio: r,
                    a: Box::new(a.spec_resized(s, ratio)),
                    b: Box::new(b.spec_resized(s, ratio)),
                }
            },
        }
    }

    /// Whether leaf `target` is in the tree.
    pub fn has_pane(&self, target: Pane) -> (r: bool)
        ensures
            r == self.contains_pane(target),
        decreases *self,
    {
        match self {
            Node::Pane(p) => *p == target,
            Node::Split { a, b, .. } => a.has_pane(target) || b.has_pane(target),
        }
    }

    /// Whether branch `s` is in the tree.
    pub fn has_split(&self, s: Split) -> (r: bool)
        ensures
            r == self.contains_split(s),
        decreases *self,
    {
        match self {
            Node::Pane(_) => false,
            Node::Split { id, a, b, .. } => *id == s || a.has_split(s) || b.has_split(s),
        }
    }

    /// Appends the panes of this subtree, in pre-order, to `out`.
    pub fn push_panes(&self, out: &mut Vec<Pane>)
        ensures
            final(out)@ == old(out)@ + self.panes(),
        decreases *self,
    {
        match self {
            Node::Pane(p) => {
                out.push(*p);
                proof {
                    assert(self.panes() == seq![*p]);
                    assert(final(out)@ == old(out)@ + self.panes());
                }
            },
            Node::Split { a, b, .. } => {
                a.push_panes(out);
                b.push_panes(out);
                proof {
                    assert(self.panes() == a.panes() + b.panes());
                    assert(final(out)@ == old(out)@ + self.panes());
                }
            },
        }
    }

    /// The tree after dividing leaf `target`, as [`Node::spec_split`]
    /// describes.
    pub fn with_split(self, target: Pane, axis: Axis, new_pane: Pane, new_split: Split) -> (r: Node)
        ensures
            r == self.spec_split(target, axis, new_pane, new_split),
        decreases self,
    {
        match self {
            Node::Pane(p) => if p == target {
                Node::Split {
                    id: new_split,
                    axis,
                    ratio: 500,
                    a: Box::new(Node::Pane(target)),
                    b: Box::new(Node::Pane(new_pane)),
                }
            } else {
                Node::Pane(p)
            },
            Node::Split { id, axis: ax, ratio, a, b } => {
                let na = (*a).with_split(target, axis, new_pane, new_split);
                let nb = (*b).with_split(target, axis, new_pane, new_split);
                Node::Split { id, axis: ax, ratio, a: Box::new(na), b: Box::new(nb) }
            },
        }
    }

    /// The pane named by this node, if it is a leaf.
    pub fn as_leaf(&self) -> (r: Option<Pane>)
        ensures
            r == self.leaf_pane(),
    {
        match self {
            Node::Pane(p) => Some(*p),
            Node::Split { .. } => None,
        }
    }

    /// Removes leaf `target` as [`Node::spec_remove`] describes. Returns
    /// the new tree, whether a leaf was removed, and the promoted
    /// sibling if it was a leaf. When nothing was removed the tree comes
    /// back unchanged.
    pub fn with_removed(self, target: Pane) -> (r: (Node, bool, Option<Pane>))
        ensures
            self.spec_remove(target) is Some ==> r.1 && self.spec_remove(target) == Some(
                (r.0, r.2),
            ),
            self.spec_remove(target) is None ==> r.0 == self && !r.1 && r.2 is None,
        decreases self,
    {
        match self {
            Node::Pane(p) => (Node::Pane(p), false, None),
            Node::Split { id, axis, ratio, a, b } => {
                let a_is_target = match &*a {
                    Node::Pane(p) => *p == target,
                    _ => false,
                };
                if a_is_target {
                    let sibling = b.as_leaf();
                    return (*b, true, sibling);
                }
                let b_is_target = match &*b {
                    Node::Pane(p) => *p == target,
                    _ => false,
                };
                if b_is_target {
                    let sibling = a.as_leaf();
                    return (*a, true, sibling);
                }
                let (na, removed_a, sib_a) = (*a).with_removed(target);
                if removed_a {
                    return (
                        Node::Split { id, axis, ratio, a: Box::new(na), b },
                        true,
                        sib_a,
                    );
                }
                let (nb, removed_b, sib_b) = (*b).with_removed(target);
                if removed_b {
                    return (
                        Node::Split { id, axis, ratio, a: Box::new(na), b: Box::new(nb) },
                        true,
                        sib_b,
                    );
                }
                (Node::Split { id, axis, ratio, a: Box::new(na), b: Box::new(nb) }, false, None)
            },
        }
    }

    /// The tree with panes `x` and `y` exchanged, as
    /// [`Node::spec_swapped`] describes.
    pub fn with_swapped(self, x: Pane, y: Pane) -> (r: Node)
        ensures
            r == self.spec_swapped(x, y),
        decreases self,
    {
        match self {
            Node::Pane(p) => if p == x {
                Node::Pane(y)
            } else if p == y {
                Node::Pane(x)
            } else {
                Node::Pane(p)
            },
            Node::Split { id, axis, ratio, a, b } => {
                let na = (*a).with_swapped(x, y);
                let nb = (*b).with_swapped(x, y);
                Node::Split { id, axis, ratio, a: Box::new(na), b: Box::new(nb) }
            },
        }
    }

    /// The tree with split `s` set to `ratio`, as [`Node::spec_resized`]
    /// describes.
    pub fn with_ratio(self, s: Split, ratio: u32) -> (r: Node)
        ensures
            r == self.spec_resized(s, ratio),
        decreases self,
    {
        match self {
            Node::Pane(p) => Node::Pane(p),
            Node::Split { id, axis, ratio: old_ratio, a, b } => if id == s {
                Node::Split { id, axis, ratio, a, b }
            } else {
                let na = (*a).with_ratio(s, ratio);
                let nb = (*b).with_ratio(s, ratio);
                Node::Split { id, axis, ratio: old_ratio, a: Box::new(na), b: Box::new(nb) }
            },
        }
    }
}

/// Well-formedness bounds every ratio.
pub proof fn lemma_wf_ratios_valid(n: Node)
    requires
        n.wf(),
    ensures
        n.ratios_valid(),
    decreases n,
{
    match n {
        Node::Pane(_) => {},
        Node::Split { a, b, .. } => {
            lemma_wf_ratios_valid(*a);
            lemma_wf_ratios_valid(*b);
        },
    }
}

/// Dividing an absent pane changes nothing.
pub proof fn lemma_split_absent(n: Node, target: Pane, axis: Axis, q: Pane, s: Split)
    requires
        !n.contains_pane(target),
    ensures
        n.spec_split(target, axis, q, s) == n,
    decreases n,
{
    match n {
        Node::Pane(_) => {},
        Node::Split { a, b, .. } => {
            lemma_split_absent(*a, target, axis, q, s);
            lemma_split_absent(*b, target, axis, q, s);
        },
    }
}

/// The panes after a division: those already present, plus the new pane
/// when the target was found.
pub proof fn lemma_split_contains_pane(n: Node, target: Pane, axis: Axis, q: Pane, s: Split, p: Pane)
    ensures
        n.spec_split(target, axis, q, s).contains_pane(p) <==> (n.contains_pane(p) || (
        n.contains_pane(target) && p == q)),
    decreases n,
{
    reveal_with_fuel(Node::contains_pane, 3);
    match n {
        Node::Pane(_) => {},
        Node::Split { a, b, .. } => {
            lemma_split_contains_pane(*a, target, axis, q, s, p);
            lemma_split_contains_pane(*b, target, axis, q, s, p);
        },
    }
}

/// The splits after a division: those already present, plus the new
/// split when the target was found.
pub proof fn lemma_split_contains_split(n: Node, target: Pane, axis: Axis, q: Pane, s: Split, t: Split)
    ensures
        n.spec_split(target, axis, q, s).contains_split(t) <==> (n.contains_split(t) || (
        n.contains_pane(target) && t == s)),
    decreases n,
{
    reveal_with_fuel(Node::contains_split, 3);
    match n {
        Node::Pane(_) => {},
        Node::Split { a, b, .. } => {
            lemma_split_contains_split(*a, target, axis, q, s, t);
            lemma_split_contains_split(*b, target, axis, q, s, t);
        },
    }
}

/// A division with fresh identifiers preserves well-formedness.
pub proof fn lemma_split_wf(n: Node, target: Pane, axis: Axis, q: Pane, s: Split)
    requires
        n.wf(),
        !n.contains_pane(q),
        !n.contains_split(s),
    ensures
        n.spec_split(target, axis, q, s).wf(),
    decreases n,
{
    reveal_with_fuel(Node::wf, 3);
    reveal_with_fuel(Node::contains_pane, 3);
    reveal_with_fuel(Node::contains_split, 3);
    let n2 = n.spec_split(target, axis, q, s);
    match n {
        Node::Pane(z) => {
            if z == target {
                assert(n2 == Node::Split {
                    id: s,
                    axis,
                    ratio: 500u32,
                    a: Box::new(Node::Pane(target)),
                    b: Box::new(Node::Pane(q)),
                });
                assert forall|p: Pane|
                    !(Node::Pane(target).contains_pane(p) && Node::Pane(q).contains_pane(
                        p,
                    )) by {}
            }
        },
        Node::Split { id, a, b, .. } => {
            lemma_split_wf(*a, target, axis, q, s);
            lemma_split_wf(*b, target, axis, q, s);
            let a2 = a.spec_split(target, axis, q, s);
            let b2 = b.spec_split(target, axis, q, s);
            assert(n2 == Node::Split { id, axis: n->axis, ratio: n->ratio, a: Box::new(a2), b: Box::new(b2) });
            assert forall|p: Pane| !(a2.contains_pane(p) && b2.contains_pane(p)) by {
                lemma_split_contains_pane(*a, target, axis, q, s, p);
                lemma_split_contains_pane(*b, target, axis, q, s, p);
                lemma_split_contains_pane(*a, target, axis, q, s, q);
                lemma_split_contains_pane(*b, target, axis, q, s, q);
            }
            assert forall|t: Split| !(a2.contains_split(t) && b2.contains_split(t)) by {
                lemma_split_contains_split(*a, target, axis, q, s, t);
                lemma_split_contains_split(*b, target, axis, q, s, t);
            }
            lemma_split_contains_split(*a, target, axis, q, s, id);
            lemma_split_contains_split(*b, target, axis, q, s, id);
            assert(!a2.contains_split(id));
            assert(!b2.contains_split(id));
            assert(n2.wf());
        },
    }
}

/// On a branch, removal succeeds exactly when the pane is present.
pub proof fn lemma_remove_some_iff(n: Node, target: Pane)
    requires
        n is Split,
    ensures
        n.spec_remove(target) is Some <==> n.contains_pane(target),
    decreases n,
{
    reveal_with_fuel(Node::contains_pane, 3);
    reveal_with_fuel(Node::spec_remove, 3);
    match n {
        Node::Pane(_) => {},
        Node::Split { a, b, .. } => {
            if *a is Split {
                lemma_remove_some_iff(*a, target);
            }
            if *b is Split {
                lemma_remove_some_iff(*b, target);
            }
        },
    }
}

/// After a removal, every pane of the result was in the tree before.
pub proof fn lemma_remove_contains_pane(n: Node, target: Pane, p: Pane)
    requires
        n.spec_remove(target) is Some,
    ensures
        n.spec_remove(target)->Some_0.0.contains_pane(p) ==> n.contains_pane(p),
    decreases n,
{
    reveal_with_fuel(Node::contains_pane, 3);
    match n {
        Node::Pane(_) => {},
        Node::Split { a, b, .. } => {
            if *a == Node::Pane(target) {
            } else if *b == Node::Pane(target) {
            } else if a.spec_remove(target) is Some {
                lemma_remove_contains_pane(*a, target, p);
            } else if b.spec_remove(target) is Some {
                lemma_remove_contains_pane(*b, target, p);
            }
        },
    }
}

/// After a removal, every split of the result was in the tree before.
pub proof fn lemma_remove_contains_split(n: Node, target: Pane, t: Split)
    requires
        n.spec_remove(target) is Some,
    ensures
        n.spec_remove(target)->Some_0.0.contains_split(t) ==> n.contains_split(t),
    decreases n,
{
    reveal_with_fuel(Node::contains_split, 3);
    match n {
        Node::Pane(_) => {},
        Node::Split { a, b, .. } => {
            if *a == Node::Pane(target) {
            } else if *b == Node::Pane(target) {
            } else if a.spec_remove(target) is Some {
                lemma_remove_contains_split(*a, target, t);
            } else if b.spec_remove(target) is Some {
                lemma_remove_contains_split(*b, target, t);
            }
        },
    }
}

/// Removal preserves well-formedness.
pub proof fn lemma_remove_wf(n: Node, target: Pane)
    requires
        n.wf(),
        n.spec_remove(target) is Some,
    ensures
        n.spec_remove(target)->Some_0.0.wf(),
    decreases n,
{
    match n {
        Node::Pane(_) => {},
        Node::Split { id, a, b, .. } => {
            if *a == Node::Pane(target) {
            } else if *b == Node::Pane(target) {
            } else if a.spec_remove(target) is Some {
                lemma_remove_wf(*a, target);
                let a2 = a.spec_remove(target)->Some_0.0;
                assert forall|p: Pane| !(a2.contains_pane(p) && b.contains_pane(p)) by {
                    lemma_remove_contains_pane(*a, target, p);
                }
                assert forall|t: Split| !(a2.contains_split(t) && b.contains_split(t)) by {
                    lemma_remove_contains_split(*a, target, t);
                }
                lemma_remove_contains_split(*a, target, id);
            } else if b.spec_remove(target) is Some {
                lemma_remove_wf(*b, target);
                let b2 = b.spec_remove(target)->Some_0.0;
                assert forall|p: Pane| !(a.contains_pane(p) && b2.contains_pane(p)) by {
                    lemma_remove_contains_pane(*b, target, p);
                }
                assert forall|t: Split| !(a.contains_split(t) && b2.contains_split(t)) by {
                    lemma_remove_contains_split(*b, target, t);
                }
                lemma_remove_contains_split(*b, target, id);
            }
        },
    }
}

/// Exchanging two panes relabels the leaves: the tree holds `p` after
/// the exchange exactly when it held the exchanged label before.
pub proof fn lemma_swapped_contains_pane(n: Node, x: Pane, y: Pane, p: Pane)
    ensures
        n.spec_swapped(x, y).contains_pane(p) <==> n.contains_pane(Node::swap_label(p, x, y)),
    decreases n,
{
    reveal_with_fuel(Node::contains_pane, 3);
    match n {
        Node::Pane(_) => {},
        Node::Split { a, b, .. } => {
            lemma_swapped_contains_pane(*a, x, y, p);
            lemma_swapped_contains_pane(*b, x, y, p);
        },
    }
}

/// Exchanging two panes keeps every split.
pub proof fn lemma_swapped_contains_split(n: Node, x: Pane, y: Pane, t: Split)
    ensures
        n.spec_swapped(x, y).contains_split(t) <==> n.contains_split(t),
    decreases n,
{
    reveal_with_fuel(Node::contains_split, 3);
    match n {
        Node::Pane(_) => {},
        Node::Split { a, b, .. } => {
            lemma_swapped_contains_split(*a, x, y, t);
            lemma_swapped_contains_split(*b, x, y, t);
        },
    }
}

/// Exchanging two panes preserves well-formedness.
pub proof fn lemma_swapped_wf(n: Node, x: Pane, y: Pane)
    requires
        n.wf(),
    ensures
        n.spec_swapped(x, y).wf(),
    decreases n,
{
    match n {
        Node::Pane(_) => {},
        Node::Split { id, a, b, .. } => {
            lemma_swapped_wf(*a, x, y);
            lemma_swapped_wf(*b, x, y);
            let a2 = a.spec_swapped(x, y);
            let b2 = b.spec_swapped(x, y);
            assert forall|p: Pane| !(a2.contains_pane(p) && b2.contains_pane(p)) by {
                lemma_swapped_contains_pane(*a, x, y, p);
                lemma_swapped_contains_pane(*b, x, y, p);
            }
            assert forall|t: Split| !(a2.contains_split(t) && b2.contains_split(t)) by {
                lemma_swapped_contains_split(*a, x, y, t);
                lemma_swapped_contains_split(*b, x, y, t);
            }
            lemma_swapped_contains_split(*a, x, y, id);
            lemma_swapped_contains_split(*b, x, y, id);
            assert(n.spec_swapped(x, y).wf());
        },
    }
}

/// Resizing an absent split changes nothing.
pub proof fn lemma_resized_absent(n: Node, s: Split, ratio: u32)
    requires
        !n.contains_split(s),
    ensures
        n.spec_resized(s, ratio) == n,
    decreases n,
{
    match n {
        Node::Pane(_) => {},
        Node::Split { a, b, .. } => {
            lemma_resized_absent(*a, s, ratio);
            lemma_resized_absent(*b, s, ratio);
        },
    }
}

/// A stored ratio exists exactly for the splits of the tree.
pub proof fn lemma_ratio_of_some_iff(n: Node, s: Split)
    ensures
        n.ratio_of(s) is Some <==> n.contains_split(s),
    decreases n,
{
    match n {
        Node::Pane(_) => {},
        Node::Split { a, b, .. } => {
            lemma_ratio_of_some_iff(*a, s);
            lemma_ratio_of_some_iff(*b, s);
        },
    }
}

/// Resizing keeps every pane.
pub proof fn lemma_resized_contains_pane(n: Node, s: Split, ratio: u32, p: Pane)
    ensures
        n.spec_resized(s, ratio).contains_pane(p) <==> n.contains_pane(p),
    decreases n,
{
    reveal_with_fuel(Node::contains_pane, 3);
    match n {
        Node::Pane(_) => {},
        Node::Split { a, b, .. } => {
            lemma_resized_contains_pane(*a, s, ratio, p);
            lemma_resized_contains_pane(*b, s, ratio, p);
        },
    }
}

/// Resizing keeps every split.
pub proof fn lemma_resized_contains_split(n: Node, s: Split, ratio: u32, t: Split)
    ensures
        n.spec_resized(s, ratio).contains_split(t) <==> n.contains_split(t),
    decreases n,
{
    reveal_with_fuel(Node::contains_split, 3);
    match n {
        Node::Pane(_) => {},
        Node::Split { a, b, .. } => {
            lemma_resized_contains_split(*a, s, ratio, t);
            lemma_resized_contains_split(*b, s, ratio, t);
        },
    }
}

/// Resizing stores the requested ratio at the resized split and keeps
/// every other split's ratio.
pub proof fn lemma_resized_ratio_of(n: Node, s: Split, ratio: u32)
    ensures
        n.contains_split(s) ==> n.spec_resized(s, ratio).ratio_of(s) == Some(ratio),
        forall|t: Split| t != s ==> #[trigger] n.spec_resized(s, ratio).ratio_of(t) == n.ratio_of(t),
    decreases n,
{
    match n {
        Node::Pane(_) => {},
        Node::Split { id, a, b, .. } => {
            lemma_resized_ratio_of(*a, s, ratio);
            lemma_resized_ratio_of(*b, s, ratio);
            lemma_ratio_of_some_iff(*a, s);
            lemma_ratio_of_some_iff(*b, s);
            lemma_ratio_of_some_iff(a.spec_resized(s, ratio), s);
            lemma_ratio_of_some_iff(b.spec_resized(s, ratio), s);
            if id != s {
                if !a.contains_split(s) {
                    lemma_resized_absent(*a, s, ratio);
                }
                if !b.contains_split(s) {
                    lemma_resized_absent(*b, s, ratio);
                }
                assert forall|t: Split|
                    t != s implies #[trigger] n.spec_resized(s, ratio).ratio_of(t) == n.ratio_of(
                    t,
                ) by {
                    lemma_ratio_of_some_iff(*a, t);
                    lemma_ratio_of_some_iff(*b, t);
                    lemma_ratio_of_some_iff(a.spec_resized(s, ratio), t);
                    lemma_ratio_of_some_iff(b.spec_resized(s, ratio), t);
                    lemma_resized_contains_split(*a, s, ratio, t);
                    lemma_resized_contains_split(*b, s, ratio, t);
                }
            }
        },
    }
}

/// Resizing within the clamped range preserves well-formedness.
pub proof fn lemma_resized_wf(n: Node, s: Split, ratio: u32)
    requires
        n.wf(),
        RATIO_MIN <= ratio <= RATIO_MAX,
    ensures
        n.spec_resized(s, ratio).wf(),
    decreases n,
{
    match n {
        Node::Pane(_) => {},
        Node::Split { id, a, b, .. } => {
            if id == s {
            } else {
                lemma_resized_wf(*a, s, ratio);
                lemma_resized_wf(*b, s, ratio);
                let a2 = a.spec_resized(s, ratio);
                let b2 = b.spec_resized(s, ratio);
                assert forall|p: Pane| !(a2.contains_pane(p) && b2.contains_pane(p)) by {
                    lemma_resized_contains_pane(*a, s, ratio, p);
                    lemma_resized_contains_pane(*b, s, ratio, p);
                }
                assert forall|t: Split| !(a2.contains_split(t) && b2.contains_split(t)) by {
                    lemma_resized_contains_split(*a, s, ratio, t);
                    lemma_resized_contains_split(*b, s, ratio, t);
                }
                lemma_resized_contains_split(*a, s, ratio, id);
                lemma_resized_contains_split(*b, s, ratio, id);
                assert(n.spec_resized(s, ratio).wf());
            }
        },
    }
}

/// Dividing a pane and then removing the new pane restores the original
/// tree exactly, and names the divided pane as the promoted sibling.
pub proof fn lemma_split_remove_inverse(n: Node, p: Pane, axis: Axis, q: Pane, s: Split)
    requires
        n.wf(),
        n.contains_pane(p),
        !n.contains_pane(q),
    ensures
        n.spec_split(p, axis, q, s).spec_remove(q) == Some((n, Some(p))),
    decreases n,
{
    let n2 = n.spec_split(p, axis, q, s);
    match n {
        Node::Pane(_) => {
            assert(n == Node::Pane(p));
        },
        Node::Split { id, axis: ax, ratio, a, b } => {
            if a.contains_pane(p) {
                lemma_split_absent(*b, p, axis, q, s);
                lemma_split_remove_inverse(*a, p, axis, q, s);
                let a2 = a.spec_split(p, axis, q, s);
                assert(a2.spec_remove(q) == Some((*a, Some(p))));
                assert(a2 is Split);
                assert(n2 == Node::Split { id, axis: ax, ratio, a: Box::new(a2), b });
                if *b == Node::Pane(q) {
                    assert(b.contains_pane(q));
                }
                assert(n2.spec_remove(q) == Some(
                    (Node::Split { id, axis: ax, ratio, a: Box::new(*a), b }, Some(p)),
                ));
                assert(Node::Split { id, axis: ax, ratio, a: Box::new(*a), b } == n);
            } else {
                lemma_split_absent(*a, p, axis, q, s);
                lemma_split_remove_inverse(*b, p, axis, q, s);
                let b2 = b.spec_split(p, axis, q, s);
                assert(b2.spec_remove(q) == Some((*b, Some(p))));
                assert(b2 is Split);
                assert(n2 == Node::Split { id, axis: ax, ratio, a, b: Box::new(b2) });
                if *a == Node::Pane(q) {
                    assert(a.contains_pane(q));
                }
                if *a is Split {
                    lemma_remove_some_iff(*a, q);
                }
                assert(a.spec_remove(q) is None);
                assert(n2.spec_remove(q) == Some(
                    (Node::Split { id, axis: ax, ratio, a, b: Box::new(*b) }, Some(p)),
                ));
                assert(Node::Split { id, axis: ax, ratio, a, b: Box::new(*b) } == n);
            }
        },
    }
}


/// Exchanging two panes alters no branch: the splits, their axes and
/// their ratios are unchanged, in the same order -- the tree shape is
/// kept.
pub proof fn lemma_swapped_splits(n: Node, x: Pane, y: Pane)
    ensures
        n.spec_swapped(x, y).splits() == n.splits(),
    decreases n,
{
    match n {
        Node::Pane(_) => {},
        Node::Split { a, b, .. } => {
            lemma_swapped_splits(*a, x, y);
            lemma_swapped_splits(*b, x, y);
        },
    }
}

/// Exchanging two panes keeps the number of leaves.
pub proof fn lemma_swapped_panes_len(n: Node, x: Pane, y: Pane)
    ensures
        n.spec_swapped(x, y).panes().len() == n.panes().len(),
    decreases n,
{
    match n {
        Node::Pane(_) => {},
        Node::Split { a, b, .. } => {
            lemma_swapped_panes_len(*a, x, y);
            lemma_swapped_panes_len(*b, x, y);
        },
    }
}

/// Exchanging two panes relabels each leaf position in place: the
/// leaf at every position is the exchanged label of the leaf that
/// stood there.
pub proof fn lemma_swapped_panes_at(n: Node, x: Pane, y: Pane, i: int)
    requires
        0 <= i < n.panes().len(),
    ensures
        n.spec_swapped(x, y).panes()[i] == Node::swap_label(n.panes()[i], x, y),
    decreases n,
{
    match n {
        Node::Pane(_) => {},
        Node::Split { a, b, .. } => {
            lemma_swapped_panes_len(*a, x, y);
            lemma_swapped_panes_len(*b, x, y);
            let la = a.panes().len() as int;
            if i < la {
                lemma_swapped_panes_at(*a, x, y, i);
            } else {
                lemma_swapped_panes_at(*b, x, y, i - la);
            }
        },
    }
}

/// The recursive membership test agrees with the pre-order leaf list.
pub proof fn lemma_contains_pane_in_panes(n: Node, p: Pane)
    ensures
        n.contains_pane(p) <==> n.panes().contains(p),
    decreases n,
{
    match n {
        Node::Pane(q) => {
            assert(n.panes() == seq![q]);
            if q == p {
                assert(n.panes()[0] == p);
            }
            if n.panes().contains(p) {
                let i = choose|i: int| 0 <= i < n.panes().len() && n.panes()[i] == p;
                assert(i == 0);
            }
        },
        Node::Split { a, b, .. } => {
            lemma_contains_pane_in_panes(*a, p);
            lemma_contains_pane_in_panes(*b, p);
            assert(n.panes() == a.panes() + b.panes());
            if a.panes().contains(p) {
                let i = choose|i: int| 0 <= i < a.panes().len() && a.panes()[i] == p;
                assert(n.panes()[i] == p);
            }
            if b.panes().contains(p) {
                let i = choose|i: int| 0 <= i < b.panes().len() && b.panes()[i] == p;
                assert(n.panes()[a.panes().len() + i] == p);
            }
            if n.panes().contains(p) {
                let i = choose|i: int| 0 <= i < n.panes().len() && n.panes()[i] == p;
                if i < a.panes().len() {
                    assert(a.panes()[i] == p);
                } else {
                    assert(b.panes()[i - a.panes().len()] == p);
                }
            }
        },
    }
}

/// The split tree with its identifier allocator: the root node plus the
/// next never-used pane and split tokens.
pub struct Tree {
    pub root: Node,
    pub next_pane: u64,
    pub next_split: u64,
}

impl Tree {
    /// Tree invariant: the node graph is well-formed and every
    /// identifier in it was allocated below the counters.
    pub open spec fn wf(self) -> bool {
        self.root.wf() && (forall|p: Pane|
            self.root.contains_pane(p) ==> p.0 < self.next_pane) && (forall|s: Split|
            self.root.contains_split(s) ==> s.0 < self.next_split)
    }

    /// Identifier tokens left to hand out; a machine limit, not a rule
    /// of the layout.
    pub open spec fn can_allocate(self) -> bool {
        self.next_pane < u64::MAX && self.next_split < u64::MAX
    }

    /// A tree holding a single pane, which is returned.
    pub fn new() -> (r: (Tree, Pane))
        ensures
            r.0.wf(),
            r.0.can_allocate(),
            r.0.root == Node::Pane(r.1),
            r.1 == Pane(0),
            r.0.next_pane == 1,
            r.0.next_split == 0,
    {
        (Tree { root: Node::Pane(Pane(0)), next_pane: 1, next_split: 0 }, Pane(0))
    }

    /// Whether pane `p` names a leaf of the tree.
    pub fn contains(&self, p: Pane) -> (r: bool)
        ensures
            r == self.root.contains_pane(p),
    {
        self.root.has_pane(p)
    }

    /// The panes of the tree in pre-order, first child first.
    pub fn panes(&self) -> (r: Vec<Pane>)
        ensures
            r@ == self.root.panes(),
    {
        let mut out: Vec<Pane> = Vec::new();
        self.root.push_panes(&mut out);
        out
    }

    /// Divides leaf `target` along `axis`. The leaf is replaced by a
    /// fresh branch holding `target` first and a fresh pane second at
    /// the even ratio; both new identifiers are returned. Fails, with
    /// the tree unchanged, when `target` is not in the tree.
    pub fn split(&mut self, target: Pane, axis: Axis) -> (r: Result<(Pane, Split), PaneError>)
        requires
            old(self).wf(),
            old(self).can_allocate(),
        ensures
            final(self).wf(),
            match r {
                Ok((q, s)) => old(self).root.contains_pane(target) && q == Pane(
                    old(self).next_pane,
                ) && s == Split(old(self).next_split) && final(self).root == old(
                    self,
                ).root.spec_split(target, axis, q, s) && final(self).next_pane == old(
                    self,
                ).next_pane + 1 && final(self).next_split == old(self).next_split + 1,
                Err(e) => e == PaneError::PaneNotFound && !old(self).root.contains_pane(target)
                    && *final(self) == *old(self),
            },
    {
        if !self.root.has_pane(target) {
            return Err(PaneError::PaneNotFound);
        }
        let q = Pane(self.next_pane);
        let s = Split(self.next_split);
        let ghost old_root = self.root;
        let mut tmp = Node::Pane(q);
        core::mem::swap(&mut self.root, &mut tmp);
        let new_root = tmp.with_split(target, axis, q, s);
        self.root = new_root;
        self.next_pane = self.next_pane + 1;
        self.next_split = self.next_split + 1;
        proof {
            lemma_split_wf(old_root, target, axis, q, s);
            assert forall|p: Pane| self.root.contains_pane(p) implies p.0 < self.next_pane by {
                lemma_split_contains_pane(old_root, target, axis, q, s, p);
            }
            assert forall|t: Split| self.root.contains_split(t) implies t.0 < self.next_split by {
                lemma_split_contains_split(old_root, target, axis, q, s, t);
            }
        }
        Ok((q, s))
    }

    /// Removes leaf `pane`; its parent branch collapses and the sibling
    /// subtree is promoted into the parent's slot. When the sibling was
    /// itself a leaf the outcome names it. The sole remaining leaf
    /// cannot be removed, and an absent pane is reported; in both cases
    /// the tree is unchanged.
    pub fn remove(&mut self, pane: Pane) -> (r: RemoveOutcome)
        requires
            old(self).wf(),
        ensures
            final(self).wf(),
            final(self).next_pane == old(self).next_pane,
            final(self).next_split == old(self).next_split,
            match r {
                RemoveOutcome::PaneNotFound => !old(self).root.contains_pane(pane) && *final(self)
                    == *old(self),
                RemoveOutcome::LastPane => old(self).root == Node::Pane(pane) && *final(self)
                    == *old(self),
                RemoveOutcome::Removed { sibling } => old(self).root.contains_pane(pane) && !(old(
                    self,
                ).root == Node::Pane(pane)) && old(self).root.spec_remove(pane) == Some(
                    (final(self).root, sibling),
                ),
            },
    {
        let root_is_this_leaf = match &self.root {
            Node::Pane(p) => *p == pane,
            _ => false,
        };
        if root_is_this_leaf {
            return RemoveOutcome::LastPane;
        }
        if !self.root.has_pane(pane) {
            return RemoveOutcome::PaneNotFound;
        }
        let ghost old_root = self.root;
        let mut tmp = Node::Pane(pane);
        core::mem::swap(&mut self.root, &mut tmp);
        proof {
            lemma_remove_some_iff(old_root, pane);
            lemma_remove_wf(old_root, pane);
        }
        let (new_root, _removed, sibling) = tmp.with_removed(pane);
        self.root = new_root;
        proof {
            assert forall|p: Pane| self.root.contains_pane(p) implies p.0 < self.next_pane by {
                lemma_remove_contains_pane(old_root, pane, p);
            }
            assert forall|t: Split| self.root.contains_split(t) implies t.0 < self.next_split by {
                lemma_remove_contains_split(old_root, pane, t);
            }
        }
        RemoveOutcome::Removed { sibling }
    }

    /// Exchanges the positions of panes `a` and `b` without altering the
    /// tree shape. Fails, with the tree unchanged, when either pane is
    /// absent.
    pub fn swap(&mut self, a: Pane, b: Pane) -> (r: Result<(), PaneError>)
        requires
            old(self).wf(),
        ensures
            final(self).wf(),
            final(self).next_pane == old(self).next_pane,
            final(self).next_split == old(self).next_split,
            match r {
                Ok(_) => old(self).root.contains_pane(a) && old(self).root.contains_pane(b)
                    && final(self).root == old(self).root.spec_swapped(a, b),
                Err(e) => e == PaneError::PaneNotFound && !(old(self).root.contains_pane(a) && old(
                    self,
                ).root.contains_pane(b)) && *final(self) == *old(self),
            },
    {
        if !self.root.has_pane(a) || !self.root.has_pane(b) {
            return Err(PaneError::PaneNotFound);
        }
        let ghost old_root = self.root;
        let mut tmp = Node::Pane(a);
        core::mem::swap(&mut self.root, &mut tmp);
        let new_root = tmp.with_swapped(a, b);
        self.root = new_root;
        proof {
            lemma_swapped_wf(old_root, a, b);
            assert forall|p: Pane| self.root.contains_pane(p) implies p.0 < self.next_pane by {
                lemma_swapped_contains_pane(old_root, a, b, p);
            }
            assert forall|t: Split| self.root.contains_split(t) implies t.0 < self.next_split by {
                lemma_swapped_contains_split(old_root, a, b, t);
            }
        }
        Ok(())
    }

    /// Sets the ratio of branch `split` to `ratio` clamped into
    /// `[RATIO_MIN, RATIO_MAX]`: a request outside the range stores the
    /// nearest bound, a request inside is stored unchanged. Returns
    /// whether the split was found; an unknown split leaves the tree
    /// unchanged.
    pub fn resize(&mut self, split: Split, ratio: u32) -> (found: bool)
        requires
            old(self).wf(),
        ensures
            final(self).wf(),
            final(self).next_pane == old(self).next_pane,
            final(self).next_split == old(self).next_split,
            found == old(self).root.contains_split(split),
            final(self).root == old(self).root.spec_resized(split, spec_clamp_ratio(ratio)),
            found ==> final(self).root.ratio_of(split) == Some(spec_clamp_ratio(ratio)),
            !found ==> *final(self) == *old(self),
    {
        if !self.root.has_split(split) {
            proof {
                lemma_resized_absent(old(self).root, split, spec_clamp_ratio(ratio));
            }
            return false;
        }
        let clamped = clamp_ratio(ratio);
        let ghost old_root = self.root;
        let mut tmp = Node::Pane(Pane(0));
        core::mem::swap(&mut self.root, &mut tmp);
        let new_root = tmp.with_ratio(split, clamped);
        self.root = new_root;
        proof {
            lemma_resized_wf(old_root, split, clamped);
            lemma_resized_ratio_of(old_root, split, clamped);
            assert forall|p: Pane| self.root.contains_pane(p) implies p.0 < self.next_pane by {
                lemma_resized_contains_pane(old_root, split, clamped, p);
            }
            assert forall|t: Split| self.root.contains_split(t) implies t.0 < self.next_split by {
                lemma_resized_contains_split(old_root, split, clamped, t);
            }
        }
        true
    }
}

} // verus!

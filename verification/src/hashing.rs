//! The structural hash: a deterministic fingerprint of the tree's
//! shape, its identifiers and ratios, and the container dimensions.
//!
//! The host compares fingerprints between passes to decide whether a
//! cached downstream layout must be recomputed, so the hash must be a
//! pure function of the structural and geometric state: same tree and
//! container, same hash, in every process and on every machine. The
//! mixing step is the Fowler-Noll-Vo fold: exclusive-or, then a
//! wrapping multiply by the FNV prime.

use vstd::prelude::*;

use crate::geometry::Size;
use crate::tree::Axis;
use crate::tree::Node;
use crate::tree::Tree;

verus! {

/// The FNV-1a 64-bit offset basis.
pub const HASH_BASIS: u64 = 0xcbf29ce484222325;

/// The FNV-1a 64-bit prime.
pub const HASH_PRIME: u64 = 0x100000001b3;

/// One mixing step: fold `v` into the running hash `h`.
pub open spec fn spec_mix(h: u64, v: u64) -> u64 {
    vstd::wrapping::u64_specs::wrapping_mul(h ^ v, HASH_PRIME)
}

/// Folds `v` into the running hash.
pub fn mix(h: u64, v: u64) -> (r: u64)
    ensures
        r == spec_mix(h, v),
{
    (h ^ v).wrapping_mul(HASH_PRIME)
}

/// The tag folded in for an axis.
pub open spec fn spec_axis_code(axis: Axis) -> u64 {
    match axis {
        Axis::Horizontal => 0u64,
        Axis::Vertical => 1u64,
    }
}

/// The running hash after folding in a subtree, in pre-order: a tag
/// and the pane for a leaf; a tag, the split, its axis code and its
/// ratio, then both children, for a branch.
pub open spec fn spec_hash_node(node: Node, h: u64) -> u64
    decreases node,
{
    match node {
        Node::Pane(p) => spec_mix(spec_mix(h, 1), p.0),
        Node::Split { id, axis, ratio, a, b } => {
            let h1 = spec_mix(spec_mix(spec_mix(spec_mix(h, 2), id.0), spec_axis_code(axis)), ratio as u64);
            spec_hash_node(*b, spec_hash_node(*a, h1))
        },
    }
}

/// Folds a subtree into the running hash.
pub fn hash_node(node: &Node, h: u64) -> (r: u64)
    ensures
        r == spec_hash_node(*node, h),
    decreases *node,
{
    match node {
        Node::Pane(p) => mix(mix(h, 1), p.0),
        Node::Split { id, axis, ratio, a, b } => {
            let code: u64 = match axis {
                Axis::Horizontal => 0,
                Axis::Vertical => 1,
            };
            let h1 = mix(mix(mix(mix(h, 2), id.0), code), *ratio as u64);
            let ha = hash_node(a, h1);
            hash_node(b, ha)
        },
    }
}

/// The structural hash of a tree in a container: the dimensions, then
/// the tree, folded from the FNV basis.
pub open spec fn spec_structural_hash(root: Node, size: Size) -> u64 {
    spec_hash_node(root, spec_mix(spec_mix(HASH_BASIS, size.width as u64), size.height as u64))
}

/// Computes the structural hash of `tree` laid out in a container of
/// `size`: a deterministic function of the tree's shape, identifiers
/// and ratios and of the container's width and height.
pub fn structural_hash(tree: &Tree, size: Size) -> (h: u64)
    ensures
        h == spec_structural_hash(tree.root, size),
{
    let h0 = mix(mix(HASH_BASIS, size.width as u64), size.height as u64);
    hash_node(&tree.root, h0)
}

} // verus!

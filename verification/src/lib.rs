//! A split-tree layout and interaction engine for a resizable, draggable
//! multi-pane workspace: a binary tree of panes separated by draggable
//! splits, a region solver that turns the tree into a tiling of a container
//! rectangle, an interaction state machine for picking, dragging and
//! resizing, and a deterministic structural hash for change detection.

pub mod events;
pub mod geometry;
pub mod hashing;
pub mod interaction;
pub mod regions;
pub mod tree;

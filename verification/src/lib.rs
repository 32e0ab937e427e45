//! A tiling layout engine and focus router for a Wayland compositor.
//!
//! The engine decides where every tiled window goes (`tiled_tree`, `workspace`, `manager`),
//! how an interactive move or resize reshapes the layout (`grab`), and which surface gets
//! the keyboard focus for a pointer event (`state`). It works on plain values: the
//! compositor hands in ids, rectangles and hit-test results, and carries out the configure
//! messages and focus changes that come back.

pub mod geometry;
pub mod window;
pub mod node;
pub mod arena;
pub mod tree;
pub mod tree_lemmas;
pub mod laws;
pub mod tiled_tree;
pub mod zorder;
pub mod workspace;
pub mod manager;
pub mod state;
pub mod layout_tree;
pub mod grab;

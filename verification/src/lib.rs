//! Identifiers, display-item descriptions and the spatial (clip-scroll) tree
//! of a display-list renderer, with their behaviour stated as contracts.

pub mod ids;
pub mod display_item;
pub mod clip_scroll_tree;
pub mod tree_laws;

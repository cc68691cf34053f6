//! Zoomable treemap of a directory tree.
//!
//! The core is a squarified treemap layout on an integer grid (`treemap`), a
//! layout tree in fixed world coordinates that is expanded and pruned as the
//! view moves (`world_layout`), and a camera that maps between world and
//! screen space and moves smoothly between poses (`camera`). Lengths and
//! factors are fixed-point numbers (`fixed`), so every result is exact and
//! the same on every machine. What these guarantee is proved in the modules
//! whose names end in `_laws`.
//!
//! Around the core stand the search for the node under the pointer
//! (`hit_test`), the upkeep of one frame (`view`), the size tree and searches
//! in it (`scanner`), and the texts shown to the user (`format`, `extension`,
//! `version`, `release`, `theme`).

pub mod arith;
pub mod fixed;
pub mod geometry;
pub mod treemap;
pub mod treemap_laws;
pub mod camera;
pub mod camera_laws;
pub mod scanner;
pub mod world_layout;
pub mod world_layout_laws;
pub mod hit_test;
pub mod view;
pub mod format;
pub mod extension;
pub mod version;
pub mod release;
pub mod theme;

//! Verified core of a gaussian-splat viewer: the compact binary splat
//! format, depth ordering of splats, PLY header parsing, object-range
//! bookkeeping and the editor's selection and undo rules.

pub mod byte_order;
pub mod packed_format;
pub mod depth_sort;
pub mod data_objects;
pub mod gizmo;
pub mod text;
pub mod editor;
pub mod scene;
pub mod renderer;
pub mod timer;
pub mod utils;
pub mod oct_tree;
pub mod loader;
pub mod local;
pub mod scene_geo;
pub mod segment;
pub mod obj;
pub mod input;

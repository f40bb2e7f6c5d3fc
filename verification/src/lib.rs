//! The logic of a GPU-accelerated UI framework, with its behaviour stated in
//! contracts: scenes and their draw order, time-driven animation, shaped text,
//! scroll gestures, the texture atlas and the accounting of memory.
//!
//! Coordinates, opacities and colours go through [`scalar::Scalar`], so that
//! every function is verified for any arithmetic that is a function of its
//! operands.
pub mod animation;
pub mod atlas_key;
pub mod atlas_page;
pub mod atlas_tile;
pub mod background_laws;
pub mod batch_laws;
pub mod batches;
pub mod bounds_tree;
pub mod capacity;
pub mod color;
pub mod curve_laws;
pub mod decimal;
pub mod deferred;
pub mod fade_laws;
pub mod finish_laws;
pub mod fixed;
pub mod frame_laws;
pub mod geometry;
pub mod geometry_laws;
pub mod gestures;
pub mod glyph_drops;
pub mod hit_laws;
pub mod key_table;
pub mod line;
pub mod line_background;
pub mod line_cursor;
pub mod line_laws;
pub mod line_layout;
pub mod line_paint;
pub mod manifest_resource;
pub mod metal_atlas;
pub mod motion_laws;
pub mod number_laws;
pub mod paint_laws;
pub mod path;
pub mod path_laws;
pub mod present_laws;
pub mod presentable;
pub mod primitives;
pub mod record_laws;
pub mod render_memory;
pub mod replay_laws;
pub mod retire_laws;
pub mod row_laws;
pub mod scalar;
pub mod scene;
pub mod scene_laws;
pub mod scene_model;
pub mod scroll_laws;
pub mod shared;
pub mod split_laws;
pub mod stable_sort;
pub mod stroke_laws;
pub mod text_allocation;
pub mod text_laws;
pub mod text_paint;
pub mod texture_list;
pub mod thread_park;
pub mod tile_table;
pub mod transform;
pub mod util;
pub mod window_appearance;

//! Core of an isometric map visualizer: sprite catalog, coordinated draw
//! batches, the tile and content layers with their fog of war, the player
//! marker and the camera.
//!
//! Everything here works on plain values. Positions are integers in fixed
//! sub-pixel units (see `geometry`), so every formula is exact.

pub mod tile;
pub mod textures;
pub mod geometry;
pub mod coordinated;
pub mod tiles_map;
pub mod contents_map;
pub mod camera;
pub mod player;
pub mod dialog;
pub mod visualizer;

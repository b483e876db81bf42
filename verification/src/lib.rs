//! Chart geometry on an integer grid.
//!
//! The crate turns the features of nautical charts into what a screen can
//! draw: filled triangles coloured by depth, depth labels, and the order in
//! which overlapping charts are painted so that the finer chart ends up on
//! top. The functions are verified against the contracts they carry. The
//! one exception is in [`config`]: what the `toml` crate and the standard
//! library's upper-casing return is stated there and believed, not proved.
//!
//! Positions are whole numbers of grid units and depths whole millimetres.
//! Two steps work on floating-point numbers and are therefore made by the
//! caller, who hands their results in: the Mercator projection of
//! geographic positions, and the cutting of polygons into triangles.
//!
//! - [`extent`]: bounding boxes, collision and area.
//! - [`geometry`]: rings, triangles, vertices and chart features.
//! - [`depare`]: depth areas and their colours.
//! - [`soundings`]: depth soundings and their labels.
//! - [`overlap`]: groups of overlapping charts and their drawing order.
//! - [`render`]: viewport culling, the density throttle and the first zoom.
//! - [`transform`]: screen coordinates of projected positions.
//! - [`config`]: settings read from a TOML document.
//! - [`color`]: fill colours.

pub mod color;
pub mod config;
pub mod depare;
pub mod extent;
pub mod geometry;
pub mod overlap;
pub mod render;
pub mod soundings;
pub mod transform;

//! A constraint-based box layout engine for small pixel displays: views are
//! asked for their size, then placed and painted onto a surface.
pub mod geometry;
pub mod raster;
pub mod surface;
pub mod layout;
pub mod view;
pub mod stack;
pub mod text;
pub mod modules;
pub mod config;

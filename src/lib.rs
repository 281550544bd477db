//! Application launcher core: desktop-entry catalog, icon-theme index, grid
//! layout, kinetic scrolling and render-cache planning.

pub mod bytes;
pub mod cache;
pub mod catalog;
pub mod config;
pub mod entry;
pub mod geometry;
pub mod grid;
pub mod index;
pub mod marker;
pub mod order;
pub mod pixels;
pub mod scroll;
pub mod theme;

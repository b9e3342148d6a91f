//! The client's logic.
pub mod api;
pub mod model;
pub mod table;
pub mod params;
pub mod menus;
pub mod screen;
pub mod args;

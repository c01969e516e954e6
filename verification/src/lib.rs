//! Verified core of a wallpaper picker: the catalogue model, search queries,
//! favourites, configuration parsing, the control protocol and the decisions
//! made while scanning and applying wallpapers.

pub mod text;
pub mod model;
pub mod ui;
pub mod favorites;
pub mod ipc;
pub mod config;
pub mod thumbs;
pub mod json;
pub mod apply;
pub mod scan;
pub mod cli;

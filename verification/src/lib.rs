//! The decisions of a multi-monitor live wallpaper, apart from the windowing
//! toolkit that shows it.

pub mod color;
pub mod config;
pub mod controls;
pub mod double;
pub mod fit;
pub mod listing;
pub mod media;
pub mod monitors;
pub mod picture;
pub mod platform;
pub mod rounding;
pub mod single;
pub mod sizes;
pub mod text;
pub mod tray;
pub mod video;

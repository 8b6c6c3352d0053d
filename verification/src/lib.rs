//! The state of a slideshow: which images there are, in which order they are
//! shown, which one is on screen, and what a key press does to that.

pub mod collector;
pub mod music;
pub mod numeric_key;
pub mod path_map;
pub mod playlist;
pub mod sorting;
pub mod window;

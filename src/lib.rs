//! A directory listing library: entry records, size and time formatting,
//! filtering and ordering of entries, and terminal layout of a listing.

pub mod text;
pub mod size;
pub mod time;
pub mod entry;
pub mod order;
pub mod listing;
pub mod render;
pub mod target;

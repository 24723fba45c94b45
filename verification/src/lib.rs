//! Verified core of a small ArceOS loader: the early bump allocator, the
//! device-tree summary, the hashing state of the map, and the app image layout.
pub mod align;
pub mod early;
pub mod early_runs;
pub mod bytes;
pub mod dtb;
pub mod map;
pub mod loader;


//! A live, verified snapshot of rendered markdown documents for a directory
//! tree: path classification, the sorted document store, the drop-oldest
//! change bus, and the normalizer that turns raw filesystem notifications into
//! store mutations.

pub mod text;
pub mod assets;
pub mod classify;
pub mod order;
pub mod store;
pub mod bus;
pub mod state;
pub mod watcher;
pub mod render;
pub mod discovery;
pub mod landing;
pub mod cli;

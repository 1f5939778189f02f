//! Persistence: what is kept of a pane's transcript, and for how long.

pub mod chunk;
pub mod gc;
pub mod restore;
pub mod store;
pub mod writer;

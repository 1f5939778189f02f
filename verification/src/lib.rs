//! The verified core of the Termica terminal workspace.

pub mod block;
pub mod block_selection;
pub mod grid;
pub mod history;
pub mod history_overlay;
pub mod input;
pub mod integration;
pub mod json;
pub mod keybindings;
pub mod lines;
pub mod links;
pub mod markers;
pub mod osc;
pub mod pane;
pub mod pane_selection;
pub mod pane_slot;
pub mod paths;
pub mod persist;
pub mod pr_context;
pub mod startup;
pub mod terminal;
pub mod text;
pub mod vt;

use vstd::prelude::*;

verus! {

/// The smallest number of rows the grid is ever sized to.
pub const MIN_ROWS: u16 = 5;

/// The smallest number of columns the grid is ever sized to.
pub const MIN_COLS: u16 = 20;

} // verus!

//! Fuzzy search of launchable applications.
//!
//! `fuzzy` scores one query against one string, `selection` picks the best
//! items without sorting the rest, `finder` ranks every entry of an index,
//! `index` and `desktop` build that index from description files and the
//! executable search path, and `launcher` ties them together. `command`,
//! `list` and `cache` hold the small state machines around them.
use vstd::prelude::*;

pub mod cache;
pub mod command;
pub mod desktop;
pub mod finder;
pub mod fuzzy;
pub mod index;
pub mod launcher;
pub mod list;
pub mod plugin;
pub mod selection;
pub mod text;

verus! {

} // verus!

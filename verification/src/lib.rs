//! Reclaim disk space taken by orphan Windows container layers: the layer
//! model, its classification and selection rules, and the text the tool shows.
//!
//! What the filesystem, Docker and Windows report is read elsewhere and
//! handed to this library as plain values.

use vstd::prelude::*;

pub mod cli;
pub mod docker;
pub mod errors;
pub mod format;
pub mod gui;
pub mod hcs;
pub mod layers;
pub mod privileges;
pub mod text;
pub mod time;
pub mod util;

verus! {

/// Default path for HCS-managed container layers on Windows.
pub const DEFAULT_LAYERS_DIR: &'static str = "C:\\ProgramData\\Microsoft\\Windows\\Containers\\Layers";

} // verus!

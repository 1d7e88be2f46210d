//! A component runtime in two halves: a verified CSS tokenizer — the exact
//! model lives in `model`, the executable state machine in `tokenizer` — and
//! the data model of the component system (application configuration, layout
//! providers and draw calls) whose event loop and rendering backends live
//! outside this crate.
use vstd::prelude::*;

pub mod appinfo;
pub mod buffer;
pub mod laws;
pub mod layout;
pub mod model;
pub mod renderer;
pub mod stdspec;
pub mod tokenizer;
pub mod tokens;

use crate::appinfo::AppInfo;
use crate::layout::LayoutProvider;

verus! {

/// Starts an application: the configuration and the root layout provider are
/// handed to the event loop, which a rendering backend outside this crate
/// drives.
#[allow(unused_variables)]
pub fn run<P: LayoutProvider>(app: AppInfo, mainexpectation: P) {
}

} // verus!

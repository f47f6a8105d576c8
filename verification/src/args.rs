//! Command-line arguments for toggling and for binding to a panel plugin.

use vstd::prelude::*;

verus! {

/// Whether to toggle between work and rest, and the id of a panel plugin to
/// bind to.
pub struct Args {
    pub toggle: bool,
    pub bind_plugin_id: Option<i32>,
}

} // verus!

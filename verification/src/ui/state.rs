//! Plain snapshot of the whole-system metrics, for display purposes.

use vstd::prelude::*;

verus! {

/// The system-wide metrics a dashboard would show.
#[derive(Default)]
pub struct SysResource {
    /// System memory percentage.
    pub sys_mem: i32,
    /// CPU utilisation percentage.
    pub cpu_util: i32,
    /// CPU temperature in whole degrees.
    pub cpu_temp: i32,
}

/// Dashboard state.
#[derive(Default)]
pub struct State {
    pub sys_resource: SysResource,
}

impl State {
    pub fn refresh_all() {
    }
}

} // verus!

//! A watchdog for a single operating-system process: it periodically samples
//! one resource metric, and once the metric crosses a configured threshold it
//! delivers an escalating sequence of termination signals (interrupt, then
//! terminate, then kill) until the process is gone, reaping it after a kill.

pub mod mem;
pub mod monitor;
pub mod resource;
pub mod ui;

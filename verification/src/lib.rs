//! Status-line generator core: network-throughput metering with sparkline
//! rendering, a name-indexed registry of display blocks, and the per-tick
//! update rules that keep the two consistent, emitted as a stream of JSON
//! lines for a status-bar host.

pub mod args;
pub mod builtin;
pub mod external;
pub mod json;
pub mod proc;
pub mod swaybar_object;
pub mod text;
pub mod tick;
pub mod units;

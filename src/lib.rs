//! Process snapshots for a process monitor.
//!
//! The kernel's per-process and system texts are read into typed records
//! (`parsers`, `cpuinfo`), cumulative counters are turned into the amounts
//! of one refresh interval by a two-generation diff engine
//! (`process_list`), records sharing a name can be merged (`group`), and
//! rows are ordered by a chosen figure (`sort`). `util` formats byte
//! counts for display.
pub mod text;
pub mod proc;
pub mod parsers;
pub mod cpuinfo;
pub mod process_list;
pub mod group;
pub mod sort;
pub mod util;

//! A verified core for a remote host utilization monitor.
//!
//! The library validates configuration, trims remote command output,
//! formats the memory percentage to two decimals, assembles the
//! utilization report, renders it as pretty-printed JSON, and decides
//! how the run proceeds (soft stop on unreachable hosts, hard error on
//! protocol or parse failures). All network I/O lives outside the
//! library, which only consumes plain values handed in by the driver.

pub mod config;
pub mod json;
pub mod number;
pub mod pipeline;
pub mod report;
pub mod text;

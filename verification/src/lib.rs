//! A verified core for an interactive monitor-configuration tool.
//!
//! The library parses raw per-monitor descriptions into a normalized mode
//! catalog, selects the catalog position that best matches the reported
//! current mode, and drives the operator's working selection — resolution,
//! refresh rate, scale and power state — through invariant-preserving
//! operations. Refresh rates are held in millihertz and scale factors in
//! hundredths, so every quantity the logic touches is an integer. What
//! leaves the process (the compositor query, its configuration commands,
//! the configuration file) is described by plain values for the caller to
//! carry out.

pub mod app;
pub mod builder;
pub mod catalog;
pub mod laws;
pub mod modestr;
pub mod monitor;
pub mod numfmt;
pub mod numparse;
pub mod order;
pub mod rates;

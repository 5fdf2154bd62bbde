//! GPU telemetry exporter: attribution of GPU memory to operating-system
//! users, the metric state a scrape renders, and the decisions of the
//! upstream merger and the reachability watchdog.
pub mod decimal;
pub mod directory;
pub mod handlers;
pub mod metrics;
pub mod nvml_metrics;
pub mod watchdog;

//! The engine of a live network-interface throughput dashboard: per-interface
//! rates from cumulative byte counters, bounded rolling histories, the
//! aggregate over visible interfaces, geometry-coupled visibility decay, the
//! tile grid, and the mirrored bar-chart cells of each graph.
pub mod app;
pub mod constants;
pub mod iface;
pub mod label;
pub mod layout;
pub mod model;
pub mod net;
pub mod order;
pub mod rate;
pub mod sparkline;
pub mod theme;
pub mod visibility;

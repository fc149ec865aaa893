//! Traffic-driven scale-to-zero: the decisions of the packet classifier,
//! the service registry, the workload reconciler, the scale engine and the
//! autoscaler suspension controller, stated over plain values and verified.

pub mod classifier;
pub mod controller;
pub mod coordinator;
pub mod hpa;
pub mod ipv4;
pub mod kernel_map;
pub mod models;
pub mod priority;
pub mod rate_limit;
pub mod registry;
pub mod scaler;
pub mod sync;
pub mod text;

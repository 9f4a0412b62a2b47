//! The engine of a TCP connect scanner: address-range enumeration, target
//! construction, work partitioning, the per-worker probe protocol and the
//! ordered collection of open targets.

pub mod address;
pub mod collector;
pub mod config;
pub mod error;
pub mod partition;
pub mod range;
pub mod segments;
pub mod targets;
pub mod worker;

pub use address::{Address, Target};
pub use collector::ResultCollector;
pub use config::{accept_ports, default_ports, plan_scan, ScanConfiguration, MAX_PORT};
pub use error::ConfigurationError;
pub use partition::get_exact_chunks;
pub use range::generate_ip_range;
pub use segments::increment_ipv6_segments;
pub use targets::create_ip_list_with_ports;
pub use worker::{ConnectionOutcome, ProbeEvent, ScanWorker};

//! Peer discovery for a network of Electrum servers: a schedule of health
//! check jobs, the admission of announced peers, and the registry of the
//! servers that answered their last probe.
//!
//! The library decides; it performs no I/O. Its caller resolves host names,
//! reads the clock, connects to peers, and hands the outcomes back.
pub mod address;
pub mod admission;
pub mod coherence;
pub mod error;
pub mod features;
pub mod job;
pub mod manager;
pub mod order;
pub mod queue;
pub mod registry;
pub mod text;

pub use crate::address::{
    Hostname, IpAddress, Lookup, Port, ServerAddr, Service, SocketAddress,
};
pub use crate::error::{DiscoveryError, Incompatibility, ProbeFailure};
pub use crate::features::{ProtocolVersion, ServerFeatures, ServerPorts};
pub use crate::job::{HealthCheck, Timestamp};
pub use crate::manager::{DiscoveryManager, Transport};
pub use crate::queue::JobQueue;
pub use crate::registry::{HealthyServers, Server, ServerEntry};

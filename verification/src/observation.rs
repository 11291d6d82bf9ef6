//! Native Linux observation: the parsers and decisions behind the systemd,
//! NetworkManager, PipeWire and platform probes. The probes' D-Bus, procfs
//! and socket traffic is performed by the caller, which hands the text and
//! values it read to these functions.

pub mod audio;
pub mod compositor;
pub mod error;
pub mod platform;
pub mod retention;
pub mod sequence;
pub mod units;

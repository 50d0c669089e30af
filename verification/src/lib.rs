//! Verified core of a network path-diagnostic probe.
//!
//! The library covers the probe engine's packet codec and sequence
//! tracking, the per-hop statistics engine, and the session controller's
//! dispatch logic.  Socket I/O, terminal rendering and DNS resolution
//! live outside the library and talk to it through plain values.

pub mod addr;
pub mod args;
pub mod codec;
pub mod hop_stats;
pub mod probe;
pub mod report;
pub mod session;
pub mod sixel;
pub mod ui;
pub mod utils;

pub use addr::IpAddress;
pub use args::SparklineScale;
pub use hop_stats::HopStats;
pub use session::MtrSession;
pub use session::SessionConfig;

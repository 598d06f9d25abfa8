//! A replica of a block consensus engine for a small, fixed set of validators.
//!
//! The replica keeps an artifact pool, derives change sets from it through a
//! fixed schedule of subcomponents, and applies them. Everything here is
//! sequential and free of I/O: the caller supplies the current time and owns
//! the threads and channels around the processing loop.

pub mod artifact_manager;
pub mod consensus_layer;
pub mod crypto;
pub mod encoding;
pub mod metrics;
pub mod network_layer;
pub mod params;
pub mod time_source;

pub use metrics::{ArtifactDelayInfo, FinalizationTimes, FinalizationType, HeightMetrics};
pub use params::SubnetParams;

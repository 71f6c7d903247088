//! Turn-segmentation and lap-comparison analysis for recorded vehicle
//! telemetry.
//!
//! A session's laps are sequences of telemetry samples; a turn is a named
//! track region split into approach / apex / exit sub-regions.  The library
//! classifies samples into those regions, derives timing and speed statistics
//! per region, and ranks laps against each other.

pub mod analysis;
pub mod turn;
pub mod types;

pub use turn::BoundingBox;
pub use turn::Position;
pub use turn::TurnSegment;
pub use types::Driver;
pub use types::DriverSession;
pub use types::DrsStatus;
pub use types::Lap;
pub use types::Session;
pub use types::SessionType;
pub use types::TelemetrySample;

//! Publication layer of a rollup node: segments batch payloads under
//! per-backend size limits, resolves a submission threshold from a
//! declarative strategy, and drives one submission round from outcome
//! events to an immutable receipt.
pub mod config;
pub mod errors;
pub mod params;
pub mod round;
pub mod segment;
pub mod strategy;
pub mod text;

pub use config::DAConfig;
pub use config::DAServerCelestiaConfig;
pub use config::DAServerOpenDAConfig;
pub use config::InternalDAServerConfig;
pub use config::InternalDAServerConfigType;
pub use config::OpenDAScheme;
pub use config::RoochOpt;
pub use errors::ConfigError;
pub use errors::KvParseError;
pub use params::pairs_to_hashmap;
pub use params::parse_hashmap;
pub use params::parse_pairs;
pub use round::RoundStatus;
pub use round::SubmissionOutcome;
pub use round::SubmissionReceipt;
pub use round::SubmissionRound;
pub use round::SubmitFailureReason;
pub use segment::Batch;
pub use segment::Segment;
pub use segment::segment;
pub use segment::segment_under_limit;
pub use strategy::DAServerSubmitStrategy;
pub use strategy::resolve_threshold;

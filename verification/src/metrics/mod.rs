//! Counters and histograms of the node.

pub mod histogram;
pub mod registry;
pub mod render;

pub use self::histogram::{AtomicCounter, AtomicHistogram};
pub use self::histogram::{
    BUCKETS_AGG, BUCKETS_COMMITTEE_AGG, BUCKETS_FC_BLOCK, BUCKETS_REORG_DEPTH, BUCKETS_SIG,
    BUCKETS_STATE_TRANSITION,
};
pub use self::registry::MetricsRegistry;
pub use self::render::render_metrics;

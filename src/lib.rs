//! Ingestion core of a PLC directory mirror: boundary deduplication of
//! paginated exports, week-bundle arithmetic, and the decisions that the
//! fetching and loading tasks take.

pub mod banner;
pub mod framing;
pub mod mirror;
pub mod op;
pub mod pipeline;
pub mod poll;
pub mod ratelimit;
pub mod store;
pub mod time;
pub mod weekly;

pub use banner::{booo, failed_to_reach_named, logo};
pub use framing::export_lines;
pub use mirror::{ExperimentalConf, ExpiringValue, HostCheck};
pub use op::{ExportPage, Op, OpKey};
pub use pipeline::{
    aborts_pipeline, fold_last_at, full_pages_step, full_pages_step_at, plan_backfill,
    BackfillOptions, BackfillPlan, BulkSource, FullPagesStep, PageChunker, PlanError, SinkKind,
    TaskEnd, BUNDLE_PAGE_SIZE, FULL_PAGE_MIN,
};
pub use poll::{LastOp, PageBoundaryState, PollError, Poller};
pub use ratelimit::{ipv6_keys, scale_quota, Ipv6Keys, QuotaParts};
pub use store::migrations_match;
pub use time::Dt;
pub use weekly::{Week, WeekBound, FIRST_WEEK_TS, WEEK_IN_SECONDS};

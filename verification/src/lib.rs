//! Durable job runs: admission, scheduling, journaling and wire shapes.

pub mod admission;
pub mod client;
pub mod control;
pub mod dto;
pub mod encoding;
pub mod history;
pub mod ids;
pub mod inspect;
pub mod job;
pub mod journal;
pub mod laws;
pub mod logging;
pub mod maintenance;
pub mod model;
pub mod pages;
pub mod reconcile;
pub mod retention;
pub mod runner;
pub mod schedule;
pub mod service;
pub mod sorted;
pub mod state;
pub mod text;
pub mod tick;
pub mod time;

pub use ids::RunId;
pub use inspect::{Inspection, JobSnapshot};
pub use job::{Job, JobDefinition};
pub use logging::LogPolicy;
pub use model::{
    CancelResult, Cancellation, Completion, Error, JobError, JobKey, JournalState, Limits, Outcome,
    Output, Page, Retention, RunCursor, RunLog, RunRecord, RunState, ShutdownReport, Trigger,
};
pub use schedule::Schedule;
pub use state::ScopeSnapshot;
pub use time::{Clock, SystemClock};

//! An embedded job queue: the rules that decide which jobs run, on which worker, when they are
//! retried and when they expire, stated and proved over a model of the job table.

pub mod dispatch;
pub mod job;
pub mod laws;
pub mod registry;
pub mod retry;
pub mod sources;
pub mod store;
pub mod table;

pub use dispatch::{Dispatcher, JobOutcome, Report};
pub use job::{ClaimedJob, JobRow, JobState, JobStatus, NewJob, RunInfo};
pub use registry::{JobDef, JobDefBuilder, JobRegistry, WorkerList};
pub use retry::Retries;
pub use sources::Clock;
pub use store::JobStore;
pub use table::Error;

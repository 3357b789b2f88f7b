//! Interactive resolver for file-synchronizer conflict variants.
//!
//! The library holds the verified core: the data model of conflict groups,
//! the grouping algorithm that turns a list of walked file paths into
//! groups of competing variants, the archive/move planning, and the
//! interactive session state machine.  All filesystem and terminal work
//! stays outside, in the surrounding application, which feeds plain values
//! in and carries the computed operations out.

pub mod model;
pub mod ops;
pub mod paths;
pub mod scan;
pub mod session;
pub mod strutil;

pub use model::Candidate;
pub use model::ConflictGroup;
pub use model::FileStat;
pub use ops::GroupPlan;
pub use ops::MoveOp;
pub use scan::GroupPaths;
pub use session::Action;
pub use session::Args;
pub use session::Event;
pub use session::Mode;
pub use session::PickKind;
pub use session::Session;

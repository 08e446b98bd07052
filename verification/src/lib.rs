//! Watches a directory tree for new replay files and plans their upload.
//!
//! The crate holds the decisions of the pipeline: which paths qualify, which
//! change events announce a file that has not been seen before, when a file
//! has stopped growing, and where it is sent.  Reading the disk, sleeping and
//! talking to the network are left to the caller, who feeds the results in.
//!
//! - [`path`] and [`text`]: paths as sequences of components, and what makes
//!   one a replay file.
//! - [`baseline`]: the set of paths that are no longer news.
//! - [`snapshot`] and [`walk`]: the walk that fills a baseline from what is
//!   on disk, and what a complete walk finds.
//! - [`watch`] and [`dispatch`]: the state of the watch and its filter, and
//!   what holds of every run of events through it.
//! - [`probe`], [`upload`] and [`task`]: the work on one file that has
//!   passed the filter.
//! - [`default_dir`]: the directory watched until another is chosen.

pub mod baseline;
pub mod default_dir;
pub mod dispatch;
pub mod path;
pub mod probe;
pub mod snapshot;
pub mod task;
pub mod text;
pub mod upload;
pub mod walk;
pub mod watch;

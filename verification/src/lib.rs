//! Reading Slurm's queue: what to ask `squeue` for, and what its answer says.
//!
//! - [`job_watcher`] gives the arguments that `squeue` is run with and turns its output into jobs;
//! - [`job`] is what is known of a job;
//! - [`filename`] resolves the patterns that Slurm allows in the names of output files;
//! - [`path`] joins paths;
//! - [`text`] splits, trims and compares text;
//! - [`laws`] states what holds of these together; [`laws_of_text`], [`laws_of_names`] and
//!   [`laws_of_rows`] say of every operation what its result is, in terms of the texts themselves.
pub mod filename;
pub mod job;
pub mod job_watcher;
pub mod laws;
pub mod laws_of_names;
pub mod laws_of_rows;
pub mod laws_of_text;
pub mod path;
pub mod text;

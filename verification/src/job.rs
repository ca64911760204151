//! A job as `squeue` reports it.
use vstd::prelude::*;

verus! {

/// A job in Slurm's queue.
#[derive(Debug, PartialEq, Eq)]
pub struct Job {
    pub job_id: String,
    /// The id of the array that the job belongs to; its own id where it is in none.
    pub array_id: String,
    /// The task id within the array, if the job is in one.
    pub array_step: Option<String>,
    pub name: String,
    pub state: String,
    pub state_compact: String,
    /// Why the job is in its state, where Slurm gives a reason.
    pub reason: Option<String>,
    pub user: String,
    pub time: String,
    pub time_limit: String,
    pub start_time: String,
    pub tres: String,
    pub partition: String,
    pub nodelist: String,
    pub command: String,
    /// The file of the job's output.
    pub stdout: Option<String>,
    /// The file of the job's error output.
    pub stderr: Option<String>,
}

/// What a [`Job`] holds, as text.
pub struct JobView {
    pub job_id: Seq<char>,
    pub array_id: Seq<char>,
    pub array_step: Option<Seq<char>>,
    pub name: Seq<char>,
    pub state: Seq<char>,
    pub state_compact: Seq<char>,
    pub reason: Option<Seq<char>>,
    pub user: Seq<char>,
    pub time: Seq<char>,
    pub time_limit: Seq<char>,
    pub start_time: Seq<char>,
    pub tres: Seq<char>,
    pub partition: Seq<char>,
    pub nodelist: Seq<char>,
    pub command: Seq<char>,
    pub stdout: Option<Seq<char>>,
    pub stderr: Option<Seq<char>>,
}

/// The text of an optional string.
pub open spec fn optional_view(s: Option<String>) -> Option<Seq<char>> {
    match s {
        Some(s) => Some(s@),
        None => None,
    }
}

impl View for Job {
    type V = JobView;

    open spec fn view(&self) -> JobView {
        JobView {
            job_id: self.job_id@,
            array_id: self.array_id@,
            array_step: optional_view(self.array_step),
            name: self.name@,
            state: self.state@,
            state_compact: self.state_compact@,
            reason: optional_view(self.reason),
            user: self.user@,
            time: self.time@,
            time_limit: self.time_limit@,
            start_time: self.start_time@,
            tres: self.tres@,
            partition: self.partition@,
            nodelist: self.nodelist@,
            command: self.command@,
            stdout: optional_view(self.stdout),
            stderr: optional_view(self.stderr),
        }
    }
}

impl DeepView for Job {
    type V = JobView;

    open spec fn deep_view(&self) -> JobView {
        self@
    }
}

} // verus!

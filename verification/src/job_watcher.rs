//! The watcher that polls `squeue` for the jobs in the queue.
use crate::filename::{FilenameContext, FilenameContextView, NO_ARRAY_TASK};
use crate::job::{Job, JobView};
use crate::text;
use std::time::Duration;
use vstd::prelude::*;
use vstd::string::StringExecFns;
use vstd::utf8::{decode_utf8, valid_utf8};

verus! {

/// What `squeue` prints for the reason of a job that waits for nothing.
pub const NO_REASON: &'static str = "None";

/// A watcher that runs `squeue` with `squeue_args` once per `interval`.
pub struct JobWatcher {
    pub interval: Duration,
    pub squeue_args: Vec<String>,
}

/// A handle to a watcher that runs on a thread of its own.
pub struct JobWatcherHandle {}

/// A line of `squeue`'s output, counted from zero, that is not valid UTF-8.
#[derive(Clone, Copy, Debug, PartialEq, Eq)]
pub struct InvalidLine {
    pub line: usize,
}

/// The job that the fields of a line describe, in the order of [`JobWatcher::FIELDS`].
pub open spec fn job_of_fields(fields: Seq<Seq<char>>) -> JobView {
    let context = FilenameContextView {
        array_master: fields[15],
        array_id: fields[16],
        id: fields[0],
        host: fields[17],
        user: fields[3],
        name: fields[1],
        working_dir: fields[18],
    };
    JobView {
        job_id: fields[0],
        array_id: fields[15],
        array_step: if fields[16] == NO_ARRAY_TASK@ {
            None
        } else {
            Some(fields[16])
        },
        name: fields[1],
        state: fields[2],
        state_compact: fields[13],
        reason: if fields[14] == NO_REASON@ {
            None
        } else {
            Some(fields[14])
        },
        user: fields[3],
        time: fields[4],
        time_limit: fields[5],
        start_time: fields[6],
        tres: fields[7],
        partition: fields[8],
        nodelist: fields[9],
        command: fields[12],
        stdout: Some(context.resolved(fields[10])),
        stderr: Some(context.resolved(fields[11])),
    }
}

/// The job on a line of `squeue`'s output: every field is followed by the separator, so a line
/// has one piece more than it has fields. A line with another number of pieces holds no job.
pub open spec fn job_of_line(line: Seq<char>) -> Option<JobView> {
    let parts = text::split_on(line, JobWatcher::OUTPUT_SEPARATOR@);
    if parts.len() == JobWatcher::FIELDS@.len() + 1 {
        Some(job_of_fields(parts))
    } else {
        None
    }
}

/// The jobs on the given lines, in their order; the lines that hold none are left out.
pub open spec fn jobs_of_lines(lines: Seq<Seq<u8>>) -> Seq<JobView>
    decreases lines.len(),
{
    if lines.len() == 0 {
        seq![]
    } else {
        let jobs = jobs_of_lines(lines.drop_last());
        match job_of_line(text::trimmed(decode_utf8(lines.last()))) {
            Some(job) => jobs.push(job),
            None => jobs,
        }
    }
}

/// The part of the output format that asks for one field, followed by the separator.
pub open spec fn column(field: Seq<char>) -> Seq<char> {
    field + seq![':'] + JobWatcher::OUTPUT_SEPARATOR@
}

/// The output format that asks for the first `n` fields: their columns, with commas between them.
pub open spec fn format_of(n: nat) -> Seq<char>
    decreases n,
{
    if n == 0 {
        seq![]
    } else if n == 1 {
        column(JobWatcher::FIELDS@[0]@)
    } else {
        format_of((n - 1) as nat) + seq![','] + column(JobWatcher::FIELDS@[n - 1]@)
    }
}

/// The output format that asks for all the fields.
pub open spec fn full_format() -> Seq<char> {
    format_of(JobWatcher::FIELDS@.len())
}

impl JobWatcher {
    /// What `squeue` prints behind every field.
    pub const OUTPUT_SEPARATOR: &'static str = "###turm###";

    /// The fields that `squeue` is asked for.
    pub const FIELDS: [&'static str; 19] = [
        "jobid",
        "name",
        "state",
        "username",
        "timeused",
        "timelimit",
        "StartTime",
        "tres-alloc",
        "partition",
        "nodelist",
        "stdout",
        "stderr",
        "command",
        "statecompact",
        "reason",
        "ArrayJobID",
        "ArrayTaskID",
        "NodeList",
        "WorkDir",
    ];

    /// A watcher that polls once per `interval`, handing `squeue_args` on to `squeue`.
    pub fn new(interval: Duration, squeue_args: Vec<String>) -> (watcher: Self)
        ensures
            watcher.interval == interval,
            watcher.squeue_args == squeue_args,
    {
        JobWatcher { interval, squeue_args }
    }

    /// Parses a single trimmed line of `squeue --Format` output into a [`Job`].
    /// Returns `None` if the line does not contain exactly the expected number of fields.
    pub fn parse_line(line: &str) -> (res: Option<Job>)
        ensures
            res is Some <==> text::split_on(line@, Self::OUTPUT_SEPARATOR@).len()
                == Self::FIELDS@.len() + 1,
            match res {
                Some(job) => job_of_line(line@) == Some(job@),
                None => job_of_line(line@) is None,
            },
            res is Some ==> ({
                let job = res->0;
                let fields = text::split_on(line@, "###turm###"@);
                let context = FilenameContextView {
                    array_master: fields[15],
                    array_id: fields[16],
                    id: fields[0],
                    host: fields[17],
                    user: fields[3],
                    name: fields[1],
                    working_dir: fields[18],
                };
                &&& job.job_id@ == fields[0]
                &&& job.array_id@ == fields[15]
                &&& job.name@ == fields[1]
                &&& job.state@ == fields[2]
                &&& job.state_compact@ == fields[13]
                &&& job.user@ == fields[3]
                &&& job.time@ == fields[4]
                &&& job.time_limit@ == fields[5]
                &&& job.start_time@ == fields[6]
                &&& job.tres@ == fields[7]
                &&& job.partition@ == fields[8]
                &&& job.nodelist@ == fields[9]
                &&& job.command@ == fields[12]
                &&& fields[16] == "N/A"@ ==> job.array_step is None
                &&& fields[16] != "N/A"@ ==> job.array_step is Some && job.array_step->0@
                    == fields[16]
                &&& fields[14] == "None"@ ==> job.reason is None
                &&& fields[14] != "None"@ ==> job.reason is Some && job.reason->0@ == fields[14]
                &&& job.stdout is Some && job.stdout->0@ == context.resolved(fields[10])
                &&& job.stderr is Some && job.stderr->0@ == context.resolved(fields[11])
            }),
    {
        proof {
            reveal_strlit("###turm###");
        }
        let parts = text::split(line, Self::OUTPUT_SEPARATOR);
        let ghost fields = parts.deep_view();
        if parts.len() != Self::FIELDS.len() + 1 {
            return None;
        }
        assert(forall|i: int| 0 <= i < 20 ==> fields[i] == #[trigger] parts@[i]@);
        let id = &parts[0];
        let name = &parts[1];
        let state = &parts[2];
        let user = &parts[3];
        let time = &parts[4];
        let time_limit = &parts[5];
        let start_time = &parts[6];
        let tres = &parts[7];
        let partition = &parts[8];
        let nodelist = &parts[9];
        let stdout = &parts[10];
        let stderr = &parts[11];
        let command = &parts[12];
        let state_compact = &parts[13];
        let reason = &parts[14];
        let array_job_id = &parts[15];
        let array_task_id = &parts[16];
        let node_list = &parts[17];
        let working_dir = &parts[18];

        let filename_ctx = FilenameContext {
            array_master: array_job_id.as_str(),
            array_id: array_task_id.as_str(),
            id: id.as_str(),
            host: node_list.as_str(),
            user: user.as_str(),
            name: name.as_str(),
            working_dir: working_dir.as_str(),
        };

        Some(
            Job {
                job_id: id.clone(),
                array_id: array_job_id.clone(),
                array_step: if text::same_text(array_task_id.as_str(), NO_ARRAY_TASK) {
                    None
                } else {
                    Some(array_task_id.clone())
                },
                name: name.clone(),
                state: state.clone(),
                state_compact: state_compact.clone(),
                reason: if text::same_text(reason.as_str(), NO_REASON) {
                    None
                } else {
                    Some(reason.clone())
                },
                user: user.clone(),
                time: time.clone(),
                time_limit: time_limit.clone(),
                start_time: start_time.clone(),
                tres: tres.clone(),
                partition: partition.clone(),
                nodelist: nodelist.clone(),
                command: command.clone(),
                stdout: filename_ctx.resolve(stdout.as_str()),
                stderr: filename_ctx.resolve(stderr.as_str()),
            },
        )
    }

    /// Parses the whole output of `squeue`: trims every line, and keeps the jobs in their order.
    /// A line that is not valid UTF-8 is an error; the first such line is reported.
    pub fn parse_output(stdout: &[u8]) -> (res: Result<Vec<Job>, InvalidLine>)
        ensures
            match res {
                Ok(jobs) => {
                    &&& forall|i: int|
                        0 <= i < text::lines(stdout@).len() ==> valid_utf8(
                            #[trigger] text::lines(stdout@)[i],
                        )
                    &&& jobs.deep_view() == jobs_of_lines(text::lines(stdout@))
                },
                Err(e) => {
                    &&& e.line < text::lines(stdout@).len()
                    &&& !valid_utf8(text::lines(stdout@)[e.line as int])
                    &&& forall|i: int|
                        0 <= i < e.line ==> valid_utf8(#[trigger] text::lines(stdout@)[i])
                },
            },
    {
        let lines = text::split_lines(stdout);
        let ghost all = text::lines(stdout@);
        let mut jobs: Vec<Job> = Vec::new();
        let mut i: usize = 0;
        assert(jobs.deep_view() =~= jobs_of_lines(all.take(0)));
        while i < lines.len()
            invariant
                lines.deep_view() == all,
                all == text::lines(stdout@),
                i <= lines.len(),
                forall|j: int| 0 <= j < i ==> valid_utf8(#[trigger] all[j]),
                jobs.deep_view() == jobs_of_lines(all.take(i as int)),
            decreases lines.len() - i,
        {
            assert(lines@[i as int]@ =~= all[i as int]) by {
                assert(lines@[i as int].deep_view() =~= lines@[i as int]@);
            }
            let ghost before = jobs.deep_view();
            proof {
                assert(all.take(i + 1).drop_last() =~= all.take(i as int));
                assert(all.take(i + 1).last() == all[i as int]);
            }
            match std::str::from_utf8(lines[i].as_slice()) {
                Ok(line) => {
                    if let Some(job) = Self::parse_line(line.trim()) {
                        jobs.push(job);
                        assert(jobs.deep_view() =~= before.push(job@));
                    }
                },
                Err(_) => {
                    return Err(InvalidLine { line: i });
                },
            }
            i += 1;
        }
        assert(all.take(i as int) =~= all);
        Ok(jobs)
    }

    /// The output format for `squeue --Format`.
    pub fn output_format() -> (res: String)
        ensures
            res@ == full_format(),
    {
        let mut res = String::new();
        let mut i: usize = 0;
        while i < Self::FIELDS.len()
            invariant
                i <= Self::FIELDS@.len(),
                res@ == format_of(i as nat),
            decreases Self::FIELDS@.len() - i,
        {
            if i > 0 {
                res.push(',');
            }
            res.append(Self::FIELDS[i]);
            res.push(':');
            res.append(Self::OUTPUT_SEPARATOR);
            i += 1;
            assert(res@ =~= format_of(i as nat));
        }
        res
    }

    /// The arguments that `squeue` is run with: those of the watcher, then the ones that give the
    /// output the shape that [`JobWatcher::parse_output`] reads.
    pub fn command_args(&self) -> (res: Vec<String>)
        ensures
            res.deep_view() == self.squeue_args.deep_view() + seq![
                "--array"@,
                "--noheader"@,
                "--Format"@,
                full_format(),
            ],
    {
        let mut res: Vec<String> = Vec::new();
        let mut i: usize = 0;
        while i < self.squeue_args.len()
            invariant
                i <= self.squeue_args.len(),
                res.deep_view() == self.squeue_args.deep_view().take(i as int),
            decreases self.squeue_args.len() - i,
        {
            let ghost before = res.deep_view();
            let arg = self.squeue_args[i].clone();
            res.push(arg);
            assert(res.deep_view() =~= before.push(arg@));
            i += 1;
            assert(res.deep_view() =~= self.squeue_args.deep_view().take(i as int));
        }
        let ghost args = res.deep_view();
        assert(args =~= self.squeue_args.deep_view());
        let array = "--array".to_owned();
        let no_header = "--noheader".to_owned();
        let format = "--Format".to_owned();
        let fields = Self::output_format();
        res.push(array);
        res.push(no_header);
        res.push(format);
        res.push(fields);
        assert(res.deep_view() =~= args.push(array@).push(no_header@).push(format@).push(fields@));
        res
    }
}

impl JobWatcherHandle {
    /// A handle, and the watcher for the caller to run on a thread.
    pub fn new(interval: Duration, squeue_args: Vec<String>) -> (res: (Self, JobWatcher))
        ensures
            res.1.interval == interval,
            res.1.squeue_args == squeue_args,
    {
        (JobWatcherHandle {  }, JobWatcher::new(interval, squeue_args))
    }
}

} // verus!

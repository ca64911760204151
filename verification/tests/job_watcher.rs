use std::time::Duration;
use turm::job_watcher::{InvalidLine, JobWatcher, JobWatcherHandle};

/// Builds a line of squeue's output. Field order must match `JobWatcher::FIELDS`.
fn make_line(fields: &[&str]) -> String {
    assert_eq!(
        fields.len(),
        JobWatcher::FIELDS.len(),
        "make_line: wrong number of fields"
    );
    let sep = JobWatcher::OUTPUT_SEPARATOR;
    fields.iter().map(|f| format!("{f}{sep}")).collect()
}

fn fields_of<'a>(id: &'a str, name: &'a str) -> [&'a str; 19] {
    [
        id,
        name,
        "RUNNING",
        "alice",
        "1:00:00",
        "4:00:00",
        "2024-01-01T00:00:00",
        "cpu=4",
        "gpu",
        "node[01-02]",
        "out-%j.txt",
        "/err/%x_%N",
        "/home/alice/job.sh",
        "R",
        "None",
        id,
        "N/A",
        "node01,node02",
        "/home/alice",
    ]
}

#[test]
fn parse_line_well_formed() {
    let line = make_line(&[
        "12345",               // id
        "my-job",              // name
        "RUNNING",             // state
        "alice",               // user
        "1:00:00",             // time
        "4:00:00",             // time_limit
        "2024-01-01T00:00:00", // start_time
        "cpu=4",               // tres
        "gpu",                 // partition
        "node01",              // nodelist
        "/scratch/12345.out",  // stdout
        "/scratch/12345.err",  // stderr
        "/home/alice/job.sh",  // command
        "R",                   // state_compact
        "None",                // reason
        "12345",               // array_job_id
        "N/A",                 // array_task_id
        "node01",              // node_list
        "/home/alice",         // working_dir
    ]);

    let job = JobWatcher::parse_line(&line).expect("should parse a well-formed line");

    assert_eq!(job.job_id, "12345");
    assert_eq!(job.name, "my-job");
    assert_eq!(job.state, "RUNNING");
    assert_eq!(job.user, "alice");
    assert_eq!(job.state_compact, "R");
    assert_eq!(job.reason, None, "reason 'None' should map to Option::None");
    assert_eq!(job.array_id, "12345");
    assert_eq!(
        job.array_step, None,
        "array_task_id 'N/A' should yield None"
    );
}

#[test]
fn parse_line_non_na_array_task_id() {
    let line = make_line(&[
        "100",
        "array-job",
        "PENDING",
        "bob",
        "0:00",
        "2:00:00",
        "N/A",
        "cpu=1",
        "batch",
        "node02",
        "/out/%A_%a.out",
        "/out/%A_%a.err",
        "/home/bob/run.sh",
        "PD",
        "Priority",
        "100", // array_job_id
        "3",   // array_task_id, not N/A
        "node02",
        "/home/bob",
    ]);

    let job = JobWatcher::parse_line(&line).expect("should parse");
    assert_eq!(
        job.array_step,
        Some("3".to_owned()),
        "numeric array_task_id should be preserved"
    );
    assert_eq!(job.reason, Some("Priority".to_owned()));
    assert_eq!(job.stdout, Some("/out/100_3.out".to_owned()));
    assert_eq!(job.stderr, Some("/out/100_3.err".to_owned()));
}

#[test]
fn parse_line_too_few_fields_returns_none() {
    let sep = JobWatcher::OUTPUT_SEPARATOR;
    let short_line = format!("1{sep}2{sep}3{sep}4{sep}5{sep}");
    assert!(
        JobWatcher::parse_line(&short_line).is_none(),
        "wrong field count should return None"
    );
}

#[test]
fn parse_line_empty_line_returns_none() {
    assert!(JobWatcher::parse_line("").is_none());
}

#[test]
fn parse_line_too_many_fields_returns_none() {
    let line = make_line(&fields_of("1", "a")) + "more" + JobWatcher::OUTPUT_SEPARATOR;
    assert!(JobWatcher::parse_line(&line).is_none());
}

#[test]
fn parse_line_fills_every_field() {
    let job = JobWatcher::parse_line(&make_line(&fields_of("7", "na me"))).unwrap();
    assert_eq!(job.job_id, "7");
    assert_eq!(job.array_id, "7");
    assert_eq!(job.array_step, None);
    assert_eq!(job.name, "na me");
    assert_eq!(job.state, "RUNNING");
    assert_eq!(job.state_compact, "R");
    assert_eq!(job.reason, None);
    assert_eq!(job.user, "alice");
    assert_eq!(job.time, "1:00:00");
    assert_eq!(job.time_limit, "4:00:00");
    assert_eq!(job.start_time, "2024-01-01T00:00:00");
    assert_eq!(job.tres, "cpu=4");
    assert_eq!(job.partition, "gpu");
    assert_eq!(job.nodelist, "node[01-02]");
    assert_eq!(job.command, "/home/alice/job.sh");
    assert_eq!(job.stdout, Some("/home/alice/out-7.txt".to_owned()));
    assert_eq!(job.stderr, Some("/err/na me_node01".to_owned()));
}

#[test]
fn text_behind_the_last_separator_is_ignored() {
    let line = make_line(&fields_of("7", "a"));
    let longer = line.clone() + "rest";
    assert_eq!(
        JobWatcher::parse_line(&line),
        JobWatcher::parse_line(&longer)
    );
}

#[test]
fn fields_with_hash_signs_are_read_back() {
    let job = JobWatcher::parse_line(&make_line(&fields_of("7", "##a#turm###"))).unwrap();
    assert_eq!(job.name, "##a#turm###");
    // A field that ends in the start of the separator is cut at the first place that fits.
    let cut = JobWatcher::parse_line(&make_line(&fields_of("7", "###turm"))).unwrap();
    assert_eq!(cut.name, "");
    assert_eq!(cut.state, "turm###RUNNING");
}

#[test]
fn output_is_read_line_by_line() {
    let first = make_line(&fields_of("1", "a"));
    let second = make_line(&fields_of("2", "\u{e9}t\u{e9}"));
    let output = format!("{first}\r\n\nnonsense\n \u{3000}{second}\t\u{a0} \n");
    let jobs = JobWatcher::parse_output(output.as_bytes()).unwrap();
    assert_eq!(jobs.len(), 2);
    assert_eq!(Some(&jobs[0]), JobWatcher::parse_line(&first).as_ref());
    assert_eq!(Some(&jobs[1]), JobWatcher::parse_line(&second).as_ref());
    assert_eq!(jobs[1].name, "\u{e9}t\u{e9}");
}

#[test]
fn last_line_needs_no_line_feed() {
    let line = make_line(&fields_of("1", "a"));
    let ended = line.clone() + "\n";
    assert_eq!(JobWatcher::parse_output(line.as_bytes()).unwrap().len(), 1);
    assert_eq!(JobWatcher::parse_output(ended.as_bytes()).unwrap().len(), 1);
    assert_eq!(JobWatcher::parse_output(b"").unwrap().len(), 0);
}

#[test]
fn outputs_put_together_give_the_jobs_of_both() {
    let first = make_line(&fields_of("1", "a")) + "\n";
    let second = make_line(&fields_of("2", "b")) + "\n" + &make_line(&fields_of("3", "c"));
    let mut apart = JobWatcher::parse_output(first.as_bytes()).unwrap();
    apart.extend(JobWatcher::parse_output(second.as_bytes()).unwrap());
    let together = JobWatcher::parse_output((first + &second).as_bytes()).unwrap();
    assert_eq!(together, apart);
    assert_eq!(together.len(), 3);
}

#[test]
fn white_space_within_a_line_is_kept() {
    let line = make_line(&fields_of("1", " a "));
    let jobs = JobWatcher::parse_output(format!("\t{line} ").as_bytes()).unwrap();
    assert_eq!(jobs[0].job_id, "1");
    assert_eq!(jobs[0].name, " a ");
}

#[test]
fn white_space_is_that_of_unicode() {
    let sep = JobWatcher::OUTPUT_SEPARATOR;
    for code in 0..=0x10FFFFu32 {
        if let Some(c) = char::from_u32(code) {
            let listed = matches!(code, 0x09..=0x0D | 0x20 | 0x85 | 0xA0 | 0x1680
                | 0x2000..=0x200A | 0x2028 | 0x2029 | 0x202F | 0x205F | 0x3000);
            assert_eq!(format!("{c}{sep}{c}").trim() == sep, listed, "{code:x}");
        }
    }
}

#[test]
fn first_invalid_line_is_reported() {
    let mut output = make_line(&fields_of("1", "a")).into_bytes();
    output.extend_from_slice(b"\nnot \xff text\nnor \xc3\n");
    assert_eq!(
        JobWatcher::parse_output(&output),
        Err(InvalidLine { line: 1 })
    );
    // A line feed never completes a character.
    assert_eq!(
        JobWatcher::parse_output(b"\xc3\n\xa9"),
        Err(InvalidLine { line: 0 })
    );
}

#[test]
fn output_format_names_every_field() {
    let format = JobWatcher::output_format();
    assert!(format.starts_with("jobid:###turm###,name:###turm###,state:###turm###,"));
    assert!(format.ends_with(",NodeList:###turm###,WorkDir:###turm###"));
    let columns: Vec<String> = JobWatcher::FIELDS
        .iter()
        .map(|field| format!("{field}:###turm###"))
        .collect();
    assert_eq!(format, columns.join(","));
    assert_eq!(
        format.split(JobWatcher::OUTPUT_SEPARATOR).count(),
        JobWatcher::FIELDS.len() + 1
    );
}

#[test]
fn command_args_put_the_users_first() {
    let (_handle, watcher) = JobWatcherHandle::new(
        Duration::from_secs(2),
        vec!["--user".to_owned(), "alice".to_owned()],
    );
    assert_eq!(watcher.interval, Duration::from_secs(2));
    assert_eq!(
        watcher.command_args(),
        vec![
            "--user".to_owned(),
            "alice".to_owned(),
            "--array".to_owned(),
            "--noheader".to_owned(),
            "--Format".to_owned(),
            JobWatcher::output_format(),
        ]
    );
    let bare = JobWatcher::new(Duration::from_millis(5), vec![]);
    assert_eq!(bare.interval, Duration::from_millis(5));
    assert_eq!(bare.command_args().len(), 4);
}

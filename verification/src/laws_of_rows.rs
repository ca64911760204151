//! What a line of `squeue`'s output says of a job, field by field, by the names that the fields were
//! asked for.
use crate::filename::FilenameContextView;
use crate::job::{Job, JobView};
use crate::job_watcher::{self, JobWatcher};
use crate::laws::{self, glued, terminated};
use crate::laws_of_names;
use crate::laws_of_text;
use crate::text;
use vstd::prelude::*;
use vstd::utf8::decode_utf8;

verus! {

/// The place at which the field `name` is asked for.
pub open spec fn place(name: Seq<char>) -> int {
    choose|i: int| 0 <= i < JobWatcher::FIELDS@.len() && JobWatcher::FIELDS@[i]@ == name
}

/// The field of `row` that was asked for by `name`.
pub open spec fn field(row: Seq<Seq<char>>, name: Seq<char>) -> Seq<char> {
    row[place(name)]
}

/// The text of a line: the fields, each followed by the separator, and what follows the last one.
pub open spec fn line_of(row: Seq<Seq<char>>, rest: Seq<char>) -> Seq<char> {
    terminated(row, "###turm###"@) + rest
}

/// The separator that follows each field is found at the field's end and not before, and it does
/// not stand in what follows the last one.
pub open spec fn is_told_apart(row: Seq<Seq<char>>, rest: Seq<char>) -> bool {
    &&& forall|k: int, j: int, e: int|
        0 <= k < row.len() && 0 <= j < row[k].len() && e == j + 10 ==> #[trigger] (row[k]
            + "###turm###"@).subrange(j, e) != "###turm###"@
    &&& forall|j: int, e: int|
        0 <= j && e == j + 10 && e <= rest.len() ==> #[trigger] rest.subrange(j, e)
            != "###turm###"@
}

/// The fields that are asked for, in their order, and the separator.
pub proof fn law_requested_fields()
    ensures
        JobWatcher::OUTPUT_SEPARATOR@ == "###turm###"@,
        JobWatcher::FIELDS@.len() == 19,
        JobWatcher::FIELDS@[0]@ == "jobid"@,
        JobWatcher::FIELDS@[1]@ == "name"@,
        JobWatcher::FIELDS@[2]@ == "state"@,
        JobWatcher::FIELDS@[3]@ == "username"@,
        JobWatcher::FIELDS@[4]@ == "timeused"@,
        JobWatcher::FIELDS@[5]@ == "timelimit"@,
        JobWatcher::FIELDS@[6]@ == "StartTime"@,
        JobWatcher::FIELDS@[7]@ == "tres-alloc"@,
        JobWatcher::FIELDS@[8]@ == "partition"@,
        JobWatcher::FIELDS@[9]@ == "nodelist"@,
        JobWatcher::FIELDS@[10]@ == "stdout"@,
        JobWatcher::FIELDS@[11]@ == "stderr"@,
        JobWatcher::FIELDS@[12]@ == "command"@,
        JobWatcher::FIELDS@[13]@ == "statecompact"@,
        JobWatcher::FIELDS@[14]@ == "reason"@,
        JobWatcher::FIELDS@[15]@ == "ArrayJobID"@,
        JobWatcher::FIELDS@[16]@ == "ArrayTaskID"@,
        JobWatcher::FIELDS@[17]@ == "NodeList"@,
        JobWatcher::FIELDS@[18]@ == "WorkDir"@,
{
}

/// No field is asked for twice under one name.
pub proof fn law_requested_fields_differ(i: int, k: int)
    requires
        0 <= i < JobWatcher::FIELDS@.len(),
        0 <= k < JobWatcher::FIELDS@.len(),
        JobWatcher::FIELDS@[i]@ == JobWatcher::FIELDS@[k]@,
    ensures
        i == k,
{
    law_requested_fields();
    reveal_strlit("jobid");
    reveal_strlit("name");
    reveal_strlit("state");
    reveal_strlit("username");
    reveal_strlit("timeused");
    reveal_strlit("timelimit");
    reveal_strlit("StartTime");
    reveal_strlit("tres-alloc");
    reveal_strlit("partition");
    reveal_strlit("nodelist");
    reveal_strlit("stdout");
    reveal_strlit("stderr");
    reveal_strlit("command");
    reveal_strlit("statecompact");
    reveal_strlit("reason");
    reveal_strlit("ArrayJobID");
    reveal_strlit("ArrayTaskID");
    reveal_strlit("NodeList");
    reveal_strlit("WorkDir");
    let a = JobWatcher::FIELDS@[i]@;
    let b = JobWatcher::FIELDS@[k]@;
    assert(a.len() == b.len() && a[0] == b[0] && a[3] == b[3]);
}

/// A name is found at the place where it is asked for.
proof fn lemma_field(row: Seq<Seq<char>>, k: int)
    requires
        0 <= k < JobWatcher::FIELDS@.len(),
    ensures
        field(row, JobWatcher::FIELDS@[k]@) == row[k],
{
    law_requested_fields_differ(place(JobWatcher::FIELDS@[k]@), k);
}

/// The places of all names.
proof fn lemma_fields(row: Seq<Seq<char>>)
    ensures
        field(row, "jobid"@) == row[0],
        field(row, "name"@) == row[1],
        field(row, "state"@) == row[2],
        field(row, "username"@) == row[3],
        field(row, "timeused"@) == row[4],
        field(row, "timelimit"@) == row[5],
        field(row, "StartTime"@) == row[6],
        field(row, "tres-alloc"@) == row[7],
        field(row, "partition"@) == row[8],
        field(row, "nodelist"@) == row[9],
        field(row, "stdout"@) == row[10],
        field(row, "stderr"@) == row[11],
        field(row, "command"@) == row[12],
        field(row, "statecompact"@) == row[13],
        field(row, "reason"@) == row[14],
        field(row, "ArrayJobID"@) == row[15],
        field(row, "ArrayTaskID"@) == row[16],
        field(row, "NodeList"@) == row[17],
        field(row, "WorkDir"@) == row[18],
{
    law_requested_fields();
    lemma_field(row, 0);
    lemma_field(row, 1);
    lemma_field(row, 2);
    lemma_field(row, 3);
    lemma_field(row, 4);
    lemma_field(row, 5);
    lemma_field(row, 6);
    lemma_field(row, 7);
    lemma_field(row, 8);
    lemma_field(row, 9);
    lemma_field(row, 10);
    lemma_field(row, 11);
    lemma_field(row, 12);
    lemma_field(row, 13);
    lemma_field(row, 14);
    lemma_field(row, 15);
    lemma_field(row, 16);
    lemma_field(row, 17);
    lemma_field(row, 18);
}

/// Fields with a separator behind each, and a rest, are the pieces that are put together.
proof fn lemma_terminated_is_glued(row: Seq<Seq<char>>, rest: Seq<char>, sep: Seq<char>)
    ensures
        glued(row.push(rest), sep) == terminated(row, sep) + rest,
    decreases row.len(),
{
    let all = row.push(rest);
    if row.len() == 0 {
        assert(glued(all, sep) =~= terminated(row, sep) + rest);
    } else {
        assert(all.drop_first() =~= row.drop_first().push(rest));
        lemma_terminated_is_glued(row.drop_first(), rest, sep);
        assert(glued(all, sep) =~= terminated(row, sep) + rest);
    }
}

/// A line is split into its fields and the rest.
proof fn lemma_line_is_split(row: Seq<Seq<char>>, rest: Seq<char>)
    requires
        is_told_apart(row, rest),
    ensures
        text::split_on(line_of(row, rest), JobWatcher::OUTPUT_SEPARATOR@) == row.push(rest),
{
    reveal_strlit("###turm###");
    law_requested_fields();
    let sep = "###turm###"@;
    let pieces = row.push(rest);
    lemma_terminated_is_glued(row, rest, sep);
    assert forall|k: int, j: int, e: int|
        0 <= k < pieces.len() - 1 && 0 <= j < pieces[k].len() && e == j + sep.len() implies
        #[trigger] (pieces[k] + sep).subrange(j, e) != sep by {
        assert(pieces[k] == row[k]);
        assert((row[k] + sep).subrange(j, e) != sep);
    }
    assert(pieces.last() == rest);
    assert forall|j: int, e: int|
        0 <= j && e == j + sep.len() && e <= pieces.last().len() implies
        #[trigger] pieces.last().subrange(j, e) != sep by {
        assert(rest.subrange(j, e) != sep);
    }
    laws_of_text::law_pieces_put_together_are_read_back(pieces, sep);
}

/// A line gives a job if and only if it has as many fields as are asked for. Everything in the job
/// is the field of its name, as it stands on the line, whatever follows the last separator: a
/// reason `None` is no reason, an array task id `N/A` is none, and the two files are resolved with
/// the line's own data.
pub proof fn law_line_gives_the_job_of_its_fields(row: Seq<Seq<char>>, rest: Seq<char>)
    requires
        is_told_apart(row, rest),
    ensures
        row.len() != 19 ==> job_watcher::job_of_line(line_of(row, rest)) is None,
        row.len() == 19 ==> ({
            let job = job_watcher::job_of_line(line_of(row, rest));
            let context = FilenameContextView {
                array_master: field(row, "ArrayJobID"@),
                array_id: field(row, "ArrayTaskID"@),
                id: field(row, "jobid"@),
                host: field(row, "NodeList"@),
                user: field(row, "username"@),
                name: field(row, "name"@),
                working_dir: field(row, "WorkDir"@),
            };
            &&& job is Some
            &&& job->0.job_id == field(row, "jobid"@)
            &&& job->0.array_id == field(row, "ArrayJobID"@)
            &&& job->0.name == field(row, "name"@)
            &&& job->0.state == field(row, "state"@)
            &&& job->0.state_compact == field(row, "statecompact"@)
            &&& job->0.user == field(row, "username"@)
            &&& job->0.time == field(row, "timeused"@)
            &&& job->0.time_limit == field(row, "timelimit"@)
            &&& job->0.start_time == field(row, "StartTime"@)
            &&& job->0.tres == field(row, "tres-alloc"@)
            &&& job->0.partition == field(row, "partition"@)
            &&& job->0.nodelist == field(row, "nodelist"@)
            &&& job->0.command == field(row, "command"@)
            &&& field(row, "ArrayTaskID"@) == "N/A"@ ==> job->0.array_step is None
            &&& field(row, "ArrayTaskID"@) != "N/A"@ ==> job->0.array_step == Some(
                field(row, "ArrayTaskID"@),
            )
            &&& field(row, "reason"@) == "None"@ ==> job->0.reason is None
            &&& field(row, "reason"@) != "None"@ ==> job->0.reason == Some(field(row, "reason"@))
            &&& job->0.stdout == Some(context.resolved(field(row, "stdout"@)))
            &&& job->0.stderr == Some(context.resolved(field(row, "stderr"@)))
        }),
{
    lemma_line_is_split(row, rest);
    law_requested_fields();
    lemma_fields(row);
}

/// An absolute path with one specifier is resolved to the path with the data in its place.
proof fn lemma_one_specifier(
    context: FilenameContextView,
    before: Seq<char>,
    letter: char,
    value: Seq<char>,
    after: Seq<char>,
)
    requires
        before.len() > 0,
        before[0] == '/',
        !before.contains('%'),
        !after.contains('%'),
        context.substituted(seq!['%', letter] + after) == value + context.substituted(after),
    ensures
        context.resolved(before + seq!['%', letter] + after) == before + value + after,
{
    let none = Seq::<char>::empty();
    let path = before + seq!['%', letter] + after;
    laws_of_names::law_plain_text_is_kept(context, after, none);
    laws_of_names::law_plain_text_is_kept(context, before, seq!['%', letter] + after);
    assert(path =~= before + (seq!['%', letter] + after));
    assert(before + value + after =~= before + (value + after));
    laws_of_names::law_path_is_resolved_from_the_working_directory(context, path);
}

/// An output file that is given as an absolute path with one specifier is that path with the
/// line's own field in the specifier's place.
pub proof fn law_output_files_hold_the_fields_of_the_line(
    row: Seq<Seq<char>>,
    rest: Seq<char>,
    before: Seq<char>,
    letter: char,
    after: Seq<char>,
    first: Seq<char>,
    others: Seq<char>,
)
    requires
        is_told_apart(row, rest),
        row.len() == 19,
        before.len() > 0,
        before[0] == '/',
        !before.contains('%'),
        !after.contains('%'),
        !first.contains(','),
        field(row, "NodeList"@) == first || field(row, "NodeList"@) == first + seq![','] + others,
    ensures
        ({
            let job = job_watcher::job_of_line(line_of(row, rest))->0;
            let path = before + seq!['%', letter] + after;
            &&& field(row, "stdout"@) == path ==> {
                &&& letter == '%' ==> job.stdout == Some(before + seq!['%'] + after)
                &&& letter == 'A' ==> job.stdout == Some(
                    before + field(row, "ArrayJobID"@) + after,
                )
                &&& letter == 'a' && field(row, "ArrayTaskID"@) != "N/A"@ ==> job.stdout == Some(
                    before + field(row, "ArrayTaskID"@) + after,
                )
                &&& letter == 'a' && field(row, "ArrayTaskID"@) == "N/A"@ ==> job.stdout == Some(
                    before + "4294967294"@ + after,
                )
                &&& letter == 'J' || letter == 'j' ==> job.stdout == Some(
                    before + field(row, "jobid"@) + after,
                )
                &&& letter == 'N' ==> job.stdout == Some(before + first + after)
                &&& letter == 'n' || letter == 't' ==> job.stdout == Some(
                    before + "0"@ + after,
                )
                &&& letter == 's' ==> job.stdout == Some(before + "batch"@ + after)
                &&& letter == 'u' ==> job.stdout == Some(
                    before + field(row, "username"@) + after,
                )
                &&& letter == 'x' ==> job.stdout == Some(before + field(row, "name"@) + after)
            }
            &&& field(row, "stderr"@) == path ==> {
                &&& letter == '%' ==> job.stderr == Some(before + seq!['%'] + after)
                &&& letter == 'A' ==> job.stderr == Some(
                    before + field(row, "ArrayJobID"@) + after,
                )
                &&& letter == 'a' && field(row, "ArrayTaskID"@) != "N/A"@ ==> job.stderr == Some(
                    before + field(row, "ArrayTaskID"@) + after,
                )
                &&& letter == 'a' && field(row, "ArrayTaskID"@) == "N/A"@ ==> job.stderr == Some(
                    before + "4294967294"@ + after,
                )
                &&& letter == 'J' || letter == 'j' ==> job.stderr == Some(
                    before + field(row, "jobid"@) + after,
                )
                &&& letter == 'N' ==> job.stderr == Some(before + first + after)
                &&& letter == 'n' || letter == 't' ==> job.stderr == Some(
                    before + "0"@ + after,
                )
                &&& letter == 's' ==> job.stderr == Some(before + "batch"@ + after)
                &&& letter == 'u' ==> job.stderr == Some(
                    before + field(row, "username"@) + after,
                )
                &&& letter == 'x' ==> job.stderr == Some(before + field(row, "name"@) + after)
            }
        }),
{
    law_line_gives_the_job_of_its_fields(row, rest);
    let context = FilenameContextView {
        array_master: field(row, "ArrayJobID"@),
        array_id: field(row, "ArrayTaskID"@),
        id: field(row, "jobid"@),
        host: field(row, "NodeList"@),
        user: field(row, "username"@),
        name: field(row, "name"@),
        working_dir: field(row, "WorkDir"@),
    };
    laws_of_names::law_specifiers_are_replaced_by_the_data(context, after);
    laws_of_names::law_node_specifier_is_replaced_by_the_first_node(
        context,
        first,
        others,
        after,
    );
    if letter == '%' {
        lemma_one_specifier(context, before, letter, seq!['%'], after);
    } else if letter == 'A' {
        lemma_one_specifier(context, before, letter, context.array_master, after);
    } else if letter == 'a' {
        if context.array_id == "N/A"@ {
            lemma_one_specifier(context, before, letter, "4294967294"@, after);
        } else {
            lemma_one_specifier(context, before, letter, context.array_id, after);
        }
    } else if letter == 'J' || letter == 'j' {
        lemma_one_specifier(context, before, letter, context.id, after);
    } else if letter == 'N' {
        lemma_one_specifier(context, before, letter, first, after);
    } else if letter == 'n' || letter == 't' {
        lemma_one_specifier(context, before, letter, "0"@, after);
    } else if letter == 's' {
        lemma_one_specifier(context, before, letter, "batch"@, after);
    } else if letter == 'u' {
        lemma_one_specifier(context, before, letter, context.user, after);
    } else if letter == 'x' {
        lemma_one_specifier(context, before, letter, context.name, after);
    }
}

/// An output file that is given as a relative path without a percent sign lies in the line's working
/// directory, whatever the path starts with.
pub proof fn law_relative_output_files_lie_in_the_working_directory(
    row: Seq<Seq<char>>,
    rest: Seq<char>,
    path: Seq<char>,
)
    requires
        is_told_apart(row, rest),
        row.len() == 19,
        path.len() > 0,
        path[0] != '/',
        !path.contains('%'),
    ensures
        ({
            let job = job_watcher::job_of_line(line_of(row, rest))->0;
            let dir = field(row, "WorkDir"@);
            &&& field(row, "stdout"@) == path && (dir.len() == 0 || dir.last() == '/')
                ==> job.stdout == Some(dir + path)
            &&& field(row, "stdout"@) == path && dir.len() > 0 && dir.last() != '/'
                ==> job.stdout == Some(dir + seq!['/'] + path)
            &&& field(row, "stderr"@) == path && (dir.len() == 0 || dir.last() == '/')
                ==> job.stderr == Some(dir + path)
            &&& field(row, "stderr"@) == path && dir.len() > 0 && dir.last() != '/'
                ==> job.stderr == Some(dir + seq!['/'] + path)
        }),
{
    law_line_gives_the_job_of_its_fields(row, rest);
    let context = FilenameContextView {
        array_master: field(row, "ArrayJobID"@),
        array_id: field(row, "ArrayTaskID"@),
        id: field(row, "jobid"@),
        host: field(row, "NodeList"@),
        user: field(row, "username"@),
        name: field(row, "name"@),
        working_dir: field(row, "WorkDir"@),
    };
    laws_of_names::law_plain_text_is_kept(context, path, seq![]);
    laws_of_names::law_path_is_resolved_from_the_working_directory(context, path);
}

/// No lines hold no jobs, and a line holds the job of its decoded and trimmed text, or none.
pub proof fn law_jobs_of_a_line(line: Seq<u8>)
    ensures
        job_watcher::jobs_of_lines(seq![]) == Seq::<JobView>::empty(),
        job_watcher::jobs_of_lines(seq![line]) == match job_watcher::job_of_line(
            text::trimmed(decode_utf8(line)),
        ) {
            Some(job) => seq![job],
            None => seq![],
        },
{
    let none = Seq::<Seq<u8>>::empty();
    assert(seq![line].drop_last() =~= none);
    assert(job_watcher::jobs_of_lines(none) =~= seq![]);
    assert(seq![line].last() == line);
}

/// The jobs of some lines and further ones are those of the first lines and then those of the
/// further ones: every line counts, and their order is kept.
pub proof fn law_jobs_keep_the_order_of_the_lines(a: Seq<Seq<u8>>, b: Seq<Seq<u8>>)
    ensures
        job_watcher::jobs_of_lines(a + b) == job_watcher::jobs_of_lines(a)
            + job_watcher::jobs_of_lines(b),
{
    laws::lemma_jobs_of_more_lines(a, b);
}

/// The output format is the list of the requested fields, each with a colon and the separator
/// behind its name, with commas between them.
pub proof fn law_output_format()
    ensures
        job_watcher::full_format() == glued(
            Seq::new(19, |i: int| JobWatcher::FIELDS@[i]@ + ":"@ + "###turm###"@),
            ","@,
        ),
{
    reveal_strlit(":");
    reveal_strlit(",");
    assert(":"@ =~= seq![':']);
    assert(","@ =~= seq![',']);
    lemma_format_of(19);
}

/// The columns of the first `n` fields.
spec fn columns(n: nat) -> Seq<Seq<char>> {
    Seq::new(n, |i: int| JobWatcher::FIELDS@[i]@ + ":"@ + "###turm###"@)
}

/// A further piece comes behind the others, with a separator before it.
proof fn lemma_glued_push(pieces: Seq<Seq<char>>, piece: Seq<char>, sep: Seq<char>)
    requires
        pieces.len() > 0,
    ensures
        glued(pieces.push(piece), sep) == glued(pieces, sep) + sep + piece,
    decreases pieces.len(),
{
    let all = pieces.push(piece);
    if pieces.len() == 1 {
        assert(all.drop_first() =~= seq![piece]);
        assert(glued(all.drop_first(), sep) == piece);
        assert(glued(all, sep) =~= glued(pieces, sep) + sep + piece);
    } else {
        assert(all.drop_first() =~= pieces.drop_first().push(piece));
        lemma_glued_push(pieces.drop_first(), piece, sep);
        assert(glued(all, sep) =~= glued(pieces, sep) + sep + piece);
    }
}

/// The format of the first `n` fields is made of their columns.
proof fn lemma_format_of(n: nat)
    requires
        ":"@ == seq![':'],
        ","@ == seq![','],
    ensures
        job_watcher::format_of(n) == glued(columns(n), ","@),
    decreases n,
{
    if n > 0 {
        let m = (n - 1) as nat;
        lemma_format_of(m);
        assert(columns(n) =~= columns(m).push(columns(n).last()));
        if n > 1 {
            lemma_glued_push(columns(m), columns(n).last(), ","@);
        }
    }
}

/// The view of a job is made of the texts in it.
pub proof fn law_job_is_what_it_holds(job: Job)
    ensures
        job.deep_view() == job@,
        job@.job_id == job.job_id@,
        job@.array_id == job.array_id@,
        job.array_step is Some ==> job@.array_step == Some(job.array_step->0@),
        job.array_step is None ==> job@.array_step is None,
        job@.name == job.name@,
        job@.state == job.state@,
        job@.state_compact == job.state_compact@,
        job.reason is Some ==> job@.reason == Some(job.reason->0@),
        job.reason is None ==> job@.reason is None,
        job@.user == job.user@,
        job@.time == job.time@,
        job@.time_limit == job.time_limit@,
        job@.start_time == job.start_time@,
        job@.tres == job.tres@,
        job@.partition == job.partition@,
        job@.nodelist == job.nodelist@,
        job@.command == job.command@,
        job.stdout is Some ==> job@.stdout == Some(job.stdout->0@),
        job.stdout is None ==> job@.stdout is None,
        job.stderr is Some ==> job@.stderr == Some(job.stderr->0@),
        job.stderr is None ==> job@.stderr is None,
{
}

} // verus!

//! What a filename pattern is resolved to, said of the pattern and of the job's own data.
use crate::filename::{FilenameContext, FilenameContextView};
use crate::laws;
use crate::path;
use vstd::prelude::*;

verus! {

/// A path that starts with a slash is kept; any other is put behind the directory, with a slash
/// between the two if the directory is not empty and does not end in one.
pub proof fn law_join_goes_by_the_first_character(base: Seq<char>, path: Seq<char>)
    ensures
        path.len() > 0 && path[0] == '/' ==> path::joined(base, path) == path,
        (path.len() == 0 || path[0] != '/') && (base.len() == 0 || base.last() == '/')
            ==> path::joined(base, path) == base + path,
        (path.len() == 0 || path[0] != '/') && base.len() > 0 && base.last() != '/'
            ==> path::joined(base, path) == base + seq!['/'] + path,
        path::is_absolute(path) <==> path.len() > 0 && path[0] == '/',
{
    assert(base.push('/') + path =~= base + seq!['/'] + path);
}

/// The view of a context is made of the texts that it was given.
pub proof fn law_context_is_what_it_was_given(context: FilenameContext<'_>)
    ensures
        context@.array_master == context.array_master@,
        context@.array_id == context.array_id@,
        context@.id == context.id@,
        context@.host == context.host@,
        context@.user == context.user@,
        context@.name == context.name@,
        context@.working_dir == context.working_dir@,
{
}

/// What each letter stands for, whatever the job's data hold: the data are taken as they are, but
/// for an array task id that is `N/A`, which stands for the largest number but one of four bytes.
pub proof fn law_values_are_the_data_of_the_job(context: FilenameContextView)
    ensures
        context.value('%') == seq!['%'],
        context.value('A') == context.array_master,
        context.array_id != "N/A"@ ==> context.value('a') == context.array_id,
        context.array_id == "N/A"@ ==> context.value('a') == "4294967294"@,
        context.value('J') == context.id,
        context.value('j') == context.id,
        context.value('n') == "0"@,
        context.value('s') == "batch"@,
        context.value('t') == "0"@,
        context.value('u') == context.user,
        context.value('x') == context.name,
{
    reveal_strlit("0");
    assert("0"@ =~= seq!['0']);
}

/// The empty text holds nothing to replace.
pub proof fn law_nothing_is_replaced_in_the_empty_text(context: FilenameContextView)
    ensures
        context.substituted(seq![]) == Seq::<char>::empty(),
{
}

/// A character other than the percent sign is kept, and the text behind it is treated as if it
/// stood alone.
pub proof fn law_other_characters_are_kept(context: FilenameContextView, c: char, rest: Seq<char>)
    requires
        c != '%',
    ensures
        context.substituted(seq![c] + rest) == seq![c] + context.substituted(rest),
{
    assert((seq![c] + rest).skip(1) =~= rest);
}

/// A percent sign is kept where it stands at the end or before a letter that makes no specifier;
/// the text behind it is treated as if it stood alone.
pub proof fn law_other_percent_signs_are_kept(
    context: FilenameContextView,
    c: char,
    rest: Seq<char>,
)
    requires
        c != '%',
        c != 'A',
        c != 'a',
        c != 'J',
        c != 'j',
        c != 'N',
        c != 'n',
        c != 's',
        c != 't',
        c != 'u',
        c != 'x',
    ensures
        context.substituted(seq!['%', c] + rest) == seq!['%', c] + context.substituted(rest),
        context.substituted(seq!['%']) == seq!['%'],
{
    assert((seq!['%', c] + rest).skip(1) =~= seq![c] + rest);
    law_other_characters_are_kept(context, c, rest);
    assert(context.substituted(seq!['%', c] + rest) =~= seq!['%', c] + context.substituted(rest));
    assert(seq!['%'].skip(1) =~= seq![]);
    law_nothing_is_replaced_in_the_empty_text(context);
    assert(context.substituted(seq!['%']) =~= seq!['%']);
}

/// Each specifier is replaced by the job's data, and the text behind it is treated as if it stood
/// alone.
pub proof fn law_specifiers_are_replaced_by_the_data(
    context: FilenameContextView,
    rest: Seq<char>,
)
    ensures
        context.substituted(seq!['%', '%'] + rest) == seq!['%'] + context.substituted(rest),
        context.substituted(seq!['%', 'A'] + rest) == context.array_master + context.substituted(
            rest,
        ),
        context.array_id != "N/A"@ ==> context.substituted(seq!['%', 'a'] + rest)
            == context.array_id + context.substituted(rest),
        context.array_id == "N/A"@ ==> context.substituted(seq!['%', 'a'] + rest)
            == "4294967294"@ + context.substituted(rest),
        context.substituted(seq!['%', 'J'] + rest) == context.id + context.substituted(rest),
        context.substituted(seq!['%', 'j'] + rest) == context.id + context.substituted(rest),
        context.substituted(seq!['%', 'n'] + rest) == "0"@ + context.substituted(rest),
        context.substituted(seq!['%', 's'] + rest) == "batch"@ + context.substituted(rest),
        context.substituted(seq!['%', 't'] + rest) == "0"@ + context.substituted(rest),
        context.substituted(seq!['%', 'u'] + rest) == context.user + context.substituted(rest),
        context.substituted(seq!['%', 'x'] + rest) == context.name + context.substituted(rest),
{
    law_values_are_the_data_of_the_job(context);
    assert((seq!['%', '%'] + rest).skip(2) =~= rest);
    assert((seq!['%', 'A'] + rest).skip(2) =~= rest);
    assert((seq!['%', 'a'] + rest).skip(2) =~= rest);
    assert((seq!['%', 'J'] + rest).skip(2) =~= rest);
    assert((seq!['%', 'j'] + rest).skip(2) =~= rest);
    assert((seq!['%', 'n'] + rest).skip(2) =~= rest);
    assert((seq!['%', 's'] + rest).skip(2) =~= rest);
    assert((seq!['%', 't'] + rest).skip(2) =~= rest);
    assert((seq!['%', 'u'] + rest).skip(2) =~= rest);
    assert((seq!['%', 'x'] + rest).skip(2) =~= rest);
}

/// `%N` is replaced by the part of the host list before its first comma, or by all of it where it
/// has none.
pub proof fn law_node_specifier_is_replaced_by_the_first_node(
    context: FilenameContextView,
    first: Seq<char>,
    others: Seq<char>,
    rest: Seq<char>,
)
    requires
        !first.contains(','),
        context.host == first || context.host == first + seq![','] + others,
    ensures
        context.substituted(seq!['%', 'N'] + rest) == first + context.substituted(rest),
{
    laws::law_first_node_is_used(context, first, others);
    assert((seq!['%', 'N'] + rest).skip(2) =~= rest);
}

/// A text without a percent sign is kept, also in front of any other text.
pub proof fn law_plain_text_is_kept(context: FilenameContextView, plain: Seq<char>, rest: Seq<char>)
    requires
        !plain.contains('%'),
    ensures
        context.substituted(plain) == plain,
        context.substituted(plain + rest) == plain + context.substituted(rest),
    decreases plain.len(),
{
    if plain.len() == 0 {
        assert(plain + rest =~= rest);
        assert(plain + context.substituted(rest) =~= context.substituted(rest));
    } else {
        let tail = plain.skip(1);
        assert(plain.contains(plain[0]));
        assert(!tail.contains('%')) by {
            if tail.contains('%') {
                let i = choose|i: int| 0 <= i < tail.len() && tail[i] == '%';
                assert(plain[i + 1] == '%');
            }
        }
        law_plain_text_is_kept(context, tail, rest);
        law_other_characters_are_kept(context, plain[0], tail);
        law_other_characters_are_kept(context, plain[0], tail + rest);
        assert(plain =~= seq![plain[0]] + tail);
        assert(plain + rest =~= seq![plain[0]] + (tail + rest));
        assert(plain + context.substituted(rest) =~= seq![plain[0]] + (tail + context.substituted(
            rest,
        )));
    }
}

/// A path that is not empty is resolved by replacing its specifiers; what this gives is kept if it
/// starts with a slash, and is put in the working directory if not.
pub proof fn law_path_is_resolved_from_the_working_directory(
    context: FilenameContextView,
    path: Seq<char>,
)
    requires
        path.len() > 0,
    ensures
        ({
            let dir = context.working_dir;
            let file = context.substituted(path);
            &&& file.len() > 0 && file[0] == '/' ==> context.resolved(path) == file
            &&& (file.len() == 0 || file[0] != '/') && (dir.len() == 0 || dir.last() == '/')
                ==> context.resolved(path) == dir + file
            &&& (file.len() == 0 || file[0] != '/') && dir.len() > 0 && dir.last() != '/'
                ==> context.resolved(path) == dir + seq!['/'] + file
        }),
{
    law_join_goes_by_the_first_character(context.working_dir, context.substituted(path));
}

/// The empty path is resolved like the path of Slurm's default file in the working directory, whose
/// name is made of the job's id, or of the array's id and the task's for a task of an array.
pub proof fn law_empty_path_is_resolved_like_the_default_one(context: FilenameContextView)
    ensures
        ({
            let dir = context.working_dir;
            let head = if dir.len() == 0 || dir.last() == '/' {
                dir
            } else {
                dir + seq!['/']
            };
            let alone = context.array_id == "N/A"@ || context.array_id == "4294967294"@;
            &&& alone ==> context.resolved(seq![]) == context.resolved(head + "slurm-%J.out"@)
            &&& !alone ==> context.resolved(seq![]) == context.resolved(
                head + "slurm-%A_%a.out"@,
            )
        }),
{
    reveal_strlit("slurm-%J.out");
    reveal_strlit("slurm-%A_%a.out");
    law_join_goes_by_the_first_character(context.working_dir, "slurm-%J.out"@);
    law_join_goes_by_the_first_character(context.working_dir, "slurm-%A_%a.out"@);
}

/// The default file of a job in a working directory that starts with a slash and holds no percent
/// sign: `slurm-<id>.out`, or `slurm-<array id>_<task id>.out` for a task of an array.
pub proof fn law_default_file(context: FilenameContextView)
    requires
        context.working_dir.len() > 0,
        context.working_dir[0] == '/',
        !context.working_dir.contains('%'),
    ensures
        ({
            let dir = context.working_dir;
            let head = if dir.last() == '/' {
                dir
            } else {
                dir + seq!['/']
            };
            let alone = context.array_id == "N/A"@ || context.array_id == "4294967294"@;
            &&& alone ==> context.resolved(seq![]) == head + "slurm-"@ + context.id + ".out"@
            &&& !alone ==> context.resolved(seq![]) == head + "slurm-"@ + context.array_master
                + "_"@ + context.array_id + ".out"@
        }),
{
    let dir = context.working_dir;
    let none = Seq::<char>::empty();
    law_plain_text_is_kept(context, dir, none);
    laws::law_empty_path_falls_back_to_the_working_directory(context);
    let alone = context.array_id == "N/A"@ || context.array_id == "4294967294"@;
    let name = if alone {
        "slurm-"@ + context.id + ".out"@
    } else {
        "slurm-"@ + context.array_master + "_"@ + context.array_id + ".out"@
    };
    law_values_are_the_data_of_the_job(context);
    reveal_strlit("slurm-");
    law_join_goes_by_the_first_character(dir, name);
    let head = if dir.last() == '/' {
        dir
    } else {
        dir + seq!['/']
    };
    assert(context.resolved(none) == head + name);
    if alone {
        assert(head + name =~= head + "slurm-"@ + context.id + ".out"@);
    } else {
        assert(head + name =~= head + "slurm-"@ + context.array_master + "_"@ + context.array_id
            + ".out"@);
    }
}

} // verus!

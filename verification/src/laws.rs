//! What holds of the library as a whole.
use crate::filename::{self, FilenameContextView};
use crate::job_watcher::{self, JobWatcher};
use crate::{path, text};
use vstd::prelude::*;
use vstd::utf8::{
    char_is_scalar, char_u32_cast, encode_scalar, encode_utf8, encode_utf8_decode_utf8,
    encode_utf8_valid_utf8, is_scalar, valid_utf8,
};

verus! {

/// The pieces with `sep` between every two of them.
pub open spec fn glued<T>(pieces: Seq<Seq<T>>, sep: Seq<T>) -> Seq<T>
    decreases pieces.len(),
{
    if pieces.len() == 0 {
        seq![]
    } else if pieces.len() == 1 {
        pieces[0]
    } else {
        pieces[0] + sep + glued(pieces.drop_first(), sep)
    }
}

/// The fields, each followed by `sep`.
pub open spec fn terminated<T>(fields: Seq<Seq<T>>, sep: Seq<T>) -> Seq<T>
    decreases fields.len(),
{
    if fields.len() == 0 {
        seq![]
    } else {
        fields[0] + sep + terminated(fields.drop_first(), sep)
    }
}

/// Where `sep` follows the field, no occurrence of `sep` starts inside the field.
pub open spec fn ends_at<T>(field: Seq<T>, sep: Seq<T>) -> bool {
    forall|j: int| 0 <= j < field.len() ==> !text::occurs_at(field + sep, sep, j)
}

/// Splitting loses nothing: the pieces with the separators between them are the text.
pub proof fn law_split_is_undone_by_gluing<T>(text: Seq<T>, sep: Seq<T>)
    ensures
        glued(text::split_on(text, sep), sep) == text,
    decreases text.len(),
{
    if sep.len() > 0 && exists|i: int| text::first_at(text, sep, i) {
        let i = choose|i: int| text::first_at(text, sep, i);
        let rest = text.skip(i + sep.len());
        law_split_is_undone_by_gluing(rest, sep);
        text::lemma_split_not_empty(rest, sep);
        let pieces = text::split_on(text, sep);
        assert(pieces.drop_first() =~= text::split_on(rest, sep));
        assert(text =~= text.take(i) + text.subrange(i, i + sep.len()) + rest);
    }
}

/// Where a separator occurs at all, it has a first occurrence.
pub proof fn lemma_first_exists<T>(text: Seq<T>, sep: Seq<T>, i: int)
    requires
        text::occurs_at(text, sep, i),
    ensures
        exists|k: int| text::first_at(text, sep, k),
    decreases i,
{
    if exists|j: int| 0 <= j < i && text::occurs_at(text, sep, j) {
        let j = choose|j: int| 0 <= j < i && text::occurs_at(text, sep, j);
        lemma_first_exists(text, sep, j);
    } else {
        assert(text::first_at(text, sep, i));
    }
}

/// No piece holds the separator.
pub proof fn law_pieces_hold_no_separator<T>(text: Seq<T>, sep: Seq<T>, k: int, j: int)
    requires
        sep.len() > 0,
        0 <= k < text::split_on(text, sep).len(),
    ensures
        !text::occurs_at(text::split_on(text, sep)[k], sep, j),
    decreases text.len(),
{
    if exists|i: int| text::first_at(text, sep, i) {
        let i = choose|i: int| text::first_at(text, sep, i);
        let rest = text.skip(i + sep.len());
        if k == 0 {
            if text::occurs_at(text.take(i), sep, j) {
                assert(text.take(i).subrange(j, j + sep.len()) =~= text.subrange(
                    j,
                    j + sep.len(),
                ));
                assert(text::occurs_at(text, sep, j));
            }
        } else {
            law_pieces_hold_no_separator(rest, sep, k - 1, j);
        }
    } else if text::occurs_at(text, sep, j) {
        lemma_first_exists(text, sep, j);
    }
}

/// The empty text is its own only piece.
pub proof fn lemma_split_empty<T>(sep: Seq<T>)
    ensures
        text::split_on(Seq::<T>::empty(), sep) == seq![Seq::<T>::empty()],
{
}

/// Fields that are written with a separator behind each are read back one by one, in their order;
/// behind the last separator there is an empty piece.
pub proof fn law_terminated_fields_are_read_back<T>(fields: Seq<Seq<T>>, sep: Seq<T>)
    requires
        sep.len() > 0,
        forall|i: int| 0 <= i < fields.len() ==> ends_at(#[trigger] fields[i], sep),
    ensures
        text::split_on(terminated(fields, sep), sep) == fields.push(seq![]),
    decreases fields.len(),
{
    let all = terminated(fields, sep);
    if fields.len() == 0 {
        lemma_split_empty(sep);
        assert(fields.push(seq![]) =~= seq![seq![]]);
    } else {
        let field = fields[0];
        let others = terminated(fields.drop_first(), sep);
        let at = field.len() as int;
        assert(all.subrange(at, at + sep.len()) =~= sep);
        assert forall|j: int| 0 <= j < at implies !text::occurs_at(all, sep, j) by {
            assert(ends_at(fields[0], sep));
            if text::occurs_at(all, sep, j) {
                assert((field + sep).subrange(j, j + sep.len()) =~= all.subrange(
                    j,
                    j + sep.len(),
                ));
                assert(text::occurs_at(field + sep, sep, j));
            }
        }
        text::lemma_split_at(all, sep, at);
        assert(all.take(at) =~= field);
        assert(all.skip(at + sep.len()) =~= others);
        law_terminated_fields_are_read_back(fields.drop_first(), sep);
        assert(fields.push(seq![]) =~= seq![field] + fields.drop_first().push(seq![]));
    }
}

/// The first specifier of a text is replaced by what it stands for, the text before it stays as it
/// is, and the text behind it is treated the same way.
pub proof fn law_first_specifier_is_replaced(
    context: FilenameContextView,
    text: Seq<char>,
    i: int,
)
    requires
        0 <= i < text.len(),
        filename::starts_with_specifier(text.skip(i)),
        forall|j: int| 0 <= j < i ==> !filename::starts_with_specifier(#[trigger] text.skip(j)),
    ensures
        context.substituted(text) == text.take(i) + context.value(text[i + 1])
            + context.substituted(text.skip(i + 2)),
    decreases i,
{
    assert(text.skip(0) =~= text);
    if i == 0 {
        assert(text.take(0) =~= seq![]);
        assert(context.substituted(text) =~= text.take(0) + context.value(text[1])
            + context.substituted(text.skip(2)));
    } else {
        let rest = text.skip(1);
        assert(!filename::starts_with_specifier(text.skip(0)));
        assert(rest.skip(i - 1) =~= text.skip(i));
        assert(rest.skip(i + 1) =~= text.skip(i + 2));
        assert forall|j: int| 0 <= j < i - 1 implies !filename::starts_with_specifier(
            #[trigger] rest.skip(j),
        ) by {
            assert(rest.skip(j) =~= text.skip(j + 1));
        }
        law_first_specifier_is_replaced(context, rest, i - 1);
        assert(text.take(i) =~= seq![text[0]] + rest.take(i - 1));
        assert(context.substituted(text) =~= text.take(i) + context.value(text[i + 1])
            + context.substituted(text.skip(i + 2)));
    }
}

/// A text stays as it is where no specifier stands in it. A percent sign before any other
/// character, or at the end, is no specifier.
pub proof fn law_text_without_specifier_is_kept(context: FilenameContextView, text: Seq<char>)
    requires
        forall|j: int|
            0 <= j < text.len() ==> !filename::starts_with_specifier(#[trigger] text.skip(j)),
    ensures
        context.substituted(text) == text,
    decreases text.len(),
{
    if text.len() > 0 {
        let rest = text.skip(1);
        assert(text.skip(0) =~= text);
        assert(!filename::starts_with_specifier(text.skip(0)));
        assert forall|j: int| 0 <= j < rest.len() implies !filename::starts_with_specifier(
            #[trigger] rest.skip(j),
        ) by {
            assert(rest.skip(j) =~= text.skip(j + 1));
        }
        law_text_without_specifier_is_kept(context, rest);
        assert(text =~= seq![text[0]] + rest);
    }
}

/// An absolute path is preserved: it is resolved by replacing its specifiers, wherever the working
/// directory is.
pub proof fn law_absolute_path_is_preserved(context: FilenameContextView, path: Seq<char>)
    requires
        path::is_absolute(path),
    ensures
        context.resolved(path) == context.substituted(path),
        path::is_absolute(context.resolved(path)),
{
}

/// A path that is relative once its specifiers are replaced is resolved inside the working
/// directory.
pub proof fn law_relative_path_is_in_the_working_directory(
    context: FilenameContextView,
    path: Seq<char>,
)
    requires
        path.len() > 0,
        !path::is_absolute(context.substituted(path)),
    ensures
        ({
            let dir = context.working_dir;
            let file = context.substituted(path);
            if dir.len() == 0 || dir.last() == '/' {
                context.resolved(path) == dir + file
            } else {
                context.resolved(path) == dir + seq!['/'] + file
            }
        }),
{
}

/// A job that names no output file writes to `slurm-%J.out` in its working directory, or to
/// `slurm-%A_%a.out` where it is a task of an array.
pub proof fn law_empty_path_falls_back_to_the_working_directory(context: FilenameContextView)
    requires
        context.working_dir.len() > 0 ==> path::is_absolute(context.working_dir),
        context.substituted(context.working_dir) == context.working_dir,
    ensures
        context.resolved(seq![]) == path::joined(
            context.working_dir,
            if context.array_task() == filename::SLURM_NO_VAL@ {
                "slurm-"@ + context.id + ".out"@
            } else {
                "slurm-"@ + context.array_master + "_"@ + context.array_task() + ".out"@
            },
        ),
{
    let dir = context.working_dir;
    let head = if dir.len() == 0 || dir.last() == '/' {
        dir
    } else {
        dir.push('/')
    };
    let task = context.array_task() != filename::SLURM_NO_VAL@;
    let tail = if task {
        "slurm-%A_%a.out"@
    } else {
        "slurm-%J.out"@
    };
    reveal_strlit("slurm-%J.out");
    reveal_strlit("slurm-%A_%a.out");
    reveal_strlit("slurm-");
    reveal_strlit("_");
    reveal_strlit(".out");
    assert(context.default_pattern() =~= head + tail);
    lemma_substituted_in_parts(context, dir, seq!['/']);
    law_text_without_specifier_is_kept(context, seq!['/']);
    assert(dir.push('/') =~= dir + seq!['/']);
    lemma_substituted_in_parts(context, head, tail);
    law_text_without_specifier_is_kept(context, ".out"@);
    law_first_specifier_is_replaced(context, tail, 6);
    assert(tail.take(6) =~= "slurm-"@);
    if task {
        let rest = tail.skip(8);
        law_first_specifier_is_replaced(context, rest, 1);
        assert(rest.take(1) =~= "_"@);
        assert(rest.skip(3) =~= ".out"@);
        assert(context.substituted(tail) =~= "slurm-"@ + context.array_master + "_"@
            + context.array_task() + ".out"@);
    } else {
        assert(tail.skip(8) =~= ".out"@);
    }
    assert(context.resolved(seq![]) =~= head + context.substituted(tail));
}

/// Two parts of a text can be treated one by one where no specifier reaches from one to the other.
proof fn lemma_substituted_in_parts(
    context: FilenameContextView,
    head: Seq<char>,
    tail: Seq<char>,
)
    requires
        tail.len() > 0,
        head.len() > 0 && head.last() == '%' ==> !filename::is_specifier_letter(tail[0]),
    ensures
        context.substituted(head + tail) == context.substituted(head) + context.substituted(tail),
    decreases head.len(),
{
    let all = head + tail;
    if head.len() == 0 {
        assert(all =~= tail);
        assert(context.substituted(head) + context.substituted(tail) =~= context.substituted(tail));
    } else {
        let n: int = if filename::starts_with_specifier(head) {
            2
        } else {
            1
        };
        assert(filename::starts_with_specifier(all) == filename::starts_with_specifier(head));
        assert(all.skip(n) =~= head.skip(n) + tail);
        lemma_substituted_in_parts(context, head.skip(n), tail);
        assert(context.substituted(head) + context.substituted(tail) =~= context.substituted(all));
    }
}

/// `%N` stands for the first node of the host list, which is the part before its first comma.
pub proof fn law_first_node_is_used(
    context: FilenameContextView,
    first: Seq<char>,
    others: Seq<char>,
)
    requires
        !first.contains(','),
        context.host == first || context.host == first + seq![','] + others,
    ensures
        context.value('N') == first,
{
    let comma = seq![','];
    assert forall|j: int| 0 <= j < first.len() implies !text::occurs_at(context.host, comma, j) by {
        if text::occurs_at(context.host, comma, j) {
            assert(context.host.subrange(j, j + 1)[0] == ',');
            assert(first[j] == ',');
        }
    }
    if context.host == first {
        assert forall|j: int| !text::first_at(first, comma, j) by {
        }
    } else {
        assert(context.host.subrange(first.len() as int, first.len() + 1int) =~= comma);
        text::lemma_split_at(context.host, comma, first.len() as int);
        assert(context.host.take(first.len() as int) =~= first);
    }
}

/// A line that holds the expected number of fields, each followed by the separator, gives the job
/// that these fields describe.
pub proof fn law_well_formed_line_is_parsed(fields: Seq<Seq<char>>)
    requires
        fields.len() == JobWatcher::FIELDS@.len(),
        forall|i: int|
            0 <= i < fields.len() ==> ends_at(
                #[trigger] fields[i],
                JobWatcher::OUTPUT_SEPARATOR@,
            ),
    ensures
        job_watcher::job_of_line(terminated(fields, JobWatcher::OUTPUT_SEPARATOR@)) == Some(
            job_watcher::job_of_fields(fields),
        ),
{
    reveal_strlit("###turm###");
    law_terminated_fields_are_read_back(fields, JobWatcher::OUTPUT_SEPARATOR@);
}

/// A line that holds any other number of fields, each followed by the separator, gives no job.
pub proof fn law_wrong_number_of_fields_is_refused(fields: Seq<Seq<char>>)
    requires
        fields.len() != JobWatcher::FIELDS@.len(),
        forall|i: int|
            0 <= i < fields.len() ==> ends_at(
                #[trigger] fields[i],
                JobWatcher::OUTPUT_SEPARATOR@,
            ),
    ensures
        job_watcher::job_of_line(terminated(fields, JobWatcher::OUTPUT_SEPARATOR@)) is None,
{
    reveal_strlit("###turm###");
    law_terminated_fields_are_read_back(fields, JobWatcher::OUTPUT_SEPARATOR@);
}

/// White space in front of a text is trimmed away.
proof fn lemma_trim_front(before: Seq<char>, line: Seq<char>)
    requires
        forall|i: int| 0 <= i < before.len() ==> text::is_white_space(#[trigger] before[i]),
    ensures
        text::trimmed(before + line) == text::trimmed(line),
    decreases before.len(),
{
    if before.len() == 0 {
        assert(before + line =~= line);
    } else {
        assert((before + line).drop_first() =~= before.drop_first() + line);
        lemma_trim_front(before.drop_first(), line);
    }
}

/// White space behind a text is trimmed away.
proof fn lemma_trim_back(line: Seq<char>, after: Seq<char>)
    requires
        forall|i: int| 0 <= i < after.len() ==> text::is_white_space(#[trigger] after[i]),
    ensures
        text::trimmed(line + after) == text::trimmed(line),
    decreases line.len() + after.len(),
{
    let all = line + after;
    if after.len() == 0 {
        assert(all =~= line);
    } else if line.len() == 0 {
        assert(all =~= after + line);
        lemma_trim_front(after, line);
    } else if text::is_white_space(line.first()) {
        assert(all.drop_first() =~= line.drop_first() + after);
        lemma_trim_back(line.drop_first(), after);
    } else {
        assert(all.drop_last() =~= line + after.drop_last());
        lemma_trim_back(line, after.drop_last());
    }
}

/// White space around a line makes no difference.
pub proof fn law_white_space_around_a_line_is_ignored(
    before: Seq<char>,
    line: Seq<char>,
    after: Seq<char>,
)
    requires
        forall|i: int| 0 <= i < before.len() ==> text::is_white_space(#[trigger] before[i]),
        forall|i: int| 0 <= i < after.len() ==> text::is_white_space(#[trigger] after[i]),
    ensures
        text::trimmed(before + line + after) == text::trimmed(line),
{
    lemma_trim_back(before + line, after);
    lemma_trim_front(before, line);
}

/// A separator of one element splits a text that is put together around it at that place.
pub proof fn lemma_split_around<T>(a: Seq<T>, c: T, b: Seq<T>)
    ensures
        text::split_on(a + seq![c] + b, seq![c]) == text::split_on(a, seq![c]) + text::split_on(
            b,
            seq![c],
        ),
    decreases a.len(),
{
    let sep = seq![c];
    let all = a + sep + b;
    assert forall|j: int| 0 <= j < a.len() implies text::occurs_at(all, sep, j)
        == text::occurs_at(a, sep, j) by {
        assert(all.subrange(j, j + 1) =~= a.subrange(j, j + 1));
    }
    if exists|i: int| text::first_at(a, sep, i) {
        let i = choose|i: int| text::first_at(a, sep, i);
        assert(text::first_at(all, sep, i));
        text::lemma_split_at(all, sep, i);
        assert(all.take(i) =~= a.take(i));
        assert(all.skip(i + 1) =~= a.skip(i + 1) + sep + b);
        lemma_split_around(a.skip(i + 1), c, b);
        assert(text::split_on(all, sep) =~= text::split_on(a, sep) + text::split_on(b, sep));
    } else {
        let n = a.len() as int;
        assert(all.subrange(n, n + 1) =~= sep);
        assert forall|j: int| 0 <= j < n implies !text::occurs_at(all, sep, j) by {
            if text::occurs_at(a, sep, j) {
                lemma_first_exists(a, sep, j);
            }
        }
        text::lemma_split_at(all, sep, n);
        assert(all.take(n) =~= a);
        assert(all.skip(n + 1) =~= b);
    }
}

/// The lines of two outputs, put together with a line feed after the first, are the lines of the
/// first and then those of the second.
pub proof fn law_lines_of_outputs(a: Seq<u8>, b: Seq<u8>)
    ensures
        text::lines(a.push(0x0A) + b) == text::lines(a.push(0x0A)) + text::lines(b),
{
    let lf = seq![0x0Au8];
    let none = Seq::<u8>::empty();
    assert(a.push(0x0A) + b =~= a + lf + b);
    assert(a.push(0x0A) =~= a + lf + none);
    lemma_split_around(a, 0x0A, b);
    lemma_split_around(a, 0x0A, none);
    text::lemma_split_not_empty(b, lf);
    lemma_split_empty::<u8>(lf);
    let pieces_a = text::split_on(a, lf);
    let pieces_b = text::split_on(b, lf);
    assert((pieces_a + pieces_b).drop_last() =~= pieces_a + pieces_b.drop_last());
    assert((pieces_a + seq![none]).drop_last() =~= pieces_a);
    assert(text::lines(a.push(0x0A) + b) =~= text::lines(a.push(0x0A)) + text::lines(b));
}

/// The jobs of more lines come behind those of the first ones.
pub proof fn lemma_jobs_of_more_lines(a: Seq<Seq<u8>>, b: Seq<Seq<u8>>)
    ensures
        job_watcher::jobs_of_lines(a + b) == job_watcher::jobs_of_lines(a)
            + job_watcher::jobs_of_lines(b),
    decreases b.len(),
{
    let jobs = job_watcher::jobs_of_lines(a) + job_watcher::jobs_of_lines(b);
    if b.len() == 0 {
        assert(a + b =~= a);
        assert(jobs =~= job_watcher::jobs_of_lines(a));
    } else {
        assert((a + b).drop_last() =~= a + b.drop_last());
        lemma_jobs_of_more_lines(a, b.drop_last());
        assert(job_watcher::jobs_of_lines(a + b) =~= jobs);
    }
}

/// Two outputs, put together with a line feed after the first, hold the jobs of the first and then
/// those of the second: no line has a bearing on another.
pub proof fn law_jobs_of_outputs(a: Seq<u8>, b: Seq<u8>)
    ensures
        job_watcher::jobs_of_lines(text::lines(a.push(0x0A) + b)) == job_watcher::jobs_of_lines(
            text::lines(a.push(0x0A)),
        ) + job_watcher::jobs_of_lines(text::lines(b)),
{
    law_lines_of_outputs(a, b);
    lemma_jobs_of_more_lines(text::lines(a.push(0x0A)), text::lines(b));
}

/// The bytes that encode a character are its code, where that is ASCII, and no ASCII otherwise.
proof fn lemma_encoded_scalar(code: u32)
    requires
        is_scalar(code),
    ensures
        encode_scalar(code).len() > 0,
        code < 0x80 ==> encode_scalar(code).len() == 1 && encode_scalar(code)[0] == code,
        code >= 0x80 ==> forall|i: int|
            0 <= i < encode_scalar(code).len() ==> #[trigger] encode_scalar(code)[i] >= 0x80,
{
    assert(code < 0x80 ==> (code & 0x7F) as u8 == code) by (bit_vector);
    assert(forall|b: u8| #[trigger] (0x80u8 | b) >= 0x80) by (bit_vector);
    assert(forall|b: u8| #[trigger] (0xC0u8 | b) >= 0x80) by (bit_vector);
    assert(forall|b: u8| #[trigger] (0xE0u8 | b) >= 0x80) by (bit_vector);
    assert(forall|b: u8| #[trigger] (0xF0u8 | b) >= 0x80) by (bit_vector);
}

/// A text without a line feed is encoded without the byte of one.
proof fn lemma_encoded_without_line_feed(chars: Seq<char>)
    requires
        !chars.contains('\n'),
    ensures
        !encode_utf8(chars).contains(0x0A),
    decreases chars.len(),
{
    if chars.len() > 0 {
        let rest = chars.drop_first();
        char_is_scalar(chars[0]);
        lemma_encoded_scalar(chars[0] as u32);
        assert(chars.contains(chars[0]));
        assert(!rest.contains('\n')) by {
            if rest.contains('\n') {
                let i = choose|i: int| 0 <= i < rest.len() && rest[i] == '\n';
                assert(chars[i + 1] == '\n');
            }
        }
        lemma_encoded_without_line_feed(rest);
        if encode_utf8(chars).contains(0x0A) {
            let i = choose|i: int|
                0 <= i < encode_utf8(chars).len() && encode_utf8(chars)[i] == 0x0A;
            let n = encode_scalar(chars[0] as u32).len();
            if i >= n {
                assert(encode_utf8(rest)[i - n] == 0x0A);
            } else {
                assert(encode_scalar(chars[0] as u32)[i] == 0x0A);
                char_u32_cast(chars[0], 0x0A);
                char_u32_cast('\n', 0x0A);
            }
        }
    }
}

/// The last byte of a text that ends in an ASCII character is that character.
proof fn lemma_encoded_last(chars: Seq<char>)
    requires
        chars.len() > 0,
        (chars.last() as u32) < 0x80,
    ensures
        encode_utf8(chars).len() > 0,
        encode_utf8(chars).last() == chars.last() as u32,
    decreases chars.len(),
{
    let rest = chars.drop_first();
    char_is_scalar(chars[0]);
    lemma_encoded_scalar(chars[0] as u32);
    if rest.len() > 0 {
        assert(rest.last() == chars.last());
        lemma_encoded_last(rest);
    } else {
        assert(encode_utf8(rest) =~= seq![]);
        assert(encode_utf8(chars) =~= encode_scalar(chars[0] as u32));
    }
}

/// The text of a row: its fields, each followed by the separator.
pub open spec fn row_text(row: Seq<Seq<char>>) -> Seq<char> {
    terminated(row, JobWatcher::OUTPUT_SEPARATOR@)
}

/// A row that can be told from its text: it has all the fields, the separator that follows a field
/// does not start inside it, no field holds a line feed, and the first does not start with white
/// space.
pub open spec fn is_row(row: Seq<Seq<char>>) -> bool {
    &&& row.len() == JobWatcher::FIELDS@.len()
    &&& forall|i: int|
        0 <= i < row.len() ==> ends_at(#[trigger] row[i], JobWatcher::OUTPUT_SEPARATOR@)
    &&& forall|i: int| 0 <= i < row.len() ==> !(#[trigger] row[i]).contains('\n')
    &&& row[0].len() > 0 ==> !text::is_white_space(row[0][0])
}

/// The output that prints the rows, one per line, in UTF-8.
pub open spec fn output_of_rows(rows: Seq<Seq<Seq<char>>>) -> Seq<u8>
    decreases rows.len(),
{
    if rows.len() == 0 {
        seq![]
    } else {
        encode_utf8(row_text(rows[0])).push(0x0A) + output_of_rows(rows.drop_first())
    }
}

/// What is known of the text of fields that hold no line feed.
proof fn lemma_terminated_text(fields: Seq<Seq<char>>)
    requires
        forall|i: int| 0 <= i < fields.len() ==> !(#[trigger] fields[i]).contains('\n'),
    ensures
        !row_text(fields).contains('\n'),
        fields.len() > 0 ==> row_text(fields).len() > 0 && row_text(fields).last() == '#',
    decreases fields.len(),
{
    reveal_strlit("###turm###");
    let sep = JobWatcher::OUTPUT_SEPARATOR@;
    if fields.len() > 0 {
        let others = fields.drop_first();
        lemma_terminated_text(others);
        let all = row_text(fields);
        assert(all =~= fields[0] + sep + row_text(others));
        if all.contains('\n') {
            let i = choose|i: int| 0 <= i < all.len() && all[i] == '\n';
            let n = fields[0].len();
            if i < n {
                assert(fields[0][i] == '\n');
            } else if i >= n + sep.len() {
                assert(row_text(others)[i - n - sep.len()] == '\n');
            }
        }
        if others.len() == 0 {
            assert(all =~= fields[0] + sep);
        }
    }
}

/// The only line of an encoded row is the row, and gives its job.
proof fn lemma_row_is_read_back(row: Seq<Seq<char>>)
    requires
        is_row(row),
    ensures
        text::lines(encode_utf8(row_text(row)).push(0x0A)) == seq![encode_utf8(row_text(row))],
        job_watcher::jobs_of_lines(seq![encode_utf8(row_text(row))]) == seq![
            job_watcher::job_of_fields(row),
        ],
{
    reveal_strlit("###turm###");
    let line = row_text(row);
    let bytes = encode_utf8(line);
    let lf = seq![0x0Au8];
    let none = Seq::<u8>::empty();
    lemma_terminated_text(row);
    lemma_encoded_without_line_feed(line);
    lemma_encoded_last(line);
    assert(bytes.push(0x0A) =~= bytes + lf + none);
    lemma_split_around(bytes, 0x0A, none);
    assert forall|j: int| !text::first_at(bytes, lf, j) by {
        if text::first_at(bytes, lf, j) {
            assert(bytes.subrange(j, j + 1)[0] == 0x0A);
            assert(bytes.contains(bytes[j]));
        }
    }
    lemma_split_empty::<u8>(lf);
    let pieces = text::split_on(bytes.push(0x0A), lf);
    assert(pieces =~= seq![bytes, none]);
    assert(text::lines(bytes.push(0x0A)) =~= seq![bytes]);

    encode_utf8_decode_utf8(line);
    assert(line.first() == if row[0].len() > 0 {
        row[0][0]
    } else {
        '#'
    });
    assert(text::trimmed(line) == line);
    law_well_formed_line_is_parsed(row);
    assert(seq![bytes].drop_last() =~= seq![]);
    assert(seq![bytes].last() == bytes);
    assert(job_watcher::jobs_of_lines(seq![]) =~= seq![]);
    assert(job_watcher::jobs_of_lines(seq![bytes]) =~= seq![job_watcher::job_of_fields(row)]);
}

/// Rows that are printed one per line are read back: the output decodes, and gives the job of every
/// row, in the rows' order.
pub proof fn law_printed_rows_are_read_back(rows: Seq<Seq<Seq<char>>>)
    requires
        forall|r: int| 0 <= r < rows.len() ==> is_row(#[trigger] rows[r]),
    ensures
        forall|i: int|
            0 <= i < text::lines(output_of_rows(rows)).len() ==> valid_utf8(
                #[trigger] text::lines(output_of_rows(rows))[i],
            ),
        job_watcher::jobs_of_lines(text::lines(output_of_rows(rows))) == rows.map_values(
            |row: Seq<Seq<char>>| job_watcher::job_of_fields(row),
        ),
    decreases rows.len(),
{
    let jobs = rows.map_values(|row: Seq<Seq<char>>| job_watcher::job_of_fields(row));
    let output = output_of_rows(rows);
    if rows.len() == 0 {
        lemma_split_empty::<u8>(seq![0x0Au8]);
        assert(text::lines(output) =~= seq![]);
        assert(jobs =~= seq![]);
    } else {
        let bytes = encode_utf8(row_text(rows[0]));
        let others = rows.drop_first();
        law_lines_of_outputs(bytes, output_of_rows(others));
        law_jobs_of_outputs(bytes, output_of_rows(others));
        assert(is_row(rows[0]));
        lemma_row_is_read_back(rows[0]);
        encode_utf8_valid_utf8(row_text(rows[0]));
        law_printed_rows_are_read_back(others);
        assert(jobs =~= seq![job_watcher::job_of_fields(rows[0])] + others.map_values(
            |row: Seq<Seq<char>>| job_watcher::job_of_fields(row),
        ));
    }
}

/// What stands before the separator of each column in the output format.
pub open spec fn column_heads(n: nat) -> Seq<Seq<char>> {
    Seq::new(
        n,
        |i: int|
            (if i == 0 {
                seq![]
            } else {
                seq![',']
            }) + JobWatcher::FIELDS@[i]@ + seq![':'],
    )
}

/// A further field comes behind the others.
proof fn lemma_terminated_push<T>(fields: Seq<Seq<T>>, field: Seq<T>, sep: Seq<T>)
    ensures
        terminated(fields.push(field), sep) == terminated(fields, sep) + field + sep,
    decreases fields.len(),
{
    if fields.len() == 0 {
        assert(fields.push(field).drop_first() =~= seq![]);
        assert(terminated(fields.push(field).drop_first(), sep) =~= seq![]);
        assert(terminated(fields.push(field), sep) =~= terminated(fields, sep) + field + sep);
    } else {
        assert(fields.push(field).drop_first() =~= fields.drop_first().push(field));
        lemma_terminated_push(fields.drop_first(), field, sep);
        assert(terminated(fields.push(field), sep) =~= terminated(fields, sep) + field + sep);
    }
}

/// The output format is made of the columns' heads, each followed by the separator.
proof fn lemma_format_is_terminated(n: nat)
    ensures
        job_watcher::format_of(n) == terminated(column_heads(n), JobWatcher::OUTPUT_SEPARATOR@),
    decreases n,
{
    let sep = JobWatcher::OUTPUT_SEPARATOR@;
    if n > 0 {
        let m = (n - 1) as nat;
        lemma_format_is_terminated(m);
        assert(column_heads(n) =~= column_heads(m).push(column_heads(n).last()));
        lemma_terminated_push(column_heads(m), column_heads(n).last(), sep);
        assert(job_watcher::format_of(n) =~= job_watcher::format_of(m) + column_heads(n).last()
            + sep);
    }
}

/// No field that `squeue` is asked for has a hash sign in its name.
proof fn lemma_field_names(i: int, j: int)
    requires
        0 <= i < JobWatcher::FIELDS@.len(),
        0 <= j < JobWatcher::FIELDS@[i]@.len(),
    ensures
        JobWatcher::FIELDS@[i]@[j] != '#',
{
    reveal_strlit("jobid");
    reveal_strlit("name");
    reveal_strlit("state");
    reveal_strlit("username");
    reveal_strlit("timeused");
    reveal_strlit("timelimit");
    reveal_strlit("StartTime");
    reveal_strlit("tres-alloc");
    reveal_strlit("partition");
    reveal_strlit("nodelist");
    reveal_strlit("stdout");
    reveal_strlit("stderr");
    reveal_strlit("command");
    reveal_strlit("statecompact");
    reveal_strlit("reason");
    reveal_strlit("ArrayJobID");
    reveal_strlit("ArrayTaskID");
    reveal_strlit("NodeList");
    reveal_strlit("WorkDir");
}

/// The output format asks for a separator behind every field, and for no other: split like a line,
/// it has the pieces that a line must have.
pub proof fn law_format_asks_for_what_is_parsed()
    ensures
        text::split_on(job_watcher::full_format(), JobWatcher::OUTPUT_SEPARATOR@) == column_heads(
            JobWatcher::FIELDS@.len(),
        ).push(seq![]),
{
    reveal_strlit("###turm###");
    let n = JobWatcher::FIELDS@.len();
    let sep = JobWatcher::OUTPUT_SEPARATOR@;
    let heads = column_heads(n);
    lemma_format_is_terminated(n);
    assert forall|i: int| 0 <= i < heads.len() implies ends_at(#[trigger] heads[i], sep) by {
        let head = heads[i];
        let name = JobWatcher::FIELDS@[i]@;
        let shift: int = if i == 0 {
            0
        } else {
            1
        };
        assert forall|j: int| 0 <= j < head.len() implies !text::occurs_at(head + sep, sep, j) by {
            if text::occurs_at(head + sep, sep, j) {
                assert((head + sep).subrange(j, j + sep.len())[0] == sep[0]);
                if shift <= j < shift + name.len() {
                    assert(head[j] == name[j - shift]);
                    lemma_field_names(i, j - shift);
                }
            }
        }
    }
    law_terminated_fields_are_read_back(heads, sep);
}

} // verus!

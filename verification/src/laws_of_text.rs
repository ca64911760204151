//! What the splitting, the trimming and the lines of a text are, said of the texts themselves.
use crate::laws::glued;
use crate::text;
use vstd::prelude::*;

verus! {

/// Texts that are put together with a separator between every two are read back, whatever they
/// are, if where the separator follows a text it is found at the text's end and not before, and if
/// it does not stand in the last text.
pub proof fn law_pieces_put_together_are_read_back<T>(pieces: Seq<Seq<T>>, sep: Seq<T>)
    requires
        sep.len() > 0,
        pieces.len() > 0,
        forall|k: int, j: int, e: int|
            0 <= k < pieces.len() - 1 && 0 <= j < pieces[k].len() && e == j + sep.len()
                ==> #[trigger] (pieces[k] + sep).subrange(j, e) != sep,
        forall|j: int, e: int|
            0 <= j && e == j + sep.len() && e <= pieces.last().len()
                ==> #[trigger] pieces.last().subrange(j, e) != sep,
    ensures
        text::split_on(glued(pieces, sep), sep) == pieces,
    decreases pieces.len(),
{
    let all = glued(pieces, sep);
    let first = pieces[0];
    if pieces.len() == 1 {
        assert forall|j: int| !text::first_at(all, sep, j) by {
            if text::first_at(all, sep, j) {
                assert(pieces.last().subrange(j, j + sep.len()) == sep);
            }
        }
        assert(pieces =~= seq![all]);
    } else {
        let others = pieces.drop_first();
        let at = first.len() as int;
        assert(all == first + sep + glued(others, sep));
        assert(all.subrange(at, at + sep.len()) =~= sep);
        assert forall|j: int| 0 <= j < at implies !text::occurs_at(all, sep, j) by {
            if text::occurs_at(all, sep, j) {
                assert((pieces[0] + sep).subrange(j, j + sep.len()) =~= all.subrange(
                    j,
                    j + sep.len(),
                ));
            }
        }
        text::lemma_split_at(all, sep, at);
        assert(all.take(at) =~= first);
        assert(all.skip(at + sep.len()) =~= glued(others, sep));
        assert(others.last() == pieces.last());
        assert forall|k: int, j: int, e: int|
            0 <= k < others.len() - 1 && 0 <= j < others[k].len() && e == j + sep.len() implies
            #[trigger] (others[k] + sep).subrange(j, e) != sep by {
            assert(others[k] == pieces[k + 1]);
            assert((pieces[k + 1] + sep).subrange(j, e) != sep);
        }
        law_pieces_put_together_are_read_back(others, sep);
        assert(pieces =~= seq![first] + others);
    }
}

/// Every piece of a text but the last goes on to the first place where the separator stands, and
/// the separator does not stand in the last one.
pub proof fn law_pieces_end_at_the_first_separator<T>(text: Seq<T>, sep: Seq<T>, k: int, j: int)
    requires
        sep.len() > 0,
        0 <= k < text::split_on(text, sep).len(),
        0 <= j,
    ensures
        ({
            let pieces = text::split_on(text, sep);
            let piece = pieces[k];
            &&& k < pieces.len() - 1 && j < piece.len() ==> (piece + sep).subrange(
                j,
                j + sep.len(),
            ) != sep
            &&& k == pieces.len() - 1 && j + sep.len() <= piece.len() ==> piece.subrange(
                j,
                j + sep.len(),
            ) != sep
        }),
    decreases text.len(),
{
    let pieces = text::split_on(text, sep);
    if exists|i: int| text::first_at(text, sep, i) {
        let i = choose|i: int| text::first_at(text, sep, i);
        let rest = text.skip(i + sep.len());
        let others = text::split_on(rest, sep);
        text::lemma_split_not_empty(rest, sep);
        if k > 0 {
            assert(pieces[k] == others[k - 1]);
            law_pieces_end_at_the_first_separator(rest, sep, k - 1, j);
        } else if j < i {
            lemma_nothing_before_the_first(text, sep, i, j);
        }
    } else if j + sep.len() <= text.len() {
        assert(!text::occurs_at(text, sep, j)) by {
            if text::occurs_at(text, sep, j) {
                crate::laws::lemma_first_exists(text, sep, j);
            }
        }
    }
}

/// The text up to the first separator, with the separator, has no earlier one.
proof fn lemma_nothing_before_the_first<T>(text: Seq<T>, sep: Seq<T>, i: int, j: int)
    requires
        text::first_at(text, sep, i),
        0 <= j < i,
    ensures
        (text.take(i) + sep).subrange(j, j + sep.len()) != sep,
{
    let head = text.take(i) + sep;
    assert(head =~= text.take(i + sep.len())) by {
        assert(text.subrange(i, i + sep.len()) == sep);
        assert(text.take(i + sep.len()) =~= text.take(i) + text.subrange(i, i + sep.len()));
    }
    assert(head.subrange(j, j + sep.len()) =~= text.subrange(j, j + sep.len()));
    assert(!text::occurs_at(text, sep, j));
}

/// White space is the tab and the four controls behind it, the space, the next-line control, the
/// no-break space, the ogham mark, the spaces of the general punctuation, the line and the
/// paragraph separator, the narrow, the mathematical and the ideographic space.
pub proof fn law_white_space(c: char)
    ensures
        text::is_white_space(c) <==> {
            ||| '\u{9}' <= c <= '\u{D}'
            ||| '\u{2000}' <= c <= '\u{200A}'
            ||| seq![
                ' ',
                '\u{85}',
                '\u{A0}',
                '\u{1680}',
                '\u{2028}',
                '\u{2029}',
                '\u{202F}',
                '\u{205F}',
                '\u{3000}',
            ].contains(c)
        },
{
    let single = seq![
        ' ',
        '\u{85}',
        '\u{A0}',
        '\u{1680}',
        '\u{2028}',
        '\u{2029}',
        '\u{202F}',
        '\u{205F}',
        '\u{3000}',
    ];
    assert(single[0] == ' ' && single[1] == '\u{85}' && single[2] == '\u{A0}' && single[3]
        == '\u{1680}' && single[4] == '\u{2028}' && single[5] == '\u{2029}' && single[6]
        == '\u{202F}' && single[7] == '\u{205F}' && single[8] == '\u{3000}');
}

/// Trimming takes the white space at both ends and nothing else: what starts and ends with other
/// characters is left as it is.
pub proof fn law_trimming_leaves_the_core(before: Seq<char>, core: Seq<char>, after: Seq<char>)
    requires
        forall|i: int| 0 <= i < before.len() ==> text::is_white_space(#[trigger] before[i]),
        forall|i: int| 0 <= i < after.len() ==> text::is_white_space(#[trigger] after[i]),
        core.len() > 0 ==> !text::is_white_space(core.first()) && !text::is_white_space(
            core.last(),
        ),
    ensures
        text::trimmed(before + core + after) == core,
{
    crate::laws::law_white_space_around_a_line_is_ignored(before, core, after);
}

/// An empty buffer has no lines.
pub proof fn law_no_bytes_have_no_lines()
    ensures
        text::lines(seq![]) == Seq::<Seq<u8>>::empty(),
{
    crate::laws::lemma_split_empty::<u8>(seq![0x0Au8]);
}

/// Bytes without a line feed are one line, if they are not empty.
pub proof fn law_bytes_without_line_feed_are_one_line(line: Seq<u8>)
    requires
        line.len() > 0,
        !line.contains(0x0A),
    ensures
        text::lines(line) == seq![line],
{
    lemma_one_piece(line);
    assert(text::lines(line) =~= seq![line]);
}

/// A line feed ends a line, and so does a carriage return with a line feed; neither is part of the
/// line. The lines behind it are those of the bytes behind it.
pub proof fn law_line_feed_ends_a_line(line: Seq<u8>, rest: Seq<u8>)
    requires
        !line.contains(0x0A),
    ensures
        line.len() == 0 || line.last() != 0x0D ==> text::lines(line + seq![0x0Au8] + rest)
            == seq![line] + text::lines(rest),
        text::lines(line + seq![0x0Du8, 0x0Au8] + rest) == seq![line] + text::lines(rest),
{
    let cr = line.push(0x0D);
    assert(!cr.contains(0x0A)) by {
        if cr.contains(0x0A) {
            let i = choose|i: int| 0 <= i < cr.len() && cr[i] == 0x0A;
            assert(line[i] == 0x0A);
        }
    }
    lemma_ended(line);
    lemma_ended(cr);
    assert(line + seq![0x0Au8] + rest =~= line.push(0x0A) + rest);
    assert(line + seq![0x0Du8, 0x0Au8] + rest =~= cr.push(0x0A) + rest);
    crate::laws::law_lines_of_outputs(line, rest);
    crate::laws::law_lines_of_outputs(cr, rest);
    assert(text::without_cr(cr) =~= line);
}

/// Bytes without a line feed are one piece.
proof fn lemma_one_piece(line: Seq<u8>)
    requires
        !line.contains(0x0A),
    ensures
        text::split_on(line, seq![0x0Au8]) == seq![line],
{
    let lf = seq![0x0Au8];
    assert forall|j: int| !text::first_at(line, lf, j) by {
        if text::first_at(line, lf, j) {
            assert(line.subrange(j, j + 1)[0] == 0x0A);
            assert(line.contains(line[j]));
        }
    }
}

/// Bytes without a line feed, followed by one, are one line.
proof fn lemma_ended(line: Seq<u8>)
    requires
        !line.contains(0x0A),
    ensures
        text::lines(line.push(0x0A)) == seq![text::without_cr(line)],
{
    let lf = seq![0x0Au8];
    let none = Seq::<u8>::empty();
    assert(line.push(0x0A) =~= line + lf + none);
    crate::laws::lemma_split_around(line, 0x0A, none);
    crate::laws::lemma_split_empty::<u8>(lf);
    lemma_one_piece(line);
    assert(text::split_on(line.push(0x0A), lf) =~= seq![line, none]);
    assert(text::lines(line.push(0x0A)) =~= seq![text::without_cr(line)]);
}

} // verus!

//! Text operations: splitting on a separator, lines of a byte buffer, trimming and comparison.
use vstd::prelude::*;
use vstd::utf8::{decode_utf8, valid_utf8};

verus! {

/// `String::push` adds one character at the end of the string.
pub assume_specification[ String::push ](s: &mut String, c: char)
    ensures
        final(s)@ == old(s)@.push(c),
;

/// `str::trim` gives the text without the white space at its ends, and nothing else is changed.
/// White space is what has the Unicode property `White_Space`.
pub assume_specification[ str::trim ](s: &str) -> (res: &str)
    ensures
        res@ == trimmed(s@),
;

/// The error of `std::str::from_utf8`.
#[verifier::external_type_specification]
#[verifier::external_body]
pub struct ExUtf8Error(std::str::Utf8Error);

/// `std::str::from_utf8` succeeds on valid UTF-8 and nothing else, and then gives the characters
/// that the bytes encode.
pub assume_specification[ std::str::from_utf8 ](v: &[u8]) -> (res: Result<
    &str,
    std::str::Utf8Error,
>)
    ensures
        res is Ok <==> valid_utf8(v@),
        res is Ok ==> res->Ok_0@ == decode_utf8(v@),
;

/// The characters with the Unicode property `White_Space`.
pub open spec fn is_white_space(c: char) -> bool {
    let code = c as u32;
    ||| 0x09 <= code <= 0x0D
    ||| code == 0x20
    ||| code == 0x85
    ||| code == 0xA0
    ||| code == 0x1680
    ||| 0x2000 <= code <= 0x200A
    ||| code == 0x2028
    ||| code == 0x2029
    ||| code == 0x202F
    ||| code == 0x205F
    ||| code == 0x3000
}

/// `text` without the white space at its ends.
pub open spec fn trimmed(text: Seq<char>) -> Seq<char>
    decreases text.len(),
{
    if text.len() == 0 {
        text
    } else if is_white_space(text.first()) {
        trimmed(text.drop_first())
    } else if is_white_space(text.last()) {
        trimmed(text.drop_last())
    } else {
        text
    }
}

/// A line without the carriage return at its end, where it has one.
pub open spec fn without_cr(line: Seq<u8>) -> Seq<u8> {
    if line.len() > 0 && line.last() == 0x0D {
        line.drop_last()
    } else {
        line
    }
}

/// The lines of a byte buffer. Each ends in a line feed, or in a carriage return and a line feed,
/// which are not part of it; what follows the last line feed is a line too, if it is not empty.
pub open spec fn lines(bytes: Seq<u8>) -> Seq<Seq<u8>> {
    let pieces = split_on(bytes, seq![0x0Au8]);
    let ended = pieces.drop_last().map_values(|line: Seq<u8>| without_cr(line));
    if pieces.last().len() == 0 {
        ended
    } else {
        ended.push(pieces.last())
    }
}

/// `sep` stands in `text` at position `i`.
pub open spec fn occurs_at<T>(text: Seq<T>, sep: Seq<T>, i: int) -> bool {
    &&& 0 <= i <= text.len() - sep.len()
    &&& text.subrange(i, i + sep.len()) == sep
}

/// `i` is the leftmost position at which `sep` stands in `text`.
pub open spec fn first_at<T>(text: Seq<T>, sep: Seq<T>, i: int) -> bool {
    &&& occurs_at(text, sep, i)
    &&& forall|j: int| 0 <= j < i ==> !occurs_at(text, sep, j)
}

/// The pieces of `text` between the occurrences of `sep`, found from left to right, none
/// overlapping another. A text without an occurrence is its own only piece.
pub open spec fn split_on<T>(text: Seq<T>, sep: Seq<T>) -> Seq<Seq<T>>
    decreases text.len(),
{
    if sep.len() > 0 && exists|i: int| first_at(text, sep, i) {
        let i = choose|i: int| first_at(text, sep, i);
        seq![text.take(i)] + split_on(text.skip(i + sep.len()), sep)
    } else {
        seq![text]
    }
}

/// A text with a first occurrence of the separator splits there.
pub proof fn lemma_split_at<T>(text: Seq<T>, sep: Seq<T>, i: int)
    requires
        sep.len() > 0,
        first_at(text, sep, i),
    ensures
        split_on(text, sep) == seq![text.take(i)] + split_on(text.skip(i + sep.len()), sep),
{
    let k = choose|k: int| first_at(text, sep, k);
    assert(k == i);
}

/// A text has at least one piece.
pub proof fn lemma_split_not_empty<T>(text: Seq<T>, sep: Seq<T>)
    ensures
        split_on(text, sep).len() >= 1,
{
}

/// The first piece of a text holds no separator of one element, and is the whole text or is followed
/// by one.
pub proof fn lemma_first_piece<T>(text: Seq<T>, c: T)
    ensures
        ({
            let first = split_on(text, seq![c])[0];
            &&& !first.contains(c)
            &&& text == first || (first + seq![c]).is_prefix_of(text)
        }),
{
    let sep = seq![c];
    let first = split_on(text, sep)[0];
    if exists|i: int| first_at(text, sep, i) {
        let i = choose|i: int| first_at(text, sep, i);
        assert(first == text.take(i));
        assert(text.subrange(i, i + 1)[0] == c);
        assert((first + sep).is_prefix_of(text));
        if first.contains(c) {
            let j = choose|j: int| 0 <= j < first.len() && first[j] == c;
            assert(text.subrange(j, j + 1) =~= sep);
            assert(occurs_at(text, sep, j));
        }
    } else if text.contains(c) {
        let j = text.index_of_first(c)->0;
        text.index_of_first_ensures(c);
        assert(text.subrange(j, j + 1) =~= sep);
        assert forall|k: int| 0 <= k < j implies !occurs_at(text, sep, k) by {
            if occurs_at(text, sep, k) {
                assert(text.subrange(k, k + 1)[0] == c);
            }
        }
        assert(first_at(text, sep, j));
    }
}

/// An occurrence behind the first `start` elements is one of the text without them.
proof fn lemma_occurs_skip<T>(text: Seq<T>, sep: Seq<T>, start: int, i: int)
    requires
        0 <= start <= text.len(),
        0 <= i,
    ensures
        occurs_at(text.skip(start), sep, i) == occurs_at(text, sep, start + i),
{
    if i + sep.len() <= text.len() - start {
        assert(text.skip(start).subrange(i, i + sep.len()) =~= text.subrange(
            start + i,
            start + i + sep.len(),
        ));
    }
}

/// Where the first occurrence at or behind `start` stands at `i`, the rest of the text from `start`
/// splits there.
proof fn lemma_split_rest_at<T>(text: Seq<T>, sep: Seq<T>, start: int, i: int)
    requires
        sep.len() > 0,
        0 <= start <= i,
        occurs_at(text, sep, i),
        forall|j: int| start <= j < i ==> !occurs_at(text, sep, j),
    ensures
        split_on(text.skip(start), sep) == seq![text.subrange(start, i)] + split_on(
            text.skip(i + sep.len()),
            sep,
        ),
{
    let rest = text.skip(start);
    lemma_occurs_skip(text, sep, start, i - start);
    assert forall|j: int| 0 <= j < i - start implies !occurs_at(rest, sep, j) by {
        lemma_occurs_skip(text, sep, start, j);
    }
    lemma_split_at(rest, sep, i - start);
    assert(rest.take(i - start) =~= text.subrange(start, i));
    assert(rest.skip(i - start + sep.len()) =~= text.skip(i + sep.len()));
}

/// Where no occurrence stands at or behind `start`, the rest of the text from `start` is one piece.
proof fn lemma_split_rest_whole<T>(text: Seq<T>, sep: Seq<T>, start: int)
    requires
        0 <= start <= text.len(),
        forall|j: int| start <= j ==> !occurs_at(text, sep, j),
    ensures
        split_on(text.skip(start), sep) == seq![text.skip(start)],
{
    assert forall|j: int| !occurs_at(text.skip(start), sep, j) by {
        if j >= 0 {
            lemma_occurs_skip(text, sep, start, j);
        }
    }
}

/// The characters of `text`.
pub fn to_chars(text: &str) -> (chars: Vec<char>)
    ensures
        chars@ == text@,
{
    let mut chars: Vec<char> = Vec::new();
    for c in it: text.chars()
        invariant
            it.seq() == text@,
            chars@ == it.seq().take(it.index()),
    {
        chars.push(c);
    }
    chars
}

/// The characters of `chars` from position `from` up to `to`, as a string.
fn collect(chars: &Vec<char>, from: usize, to: usize) -> (s: String)
    requires
        from <= to <= chars.len(),
    ensures
        s@ == chars@.subrange(from as int, to as int),
{
    let mut s = String::new();
    let mut i: usize = from;
    while i < to
        invariant
            from <= i <= to <= chars.len(),
            s@ == chars@.subrange(from as int, i as int),
        decreases to - i,
    {
        s.push(chars[i]);
        i += 1;
    }
    s
}

/// Whether `sep` stands in `chars` at position `at`.
fn matches_at(chars: &Vec<char>, sep: &Vec<char>, at: usize) -> (found: bool)
    requires
        at <= chars.len(),
    ensures
        found == occurs_at(chars@, sep@, at as int),
{
    if chars.len() - at < sep.len() {
        return false;
    }
    let mut k: usize = 0;
    while k < sep.len()
        invariant
            at + sep.len() <= chars.len(),
            k <= sep.len(),
            forall|j: int| 0 <= j < k ==> chars@[at + j] == #[trigger] sep@[j],
        decreases sep.len() - k,
    {
        if chars[at + k] != sep[k] {
            assert(chars@.subrange(at as int, at + sep.len())[k as int] != sep@[k as int]);
            return false;
        }
        k += 1;
    }
    assert(chars@.subrange(at as int, at + sep.len()) =~= sep@);
    true
}

/// Whether two texts are the same.
pub fn same_text(a: &str, b: &str) -> (same: bool)
    ensures
        same == (a@ == b@),
{
    let a_chars = to_chars(a);
    let b_chars = to_chars(b);
    if a_chars.len() != b_chars.len() {
        return false;
    }
    let same = matches_at(&a_chars, &b_chars, 0);
    assert(a@.subrange(0, a@.len() as int) =~= a@);
    same
}

/// Splits `text` on every occurrence of `sep`.
pub fn split(text: &str, sep: &str) -> (parts: Vec<String>)
    requires
        sep@.len() > 0,
    ensures
        parts.deep_view() == split_on(text@, sep@),
{
    let chars = to_chars(text);
    let sep_chars = to_chars(sep);
    let mut parts: Vec<String> = Vec::new();
    let mut start: usize = 0;
    let mut i: usize = 0;
    assert(text@.skip(0) =~= text@);
    assert(parts.deep_view() + split_on(text@.skip(0), sep@) =~= split_on(text@, sep@));
    while i < chars.len()
        invariant
            chars@ == text@,
            sep_chars@ == sep@,
            sep@.len() > 0,
            start <= i <= chars.len(),
            split_on(text@, sep@) == parts.deep_view() + split_on(text@.skip(start as int), sep@),
            forall|j: int| start <= j < i ==> !occurs_at(text@, sep@, j),
        decreases chars.len() - i,
    {
        if matches_at(&chars, &sep_chars, i) {
            let ghost before = parts.deep_view();
            let piece = collect(&chars, start, i);
            proof {
                lemma_split_rest_at(text@, sep@, start as int, i as int);
            }
            parts.push(piece);
            i = i + sep_chars.len();
            start = i;
            assert(parts.deep_view() =~= before.push(piece@));
            assert(parts.deep_view() + split_on(text@.skip(start as int), sep@) =~= before + (
            seq![piece@] + split_on(text@.skip(start as int), sep@)));
        } else {
            i += 1;
        }
    }
    let ghost before = parts.deep_view();
    let piece = collect(&chars, start, chars.len());
    proof {
        lemma_split_rest_whole(text@, sep@, start as int);
        assert(text@.skip(start as int) =~= piece@);
    }
    parts.push(piece);
    assert(parts.deep_view() =~= before.push(piece@));
    parts
}

/// The line of `bytes` from position `from` up to `to`, without a carriage return at its end.
fn ended_line(bytes: &[u8], from: usize, to: usize) -> (line: Vec<u8>)
    requires
        from <= to <= bytes@.len(),
    ensures
        line@ == without_cr(bytes@.subrange(from as int, to as int)),
{
    let end = if from < to && bytes[to - 1] == 0x0D {
        to - 1
    } else {
        to
    };
    let line = copy(bytes, from, end);
    assert(line@ =~= without_cr(bytes@.subrange(from as int, to as int)));
    line
}

/// The bytes of `bytes` from position `from` up to `to`.
fn copy(bytes: &[u8], from: usize, to: usize) -> (res: Vec<u8>)
    requires
        from <= to <= bytes@.len(),
    ensures
        res@ == bytes@.subrange(from as int, to as int),
{
    let mut res: Vec<u8> = Vec::new();
    let mut i: usize = from;
    while i < to
        invariant
            from <= i <= to <= bytes@.len(),
            res@ == bytes@.subrange(from as int, i as int),
        decreases to - i,
    {
        res.push(bytes[i]);
        i += 1;
    }
    res
}

/// Splits a byte buffer into its lines.
pub fn split_lines(bytes: &[u8]) -> (res: Vec<Vec<u8>>)
    ensures
        res.deep_view() == lines(bytes@),
{
    let ghost lf = seq![0x0Au8];
    let ghost mut pieces: Seq<Seq<u8>> = seq![];
    let mut res: Vec<Vec<u8>> = Vec::new();
    let mut start: usize = 0;
    let mut i: usize = 0;
    assert(bytes@.skip(0) =~= bytes@);
    assert(pieces + split_on(bytes@.skip(0), lf) =~= split_on(bytes@, lf));
    while i < bytes.len()
        invariant
            lf == seq![0x0Au8],
            start <= i <= bytes@.len(),
            split_on(bytes@, lf) == pieces + split_on(bytes@.skip(start as int), lf),
            res.deep_view() == pieces.map_values(|line: Seq<u8>| without_cr(line)),
            forall|j: int| start <= j < i ==> !occurs_at(bytes@, lf, j),
        decreases bytes@.len() - i,
    {
        if bytes[i] == 0x0A {
            let ghost before = pieces;
            let ghost piece = bytes@.subrange(start as int, i as int);
            let line = ended_line(bytes, start, i);
            proof {
                assert(bytes@.subrange(i as int, i + 1) =~= lf);
                lemma_split_rest_at(bytes@, lf, start as int, i as int);
                pieces = pieces.push(piece);
                assert(pieces + split_on(bytes@.skip(i + 1), lf) =~= before + (seq![piece]
                    + split_on(bytes@.skip(i + 1), lf)));
            }
            let ghost res_before = res.deep_view();
            assert(line.deep_view() =~= line@);
            res.push(line);
            start = i + 1;
            assert(res.deep_view() =~= res_before.push(line@));
            assert(res.deep_view() =~= pieces.map_values(|line: Seq<u8>| without_cr(line)));
        } else {
            assert(bytes@.subrange(i as int, i + 1)[0] != lf[0]);
        }
        i += 1;
    }
    proof {
        let rest = bytes@.skip(start as int);
        lemma_split_rest_whole(bytes@, lf, start as int);
        assert(split_on(bytes@, lf) =~= pieces.push(rest));
        assert(pieces.push(rest).drop_last() =~= pieces);
    }
    if start < bytes.len() {
        let line = copy(bytes, start, bytes.len());
        assert(line.deep_view() =~= bytes@.skip(start as int));
        res.push(line);
    }
    assert(res.deep_view() =~= lines(bytes@));
    res
}

} // verus!

//! Character-level helpers on string slices.

use vstd::prelude::*;
use vstd::std_specs::iter::IteratorSpec;
use vstd::string::*;

verus! {

/// The two parts of `text` around the first occurrence of `delimiter`, which belongs to neither
/// part; `None` where `text` holds no `delimiter`.
pub open spec fn split_first(text: Seq<char>, delimiter: char) -> Option<(Seq<char>, Seq<char>)> {
    match text.index_of_first(delimiter) {
        Some(i) => Some((text.take(i), text.skip(i + 1))),
        None => None,
    }
}

/// An index is the first occurrence of a character once it holds the character and nothing
/// before it does.
pub proof fn lemma_first_occurrence(text: Seq<char>, c: char, i: int)
    requires
        0 <= i < text.len(),
        text[i] == c,
        forall|j: int| 0 <= j < i ==> text[j] != c,
    ensures
        text.index_of_first(c) == Some(i),
{
    text.index_of_first_ensures(c);
}

/// A text without a character has no first occurrence of it.
pub proof fn lemma_no_occurrence(text: Seq<char>, c: char)
    requires
        forall|j: int| 0 <= j < text.len() ==> text[j] != c,
    ensures
        text.index_of_first(c) is None,
{
    text.index_of_first_ensures(c);
}

/// Whether `c` is white space: a character with the Unicode property `White_Space`.
pub open spec fn is_white_space(c: char) -> bool {
    let code = c as u32;
    ||| 0x0009 <= code <= 0x000D
    ||| code == 0x0020
    ||| code == 0x0085
    ||| code == 0x00A0
    ||| code == 0x1680
    ||| 0x2000 <= code <= 0x200A
    ||| code == 0x2028
    ||| code == 0x2029
    ||| code == 0x202F
    ||| code == 0x205F
    ||| code == 0x3000
}

/// `text` without the white space it begins with.
pub open spec fn trim_start(text: Seq<char>) -> Seq<char>
    decreases text.len(),
{
    if text.len() > 0 && is_white_space(text.first()) {
        trim_start(text.drop_first())
    } else {
        text
    }
}

/// `text` without the white space it ends with.
pub open spec fn trim_end(text: Seq<char>) -> Seq<char>
    decreases text.len(),
{
    if text.len() > 0 && is_white_space(text.last()) {
        trim_end(text.drop_last())
    } else {
        text
    }
}

/// `text` without the white space around it.
pub open spec fn trimmed(text: Seq<char>) -> Seq<char> {
    trim_end(trim_start(text))
}

/// A text that begins with `count` characters of white space and goes on with another
/// character, or ends there, is without them once its start is trimmed.
proof fn lemma_trim_start(text: Seq<char>, count: int)
    requires
        0 <= count <= text.len(),
        forall|i: int| 0 <= i < count ==> is_white_space(#[trigger] text[i]),
        count < text.len() ==> !is_white_space(text[count]),
    ensures
        trim_start(text) == text.skip(count),
    decreases count,
{
    if count > 0 {
        let rest = text.drop_first();
        assert forall|i: int| 0 <= i < count - 1 implies is_white_space(#[trigger] rest[i]) by {
            assert(rest[i] == text[i + 1]);
        }
        lemma_trim_start(rest, count - 1);
    }
}

/// A text whose characters from `solid` on are white space, and whose character before that is
/// not, or which has none before that, keeps its first `solid` characters once its end is
/// trimmed.
proof fn lemma_trim_end(text: Seq<char>, solid: int)
    requires
        0 <= solid <= text.len(),
        forall|i: int| solid <= i < text.len() ==> is_white_space(#[trigger] text[i]),
        0 < solid ==> !is_white_space(text[solid - 1]),
    ensures
        trim_end(text) == text.take(solid),
    decreases text.len() - solid,
{
    if solid < text.len() {
        lemma_trim_end(text.drop_last(), solid);
    }
}

/// Whether `c` is white space.
pub fn white_space(c: char) -> (white: bool)
    ensures
        white == is_white_space(c),
{
    let code = c as u32;
    (0x0009 <= code && code <= 0x000D) || code == 0x0020 || code == 0x0085 || code == 0x00A0
        || code == 0x1680 || (0x2000 <= code && code <= 0x200A) || code == 0x2028 || code
        == 0x2029 || code == 0x202F || code == 0x205F || code == 0x3000
}

/// The part of `text` that is left without the white space around it.
pub fn trim(text: &str) -> (inner: &str)
    ensures
        inner@ == trimmed(text@),
{
    let len = text.unicode_len();
    let mut start: usize = 0;
    let mut end: usize = 0;
    let mut index: usize = 0;
    for c in it: text.chars()
        invariant
            it.seq() == text@,
            len == text@.len(),
            index == it.index(),
            start <= end <= index,
            forall|i: int| 0 <= i < start ==> is_white_space(#[trigger] text@[i]),
            forall|i: int| end <= i < index ==> is_white_space(#[trigger] text@[i]),
            start < end ==> !is_white_space(text@[start as int]) && !is_white_space(
                text@[end - 1],
            ),
            start == end ==> start == index,
    {
        if !white_space(c) {
            end = index + 1;
        } else if start == end {
            start = index + 1;
            end = index + 1;
        }
        index = index + 1;
    }
    proof {
        lemma_trim_start(text@, start as int);
        let rest = text@.skip(start as int);
        assert forall|i: int| end - start <= i < rest.len() implies is_white_space(
            #[trigger] rest[i],
        ) by {
            assert(rest[i] == text@[i + start]);
        }
        lemma_trim_end(rest, end - start);
    }
    text.substring_char(start, end)
}

/// `line` without a carriage return at its end.
pub open spec fn without_carriage_return(line: Seq<char>) -> Seq<char> {
    if line.len() > 0 && line.last() == '\r' {
        line.drop_last()
    } else {
        line
    }
}

/// The lines of `text`: its parts between line feeds, each without a carriage return at its
/// end; a text that ends in a line feed has no empty last line.
pub open spec fn source_lines(text: Seq<char>) -> Seq<Seq<char>>
    decreases text.len(),
    via source_lines_decreases
{
    if text.len() == 0 {
        Seq::empty()
    } else {
        match split_first(text, '\n') {
            Some((line, rest)) => seq![without_carriage_return(line)] + source_lines(rest),
            None => seq![without_carriage_return(text)],
        }
    }
}

#[via_fn]
proof fn source_lines_decreases(text: Seq<char>) {
    text.index_of_first_ensures('\n');
}

/// Whether two string slices hold the same characters.
pub fn same_text(a: &str, b: &str) -> (same: bool)
    ensures
        same == (a@ == b@),
{
    let mut left = a.chars();
    let mut right = b.chars();
    let ghost mut i: int = 0;
    loop
        invariant
            0 <= i <= a@.len(),
            i <= b@.len(),
            left.obeys_prophetic_iter_laws(),
            right.obeys_prophetic_iter_laws(),
            left.remaining() == a@.skip(i),
            right.remaining() == b@.skip(i),
            left.decrease() is Some,
            a@.take(i) == b@.take(i),
        decreases left.decrease()->0,
    {
        let x = left.next();
        let y = right.next();
        match (x, y) {
            (Some(p), Some(q)) => {
                if p != q {
                    return false;
                }
                proof {
                    assert(a@.take(i + 1) =~= a@.take(i).push(a@[i]));
                    assert(b@.take(i + 1) =~= b@.take(i).push(b@[i]));
                    i = i + 1;
                }
            },
            (None, None) => {
                assert(a@ =~= a@.take(i));
                assert(b@ =~= b@.take(i));
                return true;
            },
            _ => {
                return false;
            },
        }
    }
}

/// The last character of `text`, if it has one.
pub fn last_char(text: &str) -> (last: Option<char>)
    ensures
        last == if text@.len() == 0 {
            None
        } else {
            Some(text@.last())
        },
{
    let mut last: Option<char> = None;
    for c in it: text.chars()
        invariant
            it.seq() == text@,
            last == if it.index() == 0 {
                None
            } else {
                Some(text@[it.index() - 1])
            },
    {
        last = Some(c);
    }
    last
}

/// The index of the first occurrence of `c` in `text`.
pub fn find_char(text: &str, c: char) -> (found: Option<usize>)
    ensures
        match found {
            Some(i) => text@.index_of_first(c) == Some(i as int),
            None => text@.index_of_first(c) is None,
        },
{
    let len = text.unicode_len();
    let mut i: usize = 0;
    for x in it: text.chars()
        invariant
            it.seq() == text@,
            len == text@.len(),
            i == it.index(),
            forall|j: int| 0 <= j < i ==> text@[j] != c,
    {
        if x == c {
            proof {
                lemma_first_occurrence(text@, c, i as int);
            }
            return Some(i);
        }
        i = i + 1;
    }
    proof {
        lemma_no_occurrence(text@, c);
    }
    None
}

/// Splits `text` around the first occurrence of `delimiter`.
pub fn split_at_first<'a>(text: &'a str, delimiter: char) -> (parts: Option<(&'a str, &'a str)>)
    ensures
        match parts {
            Some((before, after)) => split_first(text@, delimiter) == Some((before@, after@)),
            None => split_first(text@, delimiter) is None,
        },
{
    match find_char(text, delimiter) {
        Some(i) => {
            proof {
                text@.index_of_first_ensures(delimiter);
            }
            let len = text.unicode_len();
            let before = text.substring_char(0, i);
            let after = text.substring_char(i + 1, len);
            Some((before, after))
        },
        None => None,
    }
}

/// The characters of `text` from `from` up to `to`. Where the caller has found `text` to be
/// ASCII, the part is taken without reading what comes before it.
fn part<'a>(text: &'a str, ascii: bool, from: usize, to: usize) -> (piece: &'a str)
    requires
        ascii ==> text.is_ascii(),
        from <= to <= text@.len(),
    ensures
        piece@ == text@.subrange(from as int, to as int),
{
    if ascii {
        text.substring_ascii(from, to)
    } else {
        text.substring_char(from, to)
    }
}

/// The lines of `text`, each without the white space around it.
pub fn trimmed_lines(text: &str) -> (lines: Vec<String>)
    ensures
        lines.deep_view().len() == source_lines(text@).len(),
        forall|i: int|
            0 <= i < lines.len() ==> lines.deep_view()[i] == trimmed(
                #[trigger] source_lines(text@)[i],
            ),
{
    let ascii = text.is_ascii();
    let len = text.unicode_len();
    let mut lines: Vec<String> = Vec::new();
    let ghost mut heads: Seq<Seq<char>> = Seq::empty();
    let mut start: usize = 0;
    let mut index: usize = 0;
    let mut after_return = false;
    assert(text@.skip(0) =~= text@);
    for c in it: text.chars()
        invariant
            it.seq() == text@,
            len == text@.len(),
            ascii ==> text.is_ascii(),
            index == it.index(),
            start <= index,
            forall|j: int| start <= j < index ==> text@[j] != '\n',
            after_return <==> start < index && text@[index - 1] == '\r',
            heads.len() == lines.len(),
            forall|i: int| 0 <= i < lines.len() ==> (#[trigger] lines[i])@ == trimmed(heads[i]),
            source_lines(text@) == heads + source_lines(text@.skip(start as int)),
    {
        if c == '\n' {
            let end = if after_return {
                index - 1
            } else {
                index
            };
            let line = trim(part(text, ascii, start, end)).to_owned();
            proof {
                let tail = text@.skip(start as int);
                let whole = text@.subrange(start as int, index as int);
                lemma_first_occurrence(tail, '\n', index - start);
                assert(tail.take(index - start) =~= whole);
                assert(tail.skip(index - start + 1) =~= text@.skip(index + 1));
                assert(text@.subrange(start as int, end as int) =~= without_carriage_return(
                    whole,
                ));
                let rest = source_lines(text@.skip(index + 1));
                assert(heads + (seq![without_carriage_return(whole)] + rest) =~= heads.push(
                    without_carriage_return(whole),
                ) + rest);
                heads = heads.push(without_carriage_return(whole));
            }
            lines.push(line);
            start = index + 1;
            after_return = false;
        } else {
            after_return = c == '\r';
        }
        index = index + 1;
    }
    if start < len {
        let end = if after_return {
            len - 1
        } else {
            len
        };
        let line = trim(part(text, ascii, start, end)).to_owned();
        proof {
            let tail = text@.skip(start as int);
            lemma_no_occurrence(tail, '\n');
            assert(tail =~= text@.subrange(start as int, len as int));
            assert(text@.subrange(start as int, end as int) =~= without_carriage_return(tail));
            assert(heads + seq![without_carriage_return(tail)] =~= heads.push(
                without_carriage_return(tail),
            ));
            heads = heads.push(without_carriage_return(tail));
        }
        lines.push(line);
    } else {
        assert(heads + Seq::<Seq<char>>::empty() =~= heads);
    }
    assert forall|i: int| 0 <= i < lines.len() implies lines.deep_view()[i] == trimmed(
        #[trigger] source_lines(text@)[i],
    ) by {
        assert(lines.deep_view()[i] == lines[i]@);
    }
    lines
}

} // verus!

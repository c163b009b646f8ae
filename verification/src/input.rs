//! The input channel: a line as typed becomes a candidate word.

use vstd::prelude::*;

verus! {

/// Whether `c` is white space: the characters to which Unicode gives the
/// property White_Space.
pub open spec fn is_white_space(c: char) -> bool {
    ||| '\u{9}' <= c <= '\u{d}'
    ||| c == ' '
    ||| c == '\u{85}'
    ||| c == '\u{a0}'
    ||| c == '\u{1680}'
    ||| '\u{2000}' <= c <= '\u{200a}'
    ||| c == '\u{2028}'
    ||| c == '\u{2029}'
    ||| c == '\u{202f}'
    ||| c == '\u{205f}'
    ||| c == '\u{3000}'
}

/// `text` without the white space at its start.
pub open spec fn trimmed_start(text: Seq<char>) -> Seq<char>
    decreases text.len(),
{
    if text.len() > 0 && is_white_space(text.first()) {
        trimmed_start(text.drop_first())
    } else {
        text
    }
}

/// `text` without the white space at its end.
pub open spec fn trimmed_end(text: Seq<char>) -> Seq<char>
    decreases text.len(),
{
    if text.len() > 0 && is_white_space(text.last()) {
        trimmed_end(text.drop_last())
    } else {
        text
    }
}

/// `text` without the white space at either end.
pub open spec fn trimmed(text: Seq<char>) -> Seq<char> {
    trimmed_end(trimmed_start(text))
}

/// Cutting the white space off the start leaves what begins at the first
/// character that is none.
proof fn lemma_trimmed_start(text: Seq<char>, start: int)
    requires
        0 <= start <= text.len(),
        forall|k: int| 0 <= k < start ==> is_white_space(#[trigger] text[k]),
        start < text.len() ==> !is_white_space(text[start]),
    ensures
        trimmed_start(text) == text.subrange(start, text.len() as int),
    decreases start,
{
    if start == 0 {
        assert(text.subrange(0, text.len() as int) =~= text);
    } else {
        let rest = text.drop_first();
        assert forall|k: int| 0 <= k < start - 1 implies is_white_space(#[trigger] rest[k]) by {
            assert(rest[k] == text[k + 1]);
        }
        lemma_trimmed_start(rest, start - 1);
        assert(rest.subrange(start - 1, rest.len() as int) =~= text.subrange(
            start,
            text.len() as int,
        ));
    }
}

/// Cutting the white space off the end leaves what stops behind the last
/// character that is none.
proof fn lemma_trimmed_end(text: Seq<char>, end: int)
    requires
        0 <= end <= text.len(),
        forall|k: int| end <= k < text.len() ==> is_white_space(#[trigger] text[k]),
        0 < end ==> !is_white_space(text[end - 1]),
    ensures
        trimmed_end(text) == text.subrange(0, end),
    decreases text.len() - end,
{
    if end == text.len() {
        assert(text.subrange(0, end) =~= text);
    } else {
        let rest = text.drop_last();
        lemma_trimmed_end(rest, end);
        assert(rest.subrange(0, end) =~= text.subrange(0, end));
    }
}

/// Whether `c` is white space.
pub fn is_whitespace(c: char) -> (white: bool)
    ensures
        white == is_white_space(c),
{
    (c >= '\u{9}' && c <= '\u{d}') || c == ' ' || c == '\u{85}' || c == '\u{a0}' || c
        == '\u{1680}' || (c >= '\u{2000}' && c <= '\u{200a}') || c == '\u{2028}' || c
        == '\u{2029}' || c == '\u{202f}' || c == '\u{205f}' || c == '\u{3000}'
}

/// The part of `text` between its first and its last character that is no
/// white space.
pub fn trim(text: &str) -> (inner: &str)
    ensures
        inner@ == trimmed(text@),
{
    let count: usize = text.unicode_len();
    let mut start: usize = 0;
    let mut end: usize = 0;
    let mut index: usize = 0;
    for c in it: text.chars()
        invariant
            count == text@.len(),
            it.seq() == text@,
            index == it.index(),
            start <= end <= index,
            end == 0 ==> start == 0,
            forall|k: int| end <= k < index ==> is_white_space(#[trigger] text@[k]),
            end > 0 ==> !is_white_space(text@[end - 1]),
            end > 0 ==> !is_white_space(text@[start as int]),
            end > 0 ==> forall|k: int| 0 <= k < start ==> is_white_space(#[trigger] text@[k]),
    {
        if !is_whitespace(c) {
            if end == 0 {
                start = index;
            }
            end = index + 1;
        }
        index += 1;
    }
    if end == 0 {
        start = count;
        end = count;
    }
    proof {
        let cut = text@.subrange(start as int, count as int);
        lemma_trimmed_start(text@, start as int);
        if start < end {
            assert forall|k: int| end - start <= k < cut.len() implies is_white_space(
                #[trigger] cut[k],
            ) by {
                assert(cut[k] == text@[k + start]);
            }
            assert(cut[end - start - 1] == text@[end - 1]);
        }
        lemma_trimmed_end(cut, end - start);
        assert(cut.subrange(0, end - start) =~= text@.subrange(start as int, end as int));
    }
    text.substring_char(start, end)
}

/// The upper-case form of `text`, as `str::to_uppercase` of the standard
/// library gives it. It follows the case mappings of Unicode, which fill
/// tables; it depends on the text alone.
pub uninterp spec fn uppercased(text: Seq<char>) -> Seq<char>;

/// Calls `str::to_uppercase`. Trusted: that the string returned is the
/// upper-case form of the argument, which `uppercased` names.
#[verifier::external_body]
pub(crate) fn to_uppercase(text: &str) -> (upper: String)
    ensures
        upper@ == uppercased(text@),
{
    text.to_uppercase()
}

/// What a line as typed stands for: the line without the white space
/// around it, in upper case.
pub fn normalize(line: &str) -> (text: String)
    ensures
        text@ == uppercased(trimmed(line@)),
{
    to_uppercase(trim(line))
}

} // verus!

//! Names as users type them: white space around them and the case of ASCII letters do not count.
use vstd::prelude::*;

verus! {

/// Whether `c` has the Unicode property `White_Space`.
pub open spec fn is_white_space(c: char) -> bool {
    ||| '\u{9}' <= c <= '\u{d}'
    ||| c == '\u{20}'
    ||| c == '\u{85}'
    ||| c == '\u{a0}'
    ||| c == '\u{1680}'
    ||| '\u{2000}' <= c <= '\u{200a}'
    ||| c == '\u{2028}'
    ||| c == '\u{2029}'
    ||| c == '\u{202f}'
    ||| c == '\u{205f}'
    ||| c == '\u{3000}'
}

/// `text` without the white space at its start.
pub open spec fn trim_start(text: Seq<char>) -> Seq<char>
    decreases text.len(),
{
    if text.len() > 0 && is_white_space(text.first()) {
        trim_start(text.drop_first())
    } else {
        text
    }
}

/// `text` without the white space at its end.
pub open spec fn trim_end(text: Seq<char>) -> Seq<char>
    decreases text.len(),
{
    if text.len() > 0 && is_white_space(text.last()) {
        trim_end(text.drop_last())
    } else {
        text
    }
}

/// `text` without the white space around it.
pub open spec fn trimmed(text: Seq<char>) -> Seq<char> {
    trim_end(trim_start(text))
}

/// The lower case letter for an upper case letter of ASCII, and any other character as it is.
pub open spec fn lower(c: char) -> char {
    if 'A' <= c <= 'Z' {
        (c as u32 + 32) as char
    } else {
        c
    }
}

/// `text` with its ASCII letters in lower case.
pub open spec fn lowercase(text: Seq<char>) -> Seq<char> {
    text.map_values(|c: char| lower(c))
}

/// The name that a user means by `text`.
pub open spec fn normalized(text: Seq<char>) -> Seq<char> {
    lowercase(trimmed(text))
}

/// `str::trim`: the text without the characters of the Unicode property `White_Space` at its
/// start and its end.
pub assume_specification[ str::trim ](text: &str) -> (result: &str)
    ensures
        result@ == trimmed(text@),
;

/// `str::to_ascii_lowercase`: a copy in which the letters `A` to `Z` are replaced by `a` to `z`
/// and every other character is kept.
pub assume_specification[ str::to_ascii_lowercase ](text: &str) -> (result: String)
    ensures
        result@ == lowercase(text@),
;

/// The name that a user means by `text`.
pub fn normalize(text: &str) -> (name: String)
    ensures
        name@ == normalized(text@),
{
    text.trim().to_ascii_lowercase()
}

/// Whether `name` is the given text.
pub fn is_text(name: &String, text: &str) -> (same: bool)
    ensures
        same == (name@ == text@),
{
    *name == text.to_owned()
}

/// White space before a text changes nothing about what is left of it.
pub proof fn law_trim_ignores_leading(space: Seq<char>, text: Seq<char>)
    requires
        forall|i: int| 0 <= i < space.len() ==> is_white_space(#[trigger] space[i]),
    ensures
        trimmed(space + text) == trimmed(text),
    decreases space.len(),
{
    if space.len() == 0 {
        assert(space + text == text);
    } else {
        assert((space + text).first() == space[0]);
        assert((space + text).drop_first() == space.drop_first() + text);
        law_trim_ignores_leading(space.drop_first(), text);
    }
}

proof fn lemma_trim_end_ignores_trailing(text: Seq<char>, space: Seq<char>)
    requires
        forall|i: int| 0 <= i < space.len() ==> is_white_space(#[trigger] space[i]),
    ensures
        trim_end(text + space) == trim_end(text),
    decreases space.len(),
{
    if space.len() == 0 {
        assert(text + space == text);
    } else {
        assert((text + space).last() == space[space.len() - 1]);
        assert((text + space).drop_last() == text + space.drop_last());
        lemma_trim_end_ignores_trailing(text, space.drop_last());
    }
}

proof fn lemma_trim_start_append(text: Seq<char>, space: Seq<char>)
    requires
        forall|i: int| 0 <= i < space.len() ==> is_white_space(#[trigger] space[i]),
    ensures
        trim_start(text + space) == trim_start(text) + space || {
            &&& trim_start(text) == Seq::<char>::empty()
            &&& trim_start(text + space) == Seq::<char>::empty()
        },
    decreases text.len(),
{
    if text.len() == 0 {
        assert(text + space == space);
        lemma_trim_start_all_space(space);
    } else {
        assert((text + space).first() == text.first());
        if is_white_space(text.first()) {
            assert((text + space).drop_first() == text.drop_first() + space);
            lemma_trim_start_append(text.drop_first(), space);
        }
    }
}

proof fn lemma_trim_start_all_space(space: Seq<char>)
    requires
        forall|i: int| 0 <= i < space.len() ==> is_white_space(#[trigger] space[i]),
    ensures
        trim_start(space) == Seq::<char>::empty(),
    decreases space.len(),
{
    if space.len() > 0 {
        assert(space.first() == space[0]);
        lemma_trim_start_all_space(space.drop_first());
    }
}

/// White space behind a text changes nothing about what is left of it.
pub proof fn law_trim_ignores_trailing(text: Seq<char>, space: Seq<char>)
    requires
        forall|i: int| 0 <= i < space.len() ==> is_white_space(#[trigger] space[i]),
    ensures
        trimmed(text + space) == trimmed(text),
{
    lemma_trim_start_append(text, space);
    lemma_trim_end_ignores_trailing(trim_start(text), space);
}

proof fn lemma_trim_start_lowercase(text: Seq<char>)
    ensures
        trim_start(lowercase(text)) == lowercase(trim_start(text)),
    decreases text.len(),
{
    if text.len() > 0 && is_white_space(text.first()) {
        assert(lowercase(text).drop_first() == lowercase(text.drop_first()));
        lemma_trim_start_lowercase(text.drop_first());
    }
}

proof fn lemma_trim_end_lowercase(text: Seq<char>)
    ensures
        trim_end(lowercase(text)) == lowercase(trim_end(text)),
    decreases text.len(),
{
    if text.len() > 0 && is_white_space(text.last()) {
        assert(lowercase(text).drop_last() == lowercase(text.drop_last()));
        lemma_trim_end_lowercase(text.drop_last());
    }
}

/// Texts that differ only in the case of ASCII letters mean the same name.
pub proof fn law_name_ignores_case(a: Seq<char>, b: Seq<char>)
    requires
        lowercase(a) == lowercase(b),
    ensures
        normalized(a) == normalized(b),
{
    lemma_trim_start_lowercase(a);
    lemma_trim_start_lowercase(b);
    lemma_trim_end_lowercase(trim_start(a));
    lemma_trim_end_lowercase(trim_start(b));
}

/// Texts that differ only in the white space around them mean the same name.
pub proof fn law_name_ignores_space(before: Seq<char>, text: Seq<char>, after: Seq<char>)
    requires
        forall|i: int| 0 <= i < before.len() ==> is_white_space(#[trigger] before[i]),
        forall|i: int| 0 <= i < after.len() ==> is_white_space(#[trigger] after[i]),
    ensures
        normalized(before + text + after) == normalized(text),
{
    law_trim_ignores_trailing(before + text, after);
    law_trim_ignores_leading(before, text);
}

/// A name is the part of a text between the first and the last character that is not white space,
/// with its upper case letters of ASCII replaced by their lower case letters, which are 32 above
/// them, and every other character kept. The result is where that part starts and ends.
pub proof fn law_normalized(text: Seq<char>) -> (cut: (int, int))
    ensures
        ({
            let (start, end) = cut;
            let name = normalized(text);
            &&& 0 <= start <= end <= text.len()
            &&& forall|i: int| 0 <= i < start ==> is_white_space(#[trigger] text[i])
            &&& forall|i: int| end <= i < text.len() ==> is_white_space(#[trigger] text[i])
            &&& start < end ==> !is_white_space(text[start]) && !is_white_space(text[end - 1])
            &&& name.len() == end - start
            &&& forall|k: int|
                0 <= k < name.len() ==> {
                    let c = text[start + k];
                    #[trigger] name[k] as u32 == if 'A' <= c <= 'Z' {
                        c as u32 + 32
                    } else {
                        c as int
                    }
                }
        }),
{
    let start = lemma_trim_start(text);
    let rest = trim_start(text);
    let end = lemma_trim_end(rest);
    assert forall|i: int| start + end <= i < text.len() implies is_white_space(
        #[trigger] text[i],
    ) by {
        assert(rest[i - start] == text[i]);
    }
    if end > 0 {
        assert(rest[0] == text[start]);
        assert(rest[end - 1] == text[start + end - 1]);
    }
    let name = normalized(text);
    assert forall|k: int| 0 <= k < name.len() implies #[trigger] name[k] == lower(
        text[start + k],
    ) by {
        assert(trimmed(text)[k] == rest[k]);
        assert(rest[k] == text[start + k]);
    }
    (start, start + end)
}

proof fn lemma_trim_start(text: Seq<char>) -> (start: int)
    ensures
        0 <= start <= text.len(),
        trim_start(text) == text.skip(start),
        forall|i: int| 0 <= i < start ==> is_white_space(#[trigger] text[i]),
        start < text.len() ==> !is_white_space(text[start]),
    decreases text.len(),
{
    if text.len() > 0 && is_white_space(text.first()) {
        let rest = text.drop_first();
        let start = lemma_trim_start(rest);
        assert forall|i: int| 0 <= i < start + 1 implies is_white_space(#[trigger] text[i]) by {
            if i > 0 {
                assert(rest[i - 1] == text[i]);
            }
        }
        assert(rest.skip(start) == text.skip(start + 1));
        if start + 1 < text.len() {
            assert(rest[start] == text[start + 1]);
        }
        start + 1
    } else {
        assert(text.skip(0) == text);
        0
    }
}

proof fn lemma_trim_end(text: Seq<char>) -> (end: int)
    ensures
        0 <= end <= text.len(),
        trim_end(text) == text.take(end),
        forall|i: int| end <= i < text.len() ==> is_white_space(#[trigger] text[i]),
        end > 0 ==> !is_white_space(text[end - 1]),
    decreases text.len(),
{
    if text.len() > 0 && is_white_space(text.last()) {
        let rest = text.drop_last();
        let end = lemma_trim_end(rest);
        assert forall|i: int| end <= i < text.len() implies is_white_space(#[trigger] text[i]) by {
            if i < rest.len() {
                assert(rest[i] == text[i]);
            }
        }
        assert(rest.take(end) == text.take(end));
        end
    } else {
        assert(text.take(text.len() as int) == text);
        text.len() as int
    }
}

} // verus!

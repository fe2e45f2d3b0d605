//! Operations on text.

use vstd::prelude::*;

verus! {

/// Whether a character is white space, as Unicode has it: the characters with
/// the property `White_Space`.
pub open spec fn white_space(c: char) -> bool {
    let code = c as u32;
    ||| 0x09 <= code <= 0x0d
    ||| code == 0x20
    ||| code == 0x85
    ||| code == 0xa0
    ||| code == 0x1680
    ||| 0x2000 <= code <= 0x200a
    ||| code == 0x2028
    ||| code == 0x2029
    ||| code == 0x202f
    ||| code == 0x205f
    ||| code == 0x3000
}

/// `char::is_whitespace` tells whether a character has Unicode's property
/// `White_Space`.
pub assume_specification[ char::is_whitespace ](c: char) -> (white: bool)
    ensures
        white == white_space(c),
;

/// The text of bytes, with a mark where they are no text.
pub uninterp spec fn lossy(bytes: Seq<u8>) -> Seq<char>;

/// `String::from_utf8_lossy` reads bytes as UTF-8. What comes out depends on
/// the bytes alone, and where they are valid it is what they encode.
#[verifier::external_body]
pub(crate) fn lossy_text(bytes: &Vec<u8>) -> (text: String)
    ensures
        text@ == lossy(bytes@),
        vstd::utf8::valid_utf8(bytes@) ==> vstd::utf8::encode_utf8(text@) == bytes@,
{
    String::from_utf8_lossy(bytes).into_owned()
}

/// A text without the white space in front.
pub open spec fn trimmed_front(text: Seq<char>) -> Seq<char>
    decreases text.len(),
{
    if text.len() > 0 && white_space(text.first()) {
        trimmed_front(text.drop_first())
    } else {
        text
    }
}

/// A text without the white space at its end.
pub open spec fn trimmed_end(text: Seq<char>) -> Seq<char>
    decreases text.len(),
{
    if text.len() > 0 && white_space(text.last()) {
        trimmed_end(text.drop_last())
    } else {
        text
    }
}

/// A text without the white space around it.
pub open spec fn trimmed(text: Seq<char>) -> Seq<char> {
    trimmed_end(trimmed_front(text))
}

/// `pattern` stands somewhere in `text`.
pub open spec fn occurs(text: Seq<char>, pattern: Seq<char>) -> bool {
    exists|i: int| #[trigger] occurs_at(text, pattern, i)
}

/// `pattern` stands in `text` at place `i`.
pub open spec fn occurs_at(text: Seq<char>, pattern: Seq<char>, i: int) -> bool {
    &&& 0 <= i
    &&& i + pattern.len() <= text.len()
    &&& text.subrange(i, i + pattern.len()) == pattern
}

/// Texts one after the other, with a separator between them.
pub open spec fn joined(texts: Seq<Seq<char>>, separator: Seq<char>) -> Seq<char>
    decreases texts.len(),
{
    if texts.len() == 0 {
        Seq::empty()
    } else if texts.len() == 1 {
        texts[0]
    } else {
        joined(texts.drop_last(), separator) + separator + texts.last()
    }
}

/// The texts that a list of strings stands for.
pub open spec fn texts(list: Seq<String>) -> Seq<Seq<char>> {
    list.map_values(|text: String| text@)
}

/// The characters of a text.
fn characters(text: &str) -> (chars: Vec<char>)
    ensures
        chars@ == text@,
{
    let mut chars: Vec<char> = Vec::new();
    for c in it: text.chars()
        invariant
            it.seq() == text@,
            chars@ == text@.take(it.index()),
    {
        chars.push(c);
        assert(chars@ =~= text@.take(it.index() + 1));
    }
    assert(text@.take(text@.len() as int) =~= text@);
    chars
}

/// Copies a list of strings.
pub fn clone_texts(list: &Vec<String>) -> (copy: Vec<String>)
    ensures
        texts(copy@) == texts(list@),
{
    let mut copy: Vec<String> = Vec::new();
    let mut i: usize = 0;
    while i < list.len()
        invariant
            i <= list.len(),
            copy@ == list@.take(i as int),
        decreases list.len() - i,
    {
        copy.push(list[i].clone());
        i += 1;
        assert(copy@ =~= list@.take(i as int));
    }
    assert(list@.take(i as int) =~= list@);
    copy
}

/// Joins texts with a separator between them.
pub fn join(list: &Vec<String>, separator: &str) -> (text: String)
    ensures
        text@ == joined(texts(list@), separator@),
{
    let mut text = String::new();
    let mut i: usize = 0;
    assert(texts(list@).take(0) =~= Seq::<Seq<char>>::empty());
    while i < list.len()
        invariant
            i <= list.len(),
            text@ == joined(texts(list@).take(i as int), separator@),
        decreases list.len() - i,
    {
        proof {
            let more = texts(list@).take(i + 1);
            assert(more.drop_last() =~= texts(list@).take(i as int));
            assert(more.last() == list@[i as int]@);
        }
        if i > 0 {
            text.append(separator);
        }
        text.append(list[i].as_str());
        i += 1;
        assert(text@ =~= joined(texts(list@).take(i as int), separator@));
    }
    assert(texts(list@).take(i as int) =~= texts(list@));
    text
}

/// Tells whether `pattern` stands somewhere in `text`.
pub fn contains(text: &str, pattern: &str) -> (found: bool)
    ensures
        found == occurs(text@, pattern@),
{
    let text_chars = characters(text);
    let pattern_chars = characters(pattern);
    if pattern_chars.len() > text_chars.len() {
        return false;
    }
    let last: usize = text_chars.len() - pattern_chars.len();
    let mut i: usize = 0;
    while i <= last
        invariant
            text_chars@ == text@,
            pattern_chars@ == pattern@,
            pattern_chars.len() <= text_chars.len(),
            last == text_chars.len() - pattern_chars.len(),
            i <= last + 1,
            forall|k: int| 0 <= k < i ==> !#[trigger] occurs_at(text@, pattern@, k),
        decreases last + 1 - i,
    {
        if matches_at(&text_chars, &pattern_chars, i) {
            assert(occurs_at(text@, pattern@, i as int));
            return true;
        }
        if i == last {
            assert(!occurs_at(text@, pattern@, i as int));
            return false;
        }
        i += 1;
    }
    false
}

fn matches_at(text: &Vec<char>, pattern: &Vec<char>, at: usize) -> (found: bool)
    requires
        at + pattern.len() <= text.len(),
    ensures
        found == occurs_at(text@, pattern@, at as int),
{
    let mut j: usize = 0;
    while j < pattern.len()
        invariant
            j <= pattern.len(),
            at + pattern.len() <= text.len(),
            forall|k: int| 0 <= k < j ==> text@[at + k] == pattern@[k],
        decreases pattern.len() - j,
    {
        if text[at + j] != pattern[j] {
            assert(text@.subrange(at as int, at + pattern.len())[j as int] != pattern@[j as int]);
            return false;
        }
        j += 1;
    }
    assert(text@.subrange(at as int, at + pattern.len()) =~= pattern@);
    true
}

/// What follows `prefix` in a text that starts with it.
pub fn strip_prefix(text: &str, prefix: &str) -> (rest: Option<String>)
    ensures
        rest is Some <==> occurs_at(text@, prefix@, 0),
        rest matches Some(rest) ==> rest@ == text@.skip(prefix@.len() as int),
{
    let text_chars = characters(text);
    let prefix_chars = characters(prefix);
    if prefix_chars.len() <= text_chars.len() && matches_at(&text_chars, &prefix_chars, 0) {
        let rest = text.substring_char(prefix_chars.len(), text_chars.len());
        assert(rest@ =~= text@.skip(prefix@.len() as int));
        Some(rest.to_owned())
    } else {
        None
    }
}

/// Takes the white space around a text away.
pub fn trim(text: &str) -> (inner: String)
    ensures
        inner@ == trimmed(text@),
{
    let chars = characters(text);
    let mut from: usize = 0;
    assert(chars@.skip(0) =~= chars@);
    while from < chars.len() && chars[from].is_whitespace()
        invariant
            from <= chars.len(),
            chars@ == text@,
            trimmed_front(text@) == trimmed_front(chars@.skip(from as int)),
        decreases chars.len() - from,
    {
        assert(chars@.skip(from as int).drop_first() =~= chars@.skip(from + 1));
        from += 1;
    }
    let ghost tail = chars@.skip(from as int);
    assert(trimmed_front(text@) == tail);
    let mut to: usize = chars.len();
    assert(chars@.subrange(from as int, to as int) =~= tail);
    while to > from && chars[to - 1].is_whitespace()
        invariant
            from <= to <= chars.len(),
            chars@ == text@,
            trimmed_end(tail) == trimmed_end(chars@.subrange(from as int, to as int)),
        decreases to,
    {
        assert(chars@.subrange(from as int, to as int).drop_last() =~= chars@.subrange(
            from as int,
            to - 1,
        ));
        to -= 1;
    }
    let inner = text.substring_char(from, to);
    assert(inner@ == trimmed_end(tail));
    inner.to_owned()
}

/// Joined texts are the first one, the separator, and the others joined.
pub proof fn law_joining_starts_with_the_first(
    first: Seq<char>,
    others: Seq<Seq<char>>,
    separator: Seq<char>,
)
    ensures
        joined(seq![], separator) == Seq::<char>::empty(),
        joined(seq![first], separator) == first,
        others.len() > 0 ==> joined(seq![first] + others, separator) == first + separator + joined(
            others,
            separator,
        ),
    decreases others.len(),
{
    if others.len() > 0 {
        let whole = seq![first] + others;
        let front = others.drop_last();
        law_joining_starts_with_the_first(first, front, separator);
        assert(whole.drop_last() =~= seq![first] + front);
        assert(whole.last() == others.last());
        if front.len() == 0 {
            assert(seq![first] + front =~= seq![first]);
            assert(others[0] == others.last());
        }
        assert(joined(whole, separator) =~= first + separator + joined(others, separator));
    }
}

/// A pattern stands in a text just where the text is something, the pattern,
/// and something else.
pub proof fn law_patterns_stand_between(text: Seq<char>, pattern: Seq<char>)
    ensures
        occurs(text, pattern) <==> exists|before: Seq<char>, after: Seq<char>|
            text == #[trigger] (before + pattern + after),
{
    if occurs(text, pattern) {
        let i = choose|i: int| #[trigger] occurs_at(text, pattern, i);
        let before = text.take(i);
        let after = text.skip(i + pattern.len());
        assert(text =~= text.take(i) + text.subrange(i, i + pattern.len()) + text.skip(
            i + pattern.len(),
        ));
        assert(text == before + pattern + after);
    }
    if exists|before: Seq<char>, after: Seq<char>| text == #[trigger] (before + pattern + after) {
        let (before, after) = choose|before: Seq<char>, after: Seq<char>|
            text == #[trigger] (before + pattern + after);
        let i = before.len() as int;
        assert(text.subrange(i, i + pattern.len()) =~= pattern);
        assert(occurs_at(text, pattern, i));
    }
}

/// A text stands at the front of another just where that goes on behind it.
pub proof fn law_prefixes_stand_in_front(text: Seq<char>, prefix: Seq<char>)
    ensures
        occurs_at(text, prefix, 0) <==> exists|rest: Seq<char>| text == #[trigger] (prefix + rest),
        forall|rest: Seq<char>| text == #[trigger] (prefix + rest) ==> text.skip(
            prefix.len() as int,
        ) == rest,
{
    if occurs_at(text, prefix, 0) {
        let rest = text.skip(prefix.len() as int);
        assert(text =~= text.subrange(0, prefix.len() as int) + rest);
        assert(text == prefix + rest);
    }
    assert forall|rest: Seq<char>| text == #[trigger] (prefix + rest) implies text.skip(
        prefix.len() as int,
    ) == rest && occurs_at(text, prefix, 0) by {
        assert(text.skip(prefix.len() as int) =~= rest);
        assert(text.subrange(0, prefix.len() as int) =~= prefix);
    }
}

/// Trimming takes white space away at both ends and nothing else, and leaves
/// none of it there.
pub proof fn law_trimming_takes_only_white_space(text: Seq<char>) -> (places: (int, int))
    ensures
        0 <= places.0 <= places.1 <= text.len(),
        trimmed(text) == text.subrange(places.0, places.1),
        forall|i: int| 0 <= i < places.0 ==> white_space(#[trigger] text[i]),
        forall|i: int| places.1 <= i < text.len() ==> white_space(#[trigger] text[i]),
        trimmed(text).len() > 0 ==> !white_space(trimmed(text).first()) && !white_space(
            trimmed(text).last(),
        ),
{
    let from = lemma_trimmed_front(text);
    let tail = text.skip(from);
    let to = lemma_trimmed_end(tail);
    assert(trimmed(text) =~= text.subrange(from, from + to));
    assert forall|i: int| from + to <= i < text.len() implies white_space(#[trigger] text[i]) by {
        assert(tail[i - from] == text[i]);
    }
    if to > 0 {
        assert(trimmed(text).first() == tail.first());
    }
    (from, from + to)
}

proof fn lemma_trimmed_front(text: Seq<char>) -> (from: int)
    ensures
        0 <= from <= text.len(),
        trimmed_front(text) == text.skip(from),
        forall|i: int| 0 <= i < from ==> white_space(#[trigger] text[i]),
        from < text.len() ==> !white_space(text[from]),
    decreases text.len(),
{
    if text.len() > 0 && white_space(text.first()) {
        let rest = text.drop_first();
        let from = lemma_trimmed_front(rest);
        assert(rest.skip(from) =~= text.skip(from + 1));
        assert forall|i: int| 0 <= i < from + 1 implies white_space(#[trigger] text[i]) by {
            if i > 0 {
                assert(white_space(rest[i - 1]));
            }
        }
        from + 1
    } else {
        assert(text.skip(0) =~= text);
        0
    }
}

proof fn lemma_trimmed_end(text: Seq<char>) -> (to: int)
    ensures
        0 <= to <= text.len(),
        trimmed_end(text) == text.take(to),
        forall|i: int| to <= i < text.len() ==> white_space(#[trigger] text[i]),
        to > 0 ==> !white_space(text[to - 1]),
    decreases text.len(),
{
    if text.len() > 0 && white_space(text.last()) {
        let front = text.drop_last();
        let to = lemma_trimmed_end(front);
        assert(front.take(to) =~= text.take(to));
        assert forall|i: int| to <= i < text.len() implies white_space(#[trigger] text[i]) by {
            if i < front.len() {
                assert(white_space(front[i]));
            }
        }
        to
    } else {
        assert(text.take(text.len() as int) =~= text);
        text.len() as int
    }
}

/// A list of strings stands for its texts, one for one.
pub proof fn law_texts_one_for_one(list: Seq<String>)
    ensures
        texts(list).len() == list.len(),
        forall|i: int| 0 <= i < list.len() ==> (#[trigger] texts(list)[i]) == list[i]@,
{
}

} // verus!

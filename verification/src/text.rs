//! Texts as sequences of characters: joining with single spaces, and
//! trimming white space off the ends.

use vstd::prelude::*;

verus! {

/// `String::push` appends one character to the end of the string and leaves
/// the characters already there untouched.
pub assume_specification[ String::push ](text: &mut String, ch: char)
    ensures
        final(text)@ == old(text)@.push(ch),
;

/// `next` written after `text` with one space between them. While `text` is
/// still empty there is nothing to separate, and the result is `next` alone.
pub open spec fn join_two(text: Seq<char>, next: Seq<char>) -> Seq<char> {
    if text.len() == 0 {
        next
    } else {
        text + seq![' '] + next
    }
}

/// The texts written one after another, in order, each joined to what stands
/// before it by `join_two`.
pub open spec fn joined(texts: Seq<Seq<char>>) -> Seq<char>
    decreases texts.len(),
{
    if texts.len() == 0 {
        Seq::empty()
    } else {
        join_two(joined(texts.drop_last()), texts.last())
    }
}

/// The texts written one after another with one space between each two.
pub open spec fn spaced(texts: Seq<Seq<char>>) -> Seq<char>
    decreases texts.len(),
{
    if texts.len() == 0 {
        Seq::empty()
    } else if texts.len() == 1 {
        texts[0]
    } else {
        spaced(texts.drop_last()) + seq![' '] + texts.last()
    }
}

/// As long as no text is empty, joining puts exactly one space between
/// each two texts, and none before the first or after the last.
pub proof fn lemma_joined_is_spaced(texts: Seq<Seq<char>>)
    requires
        forall|i: int| 0 <= i < texts.len() ==> (#[trigger] texts[i]).len() > 0,
    ensures
        joined(texts) == spaced(texts),
        texts.len() > 0 ==> joined(texts).len() > 0,
    decreases texts.len(),
{
    if texts.len() > 0 {
        let shorter = texts.drop_last();
        assert forall|i: int| 0 <= i < shorter.len() implies (#[trigger] shorter[i]).len() > 0 by {
            assert(shorter[i] == texts[i]);
        }
        lemma_joined_is_spaced(shorter);
        if texts.len() == 1 {
            assert(joined(shorter) =~= Seq::<char>::empty());
        }
    }
}

/// Appends `next` to `text`, putting one space before it unless `text` is empty.
pub fn push_joined(text: &mut String, next: &str)
    ensures
        final(text)@ == join_two(old(text)@, next@),
{
    if !text.as_str().is_empty() {
        text.push(' ');
    }
    text.append(next);
    assert(text@ =~= join_two(old(text)@, next@));
}

/// Whether `c` is white space: a character that Unicode marks as
/// `White_Space`, as `char::is_whitespace` decides it.
pub uninterp spec fn white_space(c: char) -> bool;

/// `char::is_whitespace` says whether the character is white space. Which
/// characters those are is fixed by Unicode and is not stated here: the
/// contract only gives the answer its name.
pub assume_specification[ char::is_whitespace ](c: char) -> (white: bool)
    ensures
        white == white_space(c),
;

/// `text` without the white space it begins with.
pub open spec fn trim_start(text: Seq<char>) -> Seq<char>
    decreases text.len(),
{
    if text.len() > 0 && white_space(text.first()) {
        trim_start(text.drop_first())
    } else {
        text
    }
}

/// `text` without the white space it ends with.
pub open spec fn trim_end(text: Seq<char>) -> Seq<char>
    decreases text.len(),
{
    if text.len() > 0 && white_space(text.last()) {
        trim_end(text.drop_last())
    } else {
        text
    }
}

/// `text` without the white space at either end. White space inside the
/// text stays.
pub open spec fn trimmed(text: Seq<char>) -> Seq<char> {
    trim_end(trim_start(text))
}

/// Where the first `k` characters are white space and the next one, if
/// there is one, is not, trimming the start drops exactly those `k`.
pub proof fn lemma_trim_start_at(text: Seq<char>, k: int)
    requires
        0 <= k <= text.len(),
        forall|i: int| 0 <= i < k ==> white_space(#[trigger] text[i]),
        k < text.len() ==> !white_space(text[k]),
    ensures
        trim_start(text) == text.skip(k),
    decreases k,
{
    if k == 0 {
        assert(text.skip(0) =~= text);
    } else {
        let rest = text.drop_first();
        assert forall|i: int| 0 <= i < k - 1 implies white_space(#[trigger] rest[i]) by {
            assert(rest[i] == text[i + 1]);
        }
        lemma_trim_start_at(rest, k - 1);
        assert(rest.skip(k - 1) =~= text.skip(k));
    }
}

/// Where all characters from place `k` on are white space and the one
/// before, if there is one, is not, trimming the end keeps exactly the
/// first `k`.
pub proof fn lemma_trim_end_at(text: Seq<char>, k: int)
    requires
        0 <= k <= text.len(),
        forall|i: int| k <= i < text.len() ==> white_space(#[trigger] text[i]),
        k > 0 ==> !white_space(text[k - 1]),
    ensures
        trim_end(text) == text.take(k),
    decreases text.len() - k,
{
    if k == text.len() {
        assert(text.take(k) =~= text);
    } else {
        let rest = text.drop_last();
        assert forall|i: int| k <= i < rest.len() implies white_space(#[trigger] rest[i]) by {
            assert(rest[i] == text[i]);
        }
        lemma_trim_end_at(rest, k);
        assert(rest.take(k) =~= text.take(k));
    }
}

/// Whether a text is not empty and neither begins nor ends with white
/// space: whether there is nothing to trim off it and something left.
pub open spec fn is_clean(text: Seq<char>) -> bool {
    text.len() > 0 && !white_space(text.first()) && !white_space(text.last())
}

/// Trimming the start leaves an end piece of the text that does not begin
/// with white space.
pub proof fn lemma_trim_start_shape(text: Seq<char>)
    ensures
        trim_start(text).len() <= text.len(),
        trim_start(text) == text.skip(text.len() - trim_start(text).len()),
        trim_start(text).len() > 0 ==> !white_space(trim_start(text).first()),
    decreases text.len(),
{
    if text.len() > 0 && white_space(text.first()) {
        let rest = text.drop_first();
        lemma_trim_start_shape(rest);
        let kept = trim_start(rest);
        assert(rest.skip(rest.len() - kept.len()) =~= text.skip(text.len() - kept.len()));
    } else {
        assert(text.skip(0) =~= text);
    }
}

/// Trimming the end leaves a front piece of the text that does not end
/// with white space.
pub proof fn lemma_trim_end_shape(text: Seq<char>)
    ensures
        trim_end(text).len() <= text.len(),
        trim_end(text) == text.take(trim_end(text).len() as int),
        trim_end(text).len() > 0 ==> !white_space(trim_end(text).last()),
    decreases text.len(),
{
    if text.len() > 0 && white_space(text.last()) {
        let rest = text.drop_last();
        lemma_trim_end_shape(rest);
        let kept = trim_end(rest);
        assert(rest.take(kept.len() as int) =~= text.take(kept.len() as int));
    } else {
        assert(text.take(text.len() as int) =~= text);
    }
}

/// What trimming leaves is clean, unless it is empty.
pub proof fn lemma_trimmed_is_clean(text: Seq<char>)
    ensures
        trimmed(text).len() > 0 ==> is_clean(trimmed(text)),
{
    lemma_trim_start_shape(text);
    lemma_trim_end_shape(trim_start(text));
}

/// Trimming changes nothing in a clean text.
pub proof fn lemma_clean_is_trimmed(text: Seq<char>)
    requires
        is_clean(text),
    ensures
        trimmed(text) == text,
{
}

/// Trimming twice is trimming once.
pub proof fn lemma_trimmed_twice(text: Seq<char>)
    ensures
        trimmed(trimmed(text)) == trimmed(text),
{
    lemma_trimmed_is_clean(text);
    if trimmed(text).len() > 0 {
        lemma_clean_is_trimmed(trimmed(text));
    }
}

/// Joining a clean text onto an empty or a clean one gives a clean text.
pub proof fn lemma_join_two_clean(text: Seq<char>, next: Seq<char>)
    requires
        text.len() == 0 || is_clean(text),
        is_clean(next),
    ensures
        is_clean(join_two(text, next)),
{
}

/// The part of `text` that is left when the white space at both ends is
/// taken away.
pub fn trim<'a>(text: &'a str) -> (out: &'a str)
    ensures
        out@ == trimmed(text@),
{
    let len: usize = text.unicode_len();
    let mut start: usize = 0;
    let mut end: usize = 0;
    let mut place: usize = 0;
    for c in it: text.chars()
        invariant
            it.seq() == text@,
            len == text@.len(),
            place == it.index(),
            start <= end <= place,
            forall|i: int| 0 <= i < start ==> white_space(#[trigger] text@[i]),
            forall|i: int| end <= i < place ==> white_space(#[trigger] text@[i]),
            end == 0 ==> start == 0,
            end > 0 ==> !white_space(text@[start as int]) && !white_space(text@[end - 1]),
    {
        if !c.is_whitespace() {
            if end == 0 {
                start = place;
            }
            end = place + 1;
        }
        place = place + 1;
    }
    proof {
        if end == 0 {
            lemma_trim_start_at(text@, len as int);
            assert(text@.skip(len as int) =~= text@.subrange(0, 0));
        } else {
            let rest = text@.skip(start as int);
            lemma_trim_start_at(text@, start as int);
            assert forall|i: int| end - start <= i < rest.len() implies white_space(
                #[trigger] rest[i],
            ) by {
                assert(rest[i] == text@[i + start]);
            }
            lemma_trim_end_at(rest, end - start);
            assert(rest.take(end - start) =~= text@.subrange(start as int, end as int));
        }
    }
    text.substring_char(start, end)
}

} // verus!

//! Texts: words, prefixes, joining, and numbers written out.
use vstd::prelude::*;

verus! {

/// Whether `char::is_whitespace` holds of a character.
pub uninterp spec fn white_space(c: char) -> bool;

/// What `str::to_lowercase` makes of a text.
pub uninterp spec fn lowercase(text: Seq<char>) -> Seq<char>;

/// How many characters stand before the first one that `stop` holds of.
pub open spec fn run_length(text: Seq<char>, stop: spec_fn(char) -> bool) -> nat
    decreases text.len(),
{
    if text.len() == 0 || stop(text[0]) {
        0
    } else {
        1 + run_length(text.drop_first(), stop)
    }
}

/// Holds of one character.
pub open spec fn is_mark(mark: char) -> spec_fn(char) -> bool {
    |c: char| c == mark
}

/// The text before the first `mark`, and all of it where there is none.
pub open spec fn before(text: Seq<char>, mark: char) -> Seq<char> {
    text.take(run_length(text, is_mark(mark)) as int)
}

/// The first of the words that white space separates.
pub open spec fn first_word(text: Seq<char>) -> Option<Seq<char>> {
    let rest = text.skip(run_length(text, |c: char| !white_space(c)) as int);
    if rest.len() == 0 {
        None
    } else {
        Some(rest.take(run_length(rest, |c: char| white_space(c)) as int))
    }
}

/// Texts one after the other, with a separator between any two.
pub open spec fn joined(parts: Seq<Seq<char>>, separator: Seq<char>) -> Seq<char>
    decreases parts.len(),
{
    if parts.len() == 0 {
        Seq::empty()
    } else if parts.len() == 1 {
        parts[0]
    } else {
        joined(parts.drop_last(), separator) + separator + parts.last()
    }
}

/// The views of texts.
pub open spec fn texts(parts: Seq<String>) -> Seq<Seq<char>> {
    Seq::new(parts.len(), |i: int| parts[i]@)
}

/// Whether a text holds decimal digits alone, and at least one.
pub open spec fn is_digits(text: Seq<char>) -> bool {
    text.len() > 0 && forall|i: int| 0 <= i < text.len() ==> '0' <= #[trigger] text[i] <= '9'
}

/// The number that decimal digits write.
pub open spec fn digits_value(text: Seq<char>) -> int
    decreases text.len(),
{
    if text.len() == 0 {
        0
    } else {
        10 * digits_value(text.drop_last()) + (text.last() as int - '0' as int)
    }
}

/// The number that a text writes: digits, with one sign in front or none.
pub open spec fn written_integer(text: Seq<char>) -> Option<int> {
    if is_digits(text) {
        Some(digits_value(text))
    } else if text.len() > 0 && text[0] == '+' && is_digits(text.drop_first()) {
        Some(digits_value(text.drop_first()))
    } else if text.len() > 0 && text[0] == '-' && is_digits(text.drop_first()) {
        Some(-digits_value(text.drop_first()))
    } else {
        None
    }
}

/// The number that a text writes, where it is an `i64`.
pub open spec fn written_i64(text: Seq<char>) -> Option<i64> {
    match written_integer(text) {
        Some(n) => if i64::MIN <= n <= i64::MAX {
            Some(n as i64)
        } else {
            None
        },
        None => None,
    }
}

/// Whether a character is an ASCII one.
pub open spec fn is_ascii_char(c: char) -> bool {
    c as int <= 0x7f
}

/// An ASCII character in lower case.
pub open spec fn ascii_lowered(c: char) -> char {
    if 'A' <= c <= 'Z' {
        (c as int + 0x20) as char
    } else {
        c
    }
}

/// Whether a text holds ASCII characters alone.
pub open spec fn is_ascii_text(text: Seq<char>) -> bool {
    forall|i: int| 0 <= i < text.len() ==> is_ascii_char(#[trigger] text[i])
}

/// An ASCII text in lower case.
pub open spec fn ascii_text_lowered(text: Seq<char>) -> Seq<char> {
    Seq::new(text.len(), |i: int| ascii_lowered(text[i]))
}

/// `char::is_whitespace`: whether a character has the Unicode property
/// `White_Space`. Of the ASCII characters the blank and those from the tab to the
/// carriage return have it. Which others do is left to the name.
pub assume_specification[ char::is_whitespace ](c: char) -> (r: bool)
    ensures
        r == white_space(c),
        is_ascii_char(c) ==> r == (c as int == 0x20 || 0x09 <= c as int <= 0x0d),
;

/// Calls `str::to_lowercase`: the text with every character in lower case, as
/// Unicode defines it. In an ASCII text that changes the letters from A to Z
/// alone. Every other text is left to the name.
#[verifier::external_body]
pub(crate) fn to_lowercase(text: &str) -> (r: String)
    ensures
        r@ == lowercase(text@),
        is_ascii_text(text@) ==> r@ == ascii_text_lowered(text@),
{
    text.to_lowercase()
}

/// Calls `parse::<i64>` of `str`: the number that decimal digits with at most
/// one sign in front write, and an error for every other text and for a number
/// that is out of range.
#[verifier::external_body]
pub(crate) fn parse_i64(text: &str) -> (r: Option<i64>)
    ensures
        r == written_i64(text@),
{
    match text.parse::<i64>() {
        Ok(n) => Some(n),
        Err(_) => None,
    }
}

/// Whether two texts are the same.
pub(crate) fn same(a: &str, b: &str) -> (r: bool)
    ensures
        r == (a@ == b@),
{
    a.to_owned() == b.to_owned()
}

proof fn lemma_run_length(text: Seq<char>, stop: spec_fn(char) -> bool, n: nat)
    requires
        n <= text.len(),
        forall|i: int| 0 <= i < n ==> !stop(#[trigger] text[i]),
        n == text.len() || stop(text[n as int]),
    ensures
        run_length(text, stop) == n,
    decreases n,
{
    if n > 0 {
        assert(!stop(text[0]));
        let rest = text.drop_first();
        assert forall|i: int| 0 <= i < n - 1 implies !stop(#[trigger] rest[i]) by {
            assert(rest[i] == text[i + 1]);
        }
        lemma_run_length(rest, stop, (n - 1) as nat);
    }
}

/// What stands before the first mark is the same whatever stands behind it.
pub(crate) proof fn lemma_before_mark(start: Seq<char>, mark: char, end: Seq<char>)
    requires
        !start.contains(mark),
    ensures
        before(start + seq![mark] + end, mark) == start,
        before(start, mark) == start,
{
    let text = start + seq![mark] + end;
    assert forall|i: int| 0 <= i < start.len() implies !is_mark(mark)(#[trigger] text[i]) by {
        assert(text[i] == start[i]);
    }
    assert(text[start.len() as int] == mark);
    lemma_run_length(text, is_mark(mark), start.len());
    assert(before(text, mark) =~= start);
    lemma_run_length(start, is_mark(mark), start.len());
    assert(before(start, mark) =~= start);
}

/// The text before the first `mark`.
pub(crate) fn text_before(text: &str, mark: char) -> (r: String)
    ensures
        r@ == before(text@, mark),
{
    let len: usize = text.unicode_len();
    let mut i: usize = 0;
    while i < len && text.get_char(i) != mark
        invariant
            i <= len == text@.len(),
            forall|j: int| 0 <= j < i ==> #[trigger] text@[j] != mark,
        decreases len - i,
    {
        i += 1;
    }
    proof {
        lemma_run_length(text@, is_mark(mark), i as nat);
        assert(text@.subrange(0, i as int) =~= before(text@, mark));
    }
    text.substring_char(0, i).to_owned()
}

/// The first of the words that white space separates.
pub(crate) fn word_at_start(text: &str) -> (r: Option<String>)
    ensures
        match r {
            Some(word) => first_word(text@) == Some(word@),
            None => first_word(text@) is None,
        },
{
    let len: usize = text.unicode_len();
    let mut start: usize = 0;
    while start < len && text.get_char(start).is_whitespace()
        invariant
            start <= len == text@.len(),
            forall|j: int| 0 <= j < start ==> white_space(#[trigger] text@[j]),
        decreases len - start,
    {
        start += 1;
    }
    proof {
        lemma_run_length(text@, |c: char| !white_space(c), start as nat);
    }
    if start == len {
        return None;
    }
    let ghost rest = text@.skip(start as int);
    let mut end: usize = start;
    while end < len && !text.get_char(end).is_whitespace()
        invariant
            start <= end <= len == text@.len(),
            rest == text@.skip(start as int),
            forall|j: int| 0 <= j < end - start ==> !white_space(#[trigger] rest[j]),
        decreases len - end,
    {
        end += 1;
    }
    proof {
        lemma_run_length(rest, |c: char| white_space(c), (end - start) as nat);
        assert(text@.subrange(start as int, end as int) =~= rest.take(end - start));
    }
    Some(text.substring_char(start, end).to_owned())
}

/// Texts one after the other, with a separator between any two.
pub(crate) fn join(parts: &Vec<String>, separator: &str) -> (r: String)
    ensures
        r@ == joined(texts(parts@), separator@),
{
    let mut all: String = String::new();
    let mut i: usize = 0;
    while i < parts.len()
        invariant
            i <= parts@.len(),
            all@ == joined(texts(parts@).take(i as int), separator@),
        decreases parts@.len() - i,
    {
        if i > 0 {
            all.append(separator);
        }
        all.append(parts[i].as_str());
        proof {
            let now = texts(parts@).take(i + 1);
            assert(now.drop_last() =~= texts(parts@).take(i as int));
            if i == 0 {
                assert(all@ =~= now[0]);
            }
        }
        i += 1;
    }
    proof {
        assert(texts(parts@).take(i as int) =~= texts(parts@));
    }
    all
}

/// Two texts, one after the other.
pub(crate) fn followed_by(first: &str, second: &str) -> (r: String)
    ensures
        r@ == first@ + second@,
{
    let mut all: String = first.to_owned();
    all.append(second);
    all
}

/// What stands before the first mark of a text is what the text starts with, whatever
/// stands behind the mark, and all of a text without one.
pub proof fn law_before_mark(start: Seq<char>, mark: char, end: Seq<char>)
    requires
        !start.contains(mark),
    ensures
        before(start + seq![mark] + end, mark) == start,
        before(start, mark) == start,
{
    lemma_before_mark(start, mark, end);
}

/// The first word of a text is what stands behind the white space at its start, up
/// to the next white space or the end.
pub proof fn law_first_word(lead: Seq<char>, word: Seq<char>, tail: Seq<char>)
    requires
        forall|i: int| 0 <= i < lead.len() ==> white_space(#[trigger] lead[i]),
        word.len() > 0,
        forall|i: int| 0 <= i < word.len() ==> !white_space(#[trigger] word[i]),
        tail.len() > 0 ==> white_space(tail[0]),
    ensures
        first_word(lead + word + tail) == Some(word),
{
    let text = lead + word + tail;
    assert forall|i: int| 0 <= i < lead.len() implies white_space(#[trigger] text[i]) by {
        assert(text[i] == lead[i]);
    }
    assert(text[lead.len() as int] == word[0]);
    lemma_run_length(text, |c: char| !white_space(c), lead.len());
    let rest = text.skip(lead.len() as int);
    assert forall|i: int| 0 <= i < word.len() implies !white_space(#[trigger] rest[i]) by {
        assert(rest[i] == word[i]);
    }
    if tail.len() > 0 {
        assert(rest[word.len() as int] == tail[0]);
    }
    lemma_run_length(rest, |c: char| white_space(c), word.len());
    assert(rest.take(word.len() as int) =~= word);
}

/// A text of white space alone has no first word.
pub proof fn law_blank_has_no_word(text: Seq<char>)
    requires
        forall|i: int| 0 <= i < text.len() ==> white_space(#[trigger] text[i]),
    ensures
        first_word(text) is None,
{
    lemma_run_length(text, |c: char| !white_space(c), text.len());
}

/// Joining two lists of texts and putting one separator between them joins all
/// texts. One text is left as it is, and without any there is nothing.
pub proof fn law_joined(
    first: Seq<Seq<char>>,
    second: Seq<Seq<char>>,
    separator: Seq<char>,
    text: Seq<char>,
)
    requires
        first.len() > 0,
        second.len() > 0,
    ensures
        joined(first + second, separator) == joined(first, separator) + separator + joined(
            second,
            separator,
        ),
        joined(seq![text], separator) == text,
        joined(Seq::empty(), separator) == Seq::<char>::empty(),
    decreases second.len(),
{
    let all = first + second;
    assert(all.drop_last() =~= first + second.drop_last());
    assert(all.last() == second.last());
    if second.len() == 1 {
        assert(first + second.drop_last() =~= first);
    } else {
        law_joined(first, second.drop_last(), separator, text);
        assert(joined(all, separator) =~= joined(first, separator) + separator + joined(
            second,
            separator,
        ));
    }
}

} // verus!

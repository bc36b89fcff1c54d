//! Text building blocks.

use vstd::prelude::*;

verus! {

/// [`String::push`] appends one character.
pub assume_specification[ String::push ](text: &mut String, c: char)
    ensures
        final(text)@ == old(text)@.push(c),
;

/// The character of a decimal digit.
pub open spec fn digit(d: nat) -> char {
    (48 + d) as char
}

/// A number in decimal, without leading zeros.
pub open spec fn decimal(n: nat) -> Seq<char>
    decreases n,
{
    if n < 10 {
        seq![digit(n)]
    } else {
        decimal(n / 10).push(digit(n % 10))
    }
}

fn digit_char(d: u64) -> (c: char)
    requires
        d < 10,
    ensures
        c == digit(d as nat),
{
    if d == 0 {
        '0'
    } else if d == 1 {
        '1'
    } else if d == 2 {
        '2'
    } else if d == 3 {
        '3'
    } else if d == 4 {
        '4'
    } else if d == 5 {
        '5'
    } else if d == 6 {
        '6'
    } else if d == 7 {
        '7'
    } else if d == 8 {
        '8'
    } else {
        '9'
    }
}

/// Writes a number in decimal.
pub fn decimal_text(n: u64) -> (text: String)
    ensures
        text@ == decimal(n as nat),
    decreases n,
{
    let mut text = if n < 10 {
        String::new()
    } else {
        decimal_text(n / 10)
    };
    text.push(digit_char(n % 10));
    assert(n < 10 ==> text@ =~= seq![digit(n as nat)]);
    text
}

/// Joins two pieces of text.
pub fn join2(a: &str, b: &str) -> (text: String)
    ensures
        text@ == a@ + b@,
{
    let mut text = a.to_owned();
    text.append(b);
    text
}

/// Joins three pieces of text.
pub fn join3(a: &str, b: &str, c: &str) -> (text: String)
    ensures
        text@ == a@ + b@ + c@,
{
    let mut text = join2(a, b);
    text.append(c);
    text
}

/// The characters of a text.
pub fn chars_of(text: &str) -> (chars: Vec<char>)
    ensures
        chars@ == text@,
{
    let mut chars: Vec<char> = Vec::new();
    for c in it: text.chars()
        invariant
            it.seq() == text@,
            chars@ == text@.take(it.index()),
    {
        chars.push(c);
        assert(text@.take(it.index() + 1) =~= text@.take(it.index()).push(c));
    }
    assert(text@.take(text@.len() as int) =~= text@);
    chars
}

/// Whether a text starts with another.
pub fn starts_with(text: &str, prefix: &str) -> (r: bool)
    ensures
        r == prefix@.is_prefix_of(text@),
{
    let chars = chars_of(text);
    let wanted = chars_of(prefix);
    if wanted.len() > chars.len() {
        return false;
    }
    let mut i: usize = 0;
    while i < wanted.len()
        invariant
            i <= wanted@.len(),
            wanted@.len() <= chars@.len(),
            chars@ == text@,
            wanted@ == prefix@,
            forall|j: int| 0 <= j < i ==> chars@[j] == wanted@[j],
        decreases wanted@.len() - i,
    {
        if chars[i] != wanted[i] {
            assert(prefix@[i as int] != text@.subrange(0, prefix@.len() as int)[i as int]);
            return false;
        }
        i = i + 1;
    }
    assert(prefix@ =~= text@.subrange(0, prefix@.len() as int));
    true
}

/// Whether a character is a control character.
pub open spec fn control(c: char) -> bool {
    c <= '\u{1F}' || '\u{7F}' <= c <= '\u{9F}'
}

/// Whether a character has the `White_Space` property.
pub open spec fn white_space(c: char) -> bool {
    ||| '\u{9}' <= c <= '\u{D}'
    ||| c == ' '
    ||| c == '\u{85}'
    ||| c == '\u{A0}'
    ||| c == '\u{1680}'
    ||| '\u{2000}' <= c <= '\u{200A}'
    ||| c == '\u{2028}'
    ||| c == '\u{2029}'
    ||| c == '\u{202F}'
    ||| c == '\u{205F}'
    ||| c == '\u{3000}'
}

/// Whether a character is a control character.
pub fn is_control(c: char) -> (r: bool)
    ensures
        r == control(c),
{
    c <= '\u{1F}' || ('\u{7F}' <= c && c <= '\u{9F}')
}

/// Whether a character has the `White_Space` property.
pub fn is_white_space(c: char) -> (r: bool)
    ensures
        r == white_space(c),
{
    ('\u{9}' <= c && c <= '\u{D}') || c == ' ' || c == '\u{85}' || c == '\u{A0}' || c == '\u{1680}'
        || ('\u{2000}' <= c && c <= '\u{200A}') || c == '\u{2028}' || c == '\u{2029}' || c
        == '\u{202F}' || c == '\u{205F}' || c == '\u{3000}'
}

/// A text without white space at its start.
pub open spec fn trimmed_left(text: Seq<char>) -> Seq<char>
    decreases text.len(),
{
    if text.len() > 0 && white_space(text[0]) {
        trimmed_left(text.skip(1))
    } else {
        text
    }
}

/// A text without white space at its end.
pub open spec fn trimmed_right(text: Seq<char>) -> Seq<char>
    decreases text.len(),
{
    if text.len() > 0 && white_space(text.last()) {
        trimmed_right(text.drop_last())
    } else {
        text
    }
}

/// A text without white space around it.
pub open spec fn trimmed(text: Seq<char>) -> Seq<char> {
    trimmed_right(trimmed_left(text))
}

/// The characters of a text, without white space around it.
pub fn trim(text: &str) -> (chars: Vec<char>)
    ensures
        chars@ == trimmed(text@),
{
    let all = chars_of(text);
    let len: usize = all.len();
    let mut start: usize = 0;
    assert(all@.skip(0) =~= all@);
    while start < len && is_white_space(all[start])
        invariant
            start <= len,
            len == all@.len(),
            trimmed_left(text@) == trimmed_left(all@.skip(start as int)),
        decreases len - start,
    {
        assert(all@.skip(start as int).skip(1) =~= all@.skip(start + 1));
        start = start + 1;
    }
    let ghost left = all@.skip(start as int);
    assert(left == trimmed_left(text@));
    let mut end: usize = len;
    assert(left.take(left.len() as int) =~= left);
    while end > start && is_white_space(all[end - 1])
        invariant
            start <= end <= len,
            len == all@.len(),
            left == all@.skip(start as int),
            trimmed_right(left) == trimmed_right(left.take(end - start)),
        decreases end,
    {
        assert(left.take(end - start).drop_last() =~= left.take(end - start - 1));
        end = end - 1;
    }
    let ghost kept = left.take(end - start);
    assert(kept == trimmed(text@));
    let mut chars: Vec<char> = Vec::new();
    let mut i: usize = start;
    while i < end
        invariant
            start <= i <= end <= all@.len(),
            kept == all@.skip(start as int).take(end - start),
            chars@ == kept.take(i - start),
        decreases end - i,
    {
        chars.push(all[i]);
        assert(kept.take(i + 1 - start) =~= kept.take(i - start).push(all@[i as int]));
        i = i + 1;
    }
    assert(kept.take(end - start) =~= kept);
    chars
}

/// Trimming takes white space off both ends and nothing else: what it takes is
/// white space, and what is left neither starts nor ends with any.
pub proof fn trimming_takes_only_white_space(text: Seq<char>)
    ensures
        ({
            let kept = trimmed(text);
            let from = text.len() - trimmed_left(text).len();
            &&& 0 <= from <= from + kept.len() <= text.len()
            &&& kept == text.subrange(from, from + kept.len())
            &&& forall|i: int| 0 <= i < from ==> white_space(#[trigger] text[i])
            &&& forall|i: int|
                from + kept.len() <= i < text.len() ==> white_space(#[trigger] text[i])
            &&& kept.len() > 0 ==> !white_space(kept[0]) && !white_space(kept.last())
        }),
{
    let left = trimmed_left(text);
    let kept = trimmed(text);
    let from = text.len() - left.len();
    lemma_trimmed_left(text);
    lemma_trimmed_right(left);
    assert(kept =~= text.subrange(from, from + kept.len()));
    assert forall|i: int| from + kept.len() <= i < text.len() implies white_space(
        #[trigger] text[i],
    ) by {
        assert(left[i - from] == text[i]);
    }
}

proof fn lemma_trimmed_left(text: Seq<char>)
    ensures
        ({
            let left = trimmed_left(text);
            let from = text.len() - left.len();
            &&& 0 <= from
            &&& left == text.skip(from)
            &&& forall|i: int| 0 <= i < from ==> white_space(#[trigger] text[i])
            &&& left.len() > 0 ==> !white_space(left[0])
        }),
    decreases text.len(),
{
    if text.len() > 0 && white_space(text[0]) {
        let rest = text.skip(1);
        lemma_trimmed_left(rest);
        let from = text.len() - trimmed_left(text).len();
        assert(text.skip(from) =~= rest.skip(from - 1));
        assert forall|i: int| 0 <= i < from implies white_space(#[trigger] text[i]) by {
            if i > 0 {
                assert(rest[i - 1] == text[i]);
            }
        }
    } else {
        assert(text.skip(0) =~= text);
    }
}

proof fn lemma_trimmed_right(text: Seq<char>)
    ensures
        ({
            let right = trimmed_right(text);
            &&& right.len() <= text.len()
            &&& right == text.take(right.len() as int)
            &&& forall|i: int| right.len() <= i < text.len() ==> white_space(#[trigger] text[i])
            &&& right.len() > 0 ==> !white_space(right.last())
        }),
    decreases text.len(),
{
    if text.len() > 0 && white_space(text.last()) {
        let rest = text.drop_last();
        lemma_trimmed_right(rest);
        let right = trimmed_right(text);
        assert(text.take(right.len() as int) =~= rest.take(right.len() as int));
        assert forall|i: int| right.len() <= i < text.len() implies white_space(
            #[trigger] text[i],
        ) by {
            if i < rest.len() {
                assert(rest[i] == text[i]);
            }
        }
    } else {
        assert(text.take(text.len() as int) =~= text);
    }
}

/// Two numbers written alike are the same number.
pub proof fn decimals_tell_numbers_apart(m: nat, n: nat)
    requires
        decimal(m) == decimal(n),
    ensures
        m == n,
    decreases m,
{
    assert(decimal(m).len() > 0 && decimal(n).len() > 0);
    assert(decimal(m).last() == digit(m % 10));
    assert(decimal(n).last() == digit(n % 10));
    if m < 10 {
        if n >= 10 {
            assert(decimal(n / 10).len() > 0);
        }
    } else {
        assert(decimal(m / 10).len() > 0);
        if n >= 10 {
            assert(decimal(m).drop_last() =~= decimal(m / 10));
            assert(decimal(n).drop_last() =~= decimal(n / 10));
            decimals_tell_numbers_apart(m / 10, n / 10);
        }
    }
}

} // verus!

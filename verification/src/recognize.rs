//! Turning recognised text into a reading: thousands separators are dropped,
//! surrounding white space is trimmed, and what is left must be a decimal
//! number that fits thirty-two bits.

use vstd::prelude::*;
use crate::error::ReadError;

verus! {

/// The thousands separator.
pub open spec fn is_comma(c: char) -> bool {
    c == ','
}

/// A decimal digit, `0` to `9`.
pub open spec fn is_digit(c: char) -> bool {
    48 <= c as u32 <= 57
}

/// A character with the Unicode property `White_Space`.
pub open spec fn is_space(c: char) -> bool {
    let u = c as u32;
    ||| 9 <= u <= 13
    ||| u == 0x20
    ||| u == 0x85
    ||| u == 0xA0
    ||| u == 0x1680
    ||| 0x2000 <= u <= 0x200A
    ||| u == 0x2028
    ||| u == 0x2029
    ||| u == 0x202F
    ||| u == 0x205F
    ||| u == 0x3000
}

/// The value of a digit; zero for any other character.
pub open spec fn digit_value(c: char) -> nat {
    if is_digit(c) {
        (c as u32 - 48) as nat
    } else {
        0
    }
}

/// The text without its commas.
pub open spec fn strip_commas(s: Seq<char>) -> Seq<char>
    decreases s.len(),
{
    if s.len() == 0 {
        s
    } else if is_comma(s.last()) {
        strip_commas(s.drop_last())
    } else {
        strip_commas(s.drop_last()).push(s.last())
    }
}

/// The text without the white space in front of it.
pub open spec fn trim_start(s: Seq<char>) -> Seq<char>
    decreases s.len(),
{
    if s.len() > 0 && is_space(s.first()) {
        trim_start(s.drop_first())
    } else {
        s
    }
}

/// The text without the white space behind it.
pub open spec fn trim_end(s: Seq<char>) -> Seq<char>
    decreases s.len(),
{
    if s.len() > 0 && is_space(s.last()) {
        trim_end(s.drop_last())
    } else {
        s
    }
}

/// The text without the white space around it.
pub open spec fn trim(s: Seq<char>) -> Seq<char> {
    trim_end(trim_start(s))
}

/// Every character is a decimal digit.
pub open spec fn all_digits(s: Seq<char>) -> bool {
    forall|i: int| 0 <= i < s.len() ==> is_digit(#[trigger] s[i])
}

/// The number that a string of digits writes in base ten.
pub open spec fn decimal_value(s: Seq<char>) -> nat
    decreases s.len(),
{
    if s.len() == 0 {
        0
    } else {
        decimal_value(s.drop_last()) * 10 + digit_value(s.last())
    }
}

/// The text that is parsed: commas dropped, then trimmed.
pub open spec fn cleaned(text: Seq<char>) -> Seq<char> {
    trim(strip_commas(text))
}

/// The reading that a recognised text stands for, if it stands for one: the
/// cleaned text is not empty, holds digits only, and its value fits.
pub open spec fn parse_reading(text: Seq<char>) -> Option<u32> {
    let t = cleaned(text);
    if t.len() > 0 && all_digits(t) && decimal_value(t) <= u32::MAX {
        Some(decimal_value(t) as u32)
    } else {
        None
    }
}

/// Decides `is_space`.
pub fn char_is_space(c: char) -> (r: bool)
    ensures
        r == is_space(c),
{
    let u = c as u32;
    (9 <= u && u <= 13) || u == 0x20 || u == 0x85 || u == 0xA0 || u == 0x1680 || (0x2000 <= u
        && u <= 0x200A) || u == 0x2028 || u == 0x2029 || u == 0x202F || u == 0x205F || u == 0x3000
}

/// The value of a prefix never exceeds the value of the whole.
pub proof fn lemma_prefix_value(s: Seq<char>, k: int)
    requires
        0 <= k <= s.len(),
    ensures
        decimal_value(s.take(k)) <= decimal_value(s),
    decreases s.len(),
{
    if k == s.len() {
        assert(s.take(k) =~= s);
    } else {
        lemma_prefix_value(s.drop_last(), k);
        assert(s.drop_last().take(k) =~= s.take(k));
    }
}

/// Appending a character multiplies the value by ten and adds the digit.
pub proof fn lemma_value_step(s: Seq<char>, k: int)
    requires
        0 <= k < s.len(),
    ensures
        decimal_value(s.take(k + 1)) == decimal_value(s.take(k)) * 10 + digit_value(s[k]),
{
    assert(s.take(k + 1).drop_last() =~= s.take(k));
}

/// Dropping the commas keeps every other character.
pub proof fn lemma_strip_keeps(s: Seq<char>, i: int)
    requires
        0 <= i < s.len(),
        !is_comma(s[i]),
    ensures
        strip_commas(s).contains(s[i]),
    decreases s.len(),
{
    let rest = strip_commas(s.drop_last());
    if i == s.len() - 1 {
        assert(rest.push(s.last())[rest.len() as int] == s[i]);
    } else {
        lemma_strip_keeps(s.drop_last(), i);
        let j = choose|j: int| 0 <= j < rest.len() && rest[j] == s[i];
        if !is_comma(s.last()) {
            assert(rest.push(s.last())[j] == s[i]);
        }
    }
}

/// Trimming keeps every character that is not white space.
pub proof fn lemma_trim_keeps(s: Seq<char>, c: char)
    requires
        s.contains(c),
        !is_space(c),
    ensures
        trim(s).contains(c),
{
    lemma_trim_start_keeps(s, c);
    lemma_trim_end_keeps(trim_start(s), c);
}

proof fn lemma_trim_start_keeps(s: Seq<char>, c: char)
    requires
        s.contains(c),
        !is_space(c),
    ensures
        trim_start(s).contains(c),
    decreases s.len(),
{
    if s.len() > 0 && is_space(s.first()) {
        let i = choose|i: int| 0 <= i < s.len() && s[i] == c;
        assert(s.drop_first()[i - 1] == c);
        lemma_trim_start_keeps(s.drop_first(), c);
    }
}

proof fn lemma_trim_end_keeps(s: Seq<char>, c: char)
    requires
        s.contains(c),
        !is_space(c),
    ensures
        trim_end(s).contains(c),
    decreases s.len(),
{
    if s.len() > 0 && is_space(s.last()) {
        let i = choose|i: int| 0 <= i < s.len() && s[i] == c;
        assert(s.drop_last()[i] == c);
        lemma_trim_end_keeps(s.drop_last(), c);
    }
}

/// A text with nothing but commas and white space has no reading.
pub proof fn lemma_blank_is_unparseable(text: Seq<char>)
    requires
        forall|i: int| 0 <= i < text.len() ==> is_comma(#[trigger] text[i]) || is_space(text[i]),
    ensures
        parse_reading(text) is None,
{
    let t = cleaned(text);
    if t.len() > 0 {
        lemma_cleaned_is_trimmed(text);
        lemma_cleaned_comes_from_text(text, 0);
    }
}

/// The empty text has no reading.
pub proof fn lemma_empty_is_unparseable()
    ensures
        parse_reading(Seq::<char>::empty()) is None,
{
    lemma_blank_is_unparseable(Seq::<char>::empty());
}

/// A text that holds anything but digits, commas and white space has no
/// reading.
pub proof fn lemma_stray_character_is_unparseable(text: Seq<char>, i: int)
    requires
        0 <= i < text.len(),
        !is_digit(text[i]),
        !is_comma(text[i]),
        !is_space(text[i]),
    ensures
        parse_reading(text) is None,
{
    lemma_strip_keeps(text, i);
    lemma_trim_keeps(strip_commas(text), text[i]);
    let t = cleaned(text);
    let j = choose|j: int| 0 <= j < t.len() && t[j] == text[i];
    assert(!is_digit(t[j]));
}

/// The cleaned text neither starts nor ends with white space.
pub proof fn lemma_cleaned_is_trimmed(text: Seq<char>)
    ensures
        cleaned(text).len() > 0 ==> !is_space(cleaned(text).first()) && !is_space(
            cleaned(text).last(),
        ),
{
    let s = strip_commas(text);
    lemma_trim_start_shape(s);
    lemma_trim_end_shape(trim_start(s));
}

proof fn lemma_trim_start_shape(s: Seq<char>)
    ensures
        trim_start(s).len() > 0 ==> !is_space(trim_start(s).first()),
        exists|k: int| 0 <= k <= s.len() && trim_start(s) == s.skip(k),
    decreases s.len(),
{
    if s.len() > 0 && is_space(s.first()) {
        lemma_trim_start_shape(s.drop_first());
        let k = choose|k: int|
            0 <= k <= s.drop_first().len() && trim_start(s.drop_first()) == s.drop_first().skip(k);
        assert(s.drop_first().skip(k) =~= s.skip(k + 1));
    } else {
        assert(s.skip(0) =~= s);
    }
}

proof fn lemma_trim_end_shape(s: Seq<char>)
    ensures
        trim_end(s).len() > 0 ==> !is_space(trim_end(s).last()),
        exists|k: int| 0 <= k <= s.len() && trim_end(s) == s.take(k),
    decreases s.len(),
{
    if s.len() > 0 && is_space(s.last()) {
        lemma_trim_end_shape(s.drop_last());
        let k = choose|k: int|
            0 <= k <= s.drop_last().len() && trim_end(s.drop_last()) == s.drop_last().take(k);
        assert(s.drop_last().take(k) =~= s.take(k));
    } else {
        assert(s.take(s.len() as int) =~= s);
    }
}

/// Every character of the stripped text is a character of the text, and
/// none is a comma.
pub proof fn lemma_strip_comes_from_text(s: Seq<char>, j: int)
    requires
        0 <= j < strip_commas(s).len(),
    ensures
        s.contains(strip_commas(s)[j]),
        !is_comma(strip_commas(s)[j]),
    decreases s.len(),
{
    let rest = strip_commas(s.drop_last());
    if s.len() > 0 {
        if j < rest.len() {
            lemma_strip_comes_from_text(s.drop_last(), j);
            let i = choose|i: int| 0 <= i < s.drop_last().len() && s.drop_last()[i] == rest[j];
            assert(s[i] == rest[j]);
        } else {
            assert(s[s.len() - 1] == s.last());
        }
    }
}

/// Every character of the cleaned text is a character of the text, and
/// none is a comma.
pub proof fn lemma_cleaned_comes_from_text(text: Seq<char>, j: int)
    requires
        0 <= j < cleaned(text).len(),
    ensures
        text.contains(cleaned(text)[j]),
        !is_comma(cleaned(text)[j]),
{
    let s = strip_commas(text);
    lemma_trim_start_shape(s);
    lemma_trim_end_shape(trim_start(s));
    let a = choose|k: int| 0 <= k <= s.len() && trim_start(s) == s.skip(k);
    let m = trim_start(s);
    let b = choose|k: int| 0 <= k <= m.len() && trim_end(m) == m.take(k);
    assert(cleaned(text)[j] == s[a + j]);
    lemma_strip_comes_from_text(text, a + j);
}

/// Copies the characters of `text` that are not commas.
fn without_commas(text: &str) -> (kept: Vec<char>)
    ensures
        kept@ == strip_commas(text@),
{
    let n = text.unicode_len();
    let mut kept: Vec<char> = Vec::new();
    let mut i: usize = 0;
    proof {
        assert(text@.take(0) =~= Seq::<char>::empty());
    }
    while i < n
        invariant
            n == text@.len(),
            i <= n,
            kept@ == strip_commas(text@.take(i as int)),
        decreases n - i,
    {
        let c = text.get_char(i);
        proof {
            assert(text@.take(i + 1).drop_last() =~= text@.take(i as int));
        }
        if c != ',' {
            kept.push(c);
        }
        i += 1;
    }
    proof {
        assert(text@.take(n as int) =~= text@);
    }
    kept
}

/// Where the text starts once the white space in front of it is skipped.
fn skip_front(chars: &Vec<char>) -> (start: usize)
    ensures
        start <= chars@.len(),
        trim_start(chars@) == chars@.skip(start as int),
{
    let n = chars.len();
    let mut start: usize = 0;
    proof {
        assert(chars@.skip(0) =~= chars@);
    }
    while start < n && char_is_space(chars[start])
        invariant
            n == chars@.len(),
            start <= n,
            trim_start(chars@) == trim_start(chars@.skip(start as int)),
        decreases n - start,
    {
        proof {
            assert(chars@.skip(start as int).drop_first() =~= chars@.skip(start + 1));
        }
        start += 1;
    }
    start
}

/// Where the text ends once the white space behind it is dropped.
fn skip_back(chars: &Vec<char>, start: usize) -> (end: usize)
    requires
        start <= chars@.len(),
    ensures
        start <= end <= chars@.len(),
        trim_end(chars@.skip(start as int)) == chars@.subrange(start as int, end as int),
{
    let mut end: usize = chars.len();
    proof {
        assert(chars@.skip(start as int) =~= chars@.subrange(start as int, end as int));
    }
    while end > start && char_is_space(chars[end - 1])
        invariant
            start <= end <= chars@.len(),
            trim_end(chars@.skip(start as int)) == trim_end(
                chars@.subrange(start as int, end as int),
            ),
        decreases end - start,
    {
        proof {
            assert(chars@.subrange(start as int, end as int).drop_last() =~= chars@.subrange(
                start as int,
                end - 1,
            ));
        }
        end -= 1;
    }
    end
}

/// Parses the text that the recogniser returned.
///
/// Commas are dropped wherever they stand, white space around the rest is
/// trimmed, and the rest must consist of decimal digits whose value fits
/// thirty-two bits. Anything else, the empty text included, is
/// `UnparseableResult`.
pub fn read_mask(text: &str) -> (out: Result<u32, ReadError>)
    ensures
        out == match parse_reading(text@) {
            Some(v) => Ok::<u32, ReadError>(v),
            None => Err::<u32, ReadError>(ReadError::UnparseableResult),
        },
{
    let kept = without_commas(text);
    let start = skip_front(&kept);
    let end = skip_back(&kept, start);
    let ghost t = kept@.subrange(start as int, end as int);
    assert(t == cleaned(text@));
    if start == end {
        return Err(ReadError::UnparseableResult);
    }
    let mut value: u32 = 0;
    let mut i: usize = start;
    proof {
        assert(t.take(0) =~= Seq::<char>::empty());
    }
    while i < end
        invariant
            start <= i <= end <= kept@.len(),
            t == kept@.subrange(start as int, end as int),
            t == cleaned(text@),
            value == decimal_value(t.take(i - start)),
            forall|k: int| 0 <= k < i - start ==> is_digit(#[trigger] t[k]),
        decreases end - i,
    {
        let c = kept[i];
        let u = c as u32;
        assert(t[i - start] == c);
        if u < 48 || u > 57 {
            assert(!all_digits(t));
            return Err(ReadError::UnparseableResult);
        }
        proof {
            lemma_value_step(t, i - start);
            lemma_prefix_value(t, i - start + 1);
            assert(decimal_value(t.take(i - start + 1)) == value * 10 + (u - 48));
        }
        let digit = u - 48;
        let scaled = match value.checked_mul(10) {
            Some(v) => v,
            None => {
                return Err(ReadError::UnparseableResult);
            },
        };
        value = match scaled.checked_add(digit) {
            Some(v) => v,
            None => {
                return Err(ReadError::UnparseableResult);
            },
        };
        i += 1;
    }
    proof {
        assert(t.take(end - start) =~= t);
    }
    Ok(value)
}

} // verus!

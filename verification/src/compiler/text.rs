//! Taking the texts of declarations apart.

use vstd::prelude::*;
use vstd::string::StrSliceExecFns;

verus! {

/// Whether `text` begins with `prefix`.
pub open spec fn begins_with(text: Seq<char>, prefix: Seq<char>) -> bool {
    prefix.len() <= text.len() && text.subrange(0, prefix.len() as int) == prefix
}

/// `text` without its leading `prefix`; `None` where it does not begin with
/// it.
pub fn strip_prefix<'a>(text: &'a str, prefix: &str) -> (r: Option<&'a str>)
    ensures
        match r {
            Some(rest) => begins_with(text@, prefix@) && rest@ == text@.skip(prefix@.len() as int),
            None => !begins_with(text@, prefix@),
        },
{
    let length = text.unicode_len();
    let count = prefix.unicode_len();
    if count > length {
        return None;
    }
    let mut i: usize = 0;
    while i < count
        invariant
            i <= count <= length,
            length == text@.len(),
            count == prefix@.len(),
            forall|j: int| 0 <= j < i ==> text@[j] == prefix@[j],
        decreases count - i,
    {
        if text.get_char(i) != prefix.get_char(i) {
            assert(text@.subrange(0, count as int)[i as int] != prefix@[i as int]);
            return None;
        }
        i += 1;
    }
    assert(text@.subrange(0, count as int) =~= prefix@);
    let rest = text.substring_char(count, length);
    assert(rest@ =~= text@.skip(count as int));
    Some(rest)
}

/// Where the first colon of `text` stands.
pub open spec fn first_colon(text: Seq<char>) -> Option<int>
    decreases text.len(),
{
    if text.len() == 0 {
        None
    } else if text[0] == ':' {
        Some(0)
    } else {
        match first_colon(text.drop_first()) {
            None => None,
            Some(place) => Some(place + 1),
        }
    }
}

/// The first colon of `text` stands where a colon stands with none before
/// it.
pub proof fn lemma_first_colon(text: Seq<char>, place: int)
    requires
        0 <= place <= text.len(),
        forall|j: int| 0 <= j < place ==> text[j] != ':',
        place < text.len() ==> text[place] == ':',
    ensures
        first_colon(text) == (if place < text.len() {
            Some(place)
        } else {
            None
        }),
    decreases text.len(),
{
    if text.len() > 0 && place > 0 {
        lemma_first_colon(text.drop_first(), place - 1);
    }
}

/// What stands before the first colon of `text`, and what stands behind it;
/// `None` where `text` holds no colon.
pub fn split_at_colon<'a>(text: &'a str) -> (r: Option<(&'a str, &'a str)>)
    ensures
        match first_colon(text@) {
            Some(place) => r matches Some((head, tail)) && head@ == text@.subrange(0, place)
                && tail@ == text@.skip(place + 1),
            None => r is None,
        },
{
    let length = text.unicode_len();
    let mut i: usize = 0;
    while i < length
        invariant
            i <= length,
            length == text@.len(),
            forall|j: int| 0 <= j < i ==> text@[j] != ':',
        decreases length - i,
    {
        if text.get_char(i) == ':' {
            let head = text.substring_char(0, i);
            let tail = text.substring_char(i + 1, length);
            assert(tail@ =~= text@.skip(i + 1));
            proof {
                lemma_first_colon(text@, i as int);
            }
            return Some((head, tail));
        }
        i += 1;
    }
    proof {
        lemma_first_colon(text@, length as int);
    }
    None
}

/// Whether `c` is one of the ten digits.
pub open spec fn is_digit(c: char) -> bool {
    '0' <= c <= '9'
}

/// Whether `digits` holds digits alone.
pub open spec fn all_digits(digits: Seq<char>) -> bool {
    forall|i: int| 0 <= i < digits.len() ==> is_digit(#[trigger] digits[i])
}

/// The number that the digits `digits` spell in base ten.
pub open spec fn digits_value(digits: Seq<char>) -> nat
    decreases digits.len(),
{
    if digits.len() == 0 {
        0
    } else {
        digits_value(digits.drop_last()) * 10 + (digits.last() as nat - '0' as nat) as nat
    }
}

/// The number that `text` spells: one digit or more, with or without a plus
/// sign before them. `None` for any other text.
pub open spec fn number_of(text: Seq<char>) -> Option<nat> {
    let digits = if text.len() > 0 && text[0] == '+' {
        text.drop_first()
    } else {
        text
    };
    if digits.len() > 0 && all_digits(digits) {
        Some(digits_value(digits))
    } else {
        None
    }
}

/// The size that `text` spells, where it spells a number that a `usize`
/// holds.
pub open spec fn size_of(text: Seq<char>) -> Option<usize> {
    match number_of(text) {
        Some(value) => if value <= usize::MAX {
            Some(value as usize)
        } else {
            None
        },
        None => None,
    }
}

/// A longer row of digits spells no smaller a number.
pub proof fn lemma_digits_grow(digits: Seq<char>, count: int)
    requires
        0 <= count <= digits.len(),
    ensures
        digits_value(digits.take(count)) <= digits_value(digits),
    decreases digits.len() - count,
{
    if count < digits.len() {
        lemma_digits_grow(digits, count + 1);
        assert(digits.take(count + 1).drop_last() =~= digits.take(count));
    } else {
        assert(digits.take(count) =~= digits);
    }
}

/// Reads `text` as a size.
pub fn parse_size(text: &str) -> (r: Option<usize>)
    ensures
        r == size_of(text@),
{
    let length = text.unicode_len();
    let first: usize = if length > 0 && text.get_char(0) == '+' {
        1
    } else {
        0
    };
    if first >= length {
        return None;
    }
    let ghost digits = text@.skip(first as int);
    assert(digits =~= if first == 1 {
        text@.drop_first()
    } else {
        text@
    });
    let mut value: usize = 0;
    let mut i: usize = first;
    assert(digits.take(0) =~= Seq::<char>::empty());
    while i < length
        invariant
            first <= i <= length,
            length == text@.len(),
            digits == text@.skip(first as int),
            digits.len() > 0,
            digits == (if text@.len() > 0 && text@[0] == '+' {
                text@.drop_first()
            } else {
                text@
            }),
            forall|j: int| 0 <= j < i - first ==> is_digit(#[trigger] digits[j]),
            value == digits_value(digits.take(i - first)),
        decreases length - i,
    {
        let c = text.get_char(i);
        assert(digits[i - first] == c);
        if !(c >= '0' && c <= '9') {
            proof {
                let spelled = if text@.len() > 0 && text@[0] == '+' {
                    text@.drop_first()
                } else {
                    text@
                };
                assert(!is_digit(spelled[i - first]));
                assert(!all_digits(spelled));
                assert(number_of(text@) is None);
            }
            return None;
        }
        let digit = (c as u32 - '0' as u32) as usize;
        proof {
            assert(digits.take(i - first + 1).drop_last() =~= digits.take(i - first));
            assert(digits.take(i - first + 1).last() == c);
            lemma_digits_grow(digits, i - first + 1);
        }
        if value > (usize::MAX - digit) / 10 {
            assert(digits_value(digits.take(i - first + 1)) > usize::MAX);
            assert(size_of(text@) is None);
            return None;
        }
        value = value * 10 + digit;
        i += 1;
    }
    assert(digits.take(length - first) =~= digits);
    assert(all_digits(digits));
    Some(value)
}

} // verus!

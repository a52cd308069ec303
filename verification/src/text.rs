//! Searching and matching in the bytes of header text.

use vstd::prelude::*;
use vstd::string::*;
use crate::wire::holds_at;

verus! {

/// The bytes of a text of ASCII characters.
pub open spec fn ascii(text: Seq<char>) -> Seq<u8> {
    Seq::new(text.len(), |i: int| text[i] as u8)
}

/// The position of the first `b` in `s` at or behind `from`, or the length
/// of `s` where there is none.
pub open spec fn find_byte(s: Seq<u8>, b: u8, from: int) -> int
    decreases s.len() - from,
{
    if from < 0 || from >= s.len() {
        s.len() as int
    } else if s[from] == b {
        from
    } else {
        find_byte(s, b, from + 1)
    }
}

/// `find_byte` stops at the first `b` and not before.
pub proof fn lemma_find_byte(s: Seq<u8>, b: u8, from: int)
    requires
        0 <= from <= s.len(),
    ensures
        from <= find_byte(s, b, from) <= s.len(),
        find_byte(s, b, from) < s.len() ==> s[find_byte(s, b, from)] == b,
        forall|j: int| from <= j < find_byte(s, b, from) ==> #[trigger] s[j] != b,
    decreases s.len() - from,
{
    if from < s.len() && s[from] != b {
        lemma_find_byte(s, b, from + 1);
    }
}

/// A position with `b`, or the end, is what `find_byte` returns where no
/// `b` stands before it.
pub proof fn lemma_find_byte_is(s: Seq<u8>, b: u8, from: int, at: int)
    requires
        0 <= from <= at <= s.len(),
        at < s.len() ==> s[at] == b,
        forall|j: int| from <= j < at ==> #[trigger] s[j] != b,
    ensures
        find_byte(s, b, from) == at,
    decreases at - from,
{
    if from < at {
        lemma_find_byte_is(s, b, from + 1, at);
    }
}

/// Finds the first `b` in `s` at or behind `from`.
pub(crate) fn find(s: &[u8], b: u8, from: usize) -> (at: usize)
    requires
        from <= s@.len(),
    ensures
        at == find_byte(s@, b, from as int),
        from <= at <= s@.len(),
{
    let mut at = from;
    while at < s.len() && s[at] != b
        invariant
            from <= at <= s@.len(),
            find_byte(s@, b, from as int) == find_byte(s@, b, at as int),
        decreases s@.len() - at,
    {
        at = at + 1;
    }
    at
}

/// Whether `s` holds the ASCII text `tag` from `at` on, and if so the
/// position behind it.
pub(crate) fn match_tag(s: &[u8], at: usize, tag: &str) -> (next: Option<usize>)
    requires
        is_ascii(tag),
    ensures
        match next {
            Some(next) => holds_at(s@, at as int, ascii(tag@)) && next == at + tag@.len(),
            None => !holds_at(s@, at as int, ascii(tag@)),
        },
{
    broadcast use is_ascii_spec_bytes;

    let t = tag.as_bytes();
    assert(t@ =~= ascii(tag@));
    if at > s.len() || t.len() > s.len() - at {
        return None;
    }
    let mut i: usize = 0;
    while i < t.len()
        invariant
            i <= t@.len(),
            at + t@.len() <= s@.len() <= usize::MAX,
            t@ == ascii(tag@),
            forall|j: int| 0 <= j < i ==> s@[at + j] == t@[j],
        decreases t@.len() - i,
    {
        if s[at + i] != t[i] {
            proof {
                let part = s@.subrange(at as int, at + t@.len());
                assert(part[i as int] == s@[at + i]);
            }
            return None;
        }
        i = i + 1;
    }
    assert(s@.subrange(at as int, at + t@.len()) =~= t@);
    Some(at + t.len())
}

/// Whether the bytes of `s` from `from` up to `to` are the ASCII text `tag`.
pub(crate) fn is_token(s: &[u8], from: usize, to: usize, tag: &str) -> (b: bool)
    requires
        is_ascii(tag),
        from <= to <= s@.len(),
    ensures
        b == (s@.subrange(from as int, to as int) == ascii(tag@)),
{
    match match_tag(s, from, tag) {
        Some(next) => next == to,
        None => false,
    }
}

/// Whether `b` is an ASCII digit.
pub open spec fn is_digit(b: u8) -> bool {
    48 <= b && b <= 57
}

/// Whether `s` is made of ASCII digits.
pub open spec fn all_digits(s: Seq<u8>) -> bool {
    forall|i: int| 0 <= i < s.len() ==> is_digit(#[trigger] s[i])
}

/// The number that the digits of `s` write in base ten.
pub open spec fn digits_value(s: Seq<u8>) -> nat
    decreases s.len(),
{
    if s.len() == 0 {
        0
    } else {
        10 * digits_value(s.drop_last()) + (s.last() - 48) as nat
    }
}

/// The number that `s` writes in base ten, where `s` is one digit or more
/// and the number is at most `max`.
pub open spec fn decimal(s: Seq<u8>, max: nat) -> Option<nat> {
    if s.len() > 0 && all_digits(s) && digits_value(s) <= max {
        Some(digits_value(s))
    } else {
        None
    }
}

/// The digits in front write no more than all the digits do.
pub proof fn lemma_digits_prefix(s: Seq<u8>, i: int)
    requires
        all_digits(s),
        0 <= i <= s.len(),
    ensures
        digits_value(s.subrange(0, i)) <= digits_value(s),
    decreases s.len() - i,
{
    if i == s.len() {
        assert(s.subrange(0, i) =~= s);
    } else {
        lemma_digits_prefix(s.drop_last(), i);
        assert(s.drop_last().subrange(0, i) =~= s.subrange(0, i));
    }
}

/// Reads the bytes of `s` from `from` up to `to` as a number in base ten.
pub(crate) fn parse_decimal(s: &[u8], from: usize, to: usize, max: u64) -> (r: Option<u64>)
    requires
        from <= to <= s@.len(),
    ensures
        match decimal(s@.subrange(from as int, to as int), max as nat) {
            Some(n) => r == Some(n as u64),
            None => r is None,
        },
{
    if from == to {
        return None;
    }
    let ghost token = s@.subrange(from as int, to as int);
    let mut value: u64 = 0;
    let mut i: usize = from;
    assert(token.subrange(0, 0) =~= Seq::<u8>::empty());
    while i < to
        invariant
            from <= i <= to <= s@.len(),
            token == s@.subrange(from as int, to as int),
            value == digits_value(token.subrange(0, i - from)),
            all_digits(token.subrange(0, i - from)),
            value <= max,
        decreases to - i,
    {
        let b = s[i];
        let ghost k = i - from;
        assert(token[k] == b);
        if b < 48 || b > 57 {
            return None;
        }
        let d = (b - 48) as u64;
        proof {
            assert(token.subrange(0, k + 1).drop_last() =~= token.subrange(0, k));
            assert(token.subrange(0, k + 1).last() == b);
            assert(all_digits(token.subrange(0, k + 1))) by {
                assert forall|j: int| 0 <= j < k + 1 implies is_digit(
                    #[trigger] token.subrange(0, k + 1)[j],
                ) by {
                    if j < k {
                        assert(token.subrange(0, k)[j] == token.subrange(0, k + 1)[j]);
                    }
                }
            }
        }
        if d > max || value > (max - d) / 10 {
            proof {
                assert(digits_value(token.subrange(0, k + 1)) > max);
                if all_digits(token) {
                    lemma_digits_prefix(token, k + 1);
                }
            }
            return None;
        }
        value = 10 * value + d;
        i = i + 1;
    }
    assert(token.subrange(0, to - from) =~= token);
    Some(value)
}

} // verus!

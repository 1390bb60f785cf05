//! Amounts of money, held in hundredths of the currency unit.

use vstd::prelude::*;
use crate::invoice::payload::{chars_of, find_first, first_index};

verus! {

/// Whether `c` is one of the ten digits.
pub open spec fn is_digit(c: char) -> bool {
    '0' <= c && c <= '9'
}

/// The number that the digit `c` stands for.
pub open spec fn digit_value(c: char) -> int {
    c as u32 - '0' as u32
}

/// Whether `s` holds digits only.
pub open spec fn all_digits(s: Seq<char>) -> bool {
    forall|i: int| 0 <= i < s.len() ==> is_digit(#[trigger] s[i])
}

/// The number that the digits of `s` write in base ten; 0 for none.
pub open spec fn digits_value(s: Seq<char>) -> int
    decreases s.len(),
{
    if s.len() == 0 {
        0
    } else {
        10 * digits_value(s.drop_last()) + digit_value(s.last())
    }
}

/// The hundredths that the digits after the decimal point stand for: the
/// first two count, what follows them is cut off.
pub open spec fn hundredths(fraction: Seq<char>) -> int {
    (if fraction.len() > 0 {
        10 * digit_value(fraction[0])
    } else {
        0
    }) + (if fraction.len() > 1 {
        digit_value(fraction[1])
    } else {
        0
    })
}

/// The digits of `text` before its decimal point.
pub open spec fn whole_part(text: Seq<char>) -> Seq<char> {
    text.take(first_index(text, '.') as int)
}

/// The digits of `text` after its decimal point; none where it has no
/// point.
pub open spec fn fraction_part(text: Seq<char>) -> Seq<char> {
    let point = first_index(text, '.') as int;
    if point < text.len() {
        text.skip(point + 1)
    } else {
        Seq::empty()
    }
}

/// The amount that `text` writes, in hundredths: digits, then optionally a
/// point and more digits, with a digit on at least one side. `None` for any
/// other text, and for an amount above `i64::MAX` hundredths.
pub open spec fn decimal_cents(text: Seq<char>) -> Option<int> {
    let whole = whole_part(text);
    let fraction = fraction_part(text);
    let cents = 100 * digits_value(whole) + hundredths(fraction);
    if all_digits(whole) && all_digits(fraction) && whole.len() + fraction.len() > 0 && cents
        <= i64::MAX {
        Some(cents)
    } else {
        None
    }
}

/// Digits never write a negative number, and a prefix of them never writes
/// a larger one.
pub proof fn lemma_digits_prefix(s: Seq<char>, k: int)
    requires
        all_digits(s),
        0 <= k <= s.len(),
    ensures
        0 <= digits_value(s.take(k)) <= digits_value(s),
    decreases s.len(),
{
    if s.len() == 0 {
        assert(s.take(k) =~= s);
    } else if k == s.len() {
        assert(s.take(k) =~= s);
        lemma_digits_prefix(s.drop_last(), k - 1);
        assert(is_digit(s.last()));
    } else {
        lemma_digits_prefix(s.drop_last(), k);
        assert(s.drop_last().take(k) =~= s.take(k));
        assert(is_digit(s.last()));
        lemma_digits_prefix(s.drop_last(), s.len() - 1);
    }
}

/// An amount that a text writes is not negative.
pub proof fn lemma_decimal_cents_sign(text: Seq<char>)
    ensures
        decimal_cents(text) matches Some(cents) ==> cents >= 0,
{
    let whole = whole_part(text);
    let fraction = fraction_part(text);
    if all_digits(whole) && all_digits(fraction) {
        lemma_digits_prefix(whole, whole.len() as int);
        if fraction.len() > 0 {
            assert(is_digit(fraction[0]));
        }
        if fraction.len() > 1 {
            assert(is_digit(fraction[1]));
        }
    }
}

/// Reads an amount of money, in hundredths.
pub fn parse_cents(text: &str) -> (cents: Option<i64>)
    ensures
        match cents {
            Some(amount) => decimal_cents(text@) == Some(amount as int),
            None => decimal_cents(text@) is None,
        },
{
    let chars = chars_of(text);
    let n: usize = chars.len();
    let point: usize = find_first(&chars, 0, n, '.');
    let ghost whole = whole_part(text@);
    let ghost fraction = fraction_part(text@);
    proof {
        assert(chars@.subrange(0, n as int) =~= text@);
    }
    if n == 0 || (point < n && n == 1) {
        return None;
    }
    let mut i: usize = 0;
    while i < n
        invariant
            chars@ == text@,
            n == chars@.len(),
            point <= n,
            point == first_index(text@, '.'),
            whole == whole_part(text@),
            fraction == fraction_part(text@),
            i <= n,
            forall|k: int| 0 <= k < i && k != point ==> is_digit(#[trigger] chars@[k]),
        decreases n - i,
    {
        if i != point && !(chars[i] >= '0' && chars[i] <= '9') {
            proof {
                if i < point {
                    assert(!is_digit(whole[i as int]));
                } else {
                    assert(!is_digit(fraction[i - point - 1]));
                }
            }
            return None;
        }
        i = i + 1;
    }
    assert(all_digits(whole));
    assert(all_digits(fraction)) by {
        assert forall|k: int| 0 <= k < fraction.len() implies is_digit(#[trigger] fraction[k]) by {
            assert(fraction[k] == chars@[point + 1 + k]);
        }
    }
    let mut value: i128 = 0;
    let mut k: usize = 0;
    assert(whole.take(0) =~= Seq::<char>::empty());
    while k < point
        invariant
            chars@ == text@,
            n == chars@.len(),
            point <= n,
            whole == whole_part(text@),
            whole == chars@.take(point as int),
            all_digits(whole),
            all_digits(fraction),
            k <= point,
            value == digits_value(whole.take(k as int)),
            0 <= value <= i64::MAX,
        decreases point - k,
    {
        proof {
            assert(is_digit(whole[k as int]));
            assert(whole.take(k as int + 1).drop_last() =~= whole.take(k as int));
            lemma_digits_prefix(whole, k as int + 1);
        }
        let digit: i128 = (chars[k] as u32 - '0' as u32) as i128;
        value = 10 * value + digit;
        k = k + 1;
        if value > i64::MAX as i128 {
            proof {
                if fraction.len() > 0 {
                    assert(is_digit(fraction[0]));
                }
                if fraction.len() > 1 {
                    assert(is_digit(fraction[1]));
                }
            }
            return None;
        }
    }
    assert(whole.take(point as int) =~= whole);
    let mut cents: i128 = 100 * value;
    proof {
        if fraction.len() > 0 {
            assert(is_digit(fraction[0]));
            assert(fraction[0] == chars@[point + 1]);
        }
        if fraction.len() > 1 {
            assert(is_digit(fraction[1]));
            assert(fraction[1] == chars@[point + 2]);
        }
    }
    if point < n && point + 1 < n {
        cents = cents + 10 * ((chars[point + 1] as u32 - '0' as u32) as i128);
        if point + 2 < n {
            cents = cents + (chars[point + 2] as u32 - '0' as u32) as i128;
        }
    }
    if cents > i64::MAX as i128 {
        None
    } else {
        Some(cents as i64)
    }
}

} // verus!

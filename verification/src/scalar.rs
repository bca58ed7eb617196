//! Text forms of scalar values: decimal numbers and 64-bit integers.
use vstd::prelude::*;

use crate::text::chars_of;

verus! {

pub open spec fn is_digit(c: char) -> bool {
    '0' <= c <= '9'
}

pub open spec fn all_digits(s: Seq<char>) -> bool {
    s.len() > 0 && forall|i: int| 0 <= i < s.len() ==> is_digit(#[trigger] s[i])
}

/// The text after an optional leading sign character `sign`.
pub open spec fn unsigned_part(s: Seq<char>, sign: char) -> Seq<char> {
    if s.len() > 0 && s[0] == sign {
        s.drop_first()
    } else {
        s
    }
}

/// A decimal number: an optional `-`, digits, and optionally `.` followed by digits.
/// Exponents, a leading `+` and empty digit groups are not decimal text.
pub open spec fn spec_is_decimal_text(s: Seq<char>) -> bool {
    let body = unsigned_part(s, '-');
    all_digits(body) || exists|k: int|
        0 < k < body.len() && body[k] == '.' && all_digits(body.take(k)) && all_digits(
            #[trigger] body.skip(k + 1),
        )
}

fn digits_in(s: &Vec<char>, from: usize, to: usize) -> (r: bool)
    requires
        from <= to <= s@.len(),
    ensures
        r == all_digits(s@.subrange(from as int, to as int)),
{
    if from == to {
        return false;
    }
    let mut i = from;
    while i < to
        invariant
            from <= i <= to <= s@.len(),
            forall|j: int| from <= j < i ==> is_digit(#[trigger] s@[j]),
        decreases to - i,
    {
        if !(s[i] >= '0' && s[i] <= '9') {
            assert(!is_digit(s@.subrange(from as int, to as int)[i - from]));
            return false;
        }
        i = i + 1;
    }
    assert forall|j: int| 0 <= j < (to - from) implies is_digit(
        #[trigger] s@.subrange(from as int, to as int)[j],
    ) by {
        assert(s@.subrange(from as int, to as int)[j] == s@[from + j]);
    }
    true
}

pub fn is_decimal_text(text: &str) -> (r: bool)
    ensures
        r == spec_is_decimal_text(text@),
{
    let chars = chars_of(text);
    let start: usize = if chars.len() > 0 && chars[0] == '-' {
        1
    } else {
        0
    };
    let ghost body = unsigned_part(text@, '-');
    assert(body =~= chars@.subrange(start as int, chars@.len() as int));
    let mut dot: usize = start;
    while dot < chars.len() && chars[dot] != '.'
        invariant
            start <= dot <= chars@.len(),
            forall|j: int| start <= j < dot ==> chars@[j] != '.',
        decreases chars.len() - dot,
    {
        dot = dot + 1;
    }
    if dot == chars.len() {
        let r = digits_in(&chars, start, chars.len());
        proof {
            assert forall|k: int| 0 < k < body.len() && body[k] == '.' implies !(all_digits(
                body.take(k),
            ) && all_digits(#[trigger] body.skip(k + 1))) by {
                assert(body[k] == chars@[start + k]);
            }
        }
        return r;
    }
    let whole = digits_in(&chars, start, dot);
    let fraction = digits_in(&chars, dot + 1, chars.len());
    proof {
        let k = (dot - start) as int;
        assert(body.take(k) =~= chars@.subrange(start as int, dot as int));
        assert(body.skip(k + 1) =~= chars@.subrange(dot + 1, chars@.len() as int));
        assert(!all_digits(body)) by {
            assert(body[k] == '.');
        }
        if whole && fraction {
            assert(body[k] == '.');
        } else {
            assert forall|kk: int| 0 < kk < body.len() && body[kk] == '.' implies !(all_digits(
                body.take(kk),
            ) && all_digits(#[trigger] body.skip(kk + 1))) by {
                if kk < k {
                    assert(body[kk] == chars@[start + kk]);
                } else if kk > k {
                    assert(body.take(kk)[k] == '.');
                }
            }
        }
    }
    whole && fraction
}


/// The value of a string of decimal digits.
pub open spec fn digits_value(s: Seq<char>) -> nat
    decreases s.len(),
{
    if s.len() == 0 {
        0
    } else {
        10 * digits_value(s.drop_last()) + (s.last() as nat - '0' as nat) as nat
    }
}

/// Text that `i64::from_str` accepts: an optional `+` or `-`, then digits whose value
/// lies in the range of `i64`.
pub open spec fn spec_parses_i64(s: Seq<char>) -> bool {
    let negative = s.len() > 0 && s[0] == '-';
    let body = if s.len() > 0 && (s[0] == '-' || s[0] == '+') {
        s.drop_first()
    } else {
        s
    };
    all_digits(body) && if negative {
        digits_value(body) <= 0x8000_0000_0000_0000
    } else {
        digits_value(body) <= 0x7fff_ffff_ffff_ffff
    }
}

pub fn parses_i64(text: &str) -> (r: bool)
    ensures
        r == spec_parses_i64(text@),
{
    let chars = chars_of(text);
    let start: usize = if chars.len() > 0 && (chars[0] == '-' || chars[0] == '+') {
        1
    } else {
        0
    };
    let negative = chars.len() > 0 && chars[0] == '-';
    let ghost body = chars@.subrange(start as int, chars@.len() as int);
    assert(body =~= if text@.len() > 0 && (text@[0] == '-' || text@[0] == '+') {
        text@.drop_first()
    } else {
        text@
    });
    if start == chars.len() {
        return false;
    }
    let cap: u128 = 0x8000_0000_0000_0001;
    let mut value: u128 = 0;
    let mut i: usize = start;
    while i < chars.len()
        invariant
            start <= i <= chars@.len(),
            body == chars@.subrange(start as int, chars@.len() as int),
            body == (if text@.len() > 0 && (text@[0] == '-' || text@[0] == '+') {
                text@.drop_first()
            } else {
                text@
            }),
            cap == 0x8000_0000_0000_0001,
            forall|j: int| start <= j < i ==> is_digit(#[trigger] chars@[j]),
            value <= cap,
            value < cap ==> value == digits_value(chars@.subrange(start as int, i as int)),
            value == cap ==> digits_value(chars@.subrange(start as int, i as int)) >= cap,
        decreases chars.len() - i,
    {
        let c = chars[i];
        if !(c >= '0' && c <= '9') {
            assert(!is_digit(body[i - start]));
            return false;
        }
        let ghost prev = chars@.subrange(start as int, i as int);
        let ghost next = chars@.subrange(start as int, i + 1);
        assert(next.drop_last() =~= prev);
        assert(next.last() == c);
        let digit: u128 = (c as u32 - '0' as u32) as u128;
        assert(digits_value(next) == 10 * digits_value(prev) + digit);
        if value < cap {
            let grown = value * 10 + digit;
            if grown >= cap {
                value = cap;
            } else {
                value = grown;
            }
        }
        i = i + 1;
    }
    assert(chars@.subrange(start as int, chars@.len() as int) == body);
    assert(all_digits(body)) by {
        assert forall|j: int| 0 <= j < body.len() implies is_digit(#[trigger] body[j]) by {
            assert(body[j] == chars@[start + j]);
        }
    }
    if negative {
        value <= 0x8000_0000_0000_0000
    } else {
        value <= 0x7fff_ffff_ffff_ffff
    }
}

} // verus!

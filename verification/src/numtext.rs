//! Decimal text for 64-bit signed integers.
//!
//! `text_of_int` is the mathematical decimal rendering of an integer;
//! `push_int_decimal` appends exactly that text to a `String`.  Going the
//! other way, `is_i64_token` / `int_token_value` say which character
//! sequences are signed decimal literals in range, and `parse_i64_token`
//! decides that exactly.  `lemma_int_text_round_trip` ties the two sides
//! together: the rendering of a value is a valid token denoting the value.

use vstd::prelude::*;
use vstd::string::StringExecFns;

verus! {

/// `c` is one of the ten decimal digit characters.
pub open spec fn is_digit(c: char) -> bool {
    '0' as u32 <= c as u32 && c as u32 <= '9' as u32
}

/// The numeric value of a digit character.
pub open spec fn digit_val(c: char) -> int
    recommends
        is_digit(c),
{
    c as u32 - '0' as u32
}

/// The digit character for a value in `0 ..= 9`.
pub open spec fn digit_char(d: int) -> char
    recommends
        0 <= d <= 9,
{
    if d == 0 {
        '0'
    } else if d == 1 {
        '1'
    } else if d == 2 {
        '2'
    } else if d == 3 {
        '3'
    } else if d == 4 {
        '4'
    } else if d == 5 {
        '5'
    } else if d == 6 {
        '6'
    } else if d == 7 {
        '7'
    } else if d == 8 {
        '8'
    } else {
        '9'
    }
}

/// Every character of `s` is a decimal digit.
pub open spec fn all_digits(s: Seq<char>) -> bool {
    forall|i: int| 0 <= i < s.len() ==> is_digit(#[trigger] s[i])
}

/// The value of a digit string, most significant digit first.
pub open spec fn digits_value(s: Seq<char>) -> int
    recommends
        all_digits(s),
    decreases s.len(),
{
    if s.len() == 0 {
        0
    } else {
        digits_value(s.drop_last()) * 10 + digit_val(s.last())
    }
}

/// The decimal digit string of a non-negative integer, without a sign.
pub open spec fn text_of_nat(n: int) -> Seq<char>
    recommends
        n >= 0,
    decreases n,
{
    if n < 10 {
        seq![digit_char(n)]
    } else {
        text_of_nat(n / 10) + seq![digit_char(n % 10)]
    }
}

/// The decimal text of an integer: a `-` sign for negative values, then the
/// digits of its magnitude.
pub open spec fn text_of_int(v: int) -> Seq<char> {
    if v < 0 {
        seq!['-'] + text_of_nat(-v)
    } else {
        text_of_nat(v)
    }
}

/// `s` is a signed decimal literal: an optional single `+` or `-` sign
/// followed by at least one digit, and nothing else.
pub open spec fn is_int_token(s: Seq<char>) -> bool {
    if s.len() == 0 {
        false
    } else if s[0] == '+' || s[0] == '-' {
        s.len() > 1 && all_digits(s.skip(1))
    } else {
        all_digits(s)
    }
}

/// The integer a signed decimal literal denotes.
pub open spec fn int_token_value(s: Seq<char>) -> int
    recommends
        is_int_token(s),
{
    if s.len() > 0 && s[0] == '-' {
        -digits_value(s.skip(1))
    } else if s.len() > 0 && s[0] == '+' {
        digits_value(s.skip(1))
    } else {
        digits_value(s)
    }
}

/// `s` is a signed decimal literal whose value fits in `i64`.
pub open spec fn is_i64_token(s: Seq<char>) -> bool {
    is_int_token(s) && i64::MIN <= int_token_value(s) <= i64::MAX
}

/// A digit string denotes a non-negative value.
pub proof fn lemma_digits_value_nonneg(s: Seq<char>)
    requires
        all_digits(s),
    ensures
        digits_value(s) >= 0,
    decreases s.len(),
{
    if s.len() > 0 {
        lemma_digits_value_nonneg(s.drop_last());
    }
}

/// Appending one digit multiplies the value by ten and adds the digit.
pub proof fn lemma_digits_value_push(s: Seq<char>, c: char)
    ensures
        digits_value(s.push(c)) == digits_value(s) * 10 + digit_val(c),
{
    assert(s.push(c).drop_last() =~= s);
    assert(s.push(c).last() == c);
}

/// The value of a digit-string prefix never exceeds the whole string's value.
pub proof fn lemma_digits_value_take_le(s: Seq<char>, i: int)
    requires
        all_digits(s),
        0 <= i <= s.len(),
    ensures
        digits_value(s.take(i)) <= digits_value(s),
    decreases s.len() - i,
{
    if i == s.len() {
        assert(s.take(i) =~= s);
    } else {
        assert(s.take(i + 1) =~= s.take(i).push(s[i]));
        lemma_digits_value_push(s.take(i), s[i]);
        assert(all_digits(s.take(i)));
        lemma_digits_value_nonneg(s.take(i));
        lemma_digits_value_take_le(s, i + 1);
    }
}

/// The digit string of a non-negative integer is non-empty, consists of
/// digits only, and denotes that integer.
pub proof fn lemma_text_of_nat(n: int)
    requires
        n >= 0,
    ensures
        text_of_nat(n).len() >= 1,
        all_digits(text_of_nat(n)),
        digits_value(text_of_nat(n)) == n,
    decreases n,
{
    if n < 10 {
        let s = seq![digit_char(n)];
        assert(s.drop_last() =~= Seq::<char>::empty());
        assert(digits_value(s) == digits_value(s.drop_last()) * 10 + digit_val(s.last()));
        assert(digit_val(digit_char(n)) == n);
    } else {
        lemma_text_of_nat(n / 10);
        assert(text_of_nat(n) =~= text_of_nat(n / 10).push(digit_char(n % 10)));
        lemma_digits_value_push(text_of_nat(n / 10), digit_char(n % 10));
        assert(forall|i: int| 0 <= i < text_of_nat(n).len() ==> is_digit(
            #[trigger] text_of_nat(n)[i],
        ));
    }
}

/// The decimal text of an in-range integer is a valid `i64` token and
/// denotes that integer.
pub proof fn lemma_int_text_round_trip(v: int)
    requires
        i64::MIN <= v <= i64::MAX,
    ensures
        is_i64_token(text_of_int(v)),
        int_token_value(text_of_int(v)) == v,
{
    if v < 0 {
        lemma_text_of_nat(-v);
        assert((seq!['-'] + text_of_nat(-v)).skip(1) =~= text_of_nat(-v));
        assert(text_of_int(v)[0] == '-');
    } else {
        lemma_text_of_nat(v);
        assert(text_of_int(v)[0] != '+' && text_of_int(v)[0] != '-');
    }
}

/// No character of an integer's decimal text is a space.
pub proof fn lemma_int_text_no_space(v: int)
    requires
        i64::MIN <= v <= i64::MAX,
    ensures
        text_of_int(v).len() >= 1,
        forall|i: int| 0 <= i < text_of_int(v).len() ==> #[trigger] text_of_int(v)[i] != ' ',
{
    if v < 0 {
        lemma_text_of_nat(-v);
        assert((seq!['-'] + text_of_nat(-v)).skip(1) =~= text_of_nat(-v));
    } else {
        lemma_text_of_nat(v);
    }
}

/// Append one decimal digit character to `out`.
fn push_digit(out: &mut String, d: u64)
    requires
        d < 10,
    ensures
        final(out)@ == old(out)@ + seq![digit_char(d as int)],
{
    let s: &str = if d == 0 {
        "0"
    } else if d == 1 {
        "1"
    } else if d == 2 {
        "2"
    } else if d == 3 {
        "3"
    } else if d == 4 {
        "4"
    } else if d == 5 {
        "5"
    } else if d == 6 {
        "6"
    } else if d == 7 {
        "7"
    } else if d == 8 {
        "8"
    } else {
        "9"
    };
    proof {
        reveal_strlit("0");
        reveal_strlit("1");
        reveal_strlit("2");
        reveal_strlit("3");
        reveal_strlit("4");
        reveal_strlit("5");
        reveal_strlit("6");
        reveal_strlit("7");
        reveal_strlit("8");
        reveal_strlit("9");
        assert(s@ =~= seq![digit_char(d as int)]);
    }
    out.append(s);
}

/// Append the decimal digits of `n` to `out`.
fn push_nat_decimal(out: &mut String, n: u64)
    ensures
        final(out)@ == old(out)@ + text_of_nat(n as int),
    decreases n,
{
    if n >= 10 {
        push_nat_decimal(out, n / 10);
    }
    push_digit(out, n % 10);
    proof {
        if n >= 10 {
            assert(old(out)@ + text_of_nat(n as int) =~= (old(out)@ + text_of_nat(n as int / 10))
                + seq![digit_char(n as int % 10)]);
        }
    }
}

/// Append the decimal text of `v` (sign included) to `out`.
pub fn push_int_decimal(out: &mut String, v: i64)
    ensures
        final(out)@ == old(out)@ + text_of_int(v as int),
{
    if v >= 0 {
        push_nat_decimal(out, v as u64);
    } else {
        out.append("-");
        let mag: u64 = if v == i64::MIN {
            9223372036854775808u64
        } else {
            (-v) as u64
        };
        assert(mag as int == -(v as int));
        push_nat_decimal(out, mag);
        proof {
            reveal_strlit("-");
            assert(old(out)@ + text_of_int(v as int) =~= (old(out)@ + "-"@) + text_of_nat(
                mag as int,
            ));
        }
    }
}

/// Parse a token as a signed 64-bit decimal integer.  Returns `Some`
/// exactly when the token is a signed decimal literal whose value fits,
/// and then returns that value.
pub fn parse_i64_token(t: &str) -> (r: Option<i64>)
    ensures
        match r {
            Some(v) => is_i64_token(t@) && v as int == int_token_value(t@),
            None => !is_i64_token(t@),
        },
{
    let len = t.unicode_len();
    if len == 0 {
        return None;
    }
    let first = t.get_char(0);
    let negative = first == '-';
    let has_sign = negative || first == '+';
    let start: usize = if has_sign {
        1
    } else {
        0
    };
    if start == len {
        // a sign with no digits after it
        return None;
    }
    let ghost digits: Seq<char> = t@.skip(start as int);

    // First pass: every remaining character must be a digit.
    let mut i = start;
    while i < len
        invariant
            start <= i <= len,
            len == t@.len(),
            start == 1 <==> (t@[0] == '+' || t@[0] == '-'),
            start <= 1 < len || start == 0,
            digits == t@.skip(start as int),
            forall|j: int| start <= j < i ==> is_digit(#[trigger] t@[j]),
        decreases len - i,
    {
        let c = t.get_char(i);
        let cu = c as u32;
        if cu < '0' as u32 || cu > '9' as u32 {
            assert(!is_digit(t@[i as int]));
            assert(!is_int_token(t@)) by {
                if start == 1 {
                    assert(digits[i - 1] == t@[i as int]);
                } else {
                    assert(t@[i as int] == t@[i as int]);
                }
            }
            return None;
        }
        i = i + 1;
    }
    assert(forall|j: int| 0 <= j < digits.len() ==> digits[j] == t@[j + start]);
    assert(all_digits(digits));
    assert(is_int_token(t@)) by {
        if start == 0 {
            assert(digits =~= t@);
        }
    }
    assert(int_token_value(t@) == if t@[0] == '-' {
        -digits_value(digits)
    } else {
        digits_value(digits)
    }) by {
        if start == 0 {
            assert(digits =~= t@);
        }
    }

    // Second pass: accumulate the magnitude, watching for overflow.
    let mut acc: u64 = 0;
    let mut k = start;
    while k < len
        invariant
            start <= k <= len,
            len == t@.len(),
            digits == t@.skip(start as int),
            all_digits(digits),
            start < len,
            acc as int == digits_value(digits.take(k - start)),
            is_int_token(t@),
            negative <==> t@[0] == '-',
            int_token_value(t@) == if negative {
                -digits_value(digits)
            } else {
                digits_value(digits)
            },
        decreases len - k,
    {
        let c = t.get_char(k);
        proof {
            assert(digits[k - start] == t@[k as int]);
            assert(is_digit(digits[k - start]));
        }
        let d = (c as u32 - '0' as u32) as u64;
        assert(d as int == digit_val(digits[k - start]));
        proof {
            assert(digits.take(k - start + 1) =~= digits.take(k - start).push(digits[k - start]));
            lemma_digits_value_push(digits.take(k - start), digits[k - start]);
            assert(all_digits(digits.take(k - start + 1)));
        }
        let step = match acc.checked_mul(10) {
            Some(a) => a.checked_add(d),
            None => None,
        };
        match step {
            Some(b) => {
                acc = b;
            },
            None => {
                proof {
                    lemma_digits_value_take_le(digits, k - start + 1);
                    assert(digits_value(digits) > u64::MAX);
                }
                return None;
            },
        }
        k = k + 1;
    }
    assert(digits.take(len - start) =~= digits);
    assert(acc as int == digits_value(digits));

    if negative {
        if acc > 9223372036854775808u64 {
            // more negative than i64::MIN
            return None;
        }
        if acc == 9223372036854775808u64 {
            Some(i64::MIN)
        } else {
            Some(-(acc as i64))
        }
    } else {
        if acc > i64::MAX as u64 {
            return None;
        }
        Some(acc as i64)
    }
}

} // verus!

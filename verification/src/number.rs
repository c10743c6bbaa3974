//! Numbers as the tokenizer reads and writes them: decimal integers of 64
//! bits, and the shape of a floating-point literal.
use vstd::prelude::*;
use crate::chars::{
    all_digits, ascii_lowercase, ascii_lowercase_of, digit_char, is_digit_char, spells,
};

verus! {

/// The value of a decimal digit.
pub open spec fn digit_value(c: char) -> int {
    c as int - 48
}

/// The number that a run of decimal digits writes; 0 for the empty run.
pub open spec fn decimal_value(digits: Seq<char>) -> int
    decreases digits.len(),
{
    if digits.len() == 0 {
        0
    } else {
        10 * decimal_value(digits.drop_last()) + digit_value(digits.last())
    }
}

/// The text begins with `+` or `-`.
pub open spec fn has_sign(text: Seq<char>) -> bool {
    text.len() > 0 && (text[0] == '+' || text[0] == '-')
}

/// The text without its leading sign, if it has one.
pub open spec fn unsigned_part(text: Seq<char>) -> Seq<char> {
    if has_sign(text) {
        text.subrange(1, text.len() as int)
    } else {
        text
    }
}

/// The number that the text writes with its sign, whatever its size.
pub open spec fn signed_value(text: Seq<char>) -> int {
    if text.len() > 0 && text[0] == '-' {
        -decimal_value(unsigned_part(text))
    } else {
        decimal_value(unsigned_part(text))
    }
}

/// The integer that a text denotes: an optional sign, then one or more
/// decimal digits and nothing else, with a value that fits in 64 bits.
pub open spec fn integer_value(text: Seq<char>) -> Option<int> {
    let digits = unsigned_part(text);
    if digits.len() > 0 && all_digits(digits) && i64::MIN <= signed_value(text) <= i64::MAX {
        Some(signed_value(text))
    } else {
        None
    }
}

/// A run of digits never denotes a negative number, and no prefix of it
/// denotes more than the whole.
pub proof fn lemma_decimal_prefix(digits: Seq<char>, k: int)
    requires
        all_digits(digits),
        0 <= k <= digits.len(),
    ensures
        0 <= decimal_value(digits.take(k)) <= decimal_value(digits),
    decreases digits.len(),
{
    if digits.len() == 0 {
        assert(digits.take(k) =~= digits);
    } else if k == digits.len() {
        assert(digits.take(k) =~= digits);
        lemma_decimal_prefix(digits.drop_last(), k - 1);
        assert(digit_char(digits[digits.len() - 1]));
    } else {
        assert(digits.drop_last().take(k) =~= digits.take(k));
        lemma_decimal_prefix(digits.drop_last(), k);
        assert(digit_char(digits[digits.len() - 1]));
    }
}

/// Reads a decimal integer of 64 bits, or reports that the text is none.
pub fn parse_integer(text: &Vec<char>) -> (r: Option<i64>)
    ensures
        match r {
            Some(v) => integer_value(text@) == Some(v as int),
            None => integer_value(text@) is None,
        },
{
    let n = text.len();
    if n == 0 {
        return None;
    }
    let negative = text[0] == '-';
    let start: usize = if text[0] == '-' || text[0] == '+' { 1 } else { 0 };
    if start == n {
        return None;
    }
    let ghost digits = unsigned_part(text@);
    assert(digits =~= text@.subrange(start as int, n as int));
    let mut magnitude: i128 = 0;
    let mut i: usize = start;
    while i < n
        invariant
            start <= i <= n,
            n == text.len(),
            start <= 1,
            digits == text@.subrange(start as int, n as int),
            digits == unsigned_part(text@),
            all_digits(digits.take(i - start)),
            magnitude == decimal_value(digits.take(i - start)),
            0 <= magnitude <= 9223372036854775808,
        decreases n - i,
    {
        let c = text[i];
        assert(c == digits[i - start]);
        if !is_digit_char(c) {
            assert(!all_digits(digits)) by {
                assert(!digit_char(digits[i - start]));
            }
            return None;
        }
        let d: u8 = (c as u8) - 48;
        assert(digits.take(i - start + 1).drop_last() =~= digits.take(i - start));
        assert(digits.take(i - start + 1).last() == c);
        magnitude = magnitude * 10 + (d as i128);
        assert(magnitude == decimal_value(digits.take(i - start + 1)));
        assert(all_digits(digits.take(i - start + 1))) by {
            assert forall|j: int| 0 <= j < i - start + 1 implies digit_char(
                #[trigger] digits.take(i - start + 1)[j],
            ) by {
                if j < i - start {
                    assert(digits.take(i - start + 1)[j] == digits.take(i - start)[j]);
                }
            }
        }
        if magnitude > 9223372036854775808 {
            proof {
                if all_digits(digits) {
                    lemma_decimal_prefix(digits, i - start + 1);
                    assert(decimal_value(digits) > 9223372036854775808);
                }
                assert(integer_value(text@) is None);
            }
            return None;
        }
        i += 1;
    }
    assert(digits.take(n - start) =~= digits);
    let value: i128 = if negative { -magnitude } else { magnitude };
    if value > 9223372036854775807 {
        None
    } else {
        Some(value as i64)
    }
}

/// The character that writes a digit's value.
pub open spec fn digit_of(d: int) -> char {
    ((d + 48) as u8) as char
}

/// A natural number in decimal digits, without leading zeros.
pub open spec fn decimal_text(n: nat) -> Seq<char>
    decreases n,
{
    if n < 10 {
        seq![digit_of(n as int)]
    } else {
        decimal_text(n / 10).push(digit_of((n % 10) as int))
    }
}

/// An integer in decimal digits, with `-` in front where it is negative.
pub open spec fn integer_text(v: int) -> Seq<char> {
    if v < 0 {
        seq!['-'] + decimal_text((-v) as nat)
    } else {
        decimal_text(v as nat)
    }
}

/// Appends a natural number in decimal digits to a text.
fn push_decimal(out: &mut String, n: u64)
    ensures
        final(out)@ == old(out)@ + decimal_text(n as nat),
    decreases n,
{
    if n >= 10 {
        push_decimal(out, n / 10);
    }
    let d: u8 = (n % 10) as u8;
    out.push((d + 48) as char);
    assert(final(out)@ =~= old(out)@ + decimal_text(n as nat));
}

/// Appends an integer in decimal digits to a text.
pub fn push_integer(out: &mut String, v: i64)
    ensures
        final(out)@ == old(out)@ + integer_text(v as int),
{
    if v < 0 {
        out.push('-');
        let magnitude: u64 = (-(v as i128)) as u64;
        push_decimal(out, magnitude);
        assert(final(out)@ =~= old(out)@ + integer_text(v as int));
    } else {
        push_decimal(out, v as u64);
    }
}

/// What `decimal_text` writes is a non-empty run of digits that denotes
/// the number written.
pub proof fn lemma_decimal_text(n: nat)
    ensures
        decimal_text(n).len() > 0,
        all_digits(decimal_text(n)),
        decimal_value(decimal_text(n)) == n,
    decreases n,
{
    if n < 10 {
        let t = decimal_text(n);
        assert(t.drop_last() =~= Seq::<char>::empty());
        assert(decimal_value(t.drop_last()) == 0);
    } else {
        lemma_decimal_text(n / 10);
        let t = decimal_text(n);
        assert(t.drop_last() =~= decimal_text(n / 10));
        assert(t.last() == digit_of((n % 10) as int));
        assert forall|j: int| 0 <= j < t.len() implies digit_char(#[trigger] t[j]) by {
            if j < t.len() - 1 {
                assert(t[j] == decimal_text(n / 10)[j]);
            }
        }
    }
}

/// Reading back what was written gives the same integer: every integer of
/// 64 bits is the value of its own decimal text.
pub proof fn lemma_integer_round_trip(v: int)
    requires
        i64::MIN <= v <= i64::MAX,
    ensures
        integer_value(integer_text(v)) == Some(v),
{
    let text = integer_text(v);
    if v < 0 {
        lemma_decimal_text((-v) as nat);
        assert(text[0] == '-');
        assert(unsigned_part(text) =~= decimal_text((-v) as nat));
    } else {
        lemma_decimal_text(v as nat);
        assert(digit_char(text[0]));
        assert(unsigned_part(text) == text);
    }
}

/// The end of the run of decimal digits that begins at `from`.
pub open spec fn digits_end(text: Seq<char>, from: int) -> int
    decreases text.len() - from,
{
    if 0 <= from < text.len() && digit_char(text[from]) {
        digits_end(text, from + 1)
    } else {
        from
    }
}

/// The text is `e` or `E`, an optional sign, and one or more digits.
pub open spec fn is_exponent(text: Seq<char>) -> bool {
    &&& text.len() > 0
    &&& (text[0] == 'e' || text[0] == 'E')
    &&& {
        let digits = unsigned_part(text.skip(1));
        digits.len() > 0 && all_digits(digits)
    }
}

/// The text is a decimal number: digits, optionally a point and more
/// digits, with at least one digit in all, and optionally an exponent.
pub open spec fn is_decimal_number(text: Seq<char>) -> bool {
    let whole_end = digits_end(text, 0);
    let has_point = whole_end < text.len() && text[whole_end] == '.';
    let mantissa_end = if has_point {
        digits_end(text, whole_end + 1)
    } else {
        whole_end
    };
    let digit_count = if has_point {
        mantissa_end - 1
    } else {
        mantissa_end
    };
    digit_count > 0 && (mantissa_end == text.len() || is_exponent(text.skip(mantissa_end)))
}

/// The text is `inf`, `infinity` or `nan`, in any mix of cases.
pub open spec fn is_special_number(text: Seq<char>) -> bool {
    let lower = ascii_lowercase(text);
    lower == "inf"@ || lower == "infinity"@ || lower == "nan"@
}

/// The text has the form of a floating-point literal, the one that the
/// standard library reads as a number: an optional sign, then a decimal
/// number or one of the three special words.
pub open spec fn is_float_literal(text: Seq<char>) -> bool {
    let body = unsigned_part(text);
    is_decimal_number(body) || is_special_number(body)
}

/// The end of the run of digits that begins at `from`.
fn scan_digits(text: &Vec<char>, from: usize) -> (end: usize)
    requires
        from <= text.len(),
    ensures
        end == digits_end(text@, from as int),
        from <= end <= text.len(),
{
    let mut i: usize = from;
    while i < text.len() && is_digit_char(text[i])
        invariant
            from <= i <= text.len(),
            digits_end(text@, from as int) == digits_end(text@, i as int),
        decreases text.len() - i,
    {
        i += 1;
    }
    i
}

/// Whether the text from `from` on is one or more digits and nothing else.
fn is_digit_run(text: &Vec<char>, from: usize) -> (r: bool)
    requires
        from <= text.len(),
    ensures
        r == {
            let digits = text@.subrange(from as int, text.len() as int);
            digits.len() > 0 && all_digits(digits)
        },
{
    let ghost digits = text@.subrange(from as int, text.len() as int);
    let mut i: usize = from;
    while i < text.len()
        invariant
            from <= i <= text.len(),
            digits == text@.subrange(from as int, text.len() as int),
            forall|j: int| 0 <= j < i - from ==> digit_char(#[trigger] digits[j]),
        decreases text.len() - i,
    {
        if !is_digit_char(text[i]) {
            assert(!digit_char(digits[i - from]));
            return false;
        }
        i += 1;
    }
    from < text.len()
}

/// Whether the text from `from` on is an exponent.
fn is_exponent_at(text: &Vec<char>, from: usize) -> (r: bool)
    requires
        from < text.len(),
    ensures
        r == is_exponent(text@.skip(from as int)),
{
    let ghost tail = text@.skip(from as int);
    assert(tail[0] == text@[from as int]);
    if text[from] != 'e' && text[from] != 'E' {
        return false;
    }
    let ghost after = tail.skip(1);
    let mut start: usize = from + 1;
    if start < text.len() && (text[start] == '+' || text[start] == '-') {
        assert(after[0] == text@[start as int]);
        start += 1;
    } else if start < text.len() {
        assert(after[0] == text@[start as int]);
    }
    assert(unsigned_part(after) =~= text@.subrange(start as int, text.len() as int));
    is_digit_run(text, start)
}

/// Whether the text is a decimal number.
fn is_decimal(text: &Vec<char>) -> (r: bool)
    ensures
        r == is_decimal_number(text@),
{
    let whole_end = scan_digits(text, 0);
    let has_point = whole_end < text.len() && text[whole_end] == '.';
    let mantissa_end = if has_point {
        scan_digits(text, whole_end + 1)
    } else {
        whole_end
    };
    let digit_count = if has_point {
        mantissa_end - 1
    } else {
        mantissa_end
    };
    if digit_count == 0 {
        false
    } else if mantissa_end == text.len() {
        true
    } else {
        is_exponent_at(text, mantissa_end)
    }
}

/// Whether the text is one of the three special words.
fn is_special(text: &Vec<char>) -> (r: bool)
    ensures
        r == is_special_number(text@),
{
    let lower = ascii_lowercase_of(text);
    spells(&lower, "inf") || spells(&lower, "infinity") || spells(&lower, "nan")
}

/// Whether the text has the form of a floating-point literal.
pub fn is_float(text: &Vec<char>) -> (r: bool)
    ensures
        r == is_float_literal(text@),
{
    let signed = text.len() > 0 && (text[0] == '+' || text[0] == '-');
    if signed {
        let mut body: Vec<char> = Vec::new();
        let mut i: usize = 1;
        while i < text.len()
            invariant
                1 <= i <= text.len(),
                body@ == text@.subrange(1, i as int),
            decreases text.len() - i,
        {
            body.push(text[i]);
            assert(body@ =~= text@.subrange(1, i + 1));
            i += 1;
        }
        is_decimal(&body) || is_special(&body)
    } else {
        is_decimal(text) || is_special(text)
    }
}

} // verus!

//! Integers as text and text as integers: decimal rendering, `i64` parsing, and rounded
//! averages.
use vstd::prelude::*;

verus! {

/// The ASCII digit for `d`, which is below ten.
pub open spec fn digit_char(d: int) -> char {
    if d == 0 {
        '0'
    } else if d == 1 {
        '1'
    } else if d == 2 {
        '2'
    } else if d == 3 {
        '3'
    } else if d == 4 {
        '4'
    } else if d == 5 {
        '5'
    } else if d == 6 {
        '6'
    } else if d == 7 {
        '7'
    } else if d == 8 {
        '8'
    } else {
        '9'
    }
}

/// The decimal digits of a natural number, without leading zeros.
pub open spec fn digits(n: nat) -> Seq<char>
    decreases n,
{
    if n < 10 {
        seq![digit_char(n as int)]
    } else {
        digits(n / 10).push(digit_char((n % 10) as int))
    }
}

/// An integer as `Display` writes it: a minus sign for negative numbers, then the digits.
pub open spec fn decimal(n: int) -> Seq<char> {
    if n < 0 {
        seq!['-'] + digits((-n) as nat)
    } else {
        digits(n as nat)
    }
}

/// An integer padded with zeros to at least two digits, as `{:02}` writes a natural number.
pub open spec fn two_digits(n: nat) -> Seq<char> {
    if n < 10 {
        seq!['0', digit_char(n as int)]
    } else {
        digits(n)
    }
}

fn digit_of(d: u64) -> (c: char)
    requires
        d < 10,
    ensures
        c == digit_char(d as int),
{
    match d {
        0 => '0',
        1 => '1',
        2 => '2',
        3 => '3',
        4 => '4',
        5 => '5',
        6 => '6',
        7 => '7',
        8 => '8',
        _ => '9',
    }
}

/// The decimal digits of `n`.
pub fn digits_of(n: u64) -> (r: Vec<char>)
    ensures
        r@ == digits(n as nat),
{
    let mut m = n;
    let mut acc: Vec<char> = Vec::new();
    while m >= 10
        invariant
            digits(n as nat) == digits(m as nat) + acc@,
        decreases m,
    {
        let d = digit_of(m % 10);
        let ghost before = acc@;
        acc.insert(0, d);
        assert(digits(m as nat) == digits((m / 10) as nat).push(d));
        assert(digits(m as nat) + before == digits((m / 10) as nat) + acc@);
        m = m / 10;
    }
    let d = digit_of(m);
    let ghost before = acc@;
    acc.insert(0, d);
    assert(digits(m as nat) + before == acc@);
    acc
}

/// `i64` as `to_string` writes it.
pub fn i64_text(n: i64) -> (r: String)
    ensures
        r@ == decimal(n as int),
{
    let magnitude: u64 = if n < 0 {
        (0i128 - n as i128) as u64
    } else {
        n as u64
    };
    let ds = digits_of(magnitude);
    if n < 0 {
        let mut v: Vec<char> = Vec::new();
        v.push('-');
        let mut i: usize = 0;
        while i < ds.len()
            invariant
                i <= ds@.len(),
                v@ == seq!['-'] + ds@.take(i as int),
            decreases ds.len() - i,
        {
            v.push(ds[i]);
            assert(ds@.take(i as int + 1) == ds@.take(i as int).push(ds@[i as int]));
            i += 1;
        }
        assert(ds@.take(ds@.len() as int) == ds@);
        crate::chars::string_from_chars(v.as_slice())
    } else {
        crate::chars::string_from_chars(ds.as_slice())
    }
}

/// A natural number below a hundred with at least two digits, as `{:02}` writes it.
pub fn two_digit_text(n: u64) -> (r: String)
    requires
        n < 100,
    ensures
        r@ == two_digits(n as nat),
{
    if n < 10 {
        let mut v: Vec<char> = Vec::new();
        v.push('0');
        v.push(digit_of(n));
        crate::chars::string_from_chars(v.as_slice())
    } else {
        let ds = digits_of(n);
        crate::chars::string_from_chars(ds.as_slice())
    }
}

/// Whether `c` is an ASCII digit.
pub open spec fn is_digit(c: char) -> bool {
    '0' <= c && c <= '9'
}

/// The value of a digit character.
pub open spec fn digit_value(c: char) -> int {
    (c as u32) - ('0' as u32)
}

/// The value of a run of digits.
pub open spec fn digits_value(s: Seq<char>) -> int
    decreases s.len(),
{
    if s.len() == 0 {
        0
    } else {
        10 * digits_value(s.drop_last()) + digit_value(s.last())
    }
}

/// Whether every character of `s` is an ASCII digit.
pub open spec fn all_digits(s: Seq<char>) -> bool {
    forall|i: int| 0 <= i < s.len() ==> is_digit(#[trigger] s[i])
}

/// `s` without its leading sign, if it has one.
pub open spec fn unsigned_part(s: Seq<char>) -> Seq<char> {
    if s.len() > 0 && (s[0] == '-' || s[0] == '+') {
        s.drop_first()
    } else {
        s
    }
}

/// What `str::parse::<i64>` gives: an optional sign, then one or more ASCII digits, and a
/// value within `i64`; anything else is an error.
pub open spec fn parsed_i64(s: Seq<char>) -> Option<i64> {
    let body = unsigned_part(s);
    let v = if s.len() > 0 && s[0] == '-' {
        -digits_value(body)
    } else {
        digits_value(body)
    };
    if body.len() > 0 && all_digits(body) && i64::MIN <= v <= i64::MAX {
        Some(v as i64)
    } else {
        None
    }
}

proof fn lemma_digits_value_grows(s: Seq<char>, n: int)
    requires
        0 <= n <= s.len(),
        all_digits(s),
    ensures
        digits_value(s.take(n)) <= digits_value(s),
        0 <= digits_value(s.take(n)),
    decreases s.len() - n,
{
    if n < s.len() {
        lemma_digits_value_grows(s, n + 1);
        assert(s.take(n + 1).drop_last() == s.take(n));
        assert(is_digit(s[n]));
    } else {
        assert(s.take(n) == s);
        lemma_digits_value_nonneg(s);
    }
}

proof fn lemma_digits_value_nonneg(s: Seq<char>)
    requires
        all_digits(s),
    ensures
        0 <= digits_value(s),
    decreases s.len(),
{
    if s.len() > 0 {
        assert(is_digit(s.last()));
        lemma_digits_value_nonneg(s.drop_last());
    }
}

/// `str::parse::<i64>` over characters.
pub fn parse_i64(s: &[char]) -> (r: Option<i64>)
    ensures
        r == parsed_i64(s@),
{
    let negative = s.len() > 0 && s[0] == '-';
    let start: usize = if s.len() > 0 && (s[0] == '-' || s[0] == '+') {
        1
    } else {
        0
    };
    let ghost body = unsigned_part(s@);
    assert(body == s@.subrange(start as int, s@.len() as int));
    if start == s.len() {
        return None;
    }
    let limit: u64 = if negative {
        9223372036854775808
    } else {
        9223372036854775807
    };
    let mut acc: u64 = 0;
    let mut i = start;
    while i < s.len()
        invariant
            start <= i <= s@.len(),
            body == s@.subrange(start as int, s@.len() as int),
            body == unsigned_part(s@),
            forall|j: int| 0 <= j < i - start ==> is_digit(#[trigger] body[j]),
            acc == digits_value(body.take(i - start)),
            acc <= limit,
            limit == if negative { 9223372036854775808u64 } else { 9223372036854775807u64 },
            negative == (s@.len() > 0 && s@[0] == '-'),
        decreases s.len() - i,
    {
        let c = s[i];
        assert(c == body[i - start]);
        if !('0' <= c && c <= '9') {
            assert(!is_digit(body[i - start]));
            return None;
        }
        let d = (c as u32 - '0' as u32) as u64;
        assert(body.take(i - start + 1).drop_last() == body.take(i - start));
        if acc > (limit - d) / 10 {
            proof {
                assert(acc * 10 + d > limit) by (nonlinear_arith)
                    requires
                        acc > (limit - d) / 10,
                        d <= 9,
                        limit >= 9,
                ;
                let k = i - start + 1;
                assert(digits_value(body.take(k)) > limit);
                if all_digits(body) {
                    lemma_digits_value_grows(body, k);
                    assert(digits_value(body) > limit);
                    if negative {
                        assert(-digits_value(body) < i64::MIN);
                    } else {
                        assert(digits_value(body) > i64::MAX);
                    }

                }
            }
            return None;
        }
        assert(acc * 10 + d <= limit) by (nonlinear_arith)
            requires
                acc <= (limit - d) / 10,
                d <= 9,
                limit >= 9,
        ;
        acc = acc * 10 + d;
        i += 1;
    }
    assert(body.take(body.len() as int) == body);
    if negative {
        if acc == 9223372036854775808 {
            Some(-9223372036854775807i64 - 1)
        } else {
            Some(0i64 - acc as i64)
        }
    } else {
        Some(acc as i64)
    }
}

/// The quotient `n / d` of a non-negative `n` and positive `d`, rounded to the nearest integer
/// with halves rounded up.
pub open spec fn rounded_quotient(n: int, d: int) -> int {
    n / d + if 2 * (n % d) >= d {
        1int
    } else {
        0int
    }
}

/// The average of `samples` values that add up to `total`, rounded to the nearest integer with
/// halves rounded away from zero; 0 when there are no samples.
pub open spec fn rounded_average(total: int, samples: int) -> int {
    if samples <= 0 {
        0
    } else if total < 0 {
        -rounded_quotient(-total, samples)
    } else {
        rounded_quotient(total, samples)
    }
}

/// The average of `samples` values that add up to `total`, rounded to the nearest integer.
pub fn average_i64(total: i64, samples: i64) -> (r: i64)
    ensures
        r == rounded_average(total as int, samples as int),
{
    if samples <= 0 {
        return 0;
    }
    let negative = total < 0;
    let magnitude: i128 = if negative {
        0 - total as i128
    } else {
        total as i128
    };
    let s = samples as i128;
    let q = magnitude / s;
    let rem = magnitude % s;
    let rounded: i128 = if 2 * rem >= s {
        q + 1
    } else {
        q
    };
    proof {
        assert(q <= magnitude) by (nonlinear_arith)
            requires
                q == magnitude / s,
                s >= 1,
                magnitude >= 0,
        ;
        assert(0 <= rem < s) by (nonlinear_arith)
            requires
                rem == magnitude % s,
                s >= 1,
        ;
        if s == 1 {
            assert(q == magnitude) by (nonlinear_arith)
                requires
                    q == magnitude / s,
                    s == 1,
            ;
        } else {
            assert(q <= magnitude / 2) by (nonlinear_arith)
                requires
                    q == magnitude / s,
                    s >= 2,
                    magnitude >= 0,
            ;
        }
    }
    if negative {
        (0 - rounded) as i64
    } else {
        rounded as i64
    }
}

/// `value` as a whole percentage of `total`, rounded to the nearest integer; 0 when `total`
/// is not positive.
pub open spec fn percent_of(value: int, total: int) -> int {
    rounded_average(100 * value, total)
}

/// `value` as a whole percentage of `total`.
pub fn percent(value: i64, total: i64) -> (r: i64)
    requires
        0 <= value <= i64::MAX / 100,
    ensures
        r == percent_of(value as int, total as int),
{
    average_i64(100 * value, total)
}

} // verus!

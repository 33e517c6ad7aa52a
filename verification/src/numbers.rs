use crate::fingerprint::{hex_char, hex_digit};
use crate::text::{chars_of, push_char};
use vstd::prelude::*;

verus! {

/// Largest whole part that a rating may have.
pub const RATING_WHOLE_MAX: u64 = 9_000_000_000_000_000;

/// Largest magnitude of an edit count: 2^31, reached only with a minus sign.
pub const EDITS_MAGNITUDE_MAX: u64 = 0x8000_0000;

/// A decimal digit.
pub open spec fn is_digit(c: char) -> bool {
    '0' <= c && c <= '9'
}

/// The number that a decimal digit stands for.
pub open spec fn digit_value(c: char) -> int {
    c as int - '0' as int
}

/// Whether `s` holds decimal digits only.
pub open spec fn all_digits(s: Seq<char>) -> bool {
    forall|i: int| 0 <= i < s.len() ==> is_digit(#[trigger] s[i])
}

/// The number that a run of decimal digits writes; 0 for no digit.
pub open spec fn decimal_value(s: Seq<char>) -> int
    decreases s.len(),
{
    if s.len() == 0 {
        0
    } else {
        10 * decimal_value(s.drop_last()) + digit_value(s.last())
    }
}

/// Whether `s` begins with a plus or a minus sign.
pub open spec fn has_sign(s: Seq<char>) -> bool {
    s.len() > 0 && (s[0] == '-' || s[0] == '+')
}

/// Whether `s` begins with a minus sign.
pub open spec fn is_negative(s: Seq<char>) -> bool {
    s.len() > 0 && s[0] == '-'
}

/// `s` without its sign.
pub open spec fn unsigned_part(s: Seq<char>) -> Seq<char> {
    if has_sign(s) {
        s.skip(1)
    } else {
        s
    }
}

/// The 32-bit integer that `s` writes: an optional sign and at least one
/// decimal digit, nothing else, and a value that fits.
pub open spec fn parsed_int(s: Seq<char>) -> Option<int> {
    let body = unsigned_part(s);
    let value = if is_negative(s) {
        -decimal_value(body)
    } else {
        decimal_value(body)
    };
    if body.len() > 0 && all_digits(body) && i32::MIN <= value <= i32::MAX {
        Some(value)
    } else {
        None
    }
}

/// Whether `d` is the place of the first dot of `s`, or the length of an `s`
/// without a dot.
pub open spec fn is_first_dot(s: Seq<char>, d: int) -> bool {
    &&& 0 <= d <= s.len()
    &&& d < s.len() ==> s[d] == '.'
    &&& forall|j: int| 0 <= j < d ==> #[trigger] s[j] != '.'
}

/// The place of the first dot of `s`, or the length of an `s` without one.
pub open spec fn first_dot(s: Seq<char>) -> int {
    choose|d: int| is_first_dot(s, d)
}

/// The digits of `s` before its first dot.
pub open spec fn whole_digits(s: Seq<char>) -> Seq<char> {
    s.take(first_dot(s))
}

/// The digits of `s` after its first dot; none where `s` has no dot.
pub open spec fn fraction_digits(s: Seq<char>) -> Seq<char> {
    if first_dot(s) < s.len() {
        s.skip(first_dot(s) + 1)
    } else {
        Seq::empty()
    }
}

/// The thousandths that the digits after the dot stand for; a fourth digit
/// and those after it do not count.
pub open spec fn thousandths(fraction: Seq<char>) -> int {
    if fraction.len() == 0 {
        0
    } else if fraction.len() == 1 {
        100 * decimal_value(fraction.take(1))
    } else if fraction.len() == 2 {
        10 * decimal_value(fraction.take(2))
    } else {
        decimal_value(fraction.take(3))
    }
}

/// The rating that `s` writes, in thousandths: an optional sign, decimal
/// digits, and at most one dot among them; at least one digit; a whole part
/// of at most `RATING_WHOLE_MAX`.
pub open spec fn parsed_rating(s: Seq<char>) -> Option<int> {
    let body = unsigned_part(s);
    let whole = whole_digits(body);
    let fraction = fraction_digits(body);
    let magnitude = 1000 * decimal_value(whole) + thousandths(fraction);
    if all_digits(whole) && all_digits(fraction) && whole.len() + fraction.len() > 0
        && decimal_value(whole) <= RATING_WHOLE_MAX {
        Some(
            if is_negative(s) {
                -magnitude
            } else {
                magnitude
            },
        )
    } else {
        None
    }
}

/// Whether `chars[from..to]` holds decimal digits only.
fn digits_only(chars: &Vec<char>, from: usize, to: usize) -> (r: bool)
    requires
        from <= to <= chars@.len(),
    ensures
        r == all_digits(chars@.subrange(from as int, to as int)),
{
    let ghost run = chars@.subrange(from as int, to as int);
    let mut i: usize = from;
    while i < to
        invariant
            from <= i <= to <= chars@.len(),
            run == chars@.subrange(from as int, to as int),
            forall|j: int| 0 <= j < i - from ==> is_digit(#[trigger] run[j]),
        decreases to - i,
    {
        let c: char = chars[i];
        if !('0' <= c && c <= '9') {
            assert(run[i - from] == c);
            return false;
        }
        assert(run[i - from] == c);
        i += 1;
    }
    true
}

/// The value of the digits in `chars[from..to]`, where it is at most `cap`.
fn digits_value(chars: &Vec<char>, from: usize, to: usize, cap: u64) -> (r: Option<u64>)
    requires
        from <= to <= chars@.len(),
        all_digits(chars@.subrange(from as int, to as int)),
        cap <= 1_000_000_000_000_000_000,
    ensures
        decimal_value(chars@.subrange(from as int, to as int)) >= 0,
        r == (if decimal_value(chars@.subrange(from as int, to as int)) <= cap {
            Some(decimal_value(chars@.subrange(from as int, to as int)) as u64)
        } else {
            None
        }),
{
    let ghost run = chars@.subrange(from as int, to as int);
    let mut acc: u64 = 0;
    let mut i: usize = from;
    while i < to
        invariant
            from <= i <= to <= chars@.len(),
            run == chars@.subrange(from as int, to as int),
            all_digits(run),
            cap <= 1_000_000_000_000_000_000,
            acc <= cap + 1,
            decimal_value(run.take(i - from)) >= 0,
            acc as int == if decimal_value(run.take(i - from)) <= cap {
                decimal_value(run.take(i - from))
            } else {
                cap + 1
            },
        decreases to - i,
    {
        let c: char = chars[i];
        assert(run[i - from] == c);
        assert(is_digit(run[i - from]));
        assert(run.take(i - from + 1).drop_last() =~= run.take(i - from));
        assert(run.take(i - from + 1).last() == c);
        let d: u64 = (c as u32 - '0' as u32) as u64;
        let next: u64 = 10 * acc + d;
        acc = if next > cap {
            cap + 1
        } else {
            next
        };
        i += 1;
    }
    assert(run.take(to - from) =~= run);
    if acc > cap {
        None
    } else {
        Some(acc)
    }
}

/// Reads a 32-bit integer: an optional sign, then decimal digits only.
pub fn parse_int(text: &str) -> (r: Option<i32>)
    ensures
        r is Some == parsed_int(text@) is Some,
        r is Some ==> r->Some_0 as int == parsed_int(text@)->Some_0,
{
    let chars: Vec<char> = chars_of(text);
    let n: usize = chars.len();
    let signed: bool = n > 0 && (chars[0] == '-' || chars[0] == '+');
    let negative: bool = n > 0 && chars[0] == '-';
    let from: usize = if signed {
        1
    } else {
        0
    };
    assert(chars@.subrange(from as int, n as int) =~= unsigned_part(text@));
    if from == n || !digits_only(&chars, from, n) {
        return None;
    }
    match digits_value(&chars, from, n, EDITS_MAGNITUDE_MAX) {
        None => None,
        Some(magnitude) => {
            if negative {
                Some((0 - (magnitude as i64)) as i32)
            } else if magnitude == EDITS_MAGNITUDE_MAX {
                None
            } else {
                Some(magnitude as i32)
            }
        },
    }
}

/// The place of the first dot at or after `from`, or the length of `chars`.
fn find_dot(chars: &Vec<char>, from: usize) -> (dot: usize)
    requires
        from <= chars@.len(),
    ensures
        from <= dot <= chars@.len(),
        dot - from == first_dot(chars@.subrange(from as int, chars@.len() as int)),
{
    let n: usize = chars.len();
    let ghost body = chars@.subrange(from as int, n as int);
    let mut dot: usize = from;
    while dot < n && chars[dot] != '.'
        invariant
            from <= dot <= n,
            n == chars@.len(),
            body == chars@.subrange(from as int, n as int),
            forall|j: int| 0 <= j < dot - from ==> #[trigger] body[j] != '.',
        decreases n - dot,
    {
        assert(body[dot - from] == chars@[dot as int]);
        dot += 1;
    }
    proof {
        if dot < n {
            assert(body[dot - from] == chars@[dot as int]);
        }
        assert(is_first_dot(body, dot - from));
        let d = first_dot(body);
        assert(is_first_dot(body, d));
        if d < dot - from {
            assert(body[d] != '.');
        }
        if dot - from < d {
            assert(body[dot - from] != '.');
        }
    }
    dot
}

/// The thousandths that the digits in `chars[from..]` stand for.
fn fraction_value(chars: &Vec<char>, from: usize) -> (r: u64)
    requires
        from <= chars@.len(),
        all_digits(chars@.subrange(from as int, chars@.len() as int)),
    ensures
        r as int == thousandths(chars@.subrange(from as int, chars@.len() as int)),
        r <= 999,
{
    let n: usize = chars.len();
    let ghost fraction = chars@.subrange(from as int, n as int);
    let shown: usize = if n - from > 3 {
        3
    } else {
        n - from
    };
    assert(chars@.subrange(from as int, from + shown) =~= fraction.take(shown as int));
    assert(all_digits(fraction.take(shown as int))) by {
        assert forall|j: int| 0 <= j < shown implies is_digit(
            #[trigger] fraction.take(shown as int)[j],
        ) by {
            assert(fraction.take(shown as int)[j] == fraction[j]);
        }
    }
    proof {
        lemma_decimal_value_bound(fraction.take(shown as int));
    }
    let behind: u64 = match digits_value(chars, from, from + shown, 999) {
        Some(v) => v,
        None => 999,
    };
    if shown == 1 {
        100 * behind
    } else if shown == 2 {
        10 * behind
    } else {
        behind
    }
}

/// Reads a rating in thousandths: an optional sign, decimal digits, and at
/// most one dot among them. Digits after the third behind the dot are
/// checked and dropped.
pub fn parse_rating(text: &str) -> (r: Option<i64>)
    ensures
        r is Some == parsed_rating(text@) is Some,
        r is Some ==> r->Some_0 as int == parsed_rating(text@)->Some_0,
{
    let chars: Vec<char> = chars_of(text);
    let n: usize = chars.len();
    let signed: bool = n > 0 && (chars[0] == '-' || chars[0] == '+');
    let negative: bool = n > 0 && chars[0] == '-';
    let from: usize = if signed {
        1
    } else {
        0
    };
    let ghost body = unsigned_part(text@);
    assert(chars@.subrange(from as int, n as int) =~= body);
    let dot: usize = find_dot(&chars, from);
    let frac_from: usize = if dot < n {
        dot + 1
    } else {
        n
    };
    assert(chars@.subrange(from as int, dot as int) =~= whole_digits(body));
    assert(chars@.subrange(frac_from as int, n as int) =~= fraction_digits(body));
    if (dot - from) + (n - frac_from) == 0 {
        return None;
    }
    if !digits_only(&chars, from, dot) || !digits_only(&chars, frac_from, n) {
        return None;
    }
    let behind: u64 = fraction_value(&chars, frac_from);
    match digits_value(&chars, from, dot, RATING_WHOLE_MAX) {
        None => None,
        Some(whole) => {
            let magnitude: i64 = (1000 * whole + behind) as i64;
            if negative {
                Some(0 - magnitude)
            } else {
                Some(magnitude)
            }
        },
    }
}

/// `v` in decimal digits, without leading zeros.
pub open spec fn decimal_text(v: nat) -> Seq<char>
    decreases v,
{
    if v < 10 {
        seq![hex_digit(v as int)]
    } else {
        decimal_text(v / 10).push(hex_digit((v % 10) as int))
    }
}

/// A dot and the digits of `f` thousandths, without zeros at the end;
/// nothing for no thousandths.
pub open spec fn fraction_text(f: nat) -> Seq<char> {
    if f == 0 {
        Seq::empty()
    } else if f % 100 == 0 {
        seq!['.', hex_digit((f / 100) as int)]
    } else if f % 10 == 0 {
        seq!['.', hex_digit((f / 100) as int), hex_digit((f / 10 % 10) as int)]
    } else {
        seq![
            '.',
            hex_digit((f / 100) as int),
            hex_digit((f / 10 % 10) as int),
            hex_digit((f % 10) as int),
        ]
    }
}

/// A rating in thousandths as a decimal number: a minus sign for a rating
/// below zero, the whole part, and behind a dot the thousandths that are
/// not zero.
pub open spec fn rating_text(thousandths: int) -> Seq<char> {
    let magnitude = if thousandths < 0 {
        -thousandths
    } else {
        thousandths
    };
    let sign = if thousandths < 0 {
        seq!['-']
    } else {
        Seq::empty()
    };
    sign + decimal_text((magnitude / 1000) as nat) + fraction_text((magnitude % 1000) as nat)
}

fn push_decimal(text: &mut String, v: u64)
    ensures
        final(text)@ == old(text)@ + decimal_text(v as nat),
    decreases v,
{
    if v >= 10 {
        push_decimal(text, v / 10);
    }
    push_char(text, hex_char(v % 10));
    assert(final(text)@ =~= old(text)@ + decimal_text(v as nat));
}

/// Appends a rating to a text, as `rating_text` writes it.
pub fn push_rating(text: &mut String, thousandths: i64)
    ensures
        final(text)@ == old(text)@ + rating_text(thousandths as int),
{
    let magnitude: u64 = if thousandths < 0 {
        push_char(text, '-');
        ((0 - (thousandths + 1)) as u64) + 1
    } else {
        thousandths as u64
    };
    push_decimal(text, magnitude / 1000);
    let f: u64 = magnitude % 1000;
    if f != 0 {
        push_char(text, '.');
        push_char(text, hex_char(f / 100));
        if f % 100 != 0 {
            push_char(text, hex_char(f / 10 % 10));
            if f % 10 != 0 {
                push_char(text, hex_char(f % 10));
            }
        }
    }
    assert(final(text)@ =~= old(text)@ + rating_text(thousandths as int));
}

/// A run of `n` digits writes a number below 10^n; stated for runs of at
/// most three digits.
pub proof fn lemma_decimal_value_bound(s: Seq<char>)
    requires
        all_digits(s),
        s.len() <= 3,
    ensures
        0 <= decimal_value(s),
        s.len() == 0 ==> decimal_value(s) == 0,
        s.len() == 1 ==> decimal_value(s) <= 9,
        s.len() == 2 ==> decimal_value(s) <= 99,
        s.len() == 3 ==> decimal_value(s) <= 999,
    decreases s.len(),
{
    if s.len() > 0 {
        assert(is_digit(s[s.len() - 1]));
        assert forall|j: int| 0 <= j < s.drop_last().len() implies is_digit(
            #[trigger] s.drop_last()[j],
        ) by {
            assert(s.drop_last()[j] == s[j]);
        }
        lemma_decimal_value_bound(s.drop_last());
    }
}

} // verus!

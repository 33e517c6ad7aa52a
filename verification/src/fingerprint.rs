use crate::error::{is_text_result, Error};
use crate::text::push_char;
use vstd::prelude::*;

verus! {

/// Length in bytes of each of the two windows that a fingerprint covers.
pub const HASH_BLK_SIZE: u64 = 65536;

/// Number of 8-byte words in one window.
pub const WORDS_PER_WINDOW: usize = 8192;

/// The `k`-th 8-byte word of `bytes`, read as an unsigned integer with the
/// least significant byte first (little-endian, on every platform).
pub open spec fn word_at(bytes: Seq<u8>, k: int) -> int {
    bytes[8 * k] as int
        + 0x100 * (bytes[8 * k + 1] as int)
        + 0x1_0000 * (bytes[8 * k + 2] as int)
        + 0x100_0000 * (bytes[8 * k + 3] as int)
        + 0x1_0000_0000 * (bytes[8 * k + 4] as int)
        + 0x100_0000_0000 * (bytes[8 * k + 5] as int)
        + 0x1_0000_0000_0000 * (bytes[8 * k + 6] as int)
        + 0x100_0000_0000_0000 * (bytes[8 * k + 7] as int)
}

/// The sum of the first `words` words of `bytes`.
pub open spec fn window_sum(bytes: Seq<u8>, words: nat) -> int
    decreases words,
{
    if words == 0 {
        0
    } else {
        window_sum(bytes, (words - 1) as nat) + word_at(bytes, words - 1)
    }
}

/// The fingerprint of a file of `size` bytes whose first window is `head`
/// and whose last window is `tail`: the size plus every word of both
/// windows, modulo 2^64.
pub open spec fn fingerprint_value(size: u64, head: Seq<u8>, tail: Seq<u8>) -> int {
    (size as int + window_sum(head, WORDS_PER_WINDOW as nat) + window_sum(
        tail,
        WORDS_PER_WINDOW as nat,
    )) % 0x1_0000_0000_0000_0000
}

/// The lowercase hexadecimal digit of a value below 16; below 10 it is
/// the decimal digit.
pub open spec fn hex_digit(d: int) -> char {
    seq!['0', '1', '2', '3', '4', '5', '6', '7', '8', '9', 'a', 'b', 'c', 'd', 'e', 'f'][d]
}

/// `v` with its `places` lowest hexadecimal digits dropped.
pub open spec fn drop_hex_places(v: int, places: nat) -> int
    decreases places,
{
    if places == 0 {
        v
    } else {
        drop_hex_places(v, (places - 1) as nat) / 16
    }
}

/// `v` as sixteen lowercase hexadecimal digits, most significant first,
/// padded with zeros on the left.
pub open spec fn hex16(v: int) -> Seq<char> {
    Seq::new(16, |i: int| hex_digit(drop_hex_places(v, (15 - i) as nat) % 16))
}

/// A digit or a letter from `a` to `f`.
pub open spec fn is_lower_hex(c: char) -> bool {
    ('0' <= c && c <= '9') || ('a' <= c && c <= 'f')
}

/// Whether a fingerprint can be taken of a file of `size` bytes.
pub open spec fn large_enough(size: u64) -> bool {
    size > HASH_BLK_SIZE
}

/// What `create_hash` returns.
pub open spec fn create_hash_spec(head: Seq<u8>, tail: Seq<u8>, fsize: u64) -> Result<
    Seq<char>,
    Error,
> {
    if !large_enough(fsize) {
        Err(Error::InputTooSmall)
    } else if head.len() != HASH_BLK_SIZE || tail.len() != HASH_BLK_SIZE {
        Err(Error::IOError)
    } else {
        Ok(hex16(fingerprint_value(fsize, head, tail)))
    }
}

pub(crate) fn hex_char(d: u64) -> (c: char)
    requires
        d < 16,
    ensures
        c == hex_digit(d as int),
        is_lower_hex(c),
{
    if d == 0 {
        '0'
    } else if d == 1 {
        '1'
    } else if d == 2 {
        '2'
    } else if d == 3 {
        '3'
    } else if d == 4 {
        '4'
    } else if d == 5 {
        '5'
    } else if d == 6 {
        '6'
    } else if d == 7 {
        '7'
    } else if d == 8 {
        '8'
    } else if d == 9 {
        '9'
    } else if d == 10 {
        'a'
    } else if d == 11 {
        'b'
    } else if d == 12 {
        'c'
    } else if d == 13 {
        'd'
    } else if d == 14 {
        'e'
    } else {
        'f'
    }
}

/// Renders `v` as sixteen lowercase hexadecimal digits.
pub fn to_hex16(v: u64) -> (text: String)
    ensures
        text@ == hex16(v as int),
        text@.len() == 16,
        forall|i: int| 0 <= i < 16 ==> is_lower_hex(#[trigger] text@[i]),
{
    let mut low_first: Vec<char> = Vec::new();
    let mut rest: u64 = v;
    let mut i: usize = 0;
    while i < 16
        invariant
            i <= 16,
            low_first@.len() == i,
            rest as int == drop_hex_places(v as int, i as nat),
            forall|j: int|
                0 <= j < i ==> #[trigger] low_first@[j] == hex_digit(
                    drop_hex_places(v as int, j as nat) % 16,
                ) && is_lower_hex(low_first@[j]),
        decreases 16 - i,
    {
        low_first.push(hex_char(rest % 16));
        rest = rest / 16;
        i += 1;
    }
    let mut text = String::new();
    let mut k: usize = 0;
    while k < 16
        invariant
            k <= 16,
            low_first@.len() == 16,
            text@.len() == k,
            forall|j: int|
                0 <= j < 16 ==> #[trigger] low_first@[j] == hex_digit(
                    drop_hex_places(v as int, j as nat) % 16,
                ) && is_lower_hex(low_first@[j]),
            forall|j: int| 0 <= j < k ==> #[trigger] text@[j] == low_first@[15 - j],
        decreases 16 - k,
    {
        push_char(&mut text, low_first[15 - k]);
        k += 1;
    }
    assert(text@ =~= hex16(v as int));
    text
}

fn word(bytes: &[u8], k: usize) -> (w: u64)
    requires
        8 * k + 8 <= bytes@.len(),
    ensures
        w as int == word_at(bytes@, k as int),
{
    let n: usize = bytes.len();
    assert(8 * k + 8 <= n);
    let b: usize = 8 * k;
    let w0: u64 = bytes[b] as u64;
    let w1: u64 = bytes[b + 1] as u64;
    let w2: u64 = bytes[b + 2] as u64;
    let w3: u64 = bytes[b + 3] as u64;
    let w4: u64 = bytes[b + 4] as u64;
    let w5: u64 = bytes[b + 5] as u64;
    let w6: u64 = bytes[b + 6] as u64;
    let w7: u64 = bytes[b + 7] as u64;
    w0 + 0x100 * w1 + 0x1_0000 * w2 + 0x100_0000 * w3 + 0x1_0000_0000 * w4 + 0x100_0000_0000 * w5
        + 0x1_0000_0000_0000 * w6 + 0x100_0000_0000_0000 * w7
}

/// Adds the words of one window to `seed`, wrapping round at 2^64.
fn add_window(seed: u64, bytes: &[u8]) -> (sum: u64)
    requires
        bytes@.len() == HASH_BLK_SIZE,
    ensures
        sum as int == (seed as int + window_sum(bytes@, WORDS_PER_WINDOW as nat))
            % 0x1_0000_0000_0000_0000,
{
    let mut sum: u64 = seed;
    let mut k: usize = 0;
    while k < WORDS_PER_WINDOW
        invariant
            k <= WORDS_PER_WINDOW,
            bytes@.len() == HASH_BLK_SIZE,
            sum as int == (seed as int + window_sum(bytes@, k as nat)) % 0x1_0000_0000_0000_0000,
        decreases WORDS_PER_WINDOW - k,
    {
        let w: u64 = word(bytes, k);
        let ghost before: int = seed as int + window_sum(bytes@, k as nat);
        proof {
            assert(window_sum(bytes@, (k + 1) as nat) == window_sum(bytes@, k as nat) + word_at(
                bytes@,
                k as int,
            ));
            vstd::arithmetic::div_mod::lemma_add_mod_noop(
                before,
                w as int,
                0x1_0000_0000_0000_0000,
            );
            vstd::arithmetic::div_mod::lemma_small_mod(w as nat, 0x1_0000_0000_0000_0000);
            vstd::arithmetic::div_mod::lemma_small_mod(sum as nat, 0x1_0000_0000_0000_0000);
        }
        sum = sum.wrapping_add(w);
        k += 1;
    }
    sum
}

/// Where the last window of a file of `fsize` bytes begins, or
/// `InputTooSmall` for a file that is no longer than one window. The first
/// window begins at 0; nothing between the two is part of the fingerprint.
pub fn tail_offset(fsize: u64) -> (r: Result<u64, Error>)
    ensures
        r == (if large_enough(fsize) {
            Ok((fsize - HASH_BLK_SIZE) as u64)
        } else {
            Err(Error::InputTooSmall)
        }),
{
    if fsize <= HASH_BLK_SIZE {
        Err(Error::InputTooSmall)
    } else {
        Ok(fsize - HASH_BLK_SIZE)
    }
}

/// The fingerprint of a file of `fsize` bytes, from its first 65536 bytes
/// (`head`) and its last 65536 bytes (`tail`). A file of at most 65536
/// bytes is refused before either window is looked at; a window of another
/// length is a short read.
pub fn create_hash(head: &[u8], tail: &[u8], fsize: u64) -> (r: Result<String, Error>)
    ensures
        is_text_result(r, create_hash_spec(head@, tail@, fsize)),
        r is Ok ==> r->Ok_0@.len() == 16 && forall|i: int|
            0 <= i < 16 ==> is_lower_hex(#[trigger] r->Ok_0@[i]),
{
    if fsize <= HASH_BLK_SIZE {
        return Err(Error::InputTooSmall);
    }
    if head.len() != 65536 || tail.len() != 65536 {
        return Err(Error::IOError);
    }
    let with_head: u64 = add_window(fsize, head);
    let with_both: u64 = add_window(with_head, tail);
    proof {
        let m: int = 0x1_0000_0000_0000_0000;
        let h: int = window_sum(head@, WORDS_PER_WINDOW as nat);
        let t: int = window_sum(tail@, WORDS_PER_WINDOW as nat);
        vstd::arithmetic::div_mod::lemma_add_mod_noop(fsize as int + h, t, m);
        vstd::arithmetic::div_mod::lemma_small_mod(with_head as nat, m as nat);
        vstd::arithmetic::div_mod::lemma_add_mod_noop(with_head as int, t, m);
    }
    Ok(to_hex16(with_both))
}

/// 16 to the power of `places`.
pub open spec fn pow16(places: nat) -> int
    decreases places,
{
    if places == 0 {
        1
    } else {
        16 * pow16((places - 1) as nat)
    }
}

/// The sixteen digits are lowercase hexadecimal digits, whatever the value.
pub proof fn lemma_hex16_shape(v: int)
    requires
        0 <= v,
    ensures
        hex16(v).len() == 16,
        forall|i: int| 0 <= i < 16 ==> is_lower_hex(#[trigger] hex16(v)[i]),
{
    assert forall|i: int| 0 <= i < 16 implies is_lower_hex(#[trigger] hex16(v)[i]) by {
        let d = drop_hex_places(v, (15 - i) as nat) % 16;
        assert(0 <= d < 16);
        lemma_hex_digit_tells_its_value(d, 0);
    }
}

/// Different values below 16 have different digits, all of them lowercase
/// hexadecimal digits.
pub proof fn lemma_hex_digit_tells_its_value(c: int, d: int)
    requires
        0 <= c < 16,
        0 <= d < 16,
    ensures
        is_lower_hex(hex_digit(c)),
        hex_digit(c) == hex_digit(d) ==> c == d,
{
    let digits = seq![
        '0',
        '1',
        '2',
        '3',
        '4',
        '5',
        '6',
        '7',
        '8',
        '9',
        'a',
        'b',
        'c',
        'd',
        'e',
        'f',
    ];
    assert(digits[0] == '0' && digits[1] == '1' && digits[2] == '2' && digits[3] == '3');
    assert(digits[4] == '4' && digits[5] == '5' && digits[6] == '6' && digits[7] == '7');
    assert(digits[8] == '8' && digits[9] == '9' && digits[10] == 'a' && digits[11] == 'b');
    assert(digits[12] == 'c' && digits[13] == 'd' && digits[14] == 'e' && digits[15] == 'f');
}

/// Dropping `places` digits of a value below 16^`width` leaves one below
/// 16^(`width` - `places`).
pub proof fn lemma_drop_hex_places_bound(v: int, width: nat, places: nat)
    requires
        0 <= v < pow16(width),
        places <= width,
    ensures
        0 <= drop_hex_places(v, places) < pow16((width - places) as nat),
    decreases places,
{
    if places > 0 {
        lemma_drop_hex_places_bound(v, width, (places - 1) as nat);
        assert(pow16((width - places + 1) as nat) == 16 * pow16((width - places) as nat));
    }
}

/// Values below 2^64 with the same sixteen digits agree once `places`
/// digits are dropped from each.
proof fn lemma_same_digits_same_rest(a: int, b: int, places: nat)
    requires
        0 <= a < pow16(16),
        0 <= b < pow16(16),
        hex16(a) == hex16(b),
        places <= 16,
    ensures
        drop_hex_places(a, places) == drop_hex_places(b, places),
    decreases 16 - places,
{
    lemma_drop_hex_places_bound(a, 16, places);
    lemma_drop_hex_places_bound(b, 16, places);
    if places == 16 {
        assert(pow16(0) == 1);
    } else {
        lemma_same_digits_same_rest(a, b, places + 1);
        let x = drop_hex_places(a, places);
        let y = drop_hex_places(b, places);
        assert(drop_hex_places(a, places + 1) == x / 16);
        assert(drop_hex_places(b, places + 1) == y / 16);
        assert(hex16(a)[15 - places] == hex_digit(x % 16));
        assert(hex16(b)[15 - places] == hex_digit(y % 16));
        lemma_hex_digit_tells_its_value(x % 16, y % 16);
    }
}

/// Different values below 2^64 are written with different digits.
pub proof fn lemma_hex16_tells_its_value(a: int, b: int)
    requires
        0 <= a < 0x1_0000_0000_0000_0000,
        0 <= b < 0x1_0000_0000_0000_0000,
        hex16(a) == hex16(b),
    ensures
        a == b,
{
    assert(pow16(16) == 0x1_0000_0000_0000_0000) by {
        reveal_with_fuel(pow16, 17);
    }
    lemma_same_digits_same_rest(a, b, 0);
}

/// Two files whose windows are the same and whose sizes differ have
/// different fingerprints. (Files that differ in their windows too may
/// share a fingerprint.)
pub proof fn lemma_size_seeds_fingerprint_text(a: u64, b: u64, head: Seq<u8>, tail: Seq<u8>)
    requires
        a != b,
    ensures
        hex16(fingerprint_value(a, head, tail)) != hex16(fingerprint_value(b, head, tail)),
{
    lemma_size_seeds_fingerprint(a, b, head, tail);
    if hex16(fingerprint_value(a, head, tail)) == hex16(fingerprint_value(b, head, tail)) {
        lemma_hex16_tells_its_value(
            fingerprint_value(a, head, tail),
            fingerprint_value(b, head, tail),
        );
    }
}

/// Two files whose windows are the same and whose sizes differ have
/// different fingerprint values: the size seeds the sum.
pub proof fn lemma_size_seeds_fingerprint(a: u64, b: u64, head: Seq<u8>, tail: Seq<u8>)
    requires
        a != b,
    ensures
        fingerprint_value(a, head, tail) != fingerprint_value(b, head, tail),
{
    let m: int = 0x1_0000_0000_0000_0000;
    let s: int = window_sum(head, WORDS_PER_WINDOW as nat) + window_sum(
        tail,
        WORDS_PER_WINDOW as nat,
    );
    let x: int = a as int + s;
    let y: int = b as int + s;
    vstd::arithmetic::div_mod::lemma_fundamental_div_mod(x, m);
    vstd::arithmetic::div_mod::lemma_fundamental_div_mod(y, m);
    if x % m == y % m {
        let q: int = x / m - y / m;
        assert(a as int - b as int == m * (x / m) - m * (y / m));
        assert(m * (x / m) - m * (y / m) == m * q) by (nonlinear_arith)
            requires
                q == x / m - y / m,
        ;
        assert(q == 0) by (nonlinear_arith)
            requires
                -m < m * q < m,
                m > 0,
        ;
        assert(false);
    }
}

} // verus!

//! Numbers as a catalogue's text writes them: what counts as a number, and
//! which number it is.

use crate::decimal::{lemma_pow10_adds, lemma_pow10_positive, pow10, scale_up, Decimal};
use vstd::prelude::*;
use vstd::slice::slice_subrange;
use vstd::string::StrSliceExecFns;

verus! {

/// Whether `b` is one of the ASCII digits.
pub open spec fn is_digit(b: u8) -> bool {
    0x30 <= b <= 0x39
}

/// Whether `c` is white space: one of the characters that Unicode gives the
/// property White_Space. They are the tab, the line feed, the vertical tab,
/// the form feed, the carriage return and the blank of ASCII, the next line
/// and the no-break space, and the spaces and separators U+1680, U+2000 to
/// U+200A, U+2028, U+2029, U+202F, U+205F and U+3000.
pub open spec fn is_white_space(c: char) -> bool {
    let u = c as u32;
    ||| 0x09 <= u <= 0x0d
    ||| u == 0x20
    ||| u == 0x85
    ||| u == 0xa0
    ||| u == 0x1680
    ||| 0x2000 <= u <= 0x200a
    ||| u == 0x2028
    ||| u == 0x2029
    ||| u == 0x202f
    ||| u == 0x205f
    ||| u == 0x3000
}

/// Whether `s` holds digits and nothing else.
pub open spec fn all_digits(s: Seq<u8>) -> bool {
    forall|i: int| 0 <= i < s.len() ==> is_digit(#[trigger] s[i])
}

/// The digit that `b` writes; 0 where it writes none.
pub open spec fn digit_of(b: u8) -> nat {
    if is_digit(b) {
        (b - 0x30) as nat
    } else {
        0
    }
}

/// The number read when the digits `s` follow a number `before`.
pub open spec fn extend(before: nat, s: Seq<u8>) -> nat
    decreases s.len(),
{
    if s.len() == 0 {
        before
    } else {
        extend(before, s.drop_last()) * 10 + digit_of(s.last())
    }
}

/// The number that the digits `s` write in base ten.
pub open spec fn digits_value(s: Seq<u8>) -> nat {
    extend(0, s)
}

/// `s` without the white space at its two ends.
pub open spec fn trimmed(s: Seq<char>) -> Seq<char>
    decreases s.len(),
{
    if s.len() > 0 && is_white_space(s[0]) {
        trimmed(s.drop_first())
    } else if s.len() > 0 && is_white_space(s.last()) {
        trimmed(s.drop_last())
    } else {
        s
    }
}

/// `s` without a leading sign, if it has one.
pub open spec fn unsigned_part(s: Seq<u8>, minus_allowed: bool) -> Seq<u8> {
    if s.len() > 0 && (s[0] == 0x2b || (minus_allowed && s[0] == 0x2d)) {
        s.drop_first()
    } else {
        s
    }
}

/// The number that `s` writes as an unsigned integer of 32 bits: digits,
/// after a `+` or after nothing, whose value fits.
pub open spec fn u32_of(s: Seq<u8>) -> Option<u32> {
    let body = unsigned_part(s, false);
    if body.len() > 0 && all_digits(body) && digits_value(body) <= u32::MAX {
        Some(digits_value(body) as u32)
    } else {
        None
    }
}

/// The number that `s` writes as a signed integer of 32 bits: digits, after
/// a `+`, a `-` or nothing, whose value with its sign fits.
pub open spec fn i32_of(s: Seq<u8>) -> Option<i32> {
    let body = unsigned_part(s, true);
    let negative = s.len() > 0 && s[0] == 0x2d;
    let value: int = if negative {
        -(digits_value(body) as int)
    } else {
        digits_value(body) as int
    };
    if body.len() > 0 && all_digits(body) && i32::MIN <= value <= i32::MAX {
        Some(value as i32)
    } else {
        None
    }
}

/// Where the first of the bytes `x` and `y` stands in `s`; the length of `s`
/// where it has neither.
pub open spec fn first_of(s: Seq<u8>, x: u8, y: u8) -> int
    decreases s.len(),
{
    if s.len() == 0 || s[0] == x || s[0] == y {
        0
    } else {
        1 + first_of(s.drop_first(), x, y)
    }
}

/// Where the first point of `s` stands; the length of `s` where it has none.
pub open spec fn point_at(s: Seq<u8>) -> int {
    first_of(s, 0x2e, 0x2e)
}

/// Where the mark of the exponent stands in `s`, an `e` or an `E`; the
/// length of `s` where it has none.
pub open spec fn mark_at(s: Seq<u8>) -> int {
    first_of(s, 0x65, 0x45)
}

/// The digits of `s` after its first point.
pub open spec fn fraction_of(s: Seq<u8>) -> Seq<u8> {
    if point_at(s) < s.len() {
        s.skip(point_at(s) + 1)
    } else {
        Seq::empty()
    }
}

/// What `s` writes as digits with at most one point among them, before them
/// or after them: the number that the digits write without the point, and
/// how many of them follow the point. At least one digit is asked for, and
/// the number must fit an `i64`.
pub open spec fn plain_of(s: Seq<u8>) -> Option<(nat, nat)> {
    let digits = s.take(point_at(s)) + fraction_of(s);
    if digits.len() > 0 && all_digits(digits) && digits_value(digits) <= i64::MAX {
        Some((digits_value(digits), fraction_of(s).len()))
    } else {
        None
    }
}

/// The exponent that follows the number in `s`; 0 where `s` has no mark of
/// an exponent, and none where what follows the mark is no integer of 32
/// bits.
pub open spec fn exponent_of(s: Seq<u8>) -> Option<i32> {
    if mark_at(s) < s.len() {
        i32_of(s.skip(mark_at(s) + 1))
    } else {
        Some(0i32)
    }
}

/// The decimal with these digits, this many of them after the point, and
/// this exponent of ten, where there is one: its scale must lie between 0
/// and 255 and its mantissa in `i64`. An exponent that moves the point past
/// the last digit adds zeros to the mantissa. No digit is rounded away.
pub open spec fn shifted(value: nat, places: nat, exponent: int, negative: bool) -> Option<
    Decimal,
> {
    let shift = places - exponent;
    let mantissa = if shift < 0 {
        value * pow10((-shift) as nat)
    } else {
        value as int
    };
    if shift <= 255 && mantissa <= i64::MAX {
        Some(
            Decimal {
                mantissa: if negative {
                    (-mantissa) as i64
                } else {
                    mantissa as i64
                },
                scale: if shift < 0 {
                    0
                } else {
                    shift as u8
                },
            },
        )
    } else {
        None
    }
}

/// The number that `s` writes as a decimal: after a `+`, a `-` or nothing,
/// digits with at most one point among them, and then, if any, the mark of
/// an exponent and the exponent, an integer. Nothing else is a number:
/// no word for an infinity, no white space.
pub open spec fn decimal_of(s: Seq<u8>) -> Option<Decimal> {
    let body = unsigned_part(s, true);
    let negative = s.len() > 0 && s[0] == 0x2d;
    match (plain_of(body.take(mark_at(body))), exponent_of(body)) {
        (Some((value, places)), Some(exponent)) => shifted(
            value,
            places,
            exponent as int,
            negative,
        ),
        _ => None,
    }
}

/// Reading more digits never makes the number smaller.
proof fn lemma_extend_grows(before: nat, s: Seq<u8>, k: int)
    requires
        0 <= k <= s.len(),
    ensures
        extend(before, s.take(k)) <= extend(before, s),
    decreases s.len(),
{
    if k == s.len() {
        assert(s.take(k) =~= s);
    } else {
        assert(s.drop_last().take(k) =~= s.take(k));
        lemma_extend_grows(before, s.drop_last(), k);
    }
}

/// Reading `a` and then `b` is reading `a + b`.
proof fn lemma_extend_concat(before: nat, a: Seq<u8>, b: Seq<u8>)
    ensures
        extend(extend(before, a), b) == extend(before, a + b),
    decreases b.len(),
{
    if b.len() == 0 {
        assert(a + b =~= a);
    } else {
        assert((a + b).drop_last() =~= a + b.drop_last());
        assert((a + b).last() == b.last());
        lemma_extend_concat(before, a, b.drop_last());
    }
}

/// Reads the digits `bytes[from..to]` after a number `before`. `None` where
/// a byte is no digit or the number passes `limit`.
fn read_digits(bytes: &[u8], from: usize, to: usize, before: u64, limit: u64) -> (r: Option<u64>)
    requires
        from <= to <= bytes@.len(),
        before <= limit,
    ensures
        r == if all_digits(bytes@.subrange(from as int, to as int)) && extend(
            before as nat,
            bytes@.subrange(from as int, to as int),
        ) <= limit {
            Some(extend(before as nat, bytes@.subrange(from as int, to as int)) as u64)
        } else {
            None
        },
{
    let ghost whole = bytes@.subrange(from as int, to as int);
    let mut acc: u64 = before;
    let mut i: usize = from;
    assert(bytes@.subrange(from as int, from as int) =~= Seq::<u8>::empty());
    while i < to
        invariant
            from <= i <= to <= bytes@.len(),
            whole == bytes@.subrange(from as int, to as int),
            acc <= limit,
            acc == extend(before as nat, bytes@.subrange(from as int, i as int)),
            all_digits(bytes@.subrange(from as int, i as int)),
        decreases to - i,
    {
        let b = bytes[i];
        let ghost seen = bytes@.subrange(from as int, i as int);
        let ghost next = bytes@.subrange(from as int, i + 1);
        proof {
            assert(next.drop_last() =~= seen);
            assert(next.last() == b);
            assert(whole[i - from] == b);
            assert(whole.take(i + 1 - from) =~= next);
            lemma_extend_grows(before as nat, whole, i + 1 - from);
        }
        if b < 0x30 || b > 0x39 {
            return None;
        }
        let wide: u128 = acc as u128 * 10 + (b - 0x30) as u128;
        if wide > limit as u128 {
            return None;
        }
        acc = wide as u64;
        i = i + 1;
        proof {
            assert forall|j: int| 0 <= j < next.len() implies is_digit(#[trigger] next[j]) by {
                if j < seen.len() {
                    assert(next[j] == seen[j]);
                }
            }
        }
    }
    Some(acc)
}

/// Whether `c` is white space.
fn is_white(c: char) -> (r: bool)
    ensures
        r == is_white_space(c),
{
    let u = c as u32;
    (0x09 <= u && u <= 0x0d) || u == 0x20 || u == 0x85 || u == 0xa0 || u == 0x1680 || (0x2000 <= u
        && u <= 0x200a) || u == 0x2028 || u == 0x2029 || u == 0x202f || u == 0x205f || u == 0x3000
}

/// `text` without the white space at its two ends.
pub fn trim_text(text: &str) -> (r: &str)
    ensures
        r@ == trimmed(text@),
{
    let n = text.unicode_len();
    let mut start: usize = 0;
    let mut end: usize = n;
    assert(text@.subrange(0, n as int) =~= text@);
    while start < end && is_white(text.get_char(start))
        invariant
            start <= end == text@.len(),
            trimmed(text@.subrange(start as int, end as int)) == trimmed(text@),
        decreases end - start,
    {
        assert(text@.subrange(start as int, end as int).drop_first() =~= text@.subrange(
            start + 1,
            end as int,
        ));
        start = start + 1;
    }
    while start < end && is_white(text.get_char(end - 1))
        invariant
            start <= end <= text@.len(),
            start < end ==> !is_white_space(text@[start as int]),
            trimmed(text@.subrange(start as int, end as int)) == trimmed(text@),
        decreases end - start,
    {
        assert(text@.subrange(start as int, end as int).drop_last() =~= text@.subrange(
            start as int,
            end - 1,
        ));
        end = end - 1;
    }
    text.substring_char(start, end)
}

/// Reads an unsigned integer of 32 bits.
pub fn parse_u32(bytes: &[u8]) -> (r: Option<u32>)
    ensures
        r == u32_of(bytes@),
{
    let n = bytes.len();
    let from: usize = if n > 0 && bytes[0] == 0x2b {
        1
    } else {
        0
    };
    proof {
        assert(bytes@.subrange(from as int, n as int) =~= unsigned_part(bytes@, false));
    }
    if from == n {
        return None;
    }
    match read_digits(bytes, from, n, 0, 0xffff_ffff) {
        Some(v) => Some(v as u32),
        None => None,
    }
}

/// Reads a signed integer of 32 bits.
pub fn parse_i32(bytes: &[u8]) -> (r: Option<i32>)
    ensures
        r == i32_of(bytes@),
{
    let n = bytes.len();
    let negative = n > 0 && bytes[0] == 0x2d;
    let from: usize = if n > 0 && (bytes[0] == 0x2b || bytes[0] == 0x2d) {
        1
    } else {
        0
    };
    proof {
        assert(bytes@.subrange(from as int, n as int) =~= unsigned_part(bytes@, true));
    }
    if from == n {
        return None;
    }
    let limit: u64 = if negative {
        0x8000_0000
    } else {
        0x7fff_ffff
    };
    match read_digits(bytes, from, n, 0, limit) {
        Some(v) => {
            if negative {
                Some((-(v as i64)) as i32)
            } else {
                Some(v as i32)
            }
        },
        None => None,
    }
}

/// Where the first of the bytes `x` and `y` stands in `bytes`.
fn find_first(bytes: &[u8], x: u8, y: u8) -> (r: usize)
    ensures
        r == first_of(bytes@, x, y),
        r <= bytes@.len(),
{
    let n = bytes.len();
    let mut i: usize = 0;
    assert(bytes@.skip(0) =~= bytes@);
    while i < n && bytes[i] != x && bytes[i] != y
        invariant
            i <= n == bytes@.len(),
            first_of(bytes@, x, y) == i + first_of(bytes@.skip(i as int), x, y),
        decreases n - i,
    {
        assert(bytes@.skip(i as int).drop_first() =~= bytes@.skip(i + 1));
        i = i + 1;
    }
    i
}

/// Reads digits with at most one point among them.
fn read_plain(bytes: &[u8]) -> (r: Option<(u64, usize)>)
    ensures
        match r {
            Some((value, places)) => plain_of(bytes@) == Some((value as nat, places as nat)),
            None => plain_of(bytes@) is None,
        },
{
    let n = bytes.len();
    let point = find_first(bytes, 0x2e, 0x2e);
    let after: usize = if point < n {
        point + 1
    } else {
        n
    };
    let ghost whole = bytes@.take(point_at(bytes@));
    let ghost fraction = fraction_of(bytes@);
    proof {
        assert(bytes@.subrange(0, point as int) =~= whole);
        assert(bytes@.subrange(after as int, n as int) =~= fraction);
        lemma_extend_concat(0, whole, fraction);
        assert(all_digits(whole + fraction) ==> all_digits(whole) && all_digits(fraction)) by {
            if all_digits(whole + fraction) {
                assert forall|j: int| 0 <= j < whole.len() implies is_digit(
                    #[trigger] whole[j],
                ) by {
                    assert((whole + fraction)[j] == whole[j]);
                }
                assert forall|j: int| 0 <= j < fraction.len() implies is_digit(
                    #[trigger] fraction[j],
                ) by {
                    assert((whole + fraction)[whole.len() + j] == fraction[j]);
                }
            }
        }
        lemma_extend_grows(0, whole + fraction, whole.len() as int);
        assert((whole + fraction).take(whole.len() as int) =~= whole);
    }
    if point + (n - after) == 0 {
        return None;
    }
    let first = match read_digits(bytes, 0, point, 0, 0x7fff_ffff_ffff_ffff) {
        Some(v) => v,
        None => {
            return None;
        },
    };
    match read_digits(bytes, after, n, first, 0x7fff_ffff_ffff_ffff) {
        Some(all) => Some((all, n - after)),
        None => None,
    }
}

/// Ten to the power 19 passes every `i64`, and so does every higher power.
proof fn lemma_pow10_large(k: nat)
    requires
        k >= 19,
    ensures
        pow10(k) > i64::MAX,
{
    assert(pow10(19) == 10_000_000_000_000_000_000) by {
        reveal_with_fuel(pow10, 20);
    }
    lemma_pow10_adds(19, (k - 19) as nat);
    lemma_pow10_positive((k - 19) as nat);
    let p = pow10(19);
    let q = pow10((k - 19) as nat);
    assert(p * q >= p) by (nonlinear_arith)
        requires
            p >= 1,
            q >= 1,
    ;
}

/// The decimal with these digits, this many of them after the point, and
/// this exponent of ten.
fn shift_point(value: u64, places: usize, exponent: i32, negative: bool) -> (r: Option<Decimal>)
    requires
        value <= i64::MAX,
    ensures
        r == shifted(value as nat, places as nat, exponent as int, negative),
{
    let shift: i128 = places as i128 - exponent as i128;
    if shift > 255 {
        return None;
    }
    let mantissa: i64 = if shift >= 0 {
        value as i64
    } else if value == 0 {
        proof {
            assert(0 * pow10((-shift) as nat) == 0) by (nonlinear_arith);
        }
        0
    } else if shift < -18 {
        proof {
            let p = pow10((-shift) as nat);
            lemma_pow10_large((-shift) as nat);
            assert(value * p >= p) by (nonlinear_arith)
                requires
                    value >= 1,
                    p >= 1,
            ;
        }
        return None;
    } else {
        proof {
            let p = pow10((-shift) as nat);
            lemma_pow10_positive((-shift) as nat);
            assert(value * p >= 0) by (nonlinear_arith)
                requires
                    value >= 0,
                    p >= 1,
            ;
        }
        match scale_up(value as i128, (-shift) as u8) {
            Some(wide) => {
                if wide > 0x7fff_ffff_ffff_ffff {
                    return None;
                }
                wide as i64
            },
            None => {
                return None;
            },
        }
    };
    let scale: u8 = if shift < 0 {
        0
    } else {
        shift as u8
    };
    Some(
        Decimal {
            mantissa: if negative {
                -mantissa
            } else {
                mantissa
            },
            scale,
        },
    )
}

/// Reads a decimal number.
pub fn parse_decimal(bytes: &[u8]) -> (r: Option<Decimal>)
    ensures
        r == decimal_of(bytes@),
{
    let n = bytes.len();
    let negative = n > 0 && bytes[0] == 0x2d;
    let from: usize = if n > 0 && (bytes[0] == 0x2b || bytes[0] == 0x2d) {
        1
    } else {
        0
    };
    let body = slice_subrange(bytes, from, n);
    proof {
        assert(body@ =~= unsigned_part(bytes@, true));
    }
    let mark = find_first(body, 0x65, 0x45);
    let exponent: i32 = if mark < body.len() {
        match parse_i32(slice_subrange(body, mark + 1, body.len())) {
            Some(e) => e,
            None => {
                return None;
            },
        }
    } else {
        0
    };
    match read_plain(slice_subrange(body, 0, mark)) {
        Some((value, places)) => shift_point(value, places, exponent, negative),
        None => None,
    }
}

} // verus!

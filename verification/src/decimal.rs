//! Decimal texts and the fixed-point numbers they denote.
//!
//! Prices and indicator values are kept as whole numbers of ticks, one tick
//! being `10^-PRICE_DECIMALS` of a unit. A decimal text such as `-12.5e-3` is
//! read exactly and cut off, toward zero, after the last decimal place that a
//! tick can hold.

use vstd::arithmetic::div_mod::{lemma_basic_div, lemma_div_denominator};
use vstd::prelude::*;

verus! {

/// Decimal places kept by a fixed-point number.
pub const PRICE_DECIMALS: u32 = 12;

/// Ticks in one whole unit: `10^PRICE_DECIMALS`.
pub const PRICE_SCALE: i64 = 1_000_000_000_000;

/// Exponents are read exactly up to this bound and only known to exceed it beyond.
const EXPONENT_CAP: u128 = 0x4_0000_0000_0000_0000;

/// Whether a character is one of the ten decimal digits.
pub open spec fn is_digit(c: char) -> bool {
    '0' <= c && c <= '9'
}

/// The number that a decimal digit stands for.
pub open spec fn digit_value(c: char) -> int {
    c as int - '0' as int
}

/// Whether a character is a plus or a minus sign.
pub open spec fn is_sign(c: char) -> bool {
    c == '+' || c == '-'
}

/// Whether a string holds decimal digits only.
pub open spec fn all_digits(s: Seq<char>) -> bool {
    forall|i: int| 0 <= i < s.len() ==> is_digit(#[trigger] s[i])
}

/// Ten to the power `e`.
pub open spec fn pow10(e: nat) -> int
    decreases e,
{
    if e == 0 {
        1
    } else {
        10 * pow10((e - 1) as nat)
    }
}

/// The natural number that a string of decimal digits writes; 0 for the empty string.
pub open spec fn digits_value(s: Seq<char>) -> int
    decreases s.len(),
{
    if s.len() == 0 {
        0
    } else {
        10 * digits_value(s.drop_last()) + digit_value(s.last())
    }
}

/// Where the run of digits that starts at `from` ends.
pub open spec fn digits_end(s: Seq<char>, from: int) -> int
    decreases s.len() - from,
{
    if 0 <= from < s.len() && is_digit(s[from]) {
        digits_end(s, from + 1)
    } else {
        from
    }
}

/// 1 where a sign stands at `at`, else 0.
pub open spec fn sign_len(s: Seq<char>, at: int) -> int {
    if 0 <= at < s.len() && is_sign(s[at]) {
        1
    } else {
        0
    }
}

/// Whether a minus sign stands at `at`.
pub open spec fn minus_at(s: Seq<char>, at: int) -> bool {
    0 <= at < s.len() && s[at] == '-'
}

/// `m * 10^e`, cut off toward zero where `e` is negative (`m` is not negative).
pub open spec fn shift10(m: int, e: int) -> int {
    if e >= 0 {
        m * pow10(e as nat)
    } else {
        m / pow10((-e) as nat)
    }
}

/// The exponent written from `at` to the end of `s`: 0 where nothing is left,
/// the signed number behind `e` or `E` where that is all that is left.
pub open spec fn exponent_of(s: Seq<char>, at: int) -> Option<int> {
    if at == s.len() {
        Some(0)
    } else if s[at] == 'e' || s[at] == 'E' {
        let from = at + 1 + sign_len(s, at + 1);
        let to = digits_end(s, from);
        if from < to && to == s.len() {
            let v = digits_value(s.subrange(from, to));
            Some(if minus_at(s, at + 1) { -v } else { v })
        } else {
            None
        }
    } else {
        None
    }
}

/// A magnitude with its sign, where that fits in an `i64`.
pub open spec fn signed_ticks(magnitude: int, negative: bool) -> Option<i64> {
    let ticks = if negative { -magnitude } else { magnitude };
    if i64::MIN <= ticks <= i64::MAX {
        Some(ticks as i64)
    } else {
        None
    }
}

/// The ticks that a decimal text denotes.
///
/// The text is an optional sign, digits with an optional point among them (at
/// least one digit in all), and an optional exponent. Its value times
/// `10^PRICE_DECIMALS` is cut off toward zero. `None` where the text has
/// another shape or the ticks do not fit in an `i64`.
pub open spec fn price_of_text(s: Seq<char>) -> Option<i64> {
    let a = sign_len(s, 0);
    let b = digits_end(s, a);
    let c = if b < s.len() && s[b] == '.' { b + 1 } else { b };
    let d = digits_end(s, c);
    if (b - a) + (d - c) == 0 {
        None
    } else {
        match exponent_of(s, d) {
            None => None,
            Some(e) => {
                let mantissa = s.subrange(a, b) + s.subrange(c, d);
                let magnitude = shift10(digits_value(mantissa), e + PRICE_DECIMALS - (d - c));
                signed_ticks(magnitude, minus_at(s, 0))
            },
        }
    }
}

/// `Some(m)` where `m` does not exceed `limit`.
spec fn within(m: int, limit: int) -> Option<int> {
    if m <= limit {
        Some(m)
    } else {
        None
    }
}

/// The number that the first `take` digits write, followed by `pad` zeros.
spec fn leading_value(digits: Seq<char>, take: int, pad: nat) -> int {
    digits_value(digits.take(take)) * pow10(pad)
}

/// The scale is ten to the power of the decimal places.
pub proof fn lemma_scale_is_power_of_ten()
    ensures
        pow10(PRICE_DECIMALS as nat) == PRICE_SCALE,
{
    reveal_with_fuel(pow10, 13);
}

/// A power of ten is at least 1.
pub proof fn lemma_pow10_positive(e: nat)
    ensures
        pow10(e) >= 1,
    decreases e,
{
    if e > 0 {
        lemma_pow10_positive((e - 1) as nat);
    }
}

/// Powers of ten grow with the exponent.
pub proof fn lemma_pow10_increases(e1: nat, e2: nat)
    requires
        e1 <= e2,
    ensures
        pow10(e1) <= pow10(e2),
    decreases e2,
{
    lemma_pow10_positive(e1);
    if e1 < e2 {
        lemma_pow10_increases(e1, (e2 - 1) as nat);
    }
}

proof fn lemma_pow10_19()
    ensures
        pow10(19) == 10_000_000_000_000_000_000int,
{
    reveal_with_fuel(pow10, 20);
}

/// A run of digits ends inside the text, holds digits only, and stops at a
/// character that is no digit.
pub proof fn lemma_digits_end(s: Seq<char>, from: int)
    requires
        0 <= from <= s.len(),
    ensures
        from <= digits_end(s, from) <= s.len(),
        all_digits(s.subrange(from, digits_end(s, from))),
        digits_end(s, from) < s.len() ==> !is_digit(s[digits_end(s, from)]),
    decreases s.len() - from,
{
    if from < s.len() && is_digit(s[from]) {
        lemma_digits_end(s, from + 1);
        let end = digits_end(s, from);
        assert forall|i: int| 0 <= i < end - from implies is_digit(
            #[trigger] s.subrange(from, end)[i],
        ) by {
            if i > 0 {
                assert(s.subrange(from + 1, end)[i - 1] == s[from + i]);
            }
        }
    }
}

/// A string of `n` digits writes a number from 0 to `10^n - 1`.
pub proof fn lemma_digits_value_bounds(s: Seq<char>)
    requires
        all_digits(s),
    ensures
        0 <= digits_value(s) < pow10(s.len()),
    decreases s.len(),
{
    if s.len() > 0 {
        assert(is_digit(s[s.len() - 1]));
        lemma_digits_value_bounds(s.drop_last());
    }
}

/// Reading one digit more multiplies by ten and adds the digit.
pub proof fn lemma_digits_value_step(s: Seq<char>, k: int)
    requires
        0 <= k < s.len(),
    ensures
        digits_value(s.take(k + 1)) == 10 * digits_value(s.take(k)) + digit_value(s[k]),
{
    assert(s.take(k + 1).drop_last() =~= s.take(k));
}

/// A longer prefix of a string of digits writes no smaller a number.
pub proof fn lemma_digits_value_prefix_le(s: Seq<char>, i: int, j: int)
    requires
        all_digits(s),
        0 <= i <= j <= s.len(),
    ensures
        0 <= digits_value(s.take(i)) <= digits_value(s.take(j)),
    decreases j - i,
{
    lemma_digits_value_bounds(s.take(i));
    if i < j {
        lemma_digits_value_prefix_le(s, i, j - 1);
        lemma_digits_value_step(s, j - 1);
        assert(is_digit(s[j - 1]));
    }
}

/// Dropping the last `n` digits divides by `10^n`.
pub proof fn lemma_digits_value_prefix(s: Seq<char>, k: int)
    requires
        all_digits(s),
        0 <= k <= s.len(),
    ensures
        digits_value(s) / pow10((s.len() - k) as nat) == digits_value(s.take(k)),
    decreases s.len() - k,
{
    if k == s.len() {
        assert(s.take(k) =~= s);
    } else {
        let shorter = s.drop_last();
        let n = (s.len() - k - 1) as nat;
        assert(is_digit(s[s.len() - 1]));
        lemma_digits_value_bounds(shorter);
        lemma_digits_value_bounds(s);
        lemma_pow10_positive(n);
        lemma_digits_value_prefix(shorter, k);
        assert(shorter.take(k) =~= s.take(k));
        assert(digits_value(s) / 10 == digits_value(shorter));
        lemma_div_denominator(digits_value(s), 10, pow10(n));
    }
}

/// The shifted value, read off the digits: a prefix where the point moves
/// into them, the whole followed by zeros where it moves past them.
proof fn lemma_shift10_reads_digits(s: Seq<char>, k: int)
    requires
        all_digits(s),
    ensures
        k <= 0 ==> shift10(digits_value(s), k - s.len()) == 0,
        0 <= k <= s.len() ==> shift10(digits_value(s), k - s.len()) == leading_value(s, k, 0),
        k >= s.len() ==> shift10(digits_value(s), k - s.len()) == leading_value(
            s,
            s.len() as int,
            (k - s.len()) as nat,
        ),
{
    lemma_digits_value_bounds(s);
    assert(s.take(s.len() as int) =~= s);
    if k <= 0 {
        if k < s.len() {
            lemma_pow10_increases(s.len(), (s.len() - k) as nat);
            lemma_basic_div(digits_value(s), pow10((s.len() - k) as nat));
        }
    }
    if 0 <= k <= s.len() {
        lemma_digits_value_prefix(s, k);
    }
}

/// Past nineteen zeros nothing but zero stays within an `i64`'s magnitude.
proof fn lemma_pad_cap(m: int, pad: nat, limit: int)
    requires
        0 <= m,
        pad >= 19,
        limit < 10_000_000_000_000_000_000,
    ensures
        within(m * pow10(pad), limit) == within(m * pow10(19), limit),
{
    lemma_pow10_19();
    lemma_pow10_increases(19, pad);
    if m > 0 {
        assert(m * pow10(pad) >= pow10(pad)) by (nonlinear_arith)
            requires
                m >= 1,
                pow10(pad) >= 1,
        ;
        assert(m * pow10(19) >= pow10(19)) by (nonlinear_arith)
            requires
                m >= 1,
                pow10(19) >= 1,
        ;
    } else {
        assert(m * pow10(pad) == 0) by (nonlinear_arith)
            requires
                m == 0,
        ;
        assert(m * pow10(19) == 0) by (nonlinear_arith)
            requires
                m == 0,
        ;
    }
}

/// A run of digits that reaches the end of the text ends there.
pub proof fn lemma_digits_end_of_run(s: Seq<char>, from: int)
    requires
        0 <= from <= s.len(),
        all_digits(s.subrange(from, s.len() as int)),
    ensures
        digits_end(s, from) == s.len(),
    decreases s.len() - from,
{
    if from < s.len() {
        let run = s.subrange(from, s.len() as int);
        assert(run[0] == s[from]);
        assert forall|i: int| 0 <= i < s.len() - from - 1 implies is_digit(
            #[trigger] s.subrange(from + 1, s.len() as int)[i],
        ) by {
            assert(run[i + 1] == s[from + 1 + i]);
        }
        lemma_digits_end_of_run(s, from + 1);
    }
}

/// A text of digits alone denotes the number they write, in whole units.
pub proof fn lemma_whole_number_text(s: Seq<char>)
    requires
        s.len() > 0,
        all_digits(s),
    ensures
        price_of_text(s) == signed_ticks(digits_value(s) * PRICE_SCALE, false),
{
    let n = s.len() as int;
    assert(is_digit(s[0]));
    assert(s.subrange(0, n) =~= s);
    lemma_digits_end_of_run(s, 0);
    assert(s.subrange(0, n) + s.subrange(n, n) =~= s);
    lemma_scale_is_power_of_ten();
}

/// The characters of a text, in order.
pub fn chars_of(text: &str) -> (v: Vec<char>)
    ensures
        v@ == text@,
{
    let mut v: Vec<char> = Vec::new();
    for c in it: text.chars()
        invariant
            it.seq() == text@,
            v@ == it.seq().take(it.index()),
    {
        v.push(c);
    }
    v
}

/// The value of a decimal digit, `None` for any other character.
pub fn digit_of(c: char) -> (r: Option<u8>)
    ensures
        r is Some <==> is_digit(c),
        r matches Some(d) ==> d == digit_value(c) && d <= 9,
{
    if c >= '0' && c <= '9' {
        Some((c as u32 - '0' as u32) as u8)
    } else {
        None
    }
}

fn digit_run_end(s: &Vec<char>, from: usize) -> (end: usize)
    requires
        from <= s.len(),
    ensures
        end == digits_end(s@, from as int),
        from <= end <= s.len(),
{
    let mut i: usize = from;
    while i < s.len() && digit_of(s[i]).is_some()
        invariant
            from <= i <= s.len(),
            digits_end(s@, from as int) == digits_end(s@, i as int),
        decreases s.len() - i,
    {
        i += 1;
    }
    i
}

/// Reads the first `take` digits, appends `pad` zeros, and gives the number
/// up if it exceeds `limit`.
fn read_leading(digits: &Vec<char>, take: usize, pad: u32, limit: u64) -> (r: Option<u64>)
    requires
        all_digits(digits@),
        take <= digits.len(),
    ensures
        r matches Some(m) ==> within(leading_value(digits@, take as int, pad as nat), limit as int)
            == Some(m as int),
        r is None ==> within(leading_value(digits@, take as int, pad as nat), limit as int)
            is None,
{
    let mut acc: u64 = 0;
    let mut i: usize = 0;
    proof {
        lemma_pow10_positive(pad as nat);
    }
    while i < take
        invariant
            all_digits(digits@),
            i <= take <= digits.len(),
            acc == digits_value(digits@.take(i as int)),
            acc <= limit,
            pow10(pad as nat) >= 1,
        decreases take - i,
    {
        let d = match digit_of(digits[i]) {
            Some(d) => d,
            None => 0u8,
        };
        proof {
            assert(is_digit(digits@[i as int]));
            lemma_digits_value_step(digits@, i as int);
            lemma_digits_value_prefix_le(digits@, i + 1, take as int);
            let next = digits_value(digits@.take(i + 1));
            let last = digits_value(digits@.take(take as int));
            assert(next > limit ==> last * pow10(pad as nat) > limit) by (nonlinear_arith)
                requires
                    next <= last,
                    pow10(pad as nat) >= 1,
                    limit >= 0,
            ;
        }
        let tenfold = match acc.checked_mul(10) {
            Some(x) => x,
            None => {
                return None;
            },
        };
        let next = match tenfold.checked_add(d as u64) {
            Some(x) => x,
            None => {
                return None;
            },
        };
        if next > limit {
            return None;
        }
        acc = next;
        i += 1;
    }
    let ghost read = acc as int;
    let mut j: u32 = 0;
    proof {
        assert(pow10(0) == 1);
    }
    while j < pad
        invariant
            j <= pad,
            0 <= read,
            read == digits_value(digits@.take(take as int)),
            acc == read * pow10(j as nat),
            acc <= limit,
        decreases pad - j,
    {
        proof {
            lemma_pow10_increases((j + 1) as nat, pad as nat);
            lemma_pow10_positive(j as nat);
            assert(read * pow10((j + 1) as nat) == 10 * (read * pow10(j as nat)))
                by (nonlinear_arith)
                requires
                    pow10((j + 1) as nat) == 10 * pow10(j as nat),
            ;
            assert(read * pow10((j + 1) as nat) <= read * pow10(pad as nat)) by (nonlinear_arith)
                requires
                    0 <= read,
                    pow10((j + 1) as nat) <= pow10(pad as nat),
            ;
        }
        let tenfold = match acc.checked_mul(10) {
            Some(x) => x,
            None => {
                return None;
            },
        };
        if tenfold > limit {
            return None;
        }
        acc = tenfold;
        j += 1;
    }
    Some(acc)
}

/// Reads the digits from `from` to `to`: exactly up to the cap, and as some
/// number above the cap, no greater than the true one, beyond it.
fn read_capped(s: &Vec<char>, from: usize, to: usize) -> (e: u128)
    requires
        from <= to <= s.len(),
        all_digits(s@.subrange(from as int, to as int)),
    ensures
        e <= digits_value(s@.subrange(from as int, to as int)),
        e == digits_value(s@.subrange(from as int, to as int)) || e > EXPONENT_CAP,
        e <= 10 * EXPONENT_CAP + 9,
{
    let ghost run = s@.subrange(from as int, to as int);
    let mut e: u128 = 0;
    let mut i: usize = from;
    while i < to
        invariant
            from <= i <= to <= s.len(),
            run == s@.subrange(from as int, to as int),
            all_digits(run),
            e <= digits_value(run.take(i - from)),
            e == digits_value(run.take(i - from)) || e > EXPONENT_CAP,
            e <= 10 * EXPONENT_CAP + 9,
        decreases to - i,
    {
        proof {
            assert(run[i - from] == s@[i as int]);
            assert(is_digit(run[i - from]));
            lemma_digits_value_step(run, i - from);
        }
        let d = match digit_of(s[i]) {
            Some(d) => d,
            None => 0u8,
        };
        if e <= EXPONENT_CAP {
            e = e * 10 + d as u128;
        }
        i += 1;
    }
    proof {
        assert(run.take(to - from) =~= run);
    }
    e
}

/// How many of `len` digits stand before the point once it is at `point`.
spec fn take_of(point: int, len: int) -> int {
    if point <= 0 {
        0
    } else if point >= len {
        len
    } else {
        point
    }
}

/// How many zeros follow `len` digits once the point is at `point`, at most 19.
spec fn pad_of(point: int, len: int) -> nat {
    if point <= len {
        0
    } else if point - len >= 19 {
        19
    } else {
        (point - len) as nat
    }
}

/// Reading up to the point, with at most nineteen zeros appended, decides
/// the same as the shifted value does.
proof fn lemma_place(digits: Seq<char>, point: int, limit: int)
    requires
        all_digits(digits),
        0 <= limit < 10_000_000_000_000_000_000,
    ensures
        0 <= shift10(digits_value(digits), point - digits.len()),
        within(shift10(digits_value(digits), point - digits.len()), limit) == within(
            leading_value(
                digits,
                take_of(point, digits.len() as int),
                pad_of(point, digits.len() as int),
            ),
            limit,
        ),
{
    let len = digits.len() as int;
    lemma_digits_value_bounds(digits);
    lemma_shift10_reads_digits(digits, point);
    assert(digits.take(len) =~= digits);
    assert(digits.take(0).len() == 0);
    assert(pow10(0) == 1);
    if point > len + 19 {
        lemma_pad_cap(digits_value(digits), (point - len) as nat, limit);
    }
    lemma_pow10_positive(pad_of(point, len));
    lemma_digits_value_bounds(digits.take(take_of(point, len)));
    if point >= len {
        lemma_pow10_positive((point - len) as nat);
        assert(digits_value(digits) * pow10((point - len) as nat) >= 0) by (nonlinear_arith)
            requires
                digits_value(digits) >= 0,
                pow10((point - len) as nat) >= 1,
        ;
    }
}

/// An exponent known only to exceed the cap places the point where the
/// true one does: before every digit, or more than nineteen places past them.
proof fn lemma_capped_point(whole: int, len: int, negative: bool, exact: int, capped: int)
    requires
        0 <= whole <= len <= usize::MAX,
        0 <= capped <= exact,
        capped == exact || capped > EXPONENT_CAP,
    ensures
        take_of(whole + PRICE_DECIMALS + (if negative { -exact } else { exact }), len) == take_of(
            whole + PRICE_DECIMALS + (if negative { -capped } else { capped }),
            len,
        ),
        pad_of(whole + PRICE_DECIMALS + (if negative { -exact } else { exact }), len) == pad_of(
            whole + PRICE_DECIMALS + (if negative { -capped } else { capped }),
            len,
        ),
{
}

/// The exponent from `at` to the end of the text: its sign, and its digits
/// read exactly up to the cap.
fn read_exponent(s: &Vec<char>, at: usize) -> (r: Option<(bool, u128)>)
    requires
        at <= s.len(),
    ensures
        r is None <==> exponent_of(s@, at as int) is None,
        r matches Some((negative, capped)) ==> {
            let exact = exponent_of(s@, at as int).unwrap();
            &&& negative ==> exact <= 0
            &&& !negative ==> exact >= 0
            &&& capped <= (if negative { -exact } else { exact })
            &&& capped == (if negative { -exact } else { exact }) || capped > EXPONENT_CAP
            &&& capped <= 10 * EXPONENT_CAP + 9
        },
{
    let n = s.len();
    if at == n {
        return Some((false, 0));
    }
    if s[at] != 'e' && s[at] != 'E' {
        return None;
    }
    let signed = at + 1 < n && (s[at + 1] == '+' || s[at + 1] == '-');
    let negative = at + 1 < n && s[at + 1] == '-';
    let from: usize = if signed { at + 2 } else { at + 1 };
    let to = digit_run_end(s, from);
    proof {
        lemma_digits_end(s@, from as int);
        lemma_digits_value_bounds(s@.subrange(from as int, to as int));
    }
    if to == from || to != n {
        return None;
    }
    let capped = read_capped(s, from, to);
    Some((negative, capped))
}

/// The digits before and behind the point, in one run.
fn mantissa_digits(s: &Vec<char>, a: usize, b: usize, c: usize, d: usize) -> (digits: Vec<char>)
    requires
        a <= b <= c <= d <= s.len(),
        all_digits(s@.subrange(a as int, b as int)),
        all_digits(s@.subrange(c as int, d as int)),
    ensures
        digits@ == s@.subrange(a as int, b as int) + s@.subrange(c as int, d as int),
        all_digits(digits@),
{
    let mut digits: Vec<char> = Vec::new();
    let mut i: usize = a;
    while i < b
        invariant
            a <= i <= b <= s.len(),
            digits@ == s@.subrange(a as int, i as int),
        decreases b - i,
    {
        digits.push(s[i]);
        i += 1;
    }
    i = c;
    while i < d
        invariant
            c <= i <= d <= s.len(),
            digits@ == s@.subrange(a as int, b as int) + s@.subrange(c as int, i as int),
        decreases d - i,
    {
        digits.push(s[i]);
        i += 1;
    }
    proof {
        assert forall|i: int| 0 <= i < digits@.len() implies is_digit(#[trigger] digits@[i]) by {
            if i < b - a {
                assert(digits@[i] == s@.subrange(a as int, b as int)[i]);
            } else {
                assert(digits@[i] == s@.subrange(c as int, d as int)[i - (b - a)]);
            }
        }
    }
    digits
}

/// The digits with the point moved to `whole + PRICE_DECIMALS` and the
/// exponent applied, as signed ticks.
fn scale_digits(
    digits: &Vec<char>,
    whole: usize,
    negative: bool,
    exponent_negative: bool,
    capped: u128,
    Ghost(exact): Ghost<int>,
) -> (r: Option<i64>)
    requires
        all_digits(digits@),
        whole <= digits.len(),
        0 <= capped <= exact,
        capped == exact || capped > EXPONENT_CAP,
        capped <= 10 * EXPONENT_CAP + 9,
    ensures
        r == signed_ticks(
            shift10(
                digits_value(digits@),
                whole + PRICE_DECIMALS + (if exponent_negative { -exact } else { exact })
                    - digits.len(),
            ),
            negative,
        ),
{
    let len = digits.len();
    let base = whole as i128 + PRICE_DECIMALS as i128;
    let k: i128 = if exponent_negative { base - capped as i128 } else { base + capped as i128 };
    let take: usize = if k <= 0 { 0 } else if k >= len as i128 { len } else { k as usize };
    let pad: u32 = if k <= len as i128 {
        0
    } else if k - len as i128 >= 19 {
        19
    } else {
        (k - len as i128) as u32
    };
    let limit: u64 = if negative { 0x8000_0000_0000_0000 } else { 0x7fff_ffff_ffff_ffff };
    proof {
        let point = whole + PRICE_DECIMALS + (if exponent_negative { -exact } else { exact });
        lemma_capped_point(whole as int, len as int, exponent_negative, exact, capped as int);
        lemma_place(digits@, point, limit as int);
    }
    match read_leading(digits, take, pad, limit) {
        None => None,
        Some(m) => {
            if negative {
                if m == 0x8000_0000_0000_0000 {
                    Some(i64::MIN)
                } else {
                    Some(-(m as i64))
                }
            } else {
                Some(m as i64)
            }
        },
    }
}

/// Reads a decimal text as ticks.
pub fn parse_price(text: &str) -> (r: Option<i64>)
    ensures
        r == price_of_text(text@),
{
    let s = chars_of(text);
    let n = s.len();
    let negative = n > 0 && s[0] == '-';
    let a: usize = if n > 0 && (s[0] == '+' || s[0] == '-') { 1 } else { 0 };
    let b = digit_run_end(&s, a);
    let c: usize = if b < n && s[b] == '.' { b + 1 } else { b };
    let d = digit_run_end(&s, c);
    proof {
        lemma_digits_end(s@, a as int);
        lemma_digits_end(s@, c as int);
    }
    if (b - a) + (d - c) == 0 {
        return None;
    }
    let (exponent_negative, capped) = match read_exponent(&s, d) {
        Some(found) => found,
        None => {
            return None;
        },
    };
    let digits = mantissa_digits(&s, a, b, c, d);
    let ghost exact = exponent_of(s@, d as int).unwrap();
    let ghost size = if exponent_negative { -exact } else { exact };
    scale_digits(&digits, b - a, negative, exponent_negative, capped, Ghost(size))
}

} // verus!

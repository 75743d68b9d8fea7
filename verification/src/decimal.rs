//! Decimal literals read as exact amounts of money.
//!
//! An amount such as `0.105` or `1.5e-7` (US dollars) is turned into whole
//! picodollars without passing through binary floating point: the digits are
//! kept as written and the decimal point is moved twelve places to the right.

use vstd::prelude::*;
use vstd::arithmetic::div_mod::lemma_div_denominator;
use crate::text::{all_digits, digit_value, digits_value, is_digit, lemma_digits_value_push};
use vstd::string::StrSliceExecFns;
use crate::pricing::saturated;

verus! {

/// Number of decimal places by which a dollar amount is shifted to give
/// picodollars.
pub const PICO_PLACES: u64 = 12;

/// Ten to the power `n`.
pub open spec fn pow10(n: nat) -> nat
    decreases n,
{
    if n == 0 {
        1
    } else {
        10 * pow10((n - 1) as nat)
    }
}

/// The first index at or after `from` at which `s` holds no ASCII digit.
pub open spec fn digits_end(s: Seq<char>, from: int) -> int
    decreases s.len() - from,
{
    if 0 <= from < s.len() && is_digit(s[from]) {
        digits_end(s, from + 1)
    } else {
        from
    }
}

/// Whether `c` is a plus or minus sign.
pub open spec fn is_sign(c: char) -> bool {
    c == '+' || c == '-'
}

/// Whether `s` holds an ASCII digit at each index in `from..to`.
pub open spec fn digits_in(s: Seq<char>, from: int, to: int) -> bool {
    forall|i: int| from <= i < to ==> is_digit(#[trigger] s[i])
}

/// A decimal literal taken apart: its sign, its digits without the point, and
/// the power of ten by which the digits, read as an integer, are multiplied.
pub struct Decimal {
    pub negative: bool,
    pub digits: Seq<char>,
    pub exponent: int,
}

/// The parts of the decimal literal `s`: an optional sign, digits with at most
/// one point among them (at least one digit in all), and an optional exponent
/// of `e` or `E`, an optional sign and at least one digit. `None` for any
/// other text.
pub open spec fn decimal_of(s: Seq<char>) -> Option<Decimal> {
    let a: int = if s.len() > 0 && is_sign(s[0]) {
        1
    } else {
        0
    };
    let negative = a == 1 && s[0] == '-';
    let b = digits_end(s, a);
    let has_point = b < s.len() && s[b] == '.';
    let c = if has_point {
        b + 1
    } else {
        b
    };
    let d = digits_end(s, c);
    let digits = s.subrange(a, b) + s.subrange(c, d);
    if digits.len() == 0 {
        None
    } else if d == s.len() {
        Some(Decimal { negative, digits, exponent: c - d })
    } else if s[d] == 'e' || s[d] == 'E' {
        let p = d + 1;
        let q = if p < s.len() && is_sign(s[p]) {
            p + 1
        } else {
            p
        };
        if q < s.len() && digits_end(s, q) == s.len() {
            let e = digits_value(s.subrange(q, s.len() as int)) as int;
            if q > p && s[p] == '-' {
                Some(Decimal { negative, digits, exponent: (c - d) - e })
            } else {
                Some(Decimal { negative, digits, exponent: (c - d) + e })
            }
        } else {
            None
        }
    } else {
        None
    }
}

/// The integer part of `value * 10^shift`.
pub open spec fn scaled(value: nat, shift: int) -> nat {
    if shift >= 0 {
        value * pow10(shift as nat)
    } else {
        value / pow10((-shift) as nat)
    }
}

/// The whole picodollars in the dollar amount that `s` writes, capped at
/// `u64::MAX`: the amount times 10^12, with what lies beyond the twelfth
/// decimal place dropped. Zero for a negative amount and for text that is no
/// decimal literal.
pub open spec fn picodollars(s: Seq<char>) -> u64 {
    match decimal_of(s) {
        Some(d) => if d.negative {
            0
        } else {
            saturated(scaled(digits_value(d.digits), d.exponent + PICO_PLACES) as int)
        },
        None => 0,
    }
}

/// The whole picodollars in a whole number of dollars.
pub open spec fn dollars_to_picodollars(dollars: u64) -> u64 {
    saturated((dollars * pow10(PICO_PLACES as nat)) as int)
}

pub proof fn lemma_pow10_positive(n: nat)
    ensures
        pow10(n) >= 1,
    decreases n,
{
    if n > 0 {
        lemma_pow10_positive((n - 1) as nat);
    }
}

pub proof fn lemma_pow10_monotonic(a: nat, b: nat)
    requires
        a <= b,
    ensures
        pow10(a) <= pow10(b),
    decreases b,
{
    if a < b {
        lemma_pow10_monotonic(a, (b - 1) as nat);
    }
}

/// Twenty decimal places exceed the range of `u64`.
pub proof fn lemma_pow10_twenty()
    ensures
        pow10(12) == 1_000_000_000_000,
        pow10(20) > u64::MAX,
{
    reveal_with_fuel(pow10, 21);
}

/// A string of `n` digits writes a number below `10^n`.
pub proof fn lemma_digits_value_bound(s: Seq<char>)
    requires
        all_digits(s),
    ensures
        digits_value(s) < pow10(s.len()),
    decreases s.len(),
{
    if s.len() > 0 {
        let init = s.drop_last();
        assert forall|i: int| 0 <= i < init.len() implies is_digit(#[trigger] init[i]) by {
            assert(init[i] == s[i]);
        }
        lemma_digits_value_bound(init);
        assert(is_digit(s[s.len() - 1]));
        assert(digit_value(s.last()) <= 9);
    }
}

/// Dropping the last `k` digits of a digit string divides its value by `10^k`.
pub proof fn lemma_digits_value_prefix(s: Seq<char>, k: nat)
    requires
        all_digits(s),
        k <= s.len(),
    ensures
        digits_value(s.take(s.len() - k)) == digits_value(s) / pow10(k),
    decreases k,
{
    if k == 0 {
        assert(s.take(s.len() as int) =~= s);
        assert(pow10(0) == 1);
    } else {
        let init = s.drop_last();
        assert forall|i: int| 0 <= i < init.len() implies is_digit(#[trigger] init[i]) by {
            assert(init[i] == s[i]);
        }
        lemma_digits_value_prefix(init, (k - 1) as nat);
        assert(init.take(init.len() - (k - 1)) =~= s.take(s.len() - k));
        assert(is_digit(s[s.len() - 1]));
        let v = digits_value(s) as int;
        let w = digits_value(init) as int;
        let r = digit_value(s.last()) as int;
        assert(v == w * 10 + r && 0 <= r <= 9);
        assert(v / 10 == w) by (nonlinear_arith)
            requires
                v == w * 10 + r,
                0 <= r <= 9,
        ;
        let p = pow10((k - 1) as nat) as int;
        lemma_pow10_positive((k - 1) as nat);
        lemma_div_denominator(v, 10, p);
        assert(pow10(k) == 10 * p);
        assert(digits_value(init.take(init.len() - (k - 1))) == w / p);
        assert((v / 10) / p == v / (10 * p));
        assert(digits_value(s.take(s.len() - k)) == v / (10 * p));
    }
}

/// Largest exponent magnitude that is told apart; anything beyond it moves
/// the point past every digit that a string can hold.
pub const EXPONENT_CAP: u128 = 1_000_000_000_000_000_000_000_000_000_000;

/// One more digit on a capped accumulator.
fn push_digit(acc: u64, c: char, Ghost(prefix): Ghost<Seq<char>>) -> (next: u64)
    requires
        is_digit(c),
        acc == saturated(digits_value(prefix) as int),
    ensures
        next == saturated(digits_value(prefix.push(c)) as int),
{
    proof {
        lemma_digits_value_push(prefix, c);
    }
    let d: u64 = (c as u32 - '0' as u32) as u64;
    if acc > (u64::MAX - d) / 10 {
        u64::MAX
    } else {
        acc * 10 + d
    }
}

/// The end of the run of digits that starts at `from`.
fn scan_digits(s: &str, from: usize, n: usize) -> (end: usize)
    requires
        from <= n == s@.len(),
    ensures
        from <= end <= n,
        end == digits_end(s@, from as int),
        digits_in(s@, from as int, end as int),
{
    let mut i = from;
    while i < n && is_digit_char(s.get_char(i))
        invariant
            from <= i <= n == s@.len(),
            digits_end(s@, from as int) == digits_end(s@, i as int),
            digits_in(s@, from as int, i as int),
        decreases n - i,
    {
        i += 1;
    }
    i
}

/// Whether `c` is an ASCII digit.
fn is_digit_char(c: char) -> (digit: bool)
    ensures
        digit == is_digit(c),
{
    c >= '0' && c <= '9'
}

/// Whether `c` is a plus or minus sign.
fn is_sign_char(c: char) -> (sign: bool)
    ensures
        sign == is_sign(c),
{
    c == '+' || c == '-'
}

/// Runs the capped accumulator over the digits of `s` in `from..to`.
fn accumulate(s: &str, from: usize, to: usize, start: u64, Ghost(prefix): Ghost<Seq<char>>) -> (acc:
    u64)
    requires
        from <= to <= s@.len(),
        digits_in(s@, from as int, to as int),
        start == saturated(digits_value(prefix) as int),
    ensures
        acc == saturated(digits_value(prefix + s@.subrange(from as int, to as int)) as int),
{
    let mut acc = start;
    let mut i = from;
    assert(prefix + s@.subrange(from as int, from as int) =~= prefix);
    while i < to
        invariant
            from <= i <= to <= s@.len(),
            digits_in(s@, from as int, to as int),
            acc == saturated(digits_value(prefix + s@.subrange(from as int, i as int)) as int),
        decreases to - i,
    {
        let c = s.get_char(i);
        assert((prefix + s@.subrange(from as int, i as int)).push(c) =~= prefix + s@.subrange(
            from as int,
            i + 1,
        ));
        acc = push_digit(acc, c, Ghost(prefix + s@.subrange(from as int, i as int)));
        i += 1;
    }
    acc
}

/// The exponent digits of `s` in `from..n`, as a number capped at
/// `EXPONENT_CAP`; `None` where another character stands among them.
fn read_exponent(s: &str, from: usize, n: usize) -> (value: Option<u128>)
    requires
        from <= n == s@.len(),
    ensures
        value is Some == (digits_end(s@, from as int) == n),
        value is Some ==> value->0 == if digits_value(s@.subrange(from as int, n as int))
            >= EXPONENT_CAP {
            EXPONENT_CAP
        } else {
            digits_value(s@.subrange(from as int, n as int)) as u128
        },
{
    let mut acc: u128 = 0;
    let mut i = from;
    while i < n
        invariant
            from <= i <= n == s@.len(),
            digits_end(s@, from as int) == digits_end(s@, i as int),
            acc <= EXPONENT_CAP,
            acc == if digits_value(s@.subrange(from as int, i as int)) >= EXPONENT_CAP {
                EXPONENT_CAP
            } else {
                digits_value(s@.subrange(from as int, i as int)) as u128
            },
        decreases n - i,
    {
        let c = s.get_char(i);
        if !is_digit_char(c) {
            return None;
        }
        proof {
            assert(s@.subrange(from as int, i as int).push(c) =~= s@.subrange(from as int, i + 1));
            lemma_digits_value_push(s@.subrange(from as int, i as int), c);
        }
        let d: u128 = (c as u32 - '0' as u32) as u128;
        acc = acc * 10 + d;
        if acc >= EXPONENT_CAP {
            acc = EXPONENT_CAP;
        }
        i += 1;
    }
    Some(acc)
}

/// Ten times a capped amount, capped again.
fn times_ten(acc: u64, Ghost(value): Ghost<nat>) -> (next: u64)
    requires
        acc == saturated(value as int),
    ensures
        next == saturated((value * 10) as int),
{
    if acc > u64::MAX / 10 {
        u64::MAX
    } else {
        acc * 10
    }
}

/// Where the parts of a decimal literal stand in its text: the integer digits
/// in `a..b`, the fraction digits in `c..d`, and the written exponent, capped
/// at `EXPONENT_CAP`, with its sign apart.
struct Layout {
    negative: bool,
    a: usize,
    b: usize,
    c: usize,
    d: usize,
    exponent: u128,
    exponent_negative: bool,
}

impl Layout {
    /// The digits of the literal, integer part then fraction.
    spec fn digits(self, s: Seq<char>) -> Seq<char> {
        s.subrange(self.a as int, self.b as int) + s.subrange(self.c as int, self.d as int)
    }

    /// Whether this layout is that of the decimal literal `s`.
    spec fn describes(self, s: Seq<char>) -> bool {
        let parts = decimal_of(s)->0;
        let written = parts.exponent + (self.d - self.c);
        &&& decimal_of(s) is Some
        &&& self.a <= self.b <= self.c <= self.d <= s.len()
        &&& parts.negative == self.negative
        &&& parts.digits == self.digits(s)
        &&& parts.digits.len() > 0
        &&& all_digits(parts.digits)
        &&& digits_in(s, self.a as int, self.b as int)
        &&& digits_in(s, self.c as int, self.d as int)
        &&& self.exponent <= EXPONENT_CAP
        &&& if self.exponent < EXPONENT_CAP {
            written == if self.exponent_negative {
                -(self.exponent as int)
            } else {
                self.exponent as int
            }
        } else if self.exponent_negative {
            written <= -(EXPONENT_CAP as int)
        } else {
            written >= EXPONENT_CAP as int
        }
    }
}

/// Finds the parts of the decimal literal `s`; `None` where `s` is none.
fn read_layout(s: &str) -> (layout: Option<Layout>)
    ensures
        layout is Some == decimal_of(s@) is Some,
        layout is Some ==> layout->0.describes(s@),
{
    let n = s.unicode_len();
    let a: usize = if n > 0 && is_sign_char(s.get_char(0)) {
        1
    } else {
        0
    };
    let negative = a == 1 && s.get_char(0) == '-';
    let b = scan_digits(s, a, n);
    let c: usize = if b < n && s.get_char(b) == '.' {
        b + 1
    } else {
        b
    };
    let d = scan_digits(s, c, n);
    let ghost digits = s@.subrange(a as int, b as int) + s@.subrange(c as int, d as int);
    if (b - a) + (d - c) == 0 {
        return None;
    }
    let mut exponent: u128 = 0;
    let mut exponent_negative = false;
    if d < n {
        let mark = s.get_char(d);
        if !(mark == 'e' || mark == 'E') {
            return None;
        }
        let p = d + 1;
        let q: usize = if p < n && is_sign_char(s.get_char(p)) {
            p + 1
        } else {
            p
        };
        if q >= n {
            return None;
        }
        match read_exponent(s, q, n) {
            None => {
                return None;
            },
            Some(e) => {
                exponent = e;
                exponent_negative = q > p && s.get_char(p) == '-';
            },
        }
    }
    proof {
        assert forall|j: int| 0 <= j < digits.len() implies is_digit(#[trigger] digits[j]) by {
            if j < b - a {
                assert(s@.subrange(a as int, b as int)[j] == digits[j]);
            } else {
                assert(s@.subrange(c as int, d as int)[j - (b - a)] == digits[j]);
            }
        }
    }
    Some(Layout { negative, a, b, c, d, exponent, exponent_negative })
}

/// The digits of a literal with the point moved `shift` places to the right,
/// as a capped number.
fn scale_up(s: &str, layout: &Layout, shift: i128, Ghost(true_shift): Ghost<int>) -> (picos: u64)
    requires
        layout.describes(s@),
        0 <= shift,
        0 <= true_shift,
        shift >= 20 ==> true_shift >= 20,
        shift < 20 ==> true_shift == shift,
    ensures
        picos == saturated(scaled(digits_value(layout.digits(s@)), true_shift) as int),
{
    let ghost digits = layout.digits(s@);
    let ghost value = digits_value(digits);
    let acc = accumulate(s, layout.a, layout.b, 0, Ghost(Seq::empty()));
    assert(Seq::<char>::empty() + s@.subrange(layout.a as int, layout.b as int) =~= s@.subrange(
        layout.a as int,
        layout.b as int,
    ));
    let mut acc = accumulate(
        s,
        layout.c,
        layout.d,
        acc,
        Ghost(s@.subrange(layout.a as int, layout.b as int)),
    );
    proof {
        lemma_pow10_positive(true_shift as nat);
    }
    if acc == 0 {
        assert(value * pow10(true_shift as nat) == 0) by (nonlinear_arith)
            requires
                value == 0,
        ;
        return 0;
    }
    if shift >= 20 {
        proof {
            lemma_pow10_monotonic(20, true_shift as nat);
            lemma_pow10_twenty();
            assert(value * pow10(true_shift as nat) >= pow10(20)) by (nonlinear_arith)
                requires
                    value >= 1,
                    pow10(true_shift as nat) >= pow10(20),
            ;
        }
        return u64::MAX;
    }
    let mut j: i128 = 0;
    assert(pow10(0) == 1);
    assert(value * 1 == value);
    while j < shift
        invariant
            0 <= j <= shift < 20,
            acc == saturated((value * pow10(j as nat)) as int),
        decreases shift - j,
    {
        assert(pow10((j + 1) as nat) == 10 * pow10(j as nat));
        assert(value * pow10(j as nat) * 10 == value * (10 * pow10(j as nat)))
            by (nonlinear_arith);
        acc = times_ten(acc, Ghost(value * pow10(j as nat)));
        j += 1;
    }
    acc
}

/// The digits of a literal with the point moved `places` places to the left
/// and what then lies behind it dropped, as a capped number.
fn scale_down(s: &str, layout: &Layout, places: i128, Ghost(true_places): Ghost<int>) -> (picos:
    u64)
    requires
        layout.describes(s@),
        0 < places,
        0 < true_places,
        places >= layout.digits(s@).len() ==> true_places >= layout.digits(s@).len(),
        places < layout.digits(s@).len() ==> true_places == places,
    ensures
        picos == saturated(scaled(digits_value(layout.digits(s@)), -true_places) as int),
{
    let ghost digits = layout.digits(s@);
    let ghost value = digits_value(digits);
    let int_len: usize = layout.b - layout.a;
    let frac_len: usize = layout.d - layout.c;
    let total: i128 = int_len as i128 + frac_len as i128;
    proof {
        lemma_digits_value_bound(digits);
    }
    if places >= total {
        proof {
            let k = true_places as nat;
            lemma_pow10_monotonic(digits.len(), k);
            assert(value / pow10(k) == 0) by (nonlinear_arith)
                requires
                    0 <= value < pow10(k),
            ;
        }
        return 0;
    }
    let keep: usize = (total - places) as usize;
    let keep_int: usize = if keep < int_len {
        keep
    } else {
        int_len
    };
    let acc = accumulate(s, layout.a, layout.a + keep_int, 0, Ghost(Seq::empty()));
    assert(Seq::<char>::empty() + s@.subrange(layout.a as int, layout.a + keep_int)
        =~= s@.subrange(layout.a as int, layout.a + keep_int));
    let acc = accumulate(
        s,
        layout.c,
        layout.c + (keep - keep_int),
        acc,
        Ghost(s@.subrange(layout.a as int, layout.a + keep_int)),
    );
    proof {
        assert(s@.subrange(layout.a as int, layout.a + keep_int) + s@.subrange(
            layout.c as int,
            layout.c + (keep - keep_int),
        ) =~= digits.take(keep as int));
        lemma_digits_value_prefix(digits, places as nat);
    }
    acc
}

/// The whole picodollars in the dollar amount that the decimal literal `s`
/// writes, capped at `u64::MAX`; zero for a negative amount and for text that
/// is no decimal literal.
pub fn parse_picodollars(s: &str) -> (picos: u64)
    ensures
        picos == picodollars(s@),
{
    let layout = match read_layout(s) {
        None => {
            return 0;
        },
        Some(layout) => layout,
    };
    if layout.negative {
        return 0;
    }
    let ghost true_shift = (decimal_of(s@)->0).exponent + PICO_PLACES;
    let frac_len: usize = layout.d - layout.c;
    let places: i128 = PICO_PLACES as i128 - frac_len as i128;
    let shift: i128 = if layout.exponent_negative {
        places - layout.exponent as i128
    } else {
        places + layout.exponent as i128
    };
    if shift >= 0 {
        scale_up(s, &layout, shift, Ghost(true_shift))
    } else {
        scale_down(s, &layout, -shift, Ghost(-true_shift))
    }
}

/// The whole picodollars in a whole number of dollars, capped at `u64::MAX`.
pub fn picodollars_of_dollars(dollars: u64) -> (picos: u64)
    ensures
        picos == dollars_to_picodollars(dollars),
{
    proof {
        lemma_pow10_twenty();
    }
    let exact: u128 = dollars as u128 * 1_000_000_000_000u128;
    if exact >= u64::MAX as u128 {
        u64::MAX
    } else {
        exact as u64
    }
}

} // verus!

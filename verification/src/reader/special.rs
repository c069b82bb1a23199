//! The special-comment parser: a loosely-typed scripted-animation
//! payload, a JSON array of up to 13 positional fields, each optional
//! with a documented default.
//!
//! Numbers are held in millionths of a unit ("micro-units"), clamped to
//! `MICRO_CAP`; coordinates are then mapped through the zoom factor into
//! output centipixels.

use vstd::prelude::*;
use vstd::string::{StrSliceExecFns, StringExecFns};
use crate::comment::{SpecialCommentData, COORD_CAP_CP};
use crate::error::ParseError;
use crate::reader::utils::{spec_unescape_newline, unescape_newline};
use crate::text::{chars_string, str_chars};
use crate::writer::utils::ZoomFactor;

verus! {

/// Width of the reference player canvas.
pub const BILI_PLAYER_WIDTH: u32 = 891;

/// Height of the reference player canvas.
pub const BILI_PLAYER_HEIGHT: u32 = 589;

/// Magnitude cap of a parsed number, in micro-units (one billion units).
pub const MICRO_CAP: i64 = 1000000000000000;

/// One unit, in micro-units.
pub const MICRO_ONE: i64 = 1000000;

/// A decoded payload value: numbers in micro-units, strings, nulls,
/// booleans, and nested structures (recognised but never read).
#[derive(Debug, PartialEq)]
pub enum JsonValue {
    Null,
    Bool(bool),
    /// A number, in micro-units, clamped to `MICRO_CAP`.
    Num(i64),
    Str(String),
    Arr(Vec<JsonValue>),
    Obj,
}

// ------------------------------------------------------------------
// Decimal text to micro-units
// ------------------------------------------------------------------
/// Whether `c` is an ASCII decimal digit.
pub open spec fn spec_is_digit(c: char) -> bool {
    '0' <= c && c <= '9'
}

/// The numeric value of a digit character.
pub open spec fn spec_digit_val(c: char) -> int {
    (c as u32) - ('0' as u32)
}

/// Whether every character of `s[i..j)` is a digit.
pub open spec fn spec_all_digits(s: Seq<char>, i: int, j: int) -> bool
    decreases j - i,
{
    i >= j || (spec_is_digit(s[i]) && spec_all_digits(s, i + 1, j))
}

/// Left fold of the digits of `s[i..j)` into a value, clamped at
/// `MICRO_CAP`.
pub open spec fn spec_fold_digits(s: Seq<char>, i: int, j: int, acc: int) -> int
    decreases j - i,
{
    if i >= j {
        acc
    } else {
        let acc2 = acc * 10 + spec_digit_val(s[i]);
        spec_fold_digits(s, i + 1, j, if acc2 > MICRO_CAP {
            MICRO_CAP as int
        } else {
            acc2
        })
    }
}

/// The first position of `c` in `s` at or after `i`, or the length.
pub open spec fn spec_find_char(s: Seq<char>, i: int, c: char) -> int
    decreases s.len() - i,
{
    if i >= s.len() {
        s.len() as int
    } else if s[i] == c {
        i
    } else {
        spec_find_char(s, i + 1, c)
    }
}

/// Ten to the `e`.
pub open spec fn spec_pow10(e: nat) -> int
    decreases e,
{
    if e == 0 {
        1
    } else {
        10 * spec_pow10((e - 1) as nat)
    }
}

/// The value of a plain signed decimal (`[+-]?digits[.digits]`, at
/// least one digit, no exponent), in micro-units clamped to
/// `MICRO_CAP`; `None` when the text has any other shape. Fractional
/// digits beyond the sixth are dropped.
pub open spec fn spec_mantissa_micro(s: Seq<char>) -> Option<int> {
    let body = if s.len() > 0 && (s[0] == '-' || s[0] == '+') {
        1int
    } else {
        0int
    };
    let neg = s.len() > 0 && s[0] == '-';
    let dot = spec_find_char(s, body, '.');
    if s.len() == body {
        Option::None
    } else if !(spec_all_digits(s, body, dot) && spec_all_digits(s, dot + 1, s.len() as int)) {
        Option::None
    } else if dot == body && dot + 1 >= s.len() {
        Option::None
    } else {
        let int_val = spec_fold_digits(s, body, dot, 0);
        let fend = if dot + 7 <= s.len() {
            dot + 7
        } else {
            s.len() as int
        };
        let frac_digits = if fend - dot - 1 >= 0 {
            fend - dot - 1
        } else {
            0
        };
        let frac_val = spec_fold_digits(s, dot + 1, fend, 0) * spec_pow10(
            (6 - frac_digits) as nat,
        );
        let mag = int_val * (MICRO_ONE as int) + frac_val;
        let mag = if mag > MICRO_CAP {
            MICRO_CAP as int
        } else {
            mag
        };
        Option::Some(
            if neg {
                -mag
            } else {
                mag
            },
        )
    }
}

pub proof fn lemma_pow10_values()
    ensures
        spec_pow10(0) == 1,
        spec_pow10(1) == 10,
        spec_pow10(2) == 100,
        spec_pow10(3) == 1000,
        spec_pow10(4) == 10000,
        spec_pow10(5) == 100000,
        spec_pow10(6) == 1000000,
{
    assert(spec_pow10(0) == 1);
    assert(spec_pow10(1) == 10 * spec_pow10(0));
    assert(spec_pow10(2) == 10 * spec_pow10(1));
    assert(spec_pow10(3) == 10 * spec_pow10(2));
    assert(spec_pow10(4) == 10 * spec_pow10(3));
    assert(spec_pow10(5) == 10 * spec_pow10(4));
    assert(spec_pow10(6) == 10 * spec_pow10(5));
}

fn is_digit(c: char) -> (r: bool)
    ensures
        r == spec_is_digit(c),
{
    '0' <= c && c <= '9'
}

proof fn lemma_fold_digits_bounds(s: Seq<char>, i: int, j: int, acc: int)
    requires
        0 <= acc <= MICRO_CAP,
        spec_all_digits(s, i, j),
    ensures
        0 <= spec_fold_digits(s, i, j, acc) <= MICRO_CAP,
    decreases j - i,
{
    if i < j {
        assert(spec_is_digit(s[i]));
        let acc2 = acc * 10 + spec_digit_val(s[i]);
        lemma_fold_digits_bounds(s, i + 1, j, if acc2 > MICRO_CAP {
            MICRO_CAP as int
        } else {
            acc2
        });
    }
}

proof fn lemma_all_digits_sub(s: Seq<char>, i: int, j: int, j2: int)
    requires
        spec_all_digits(s, i, j),
        j2 <= j,
    ensures
        spec_all_digits(s, i, j2),
    decreases j2 - i,
{
    if i < j2 {
        lemma_all_digits_sub(s, i + 1, j, j2);
    }
}

/// A successfully parsed mantissa is within the micro-unit cap.
proof fn lemma_mantissa_micro_bounds(s: Seq<char>)
    ensures
        match spec_mantissa_micro(s) {
            Option::Some(v) => -MICRO_CAP <= v <= MICRO_CAP,
            Option::None => true,
        },
{
    let body = if s.len() > 0 && (s[0] == '-' || s[0] == '+') {
        1int
    } else {
        0int
    };
    let dot = spec_find_char(s, body, '.');
    if spec_mantissa_micro(s) is Some {
        lemma_fold_digits_bounds(s, body, dot, 0);
        lemma_all_digits_sub(s, dot + 1, s.len() as int, if dot + 7 <= s.len() {
            dot + 7
        } else {
            s.len() as int
        });
        lemma_fold_digits_bounds(s, dot + 1, if dot + 7 <= s.len() {
            dot + 7
        } else {
            s.len() as int
        }, 0);
        let fend = if dot + 7 <= s.len() {
            dot + 7
        } else {
            s.len() as int
        };
        let frac_digits = if fend - dot - 1 >= 0 {
            fend - dot - 1
        } else {
            0
        };
        lemma_pow10_pos((6 - frac_digits) as nat);
        vstd::arithmetic::mul::lemma_mul_nonnegative(
            spec_fold_digits(s, dot + 1, fend, 0),
            spec_pow10((6 - frac_digits) as nat),
        );
        vstd::arithmetic::mul::lemma_mul_nonnegative(
            spec_fold_digits(s, body, dot, 0),
            MICRO_ONE as int,
        );
    }
}

#[verifier::loop_isolation(false)]
fn find_char(cs: &Vec<char>, start: usize, c: char) -> (r: usize)
    requires
        start <= cs@.len(),
    ensures
        r == spec_find_char(cs@, start as int, c),
        start <= r <= cs@.len(),
{
    let mut i: usize = start;
    while i < cs.len()
        invariant
            start <= i <= cs@.len(),
            spec_find_char(cs@, start as int, c) == spec_find_char(cs@, i as int, c),
        decreases cs@.len() - i,
    {
        if cs[i] == c {
            return i;
        }
        i = i + 1;
    }
    i
}

#[verifier::loop_isolation(false)]
fn all_digits(cs: &Vec<char>, start: usize, stop: usize) -> (r: bool)
    requires
        stop <= cs@.len(),
    ensures
        r == spec_all_digits(cs@, start as int, stop as int),
{
    if start >= stop {
        return true;
    }
    let mut i: usize = start;
    while i < stop
        invariant
            start <= i <= stop,
            spec_all_digits(cs@, start as int, stop as int) == spec_all_digits(
                cs@,
                i as int,
                stop as int,
            ),
        decreases stop - i,
    {
        if !is_digit(cs[i]) {
            return false;
        }
        i = i + 1;
    }
    true
}

#[verifier::loop_isolation(false)]
fn fold_digits(cs: &Vec<char>, start: usize, stop: usize) -> (r: i64)
    requires
        start <= stop,
        stop <= cs@.len(),
        spec_all_digits(cs@, start as int, stop as int),
    ensures
        r == spec_fold_digits(cs@, start as int, stop as int, 0),
        0 <= r <= MICRO_CAP,
{
    proof {
        lemma_fold_digits_bounds(cs@, start as int, stop as int, 0);
    }
    let mut acc: i64 = 0;
    let mut i: usize = start;
    while i < stop
        invariant
            start <= i <= stop,
            0 <= acc <= MICRO_CAP,
            spec_all_digits(cs@, i as int, stop as int),
            spec_fold_digits(cs@, start as int, stop as int, 0) == spec_fold_digits(
                cs@,
                i as int,
                stop as int,
                acc as int,
            ),
        decreases stop - i,
    {
        proof {
            lemma_fold_digits_bounds(
                cs@,
                i as int + 1,
                stop as int,
                ({
                    let acc2 = acc * 10 + spec_digit_val(cs@[i as int]);
                    if acc2 > MICRO_CAP {
                        MICRO_CAP as int
                    } else {
                        acc2
                    }
                }),
            );
        }
        let d: i64 = ((cs[i] as u32) - ('0' as u32)) as i64;
        let acc2: i64 = acc * 10 + d;
        acc = if acc2 > MICRO_CAP {
            MICRO_CAP
        } else {
            acc2
        };
        i = i + 1;
    }
    acc
}

fn pow10_small(e: u32) -> (r: i64)
    requires
        e <= 6,
    ensures
        r == spec_pow10(e as nat),
{
    proof {
        lemma_pow10_values();
    }
    if e == 0 {
        1
    } else if e == 1 {
        10
    } else if e == 2 {
        100
    } else if e == 3 {
        1000
    } else if e == 4 {
        10000
    } else if e == 5 {
        100000
    } else {
        proof {
            lemma_pow10_values();
        }
        1000000
    }
}

/// Parses the mantissa part of a decimal into micro-units.
#[verifier::loop_isolation(false)]
fn parse_mantissa_micro(cs: &Vec<char>) -> (r: Option<i64>)
    ensures
        match spec_mantissa_micro(cs@) {
            Option::Some(v) => r matches Some(q) && q as int == v,
            Option::None => r is None,
        },
        r matches Some(v) ==> -MICRO_CAP <= v <= MICRO_CAP,
{
    let n = cs.len();
    let body: usize = if n > 0 && (cs[0] == '-' || cs[0] == '+') {
        1
    } else {
        0
    };
    let neg: bool = n > 0 && cs[0] == '-';
    if n == body {
        return None;
    }
    let dot = find_char(cs, body, '.');
    if !(all_digits(cs, body, dot) && (dot >= n || all_digits(cs, dot + 1, n))) {
        proof {
            if dot + 1 > cs@.len() {
                assert(spec_all_digits(cs@, dot + 1, cs@.len() as int));
            }
        }
        return None;
    }
    proof {
        if dot + 1 > cs@.len() {
            assert(spec_all_digits(cs@, dot + 1, cs@.len() as int));
        }
    }
    if dot == body && dot + 1 >= n {
        return None;
    }
    let int_val = fold_digits(cs, body, dot);
    let fend: usize = if n >= 7 && dot <= n - 7 {
        dot + 7
    } else {
        n
    };
    let frac_start: usize = if dot < n {
        dot + 1
    } else {
        n
    };
    proof {
        if dot + 1 <= cs@.len() {
            lemma_all_digits_sub(cs@, dot + 1, cs@.len() as int, fend as int);
        }
    }
    let frac_raw: i64 = if frac_start <= fend {
        fold_digits(cs, frac_start, fend)
    } else {
        0
    };
    let frac_digits: u32 = if fend > dot {
        (fend - dot - 1) as u32
    } else {
        0
    };
    proof {
        if frac_start <= fend && frac_start < cs@.len() {
            lemma_fold_small(cs@, frac_start as int, fend as int);
        }
        if dot >= n {
            assert(spec_fold_digits(cs@, dot + 1, fend as int, 0) == 0);
        }
        assert(frac_raw <= 999999);
        assert(frac_raw as int == spec_fold_digits(cs@, dot + 1, fend as int, 0));
    }
    let p10: i64 = pow10_small(6 - frac_digits);
    proof {
        lemma_pow10_values();
        lemma_pow10_increases((6 - frac_digits) as nat, 6);
        lemma_pow10_pos((6 - frac_digits) as nat);
        vstd::arithmetic::mul::lemma_mul_upper_bound(frac_raw as int, 999999, p10 as int, 1000000);
        vstd::arithmetic::mul::lemma_mul_nonnegative(frac_raw as int, p10 as int);
    }
    let frac_val: i64 = frac_raw * p10;
    let mag: i64 = if int_val > MICRO_CAP / MICRO_ONE {
        proof {
            assert(int_val * (MICRO_ONE as int) > MICRO_CAP) by (nonlinear_arith)
                requires
                    int_val >= MICRO_CAP / MICRO_ONE + 1,
                    MICRO_ONE > 0,
                    MICRO_CAP == (MICRO_CAP / MICRO_ONE) * MICRO_ONE,
            ;
        }
        MICRO_CAP
    } else {
        let m: i64 = int_val * MICRO_ONE + frac_val;
        if m > MICRO_CAP {
            MICRO_CAP
        } else {
            m
        }
    };
    proof {
        assert(frac_val >= 0);
        if int_val > MICRO_CAP / MICRO_ONE {
            assert(int_val * (MICRO_ONE as int) + frac_val > MICRO_CAP);
        }
    }
    if neg {
        Some(-mag)
    } else {
        Some(mag)
    }
}

proof fn lemma_fold_small(s: Seq<char>, i: int, j: int)
    requires
        i <= j,
        j - i <= 6,
        spec_all_digits(s, i, j),
    ensures
        spec_fold_digits(s, i, j, 0) <= 999999,
{
    lemma_pow10_pos((6 - (j - i)) as nat);
    lemma_fold_acc_bound(s, i, j, 0, (j - i) as nat);
}

proof fn lemma_fold_acc_bound(s: Seq<char>, i: int, j: int, acc: int, k: nat)
    requires
        0 <= acc,
        j - i <= k,
        k <= 6,
        acc < spec_pow10((6 - k) as nat),
        spec_all_digits(s, i, j),
    ensures
        spec_fold_digits(s, i, j, acc) <= 999999,
    decreases k,
{
    lemma_pow10_values();
    if i >= j {
        assert(acc < spec_pow10(6)) by {
            lemma_pow10_increases((6 - k) as nat, 6);
        }
    } else {
        let d = spec_digit_val(s[i]);
        assert(spec_is_digit(s[i]));
        assert(0 <= d <= 9);
        let acc2 = acc * 10 + d;
        assert(acc2 < spec_pow10((6 - (k - 1)) as nat)) by {
            assert(acc <= spec_pow10((6 - k) as nat) - 1);
            assert(acc * 10 <= (spec_pow10((6 - k) as nat) - 1) * 10) by (nonlinear_arith)
                requires
                    acc <= spec_pow10((6 - k) as nat) - 1,
            ;
            assert(spec_pow10((6 - k + 1) as nat) == 10 * spec_pow10((6 - k) as nat));
        }
        assert(acc2 <= MICRO_CAP) by {
            lemma_pow10_increases((6 - (k - 1)) as nat, 6);
        }
        lemma_fold_acc_bound(s, i + 1, j, acc2, (k - 1) as nat);
    }
}

proof fn lemma_pow10_increases(a: nat, b: nat)
    requires
        a <= b,
    ensures
        spec_pow10(a) <= spec_pow10(b),
    decreases b,
{
    if a < b {
        lemma_pow10_increases(a, (b - 1) as nat);
        assert(spec_pow10(b) == 10 * spec_pow10((b - 1) as nat));
        assert(spec_pow10((b - 1) as nat) >= 1) by {
            lemma_pow10_pos((b - 1) as nat);
        }
    }
}

proof fn lemma_pow10_pos(e: nat)
    ensures
        spec_pow10(e) >= 1,
    decreases e,
{
    if e > 0 {
        lemma_pow10_pos((e - 1) as nat);
    }
}


/// The position of the exponent marker at or after `i`, or the length.
pub open spec fn spec_exp_start(s: Seq<char>, i: int) -> int
    decreases s.len() - i,
{
    if i < 0 || i >= s.len() {
        s.len() as int
    } else if s[i] == 'e' || s[i] == 'E' {
        i
    } else {
        spec_exp_start(s, i + 1)
    }
}

/// Digit fold of an exponent, clamped at sixteen (larger exponents
/// saturate or vanish identically under the micro-unit cap).
pub open spec fn spec_fold_exp(s: Seq<char>, i: int, j: int, acc: int) -> int
    decreases j - i,
{
    if i >= j {
        acc
    } else {
        let acc2 = acc * 10 + spec_digit_val(s[i]);
        spec_fold_exp(s, i + 1, j, if acc2 > 16 {
            16
        } else {
            acc2
        })
    }
}

/// A mantissa scaled by ten to the signed exponent, saturating at the
/// micro-unit cap (a negative exponent truncates toward zero).
pub open spec fn spec_apply_exp(v: int, neg: bool, e: nat) -> int {
    if neg {
        spec_tdiv(v, spec_pow10(e))
    } else if v >= 0 {
        if v * spec_pow10(e) > MICRO_CAP {
            MICRO_CAP as int
        } else {
            v * spec_pow10(e)
        }
    } else {
        if (-v) * spec_pow10(e) > MICRO_CAP {
            -(MICRO_CAP as int)
        } else {
            v * spec_pow10(e)
        }
    }
}

/// The value of a signed decimal with an optional exponent
/// (`[+-]?digits[.digits][eE[+-]?digits]`), in micro-units clamped to
/// `MICRO_CAP`; `None` when the text has any other shape.
pub open spec fn spec_decimal_micro(s: Seq<char>) -> Option<int> {
    let epos = spec_exp_start(s, 0);
    if epos >= s.len() {
        spec_mantissa_micro(s)
    } else {
        match spec_mantissa_micro(s.subrange(0, epos)) {
            Option::None => Option::None,
            Option::Some(v) => {
                let es = s.subrange(epos + 1, s.len() as int);
                let ebody: int = if es.len() > 0 && (es[0] == '-' || es[0] == '+') {
                    1
                } else {
                    0
                };
                let eneg = es.len() > 0 && es[0] == '-';
                if es.len() == ebody || !spec_all_digits(es, ebody, es.len() as int) {
                    Option::None
                } else {
                    Option::Some(
                        spec_apply_exp(
                            v,
                            eneg,
                            spec_fold_exp(es, ebody, es.len() as int, 0) as nat,
                        ),
                    )
                }
            },
        }
    }
}

proof fn lemma_pow10_sixteen()
    ensures
        spec_pow10(15) == 1000000000000000,
        spec_pow10(16) == 10000000000000000,
{
    lemma_pow10_values();
    assert(spec_pow10(7) == 10 * spec_pow10(6));
    assert(spec_pow10(8) == 10 * spec_pow10(7));
    assert(spec_pow10(9) == 10 * spec_pow10(8));
    assert(spec_pow10(10) == 10 * spec_pow10(9));
    assert(spec_pow10(11) == 10 * spec_pow10(10));
    assert(spec_pow10(12) == 10 * spec_pow10(11));
    assert(spec_pow10(13) == 10 * spec_pow10(12));
    assert(spec_pow10(14) == 10 * spec_pow10(13));
    assert(spec_pow10(15) == 10 * spec_pow10(14));
    assert(spec_pow10(16) == 10 * spec_pow10(15));
}

fn pow10_cap16(e: u64) -> (r: i64)
    requires
        e <= 16,
    ensures
        r == spec_pow10(e as nat),
        1 <= r <= 10000000000000000,
{
    proof {
        lemma_pow10_sixteen();
    }
    let mut p: i64 = 1;
    let mut k: u64 = 0;
    while k < e
        invariant
            k <= e <= 16,
            p == spec_pow10(k as nat),
            1 <= p,
        decreases e - k,
    {
        proof {
            lemma_pow10_increases(k as nat, 15);
            lemma_pow10_sixteen();
        }
        p = p * 10;
        k = k + 1;
    }
    proof {
        lemma_pow10_increases(e as nat, 16);
        lemma_pow10_sixteen();
    }
    p
}

proof fn lemma_all_digits_grow(s: Seq<char>, a: int, j: int)
    requires
        a < j <= s.len(),
        spec_all_digits(s, a, j - 1),
        spec_is_digit(s[j - 1]),
    ensures
        spec_all_digits(s, a, j),
    decreases j - a,
{
    if a < j - 1 {
        lemma_all_digits_grow(s, a + 1, j);
    } else {
        assert(spec_all_digits(s, j, j));
    }
}

proof fn lemma_all_digits_break(s: Seq<char>, a: int, b: int, i: int)
    requires
        a <= i < b,
        !spec_is_digit(s[i]),
    ensures
        !spec_all_digits(s, a, b),
    decreases i - a,
{
    if a < i {
        lemma_all_digits_break(s, a + 1, b, i);
    }
}

/// A successfully parsed decimal is within the micro-unit cap.
proof fn lemma_decimal_micro_bounds(s: Seq<char>)
    ensures
        match spec_decimal_micro(s) {
            Option::Some(v) => -MICRO_CAP <= v <= MICRO_CAP,
            Option::None => true,
        },
{
    let epos = spec_exp_start(s, 0);
    if epos >= s.len() {
        lemma_mantissa_micro_bounds(s);
    } else {
        lemma_mantissa_micro_bounds(s.subrange(0, epos));
        match spec_mantissa_micro(s.subrange(0, epos)) {
            Option::None => {},
            Option::Some(v) => {
                let es = s.subrange(epos + 1, s.len() as int);
                let ebody: int = if es.len() > 0 && (es[0] == '-' || es[0] == '+') {
                    1
                } else {
                    0
                };
                if !(es.len() == ebody || !spec_all_digits(es, ebody, es.len() as int)) {
                    let e = spec_fold_exp(es, ebody, es.len() as int, 0) as nat;
                    lemma_pow10_pos(e);
                    if es[0] == '-' {
                        if v >= 0 {
                            vstd::arithmetic::div_mod::lemma_div_is_ordered(
                                v,
                                MICRO_CAP as int,
                                spec_pow10(e),
                            );
                            vstd::arithmetic::div_mod::lemma_div_pos_is_pos(v, spec_pow10(e));
                        } else {
                            vstd::arithmetic::div_mod::lemma_div_is_ordered(
                                -v,
                                MICRO_CAP as int,
                                spec_pow10(e),
                            );
                            vstd::arithmetic::div_mod::lemma_div_pos_is_pos(-v, spec_pow10(e));
                        }
                    } else {
                        if v >= 0 {
                            vstd::arithmetic::mul::lemma_mul_nonnegative(v, spec_pow10(e));
                        } else {
                            vstd::arithmetic::mul::lemma_mul_nonnegative(-v, spec_pow10(e));
                            assert(v * spec_pow10(e) == -((-v) * spec_pow10(e)))
                                by (nonlinear_arith);
                        }
                    }
                }
            },
        }
    }
}

/// Parses a signed decimal, with an optional exponent, into
/// micro-units.
#[verifier::loop_isolation(false)]
pub fn parse_decimal_micro(cs: &Vec<char>) -> (r: Option<i64>)
    ensures
        match spec_decimal_micro(cs@) {
            Option::Some(v) => r matches Some(q) && q as int == v,
            Option::None => r is None,
        },
        r matches Some(v) ==> -MICRO_CAP <= v <= MICRO_CAP,
{
    let n = cs.len();
    let mut epos: usize = 0;
    while epos < n && !(cs[epos] == 'e' || cs[epos] == 'E')
        invariant
            epos <= n,
            spec_exp_start(cs@, 0) == spec_exp_start(cs@, epos as int),
        decreases n - epos,
    {
        epos = epos + 1;
    }
    if epos >= n {
        return parse_mantissa_micro(cs);
    }
    let mant = char_sub(cs, 0, epos);
    let v: i64 = match parse_mantissa_micro(&mant) {
        Some(v) => v,
        None => {
            return None;
        },
    };
    let es = char_sub(cs, epos + 1, n);
    let m = es.len();
    let ebody: usize = if m > 0 && (es[0] == '-' || es[0] == '+') {
        1
    } else {
        0
    };
    let eneg: bool = m > 0 && es[0] == '-';
    if m == ebody {
        return None;
    }
    let mut e: u64 = 0;
    let mut q: usize = ebody;
    while q < m
        invariant
            ebody <= q <= m,
            m == es@.len(),
            e <= 16,
            spec_all_digits(es@, ebody as int, q as int),
            spec_fold_exp(es@, ebody as int, m as int, 0) == spec_fold_exp(
                es@,
                q as int,
                m as int,
                e as int,
            ),
        decreases m - q,
    {
        let c = es[q];
        if '0' <= c && c <= '9' {
            let d: u64 = ((c as u32) - ('0' as u32)) as u64;
            let e2 = e * 10 + d;
            e = if e2 > 16 {
                16
            } else {
                e2
            };
            proof {
                lemma_all_digits_grow(es@, ebody as int, q as int + 1);
            }
            q = q + 1;
        } else {
            proof {
                lemma_all_digits_break(es@, ebody as int, m as int, q as int);
            }
            return None;
        }
    }
    let p = pow10_cap16(e);
    if eneg {
        let res = tdiv_micro(v, p);
        Some(res)
    } else {
        let mag: u64 = if v < 0 {
            (-v) as u64
        } else {
            v as u64
        };
        let m2 = crate::text::mul_clamp(mag, p as u64, MICRO_CAP as u64);
        proof {
            if v >= 0 {
                vstd::arithmetic::mul::lemma_mul_nonnegative(v as int, p as int);
            } else {
                vstd::arithmetic::mul::lemma_mul_nonnegative(-(v as int), p as int);
                assert((v as int) * (p as int) == -((-(v as int)) * (p as int)))
                    by (nonlinear_arith);
            }
        }
        let res: i64 = if v < 0 {
            -(m2 as i64)
        } else {
            m2 as i64
        };
        Some(res)
    }
}

// ------------------------------------------------------------------
// Position mapping
// ------------------------------------------------------------------
/// Truncating division (toward zero) for a positive divisor.
pub open spec fn spec_tdiv(a: int, b: int) -> int {
    if a >= 0 {
        a / b
    } else {
        -((-a) / b)
    }
}

pub fn tdiv_micro(a: i64, b: i64) -> (r: i64)
    requires
        b > 0,
        a > i64::MIN,
    ensures
        r == spec_tdiv(a as int, b as int),
        a >= 0 ==> 0 <= r <= a,
        a < 0 ==> a <= r <= 0,
{
    proof {
        vstd::arithmetic::div_mod::lemma_div_nonincreasing(
            if a >= 0 {
                a as int
            } else {
                -(a as int)
            },
            b as int,
        );
        vstd::arithmetic::div_mod::lemma_div_pos_is_pos(
            if a >= 0 {
                a as int
            } else {
                -(a as int)
            },
            b as int,
        );
    }
    if a >= 0 {
        a / b
    } else {
        -((-a) / b)
    }
}

/// A scripted coordinate mapped into output space: a value below one
/// unit is a fraction of the reference canvas dimension, anything else
/// an absolute reference-canvas pixel value; both are scaled by the
/// zoom factor and shifted by the axis offset, saturating at the
/// coordinate cap.
pub open spec fn spec_get_position(in_mu: int, is_height: bool, zoom: ZoomFactor) -> int {
    let refdim: int = if is_height {
        BILI_PLAYER_HEIGHT as int
    } else {
        BILI_PLAYER_WIDTH as int
    };
    let off: int = if is_height {
        zoom.offset_y_cp as int
    } else {
        zoom.offset_x_cp as int
    };
    let mag: int = if in_mu < 0 {
        -in_mu
    } else {
        in_mu
    };
    let scaled: int = if in_mu < MICRO_ONE {
        (zoom.scale_num as int) * refdim * mag / ((zoom.scale_den as int) * 10000)
    } else {
        (zoom.scale_num as int) * mag / ((zoom.scale_den as int) * 10000)
    };
    let v: int = (if in_mu < 0 {
        -scaled
    } else {
        scaled
    }) + off;
    if v > COORD_CAP_CP {
        COORD_CAP_CP as int
    } else if v < -COORD_CAP_CP {
        -COORD_CAP_CP as int
    } else {
        v
    }
}

/// Maps a parsed coordinate (in micro-units) through the zoom factor
/// into output centipixels.
pub fn get_position(in_mu: i64, is_height: bool, zoom: &ZoomFactor) -> (r: i64)
    requires
        zoom.wf(),
        -MICRO_CAP <= in_mu <= MICRO_CAP,
    ensures
        r == spec_get_position(in_mu as int, is_height, *zoom),
        -COORD_CAP_CP <= r <= COORD_CAP_CP,
{
    let refdim: u64 = if is_height {
        BILI_PLAYER_HEIGHT as u64
    } else {
        BILI_PLAYER_WIDTH as u64
    };
    let off: i64 = if is_height {
        zoom.offset_y_cp as i64
    } else {
        zoom.offset_x_cp as i64
    };
    let mag: u64 = if in_mu < 0 {
        (-in_mu) as u64
    } else {
        in_mu as u64
    };
    let denq: u128 = (zoom.scale_den as u128) * 10000;
    proof {
        vstd::arithmetic::mul::lemma_mul_upper_bound(zoom.scale_num as int, 65536, refdim as int,
            891);
        vstd::arithmetic::mul::lemma_mul_upper_bound(zoom.scale_num as int * refdim as int,
            58392576int, mag as int, MICRO_CAP as int);
        vstd::arithmetic::mul::lemma_mul_upper_bound(zoom.scale_num as int, 65536, mag as int,
            MICRO_CAP as int);
        vstd::arithmetic::mul::lemma_mul_nonnegative(zoom.scale_num as int, refdim as int);
        vstd::arithmetic::mul::lemma_mul_nonnegative(zoom.scale_num as int * refdim as int,
            mag as int);
        vstd::arithmetic::mul::lemma_mul_nonnegative(zoom.scale_num as int, mag as int);
        vstd::arithmetic::mul::lemma_mul_inequality(1, zoom.scale_den as int, 10000);
    }
    let prod: u128 = if in_mu < MICRO_ONE {
        (zoom.scale_num as u128) * (refdim as u128) * (mag as u128)
    } else {
        (zoom.scale_num as u128) * (mag as u128)
    };
    proof {
        vstd::arithmetic::div_mod::lemma_div_is_ordered_by_denominator(prod as int, 10000,
            denq as int);
        vstd::arithmetic::div_mod::lemma_div_is_ordered(prod as int, 58392576int * (
        MICRO_CAP as int), 10000);
        vstd::arithmetic::div_mod::lemma_div_pos_is_pos(prod as int, denq as int);
    }
    let scaled_u: u128 = prod / denq;
    let scaled: i64 = scaled_u as i64;
    let v: i64 = (if in_mu < 0 {
        -scaled
    } else {
        scaled
    }) + off;
    if v > COORD_CAP_CP {
        COORD_CAP_CP
    } else if v < 0 - COORD_CAP_CP {
        -COORD_CAP_CP
    } else {
        v
    }
}

// ------------------------------------------------------------------
// Loosely-typed field access
// ------------------------------------------------------------------
/// A numeric field: numbers and numeric strings are accepted, null and
/// a missing index fall back to the default, anything else is a type
/// error. The value is in micro-units.
pub open spec fn spec_float_item(vals: Seq<JsonValue>, idx: int, default: int) -> Option<int> {
    if idx >= vals.len() {
        Option::Some(default)
    } else {
        match vals[idx] {
            JsonValue::Num(m) => Option::Some(m as int),
            JsonValue::Str(s) => Option::Some(
                match spec_decimal_micro(s@) {
                    Option::Some(v) => v,
                    Option::None => default,
                },
            ),
            JsonValue::Null => Option::Some(default),
            _ => Option::None,
        }
    }
}

/// An integer field: like a numeric field, but truncated to whole
/// units; the default is already in whole units.
pub open spec fn spec_int_item(vals: Seq<JsonValue>, idx: int, default: int) -> Option<int> {
    if idx >= vals.len() {
        Option::Some(default)
    } else {
        match vals[idx] {
            JsonValue::Num(m) => Option::Some(spec_tdiv(m as int, MICRO_ONE as int)),
            JsonValue::Str(s) => Option::Some(
                match spec_decimal_micro(s@) {
                    Option::Some(v) => spec_tdiv(v, MICRO_ONE as int),
                    Option::None => default,
                },
            ),
            JsonValue::Null => Option::Some(default),
            _ => Option::None,
        }
    }
}

/// A string field: only a string is accepted; a missing index falls
/// back to the default.
pub open spec fn spec_string_item(vals: Seq<JsonValue>, idx: int, default: Seq<char>) -> Option<
    Seq<char>,
> {
    if idx >= vals.len() {
        Option::Some(default)
    } else {
        match vals[idx] {
            JsonValue::Str(s) => Option::Some(s@),
            _ => Option::None,
        }
    }
}

/// An opacity clamped into one unit.
pub open spec fn spec_clamp_unit(mu: int) -> int {
    if mu < 0 {
        0
    } else if mu > MICRO_ONE {
        MICRO_ONE as int
    } else {
        mu
    }
}

/// The output alpha byte of an opacity in micro-units: zero is opaque.
pub open spec fn spec_alpha_byte(mu: int) -> int {
    255 - (spec_clamp_unit(mu) * 255 + 500000) / 1000000
}

/// The two opacities of an alpha spec string `"from-to"`: an
/// unparsable side falls back to one (fully visible), a missing second
/// side to one as well.
pub open spec fn spec_alpha_parts(s: Seq<char>) -> (int, int) {
    let k = spec_find_char(s, 0, '-');
    let from_mu = match spec_decimal_micro(s.subrange(0, k)) {
        Option::Some(v) => v,
        Option::None => MICRO_ONE as int,
    };
    let to_mu = if k < s.len() {
        let k2 = spec_find_char(s, k + 1, '-');
        match spec_decimal_micro(s.subrange(k + 1, k2)) {
            Option::Some(v) => v,
            Option::None => from_mu,
        }
    } else {
        MICRO_ONE as int
    };
    (from_mu, to_mu)
}

fn alpha_byte(mu: i64) -> (r: u8)
    requires
        -MICRO_CAP <= mu <= MICRO_CAP,
    ensures
        r as int == spec_alpha_byte(mu as int),
{
    let c: i64 = if mu < 0 {
        0
    } else if mu > MICRO_ONE {
        MICRO_ONE
    } else {
        mu
    };
    (255 - (c * 255 + 500000) / 1000000) as u8
}

fn char_sub(cs: &Vec<char>, i: usize, j: usize) -> (r: Vec<char>)
    requires
        i <= j <= cs@.len(),
    ensures
        r@ == cs@.subrange(i as int, j as int),
{
    let mut out: Vec<char> = Vec::new();
    let mut k: usize = i;
    while k < j
        invariant
            i <= k <= j <= cs@.len(),
            out@ == cs@.subrange(i as int, k as int),
        decreases j - k,
    {
        out.push(cs[k]);
        k = k + 1;
        proof {
            assert(out@ =~= cs@.subrange(i as int, k as int));
        }
    }
    out
}

/// The mathematical content of a decoded special payload.
pub ghost struct SpecialFields {
    pub text: Seq<char>,
    pub rotate_y: int,
    pub rotate_z: int,
    pub from_x_cp: int,
    pub from_y_cp: int,
    pub to_x_cp: int,
    pub to_y_cp: int,
    pub from_alpha: int,
    pub to_alpha: int,
    pub delay_ms: int,
    pub lifetime_ms: int,
    pub duration_ms: int,
    pub fontface: Seq<char>,
}

/// Whether a decoded payload carries exactly the given field values
/// (with the border always kept).
pub open spec fn spec_fields_match(text: Seq<char>, d: SpecialCommentData, f: SpecialFields) -> bool {
    &&& text == f.text
    &&& d.rotate_y == f.rotate_y
    &&& d.rotate_z == f.rotate_z
    &&& d.from_x_cp == f.from_x_cp
    &&& d.from_y_cp == f.from_y_cp
    &&& d.to_x_cp == f.to_x_cp
    &&& d.to_y_cp == f.to_y_cp
    &&& d.from_alpha == f.from_alpha
    &&& d.to_alpha == f.to_alpha
    &&& d.delay_ms == f.delay_ms
    &&& d.lifetime_ms == f.lifetime_ms
    &&& d.duration_ms == f.duration_ms
    &&& d.fontface@ == f.fontface
    &&& d.is_border
}

/// The decoded payload of a valid special comment: the unescaped text
/// and the animation parameters, with every documented default
/// applied; `None` when a present field has the wrong type or the
/// array is too short to hold the required text.
pub open spec fn spec_special_fields(vals: Seq<JsonValue>, zoom: ZoomFactor) -> Option<
    SpecialFields,
> {
    if vals.len() < 5 {
        Option::None
    } else if !(vals[4] is Str) {
        Option::None
    } else {
        let text = spec_unescape_newline(vals[4]->Str_0@);
        let fx = spec_float_item(vals, 0, 0);
        let fy = spec_float_item(vals, 1, 0);
        if fx is None || fy is None {
            Option::None
        } else {
            let tx = spec_float_item(vals, 7, fx->0);
            let ty = spec_float_item(vals, 8, fy->0);
            let al = spec_string_item(vals, 2, Seq::<char>::empty());
            let rz = spec_int_item(vals, 5, 0);
            let ry = spec_int_item(vals, 6, 0);
            let lt = spec_float_item(vals, 3, 4500 * (MICRO_ONE as int));
            if tx is None || ty is None || al is None || rz is None || ry is None || lt is None {
                Option::None
            } else {
                let lifetime_ms = spec_tdiv(lt->0, 1000);
                let dur = spec_int_item(vals, 9, lifetime_ms);
                let del = spec_int_item(vals, 10, 0);
                let ff = spec_string_item(vals, 12, "sans-serif"@);
                if dur is None || del is None || ff is None {
                    Option::None
                } else {
                    let alpha = if 2 < vals.len() {
                        spec_alpha_parts(al->0)
                    } else {
                        ((MICRO_ONE as int), (MICRO_ONE as int))
                    };
                    Option::Some(
                        SpecialFields {
                            text: text,
                            rotate_y: ry->0,
                            rotate_z: rz->0,
                            from_x_cp: spec_get_position(fx->0, false, zoom),
                            from_y_cp: spec_get_position(fy->0, true, zoom),
                            to_x_cp: spec_get_position(tx->0, false, zoom),
                            to_y_cp: spec_get_position(ty->0, true, zoom),
                            from_alpha: spec_alpha_byte(alpha.0),
                            to_alpha: spec_alpha_byte(alpha.1),
                            delay_ms: del->0,
                            lifetime_ms: lifetime_ms,
                            duration_ms: dur->0,
                            fontface: ff->0,
                        },
                    )
                }
            }
        }
    }
}


/// A numeric field of the tokenised array (see `spec_float_item`).
pub open spec fn spec_float_item_g(gs: Seq<JsonValSpec>, idx: int, default: int) -> Option<int> {
    if idx >= gs.len() {
        Option::Some(default)
    } else {
        match gs[idx] {
            JsonValSpec::Num(m) => Option::Some(m),
            JsonValSpec::Str(s) => Option::Some(
                match spec_decimal_micro(s) {
                    Option::Some(v) => v,
                    Option::None => default,
                },
            ),
            JsonValSpec::Null => Option::Some(default),
            _ => Option::None,
        }
    }
}

/// An integer field of the tokenised array (see `spec_int_item`).
pub open spec fn spec_int_item_g(gs: Seq<JsonValSpec>, idx: int, default: int) -> Option<int> {
    if idx >= gs.len() {
        Option::Some(default)
    } else {
        match gs[idx] {
            JsonValSpec::Num(m) => Option::Some(spec_tdiv(m, MICRO_ONE as int)),
            JsonValSpec::Str(s) => Option::Some(
                match spec_decimal_micro(s) {
                    Option::Some(v) => spec_tdiv(v, MICRO_ONE as int),
                    Option::None => default,
                },
            ),
            JsonValSpec::Null => Option::Some(default),
            _ => Option::None,
        }
    }
}

/// A string field of the tokenised array (see `spec_string_item`).
pub open spec fn spec_string_item_g(gs: Seq<JsonValSpec>, idx: int, default: Seq<char>) -> Option<
    Seq<char>,
> {
    if idx >= gs.len() {
        Option::Some(default)
    } else {
        match gs[idx] {
            JsonValSpec::Str(s) => Option::Some(s),
            _ => Option::None,
        }
    }
}

/// The decoded payload of the tokenised array: `spec_special_fields`
/// stated directly over the tokenisation.
pub open spec fn spec_special_fields_g(gs: Seq<JsonValSpec>, zoom: ZoomFactor) -> Option<
    SpecialFields,
> {
    if gs.len() < 5 {
        Option::None
    } else if !(gs[4] is Str) {
        Option::None
    } else {
        let text = spec_unescape_newline(gs[4]->Str_0);
        let fx = spec_float_item_g(gs, 0, 0);
        let fy = spec_float_item_g(gs, 1, 0);
        if fx is None || fy is None {
            Option::None
        } else {
            let tx = spec_float_item_g(gs, 7, fx->0);
            let ty = spec_float_item_g(gs, 8, fy->0);
            let al = spec_string_item_g(gs, 2, Seq::<char>::empty());
            let rz = spec_int_item_g(gs, 5, 0);
            let ry = spec_int_item_g(gs, 6, 0);
            let lt = spec_float_item_g(gs, 3, 4500 * (MICRO_ONE as int));
            if tx is None || ty is None || al is None || rz is None || ry is None || lt is None {
                Option::None
            } else {
                let lifetime_ms = spec_tdiv(lt->0, 1000);
                let dur = spec_int_item_g(gs, 9, lifetime_ms);
                let del = spec_int_item_g(gs, 10, 0);
                let ff = spec_string_item_g(gs, 12, "sans-serif"@);
                if dur is None || del is None || ff is None {
                    Option::None
                } else {
                    let alpha = if 2 < gs.len() {
                        spec_alpha_parts(al->0)
                    } else {
                        ((MICRO_ONE as int), (MICRO_ONE as int))
                    };
                    Option::Some(
                        SpecialFields {
                            text: text,
                            rotate_y: ry->0,
                            rotate_z: rz->0,
                            from_x_cp: spec_get_position(fx->0, false, zoom),
                            from_y_cp: spec_get_position(fy->0, true, zoom),
                            to_x_cp: spec_get_position(tx->0, false, zoom),
                            to_y_cp: spec_get_position(ty->0, true, zoom),
                            from_alpha: spec_alpha_byte(alpha.0),
                            to_alpha: spec_alpha_byte(alpha.1),
                            delay_ms: del->0,
                            lifetime_ms: lifetime_ms,
                            duration_ms: dur->0,
                            fontface: ff->0,
                        },
                    )
                }
            }
        }
    }
}

proof fn lemma_float_item_match(vals: Seq<JsonValue>, gs: Seq<JsonValSpec>, idx: int, d: int)
    requires
        0 <= idx,
        json_seq_matches(vals, gs),
    ensures
        spec_float_item(vals, idx, d) == spec_float_item_g(gs, idx, d),
{
    if 0 <= idx < gs.len() {
        assert(json_matches(vals[idx], gs[idx]));
    }
}

proof fn lemma_int_item_match(vals: Seq<JsonValue>, gs: Seq<JsonValSpec>, idx: int, d: int)
    requires
        0 <= idx,
        json_seq_matches(vals, gs),
    ensures
        spec_int_item(vals, idx, d) == spec_int_item_g(gs, idx, d),
{
    if 0 <= idx < gs.len() {
        assert(json_matches(vals[idx], gs[idx]));
    }
}

proof fn lemma_string_item_match(
    vals: Seq<JsonValue>,
    gs: Seq<JsonValSpec>,
    idx: int,
    d: Seq<char>,
)
    requires
        0 <= idx,
        json_seq_matches(vals, gs),
    ensures
        spec_string_item(vals, idx, d) == spec_string_item_g(gs, idx, d),
{
    if 0 <= idx < gs.len() {
        assert(json_matches(vals[idx], gs[idx]));
    }
}

/// Arrays that tokenise to the same content decode to the same
/// payload fields.
pub proof fn lemma_fields_match_ghost(
    vals: Seq<JsonValue>,
    gs: Seq<JsonValSpec>,
    zoom: ZoomFactor,
)
    requires
        json_seq_matches(vals, gs),
    ensures
        spec_special_fields(vals, zoom) == spec_special_fields_g(gs, zoom),
{
    if gs.len() >= 5 {
        assert(json_matches(vals[4], gs[4]));
        lemma_float_item_match(vals, gs, 0, 0);
        lemma_float_item_match(vals, gs, 1, 0);
        let fx = spec_float_item_g(gs, 0, 0);
        let fy = spec_float_item_g(gs, 1, 0);
        if fx is Some && fy is Some {
            lemma_float_item_match(vals, gs, 7, fx->0);
            lemma_float_item_match(vals, gs, 8, fy->0);
            lemma_string_item_match(vals, gs, 2, Seq::<char>::empty());
            lemma_int_item_match(vals, gs, 5, 0);
            lemma_int_item_match(vals, gs, 6, 0);
            lemma_float_item_match(vals, gs, 3, 4500 * (MICRO_ONE as int));
            let lt = spec_float_item_g(gs, 3, 4500 * (MICRO_ONE as int));
            if lt is Some {
                let lifetime_ms = spec_tdiv(lt->0, 1000);
                lemma_int_item_match(vals, gs, 9, lifetime_ms);
                lemma_int_item_match(vals, gs, 10, 0);
                lemma_string_item_match(vals, gs, 12, "sans-serif"@);
            }
        }
    }
}

fn float_item(vals: &Vec<JsonValue>, idx: usize, default: i64) -> (r: Option<i64>)
    requires
        -MICRO_CAP <= default <= MICRO_CAP,
        forall|i: int|
            0 <= i < vals@.len() ==> ((#[trigger] vals@[i]) matches JsonValue::Num(m)
                ==> -MICRO_CAP <= m <= MICRO_CAP),
    ensures
        match spec_float_item(vals@, idx as int, default as int) {
            Option::Some(v) => r matches Some(q) && q as int == v,
            Option::None => r is None,
        },
        r matches Some(v) ==> -MICRO_CAP <= v <= MICRO_CAP,
{
    if idx >= vals.len() {
        return Some(default);
    }
    match &vals[idx] {
        JsonValue::Num(m) => Some(*m),
        JsonValue::Str(s) => {
            let cs = str_chars(s.as_str());
            match parse_decimal_micro(&cs) {
                Some(v) => {
                    proof {
                        lemma_decimal_micro_bounds(cs@);
                    }
                    Some(v)
                },
                None => Some(default),
            }
        },
        JsonValue::Null => Some(default),
        _ => None,
    }
}

fn int_item(vals: &Vec<JsonValue>, idx: usize, default: i64) -> (r: Option<i64>)
    requires
        -MICRO_CAP <= default <= MICRO_CAP,
        forall|i: int|
            0 <= i < vals@.len() ==> ((#[trigger] vals@[i]) matches JsonValue::Num(m)
                ==> -MICRO_CAP <= m <= MICRO_CAP),
    ensures
        match spec_int_item(vals@, idx as int, default as int) {
            Option::Some(v) => r matches Some(q) && q as int == v,
            Option::None => r is None,
        },
        r matches Some(v) ==> ((-1000000000 <= v <= 1000000000) || v == default),
{
    if idx >= vals.len() {
        return Some(default);
    }
    match &vals[idx] {
        JsonValue::Num(m) => {
            let q = tdiv_micro(*m, MICRO_ONE);
            proof {
                lemma_tdiv_micro_bound(*m as int);
                assert(spec_int_item(vals@, idx as int, default as int) == Option::Some(
                    spec_tdiv(*m as int, MICRO_ONE as int),
                ));
            }
            Some(q)
        },
        JsonValue::Str(s) => {
            let cs = str_chars(s.as_str());
            match parse_decimal_micro(&cs) {
                Some(v) => {
                    proof {
                        lemma_decimal_micro_bounds(cs@);
                        lemma_tdiv_micro_bound(v as int);
                    }
                    let q = tdiv_micro(v, MICRO_ONE);
                    proof {
                        assert(spec_int_item(vals@, idx as int, default as int) == Option::Some(
                            spec_tdiv(v as int, MICRO_ONE as int),
                        ));
                    }
                    Some(q)
                },
                None => Some(default),
            }
        },
        JsonValue::Null => Some(default),
        _ => None,
    }
}

/// Truncated division of a capped value stays within the cap divided
/// by the divisor.
pub proof fn lemma_tdiv_cap_bound(a: int, b: int)
    requires
        -MICRO_CAP <= a <= MICRO_CAP,
        b == 1000 || b == 1000000,
    ensures
        b == 1000 ==> -1000000000000 <= spec_tdiv(a, b) <= 1000000000000,
        b == 1000000 ==> -1000000000 <= spec_tdiv(a, b) <= 1000000000,
{
    if a >= 0 {
        vstd::arithmetic::div_mod::lemma_div_is_ordered(a, MICRO_CAP as int, b);
        vstd::arithmetic::div_mod::lemma_div_pos_is_pos(a, b);
    } else {
        vstd::arithmetic::div_mod::lemma_div_is_ordered(-a, MICRO_CAP as int, b);
        vstd::arithmetic::div_mod::lemma_div_pos_is_pos(-a, b);
    }
}

/// Truncated division by one million of a capped value stays within a
/// billion.
proof fn lemma_tdiv_micro_bound(a: int)
    requires
        -MICRO_CAP <= a <= MICRO_CAP,
    ensures
        -1000000000 <= spec_tdiv(a, MICRO_ONE as int) <= 1000000000,
{
    if a >= 0 {
        vstd::arithmetic::div_mod::lemma_div_is_ordered(a, MICRO_CAP as int, MICRO_ONE as int);
        vstd::arithmetic::div_mod::lemma_div_pos_is_pos(a, MICRO_ONE as int);
    } else {
        vstd::arithmetic::div_mod::lemma_div_is_ordered(-a, MICRO_CAP as int, MICRO_ONE as int);
        vstd::arithmetic::div_mod::lemma_div_pos_is_pos(-a, MICRO_ONE as int);
    }
}

fn string_item<'a>(vals: &'a Vec<JsonValue>, idx: usize, default: &'a str) -> (r: Option<&'a str>)
    ensures
        r == match spec_string_item(vals@, idx as int, default@) {
            Option::Some(_) => Option::Some(r->0),
            Option::None => Option::<&'a str>::None,
        },
        r matches Some(s) ==> Option::Some(s@) == spec_string_item(vals@, idx as int, default@),
{
    if idx >= vals.len() {
        return Some(default);
    }
    match &vals[idx] {
        JsonValue::Str(s) => Some(s.as_str()),
        _ => None,
    }
}

/// Decodes the positional fields of a special-comment payload array
/// into the unescaped text and the animation parameters; an error
/// names the first field with an unusable type.
#[verifier::rlimit(60)]
pub fn special_fields_from(vals: &Vec<JsonValue>, zoom: &ZoomFactor) -> (r: Result<
    (String, SpecialCommentData),
    ParseError,
>)
    requires
        zoom.wf(),
        forall|i: int|
            0 <= i < vals@.len() ==> ((#[trigger] vals@[i]) matches JsonValue::Num(m)
                ==> -MICRO_CAP <= m <= MICRO_CAP),
    ensures
        match spec_special_fields(vals@, *zoom) {
            Option::Some(f) => r matches Ok(out) && spec_fields_match(out.0@, out.1, f)
                && out.1.wf(),
            Option::None => r matches Err(e) && e is SpecialComment,
        },
{
    if vals.len() < 5 {
        return Err(
            ParseError::SpecialComment(String::from_str("Special comment array is too short")),
        );
    }
    let text: String = match &vals[4] {
        JsonValue::Str(s) => unescape_newline(s.as_str()),
        _ => {
            return Err(ParseError::SpecialComment(String::from_str("Text is not a string")));
        },
    };
    let fx = match float_item(vals, 0, 0) {
        Some(v) => v,
        None => {
            return Err(ParseError::SpecialComment(String::from_str("Value is not a number")));
        },
    };
    let fy = match float_item(vals, 1, 0) {
        Some(v) => v,
        None => {
            return Err(ParseError::SpecialComment(String::from_str("Value is not a number")));
        },
    };
    let tx = match float_item(vals, 7, fx) {
        Some(v) => v,
        None => {
            return Err(ParseError::SpecialComment(String::from_str("Value is not a number")));
        },
    };
    let ty = match float_item(vals, 8, fy) {
        Some(v) => v,
        None => {
            return Err(ParseError::SpecialComment(String::from_str("Value is not a number")));
        },
    };
    let alpha_str = match string_item(vals, 2, "1-1") {
        Some(s) => s,
        None => {
            return Err(ParseError::SpecialComment(String::from_str("Value is not a string")));
        },
    };
    let rz = match int_item(vals, 5, 0) {
        Some(v) => v,
        None => {
            return Err(ParseError::SpecialComment(String::from_str("Value is not a number")));
        },
    };
    let ry = match int_item(vals, 6, 0) {
        Some(v) => v,
        None => {
            return Err(ParseError::SpecialComment(String::from_str("Value is not a number")));
        },
    };
    let lt = match float_item(vals, 3, 4500 * MICRO_ONE) {
        Some(v) => v,
        None => {
            return Err(ParseError::SpecialComment(String::from_str("Value is not a number")));
        },
    };
    proof {
        if lt >= 0 {
            vstd::arithmetic::div_mod::lemma_div_is_ordered(lt as int, MICRO_CAP as int, 1000);
            vstd::arithmetic::div_mod::lemma_div_pos_is_pos(lt as int, 1000);
        } else {
            vstd::arithmetic::div_mod::lemma_div_is_ordered(-(lt as int), MICRO_CAP as int, 1000);
            vstd::arithmetic::div_mod::lemma_div_pos_is_pos(-(lt as int), 1000);
        }
    }
    let lifetime_ms = tdiv_micro(lt, 1000);
    let dur = match int_item(vals, 9, lifetime_ms) {
        Some(v) => v,
        None => {
            return Err(ParseError::SpecialComment(String::from_str("Value is not a number")));
        },
    };
    let del = match int_item(vals, 10, 0) {
        Some(v) => v,
        None => {
            return Err(ParseError::SpecialComment(String::from_str("Value is not a number")));
        },
    };
    let ff = match string_item(vals, 12, "sans-serif") {
        Some(s) => s,
        None => {
            return Err(ParseError::SpecialComment(String::from_str("Value is not a string")));
        },
    };
    // alpha spec "from-to"
    let acs = str_chars(alpha_str);
    let k = find_char(&acs, 0, '-');
    let first = char_sub(&acs, 0, k);
    let from_mu: i64 = match parse_decimal_micro(&first) {
        Some(v) => v,
        None => MICRO_ONE,
    };
    let to_mu: i64 = if k < acs.len() {
        let k2 = find_char(&acs, k + 1, '-');
        let second = char_sub(&acs, k + 1, k2);
        match parse_decimal_micro(&second) {
            Some(v) => v,
            None => from_mu,
        }
    } else {
        MICRO_ONE
    };
    proof {
        lemma_decimal_micro_bounds(acs@.subrange(0, k as int));
        if k < acs@.len() {
            let k2 = spec_find_char(acs@, k as int + 1, '-');
            lemma_decimal_micro_bounds(acs@.subrange(k as int + 1, k2));
        }
        assert((from_mu as int, to_mu as int) == spec_alpha_parts(alpha_str@));
    }
    let data = SpecialCommentData {
        rotate_y: ry,
        rotate_z: rz,
        from_x_cp: get_position(fx, false, zoom),
        from_y_cp: get_position(fy, true, zoom),
        to_x_cp: get_position(tx, false, zoom),
        to_y_cp: get_position(ty, true, zoom),
        from_alpha: alpha_byte(from_mu),
        to_alpha: alpha_byte(to_mu),
        delay_ms: del,
        lifetime_ms: lifetime_ms,
        duration_ms: dur,
        fontface: String::from_str(ff),
        is_border: true,
    };
    proof {
        let f = spec_special_fields(vals@, *zoom)->0;
        assert(spec_special_fields(vals@, *zoom) is Some);
        assert(text@ == f.text);
        assert(data.rotate_y == f.rotate_y);
        assert(data.rotate_z == f.rotate_z);
        assert(data.from_x_cp == f.from_x_cp);
        assert(data.from_y_cp == f.from_y_cp);
        assert(data.to_x_cp == f.to_x_cp);
        assert(data.to_y_cp == f.to_y_cp);
        assert(data.from_alpha == f.from_alpha);
        assert(data.to_alpha == f.to_alpha);
        assert(data.delay_ms == f.delay_ms);
        assert(data.lifetime_ms == f.lifetime_ms);
        assert(data.duration_ms == f.duration_ms);
        assert(data.fontface@ == f.fontface);
        assert(data.wf());
    }
    Ok((text, data))
}


// ------------------------------------------------------------------
// The payload tokenizer
// ------------------------------------------------------------------
/// Deepest nesting of arrays and objects the tokenizer accepts.
pub const JSON_DEPTH_LIMIT: u32 = 64;

/// A payload value whose numbers are all within the micro-unit cap.
pub open spec fn spec_json_wf(v: JsonValue) -> bool
    decreases v,
{
    match v {
        JsonValue::Num(m) => -MICRO_CAP <= m <= MICRO_CAP,
        JsonValue::Arr(items) => forall|i: int|
            0 <= i < items@.len() ==> spec_json_wf(#[trigger] items@[i]),
        _ => true,
    }
}

/// Relies on char::from_u32: `Some` exactly for Unicode scalar values
/// (not a surrogate, at most 0x10FFFF), and the returned character is
/// the character with the given scalar value.
#[verifier::external_body]
pub(crate) fn char_from_u32(u: u32) -> (r: Option<char>)
    ensures
        r matches Some(c) ==> c as u32 == u && c == u as char,
        (r is Some) <==> (u < 0xD800 || (0xE000 <= u && u <= 0x10FFFF)),
{
    char::from_u32(u)
}

// ------------------------------------------------------------------
// What the tokenizer recognises, at the specification level
// ------------------------------------------------------------------
/// A tokenised payload value, as mathematics: text as characters,
/// numbers in micro-units.
pub ghost enum JsonValSpec {
    Null,
    Bool(bool),
    Num(int),
    Str(Seq<char>),
    Arr(Seq<JsonValSpec>),
    Obj,
}

/// Whether a decoded value carries exactly the tokenised content.
pub open spec fn json_matches(v: JsonValue, g: JsonValSpec) -> bool
    decreases g,
{
    match (v, g) {
        (JsonValue::Null, JsonValSpec::Null) => true,
        (JsonValue::Bool(a), JsonValSpec::Bool(b)) => a == b,
        (JsonValue::Num(m), JsonValSpec::Num(n)) => m as int == n,
        (JsonValue::Str(s), JsonValSpec::Str(t)) => s@ == t,
        (JsonValue::Arr(items), JsonValSpec::Arr(gs)) => items@.len() == gs.len() && (forall|
            i: int,
        |
            0 <= i < gs.len() ==> json_matches(items@[i], #[trigger] gs[i])),
        (JsonValue::Obj, JsonValSpec::Obj) => true,
        _ => false,
    }
}

/// Elementwise `json_matches` over a whole array.
pub open spec fn json_seq_matches(vals: Seq<JsonValue>, gs: Seq<JsonValSpec>) -> bool {
    vals.len() == gs.len() && (forall|i: int|
        0 <= i < gs.len() ==> json_matches(vals[i], #[trigger] gs[i]))
}

/// The characters the tokenizer skips between tokens.
pub open spec fn spec_is_ws(c: char) -> bool {
    c == ' ' || c == '\t' || c == '\n' || c == '\r'
}

/// The first non-whitespace position at or after `i` (the length when
/// none remains).
pub open spec fn spec_skip_ws(s: Seq<char>, i: int) -> int
    decreases s.len() - i,
{
    if i >= s.len() {
        s.len() as int
    } else if !spec_is_ws(s[i]) {
        i
    } else {
        spec_skip_ws(s, i + 1)
    }
}

proof fn lemma_skip_ws_range(s: Seq<char>, i: int)
    requires
        0 <= i <= s.len(),
    ensures
        i <= spec_skip_ws(s, i) <= s.len(),
    decreases s.len() - i,
{
    if i < s.len() && spec_is_ws(s[i]) {
        lemma_skip_ws_range(s, i + 1);
    }
}

/// The value of one hexadecimal digit character.
pub open spec fn spec_hex_val(c: char) -> Option<int> {
    let u = c as u32;
    if '0' <= c && c <= '9' {
        Option::Some(u - ('0' as u32))
    } else if 'a' <= c && c <= 'f' {
        Option::Some(u - ('a' as u32) + 10)
    } else if 'A' <= c && c <= 'F' {
        Option::Some(u - ('A' as u32) + 10)
    } else {
        Option::None
    }
}

/// Whether a code point is a Unicode scalar value.
pub open spec fn spec_scalar_ok(u: int) -> bool {
    u < 0xD800 || (0xE000 <= u && u <= 0x10FFFF)
}

/// The body of a string token from `i` (after the opening quote), with
/// `acc` already decoded: the decoded text and the position after the
/// closing quote.
pub open spec fn spec_string_body(s: Seq<char>, i: int, acc: Seq<char>) -> Option<
    (Seq<char>, int),
>
    decreases s.len() - i,
{
    if i < 0 || i >= s.len() {
        Option::None
    } else {
        let c = s[i];
        if c == '"' {
            Option::Some((acc, i + 1))
        } else if c != '\\' {
            if (c as u32) < 0x20 {
                Option::None
            } else {
                spec_string_body(s, i + 1, acc.push(c))
            }
        } else if s.len() - i <= 1 {
            Option::None
        } else {
            let e = s[i + 1];
            if e == '"' || e == '\\' || e == '/' {
                spec_string_body(s, i + 2, acc.push(e))
            } else if e == 'b' {
                spec_string_body(s, i + 2, acc.push('\u{8}'))
            } else if e == 'f' {
                spec_string_body(s, i + 2, acc.push('\u{c}'))
            } else if e == 'n' {
                spec_string_body(s, i + 2, acc.push('\n'))
            } else if e == 'r' {
                spec_string_body(s, i + 2, acc.push('\r'))
            } else if e == 't' {
                spec_string_body(s, i + 2, acc.push('\t'))
            } else if e == 'u' {
                if s.len() - i <= 5 {
                    Option::None
                } else {
                    match (spec_hex_val(s[i + 2]), spec_hex_val(s[i + 3]), spec_hex_val(
                        s[i + 4],
                    ), spec_hex_val(s[i + 5])) {
                        (
                            Option::Some(a),
                            Option::Some(b),
                            Option::Some(c2),
                            Option::Some(d),
                        ) => {
                            let u0 = a * 4096 + b * 256 + c2 * 16 + d;
                            if 0xD800 <= u0 && u0 <= 0xDBFF {
                                if s.len() - i <= 11 || s[i + 6] != '\\' || s[i + 7] != 'u' {
                                    Option::None
                                } else {
                                    match (spec_hex_val(s[i + 8]), spec_hex_val(s[i + 9]),
                                    spec_hex_val(s[i + 10]), spec_hex_val(s[i + 11])) {
                                        (
                                            Option::Some(a2),
                                            Option::Some(b2),
                                            Option::Some(c3),
                                            Option::Some(d2),
                                        ) => {
                                            let u1 = a2 * 4096 + b2 * 256 + c3 * 16 + d2;
                                            if !(0xDC00 <= u1 && u1 <= 0xDFFF) {
                                                Option::None
                                            } else {
                                                let combined = 0x10000 + (u0 - 0xD800) * 1024 + (
                                                u1 - 0xDC00);
                                                spec_string_body(
                                                    s,
                                                    i + 12,
                                                    acc.push((combined as u32) as char),
                                                )
                                            }
                                        },
                                        _ => Option::None,
                                    }
                                }
                            } else if !spec_scalar_ok(u0) {
                                Option::None
                            } else {
                                spec_string_body(s, i + 6, acc.push((u0 as u32) as char))
                            }
                        },
                        _ => Option::None,
                    }
                }
            } else {
                Option::None
            }
        }
    }
}

/// A string token starting at its opening quote.
pub open spec fn spec_string_at(s: Seq<char>, start: int) -> Option<(Seq<char>, int)> {
    if 0 <= start < s.len() && s[start] == '"' {
        spec_string_body(s, start + 1, Seq::<char>::empty())
    } else {
        Option::None
    }
}

/// The characters a number token is made of.
pub open spec fn spec_is_number_char(c: char) -> bool {
    ('0' <= c && c <= '9') || c == '-' || c == '+' || c == '.' || c == 'e' || c == 'E'
}

/// The end of the number token starting at `i`.
pub open spec fn spec_num_end(s: Seq<char>, i: int) -> int
    decreases s.len() - i,
{
    if i < 0 || i >= s.len() || !spec_is_number_char(s[i]) {
        i
    } else {
        spec_num_end(s, i + 1)
    }
}

/// A number token starting at `start`: its micro-unit value and end.
pub open spec fn spec_number_at(s: Seq<char>, start: int) -> Option<(int, int)> {
    let j = spec_num_end(s, start);
    if j == start {
        Option::None
    } else {
        match spec_decimal_micro(s.subrange(start, j)) {
            Option::Some(v) => Option::Some((v, j)),
            Option::None => Option::None,
        }
    }
}

/// One tokenised value starting at `start` (no leading whitespace),
/// with `d` nesting levels still allowed.
pub open spec fn spec_value_at(s: Seq<char>, start: int, d: nat) -> Option<(JsonValSpec, int)>
    decreases d, s.len() - start, 2int,
{
    if start < 0 || start >= s.len() {
        Option::None
    } else {
        let c = s[start];
        if c == '"' {
            match spec_string_at(s, start) {
                Option::Some(p) => Option::Some((JsonValSpec::Str(p.0), p.1)),
                Option::None => Option::None,
            }
        } else if c == 't' {
            if s.len() - start > 3 && s[start + 1] == 'r' && s[start + 2] == 'u' && s[start + 3]
                == 'e' {
                Option::Some((JsonValSpec::Bool(true), start + 4))
            } else {
                Option::None
            }
        } else if c == 'f' {
            if s.len() - start > 4 && s[start + 1] == 'a' && s[start + 2] == 'l' && s[start + 3]
                == 's' && s[start + 4] == 'e' {
                Option::Some((JsonValSpec::Bool(false), start + 5))
            } else {
                Option::None
            }
        } else if c == 'n' {
            if s.len() - start > 3 && s[start + 1] == 'u' && s[start + 2] == 'l' && s[start + 3]
                == 'l' {
                Option::Some((JsonValSpec::Null, start + 4))
            } else {
                Option::None
            }
        } else if c == '[' {
            if d == 0 {
                Option::None
            } else {
                let i0 = spec_skip_ws(s, start + 1);
                if !(start < i0 <= s.len()) {
                    Option::None
                } else if i0 < s.len() && s[i0] == ']' {
                    Option::Some((JsonValSpec::Arr(Seq::<JsonValSpec>::empty()), i0 + 1))
                } else {
                    match spec_arr_items(s, i0, d, Seq::<JsonValSpec>::empty()) {
                        Option::Some(p) => Option::Some((JsonValSpec::Arr(p.0), p.1)),
                        Option::None => Option::None,
                    }
                }
            }
        } else if c == '{' {
            if d == 0 {
                Option::None
            } else {
                let i0 = spec_skip_ws(s, start + 1);
                if !(start < i0 <= s.len()) {
                    Option::None
                } else if i0 < s.len() && s[i0] == '}' {
                    Option::Some((JsonValSpec::Obj, i0 + 1))
                } else {
                    match spec_obj_items(s, i0, d) {
                        Option::Some(j) => Option::Some((JsonValSpec::Obj, j)),
                        Option::None => Option::None,
                    }
                }
            }
        } else {
            match spec_number_at(s, start) {
                Option::Some(p) => Option::Some((JsonValSpec::Num(p.0), p.1)),
                Option::None => Option::None,
            }
        }
    }
}

/// The comma-separated items of an array body from `i`, with `acc`
/// already tokenised: the items and the position after the closing
/// bracket.
pub open spec fn spec_arr_items(s: Seq<char>, i: int, d: nat, acc: Seq<JsonValSpec>) -> Option<
    (Seq<JsonValSpec>, int),
>
    decreases d, s.len() - i, 1int,
{
    if d == 0 || i < 0 || i >= s.len() {
        Option::None
    } else {
        match spec_value_at(s, i, (d - 1) as nat) {
            Option::None => Option::None,
            Option::Some(p) => {
                let j2 = spec_skip_ws(s, p.1);
                if j2 < s.len() && s[j2] == ',' {
                    let j3 = spec_skip_ws(s, j2 + 1);
                    if !(i < j3 <= s.len()) {
                        Option::None
                    } else {
                        spec_arr_items(s, j3, d, acc.push(p.0))
                    }
                } else if j2 < s.len() && s[j2] == ']' {
                    Option::Some((acc.push(p.0), j2 + 1))
                } else {
                    Option::None
                }
            },
        }
    }
}

/// The key/value pairs of an object body from `i`: the position after
/// the closing brace (contents are recognised, never kept).
pub open spec fn spec_obj_items(s: Seq<char>, i: int, d: nat) -> Option<int>
    decreases d, s.len() - i, 0int,
{
    if d == 0 || i < 0 || i >= s.len() {
        Option::None
    } else {
        match spec_string_at(s, i) {
            Option::None => Option::None,
            Option::Some(key) => {
                let j2 = spec_skip_ws(s, key.1);
                if !(j2 < s.len() && s[j2] == ':') {
                    Option::None
                } else {
                    let j3 = spec_skip_ws(s, j2 + 1);
                    if j3 >= s.len() {
                        Option::None
                    } else {
                        match spec_value_at(s, j3, (d - 1) as nat) {
                            Option::None => Option::None,
                            Option::Some(p) => {
                                let j5 = spec_skip_ws(s, p.1);
                                if j5 < s.len() && s[j5] == ',' {
                                    let j6 = spec_skip_ws(s, j5 + 1);
                                    if !(i < j6 <= s.len()) {
                                        Option::None
                                    } else {
                                        spec_obj_items(s, j6, d)
                                    }
                                } else if j5 < s.len() && s[j5] == '}' {
                                    Option::Some(j5 + 1)
                                } else {
                                    Option::None
                                }
                            },
                        }
                    }
                }
            },
        }
    }
}

/// The tokenisation of a whole payload: a single array with nothing
/// but whitespace around it.
pub open spec fn spec_json_array(s: Seq<char>) -> Option<Seq<JsonValSpec>> {
    let i = spec_skip_ws(s, 0);
    if !(0 <= i < s.len()) {
        Option::None
    } else if s[i] != '[' {
        Option::None
    } else {
        match spec_value_at(s, i, JSON_DEPTH_LIMIT as nat) {
            Option::Some(p) => match p.0 {
                JsonValSpec::Arr(gs) => {
                    let j2 = spec_skip_ws(s, p.1);
                    if j2 == s.len() {
                        Option::Some(gs)
                    } else {
                        Option::None
                    }
                },
                _ => Option::None,
            },
            Option::None => Option::None,
        }
    }
}

fn is_ws(c: char) -> (r: bool)
    ensures
        r == spec_is_ws(c),
{
    c == ' ' || c == '\t' || c == '\n' || c == '\r'
}

#[verifier::loop_isolation(false)]
fn skip_ws(cs: &Vec<char>, start: usize) -> (r: usize)
    requires
        start <= cs@.len(),
    ensures
        start <= r <= cs@.len(),
        r as int == spec_skip_ws(cs@, start as int),
{
    let mut i: usize = start;
    while i < cs.len()
        invariant
            start <= i <= cs@.len(),
            spec_skip_ws(cs@, start as int) == spec_skip_ws(cs@, i as int),
        decreases cs@.len() - i,
    {
        if !is_ws(cs[i]) {
            return i;
        }
        i = i + 1;
    }
    i
}

pub(crate) fn hex_val(c: char) -> (r: Option<u32>)
    ensures
        r matches Some(v) ==> v < 16,
        match spec_hex_val(c) {
            Option::Some(v) => r matches Some(q) && q as int == v,
            Option::None => r is None,
        },
{
    let u = c as u32;
    if '0' <= c && c <= '9' {
        Some(u - ('0' as u32))
    } else if 'a' <= c && c <= 'f' {
        Some(u - ('a' as u32) + 10)
    } else if 'A' <= c && c <= 'F' {
        Some(u - ('A' as u32) + 10)
    } else {
        None
    }
}

/// Reads a JSON string starting at its opening quote; handles the
/// standard escapes including surrogate pairs.
#[verifier::loop_isolation(false)]
fn parse_string_at(cs: &Vec<char>, start: usize) -> (r: Option<(String, usize)>)
    requires
        start < cs@.len(),
    ensures
        r matches Some(p) ==> start < p.1 <= cs@.len(),
        match spec_string_at(cs@, start as int) {
            Option::Some(p) => r matches Some(q) && q.0@ == p.0 && q.1 as int == p.1,
            Option::None => r is None,
        },
{
    let n = cs.len();
    if cs[start] != '"' {
        return None;
    }
    let mut out: Vec<char> = Vec::new();
    let mut i: usize = start + 1;
    loop
        invariant
            start < i <= cs@.len(),
            spec_string_at(cs@, start as int) == spec_string_body(cs@, i as int, out@),
        decreases cs@.len() - i,
    {
        if i >= cs.len() {
            return None;
        }
        let c = cs[i];
        if c == '"' {
            return Some((chars_string(&out), i + 1));
        }
        if c != '\\' {
            let u = c as u32;
            if u < 0x20 {
                return None;
            }
            out.push(c);
            i = i + 1;
        } else {
            if n - i <= 1 {
                return None;
            }
            let e = cs[i + 1];
            if e == '"' || e == '\\' || e == '/' {
                out.push(e);
                i = i + 2;
            } else if e == 'b' {
                out.push('\u{8}');
                i = i + 2;
            } else if e == 'f' {
                out.push('\u{c}');
                i = i + 2;
            } else if e == 'n' {
                out.push('\n');
                i = i + 2;
            } else if e == 'r' {
                out.push('\r');
                i = i + 2;
            } else if e == 't' {
                out.push('\t');
                i = i + 2;
            } else if e == 'u' {
                if n - i <= 5 {
                    return None;
                }
                let h0 = hex_val(cs[i + 2]);
                let h1 = hex_val(cs[i + 3]);
                let h2 = hex_val(cs[i + 4]);
                let h3 = hex_val(cs[i + 5]);
                let u0: u32 = match (h0, h1, h2, h3) {
                    (Some(a), Some(b), Some(c2), Some(d)) => a * 4096 + b * 256 + c2 * 16 + d,
                    _ => {
                        return None;
                    },
                };
                if 0xD800 <= u0 && u0 <= 0xDBFF {
                    // a high surrogate must pair with a following \uXXXX low one
                    if n - i <= 11 || cs[i + 6] != '\\' || cs[i + 7] != 'u' {
                        return None;
                    }
                    let l0 = hex_val(cs[i + 8]);
                    let l1 = hex_val(cs[i + 9]);
                    let l2 = hex_val(cs[i + 10]);
                    let l3 = hex_val(cs[i + 11]);
                    let u1: u32 = match (l0, l1, l2, l3) {
                        (Some(a), Some(b), Some(c2), Some(d)) => a * 4096 + b * 256 + c2 * 16
                            + d,
                        _ => {
                            return None;
                        },
                    };
                    if !(0xDC00 <= u1 && u1 <= 0xDFFF) {
                        return None;
                    }
                    let combined: u32 = 0x10000 + (u0 - 0xD800) * 1024 + (u1 - 0xDC00);
                    match char_from_u32(combined) {
                        Some(ch) => {
                            out.push(ch);
                            i = i + 12;
                        },
                        None => {
                            return None;
                        },
                    }
                } else {
                    match char_from_u32(u0) {
                        Some(ch) => {
                            out.push(ch);
                            i = i + 6;
                        },
                        None => {
                            return None;
                        },
                    }
                }
            } else {
                return None;
            }
        }
    }
}

fn is_number_char(c: char) -> (r: bool)
    ensures
        r == spec_is_number_char(c),
{
    ('0' <= c && c <= '9') || c == '-' || c == '+' || c == '.' || c == 'e' || c == 'E'
}

/// Reads a number token (plain decimal form; exponent forms are
/// rejected and drop the entry).
#[verifier::loop_isolation(false)]
fn parse_number_at(cs: &Vec<char>, start: usize) -> (r: Option<(i64, usize)>)
    requires
        start < cs@.len(),
    ensures
        r matches Some(p) ==> start < p.1 <= cs@.len() && -MICRO_CAP <= p.0 <= MICRO_CAP,
        match spec_number_at(cs@, start as int) {
            Option::Some(p) => r matches Some(q) && q.0 as int == p.0 && q.1 as int == p.1,
            Option::None => r is None,
        },
{
    let mut j: usize = start;
    while j < cs.len() && is_number_char(cs[j])
        invariant
            start <= j <= cs@.len(),
            spec_num_end(cs@, start as int) == spec_num_end(cs@, j as int),
        decreases cs@.len() - j,
    {
        j = j + 1;
    }
    if j == start {
        return None;
    }
    let token = char_sub(cs, start, j);
    match parse_decimal_micro(&token) {
        Some(v) => Some((v, j)),
        None => None,
    }
}

/// Reads one JSON value starting at `start` (no leading whitespace),
/// recognising nested arrays and objects up to the depth limit.
#[verifier::loop_isolation(false)]
fn parse_value_at(cs: &Vec<char>, start: usize, depth: u32) -> (r: Option<(JsonValue, usize)>)
    requires
        start < cs@.len(),
    ensures
        r matches Some(p) ==> start < p.1 <= cs@.len() && spec_json_wf(p.0),
        match spec_value_at(cs@, start as int, depth as nat) {
            Option::Some(p) => r matches Some(q) && json_matches(q.0, p.0) && q.1 as int == p.1,
            Option::None => r is None,
        },
    decreases depth,
{
    let n = cs.len();
    let c = cs[start];
    if c == '"' {
        match parse_string_at(cs, start) {
            Some((s, j)) => Some((JsonValue::Str(s), j)),
            None => None,
        }
    } else if c == 't' {
        if n - start > 3 && cs[start + 1] == 'r' && cs[start + 2] == 'u' && cs[start + 3]
            == 'e' {
            Some((JsonValue::Bool(true), start + 4))
        } else {
            None
        }
    } else if c == 'f' {
        if n - start > 4 && cs[start + 1] == 'a' && cs[start + 2] == 'l' && cs[start + 3]
            == 's' && cs[start + 4] == 'e' {
            Some((JsonValue::Bool(false), start + 5))
        } else {
            None
        }
    } else if c == 'n' {
        if n - start > 3 && cs[start + 1] == 'u' && cs[start + 2] == 'l' && cs[start + 3]
            == 'l' {
            Some((JsonValue::Null, start + 4))
        } else {
            None
        }
    } else if c == '[' {
        if depth == 0 {
            return None;
        }
        let mut items: Vec<JsonValue> = Vec::new();
        let ghost mut acc_g: Seq<JsonValSpec> = Seq::<JsonValSpec>::empty();
        let mut i: usize = skip_ws(cs, start + 1);
        if i < cs.len() && cs[i] == ']' {
            proof {
                assert(json_matches(
                    JsonValue::Arr(items),
                    JsonValSpec::Arr(Seq::<JsonValSpec>::empty()),
                ));
            }
            return Some((JsonValue::Arr(items), i + 1));
        }
        loop
            invariant
                start < i <= cs@.len(),
                forall|k: int| 0 <= k < items@.len() ==> spec_json_wf(#[trigger] items@[k]),
                json_seq_matches(items@, acc_g),
                spec_value_at(cs@, start as int, depth as nat) == (match spec_arr_items(
                    cs@,
                    i as int,
                    depth as nat,
                    acc_g,
                ) {
                    Option::Some(p) => Option::Some((JsonValSpec::Arr(p.0), p.1)),
                    Option::None => Option::<(JsonValSpec, int)>::None,
                }),
            decreases cs@.len() - i,
        {
            if i >= cs.len() {
                return None;
            }
            let parsed = parse_value_at(cs, i, depth - 1);
            match parsed {
                Some((v, j)) => {
                    let ghost g = spec_value_at(cs@, i as int, (depth - 1) as nat)->Some_0.0;
                    items.push(v);
                    proof {
                        acc_g = acc_g.push(g);
                        assert(json_seq_matches(items@, acc_g));
                    }
                    let j2 = skip_ws(cs, j);
                    if j2 < cs.len() && cs[j2] == ',' {
                        let j3 = skip_ws(cs, j2 + 1);
                        if j3 <= i {
                            return None;
                        }
                        i = j3;
                    } else if j2 < cs.len() && cs[j2] == ']' {
                        proof {
                            assert(json_matches(JsonValue::Arr(items), JsonValSpec::Arr(acc_g)));
                        }
                        return Some((JsonValue::Arr(items), j2 + 1));
                    } else {
                        return None;
                    }
                },
                None => {
                    return None;
                },
            }
        }
    } else if c == '{' {
        if depth == 0 {
            return None;
        }
        let mut i: usize = skip_ws(cs, start + 1);
        if i < cs.len() && cs[i] == '}' {
            return Some((JsonValue::Obj, i + 1));
        }
        loop
            invariant
                start < i <= cs@.len(),
                spec_value_at(cs@, start as int, depth as nat) == (match spec_obj_items(
                    cs@,
                    i as int,
                    depth as nat,
                ) {
                    Option::Some(j) => Option::Some((JsonValSpec::Obj, j)),
                    Option::None => Option::<(JsonValSpec, int)>::None,
                }),
            decreases cs@.len() - i,
        {
            if i >= cs.len() {
                return None;
            }
            let key = parse_string_at(cs, i);
            let j = match key {
                Some((_, j)) => j,
                None => {
                    return None;
                },
            };
            let j2 = skip_ws(cs, j);
            if !(j2 < cs.len() && cs[j2] == ':') {
                return None;
            }
            let j3 = skip_ws(cs, j2 + 1);
            if j3 >= cs.len() {
                return None;
            }
            let val = parse_value_at(cs, j3, depth - 1);
            let j4 = match val {
                Some((_, j4)) => j4,
                None => {
                    return None;
                },
            };
            let j5 = skip_ws(cs, j4);
            if j5 < cs.len() && cs[j5] == ',' {
                let j6 = skip_ws(cs, j5 + 1);
                if j6 <= i {
                    return None;
                }
                i = j6;
            } else if j5 < cs.len() && cs[j5] == '}' {
                return Some((JsonValue::Obj, j5 + 1));
            } else {
                return None;
            }
        }
    } else {
        match parse_number_at(cs, start) {
            Some((v, j)) => Some((JsonValue::Num(v), j)),
            None => None,
        }
    }
}

/// Tokenises a whole payload: a single JSON array with nothing but
/// whitespace around it; every number within the cap.
pub fn parse_json_array(content: &str) -> (r: Option<Vec<JsonValue>>)
    ensures
        r matches Some(vals) ==> forall|i: int|
            0 <= i < vals@.len() ==> spec_json_wf(#[trigger] vals@[i]),
        match spec_json_array(content@) {
            Option::Some(gs) => r matches Some(vals) && json_seq_matches(vals@, gs),
            Option::None => r is None,
        },
{
    let cs = str_chars(content);
    let i = skip_ws(&cs, 0);
    if i >= cs.len() {
        return None;
    }
    if cs[i] != '[' {
        return None;
    }
    match parse_value_at(&cs, i, JSON_DEPTH_LIMIT) {
        Some((JsonValue::Arr(items), j)) => {
            let j2 = skip_ws(&cs, j);
            if j2 == cs.len() {
                Some(items)
            } else {
                None
            }
        },
        _ => None,
    }
}

/// Parses a scripted-comment payload: the content must be a JSON
/// array; its positional fields are decoded with their documented
/// defaults, and coordinates are mapped through the zoom factor. A
/// malformed payload is a per-entry parse error, never a panic.
pub fn parse_special_comment(content: &str, zoom_factor: &ZoomFactor) -> (r: Result<
    (String, SpecialCommentData),
    ParseError,
>)
    requires
        zoom_factor.wf(),
    ensures
        match spec_json_array(content@) {
            Option::None => r matches Err(e) && e is SpecialComment,
            Option::Some(gs) => match spec_special_fields_g(gs, *zoom_factor) {
                Option::None => r matches Err(e) && e is SpecialComment,
                Option::Some(f) => r matches Ok(out) && spec_fields_match(out.0@, out.1, f)
                    && out.1.wf(),
            },
        },
{
    match parse_json_array(content) {
        Some(vals) => {
            proof {
                assert(forall|i: int|
                    0 <= i < vals@.len() ==> ((#[trigger] vals@[i]) matches JsonValue::Num(m)
                        ==> -MICRO_CAP <= m <= MICRO_CAP));
                let gs = spec_json_array(content@)->0;
                lemma_fields_match_ghost(vals@, gs, *zoom_factor);
            }
            special_fields_from(&vals, zoom_factor)
        },
        None => Err(
            ParseError::SpecialComment(
                String::from_str("Special comment is not a JSON array"),
            ),
        ),
    }
}

} // verus!

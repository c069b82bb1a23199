//! Character and number formatting primitives shared by the readers and the
//! markup writer.

use vstd::prelude::*;
use vstd::string::StrSliceExecFns;

verus! {

/// Relies on String::push: appends exactly one character at the end.
#[verifier::external_body]
pub(crate) fn push_char(s: &mut String, c: char)
    ensures
        final(s)@ == old(s)@.push(c),
{
    s.push(c);
}

/// The characters of a string slice, in order.
pub fn str_chars(s: &str) -> (r: Vec<char>)
    ensures
        r@ == s@,
{
    let n: usize = s.unicode_len();
    let mut v: Vec<char> = Vec::new();
    let mut i: usize = 0;
    while i < n
        invariant
            i <= n,
            n == s@.len(),
            v@ == s@.take(i as int),
        decreases n - i,
    {
        let c = s.get_char(i);
        v.push(c);
        i = i + 1;
        proof {
            assert(v@ =~= s@.take(i as int));
        }
    }
    proof {
        assert(s@.take(n as int) =~= s@);
    }
    v
}

/// A `String` holding exactly the given characters.
pub fn chars_string(v: &Vec<char>) -> (r: String)
    ensures
        r@ == v@,
{
    let mut s = String::new();
    let mut i: usize = 0;
    while i < v.len()
        invariant
            i <= v@.len(),
            s@ == v@.take(i as int),
        decreases v@.len() - i,
    {
        push_char(&mut s, v[i]);
        i = i + 1;
        proof {
            assert(s@ =~= v@.take(i as int));
        }
    }
    proof {
        assert(v@.take(v@.len() as int) =~= v@);
    }
    s
}

/// Whether two string slices hold the same characters.
pub fn str_eq(a: &str, b: &str) -> (r: bool)
    ensures
        r == (a@ == b@),
{
    let na: usize = a.unicode_len();
    let nb: usize = b.unicode_len();
    if na != nb {
        return false;
    }
    let mut i: usize = 0;
    while i < na
        invariant
            i <= na,
            na == a@.len(),
            na == b@.len(),
            forall|j: int| 0 <= j < i ==> a@[j] == b@[j],
        decreases na - i,
    {
        if a.get_char(i) != b.get_char(i) {
            return false;
        }
        i = i + 1;
    }
    proof {
        assert(a@ =~= b@);
    }
    true
}

/// The decimal digit character for `d`.
pub open spec fn spec_digit(d: int) -> char {
    if d == 0 {
        '0'
    } else if d == 1 {
        '1'
    } else if d == 2 {
        '2'
    } else if d == 3 {
        '3'
    } else if d == 4 {
        '4'
    } else if d == 5 {
        '5'
    } else if d == 6 {
        '6'
    } else if d == 7 {
        '7'
    } else if d == 8 {
        '8'
    } else {
        '9'
    }
}

/// Decimal digits of `n`, most significant first, no leading zeros.
pub open spec fn spec_dec(n: nat) -> Seq<char>
    decreases n,
{
    if n <= 9 {
        seq![spec_digit(n as int)]
    } else {
        spec_dec(n / 10).push(spec_digit((n % 10) as int))
    }
}

/// Decimal digits of `n`, left padded with '0' to at least two places.
pub open spec fn spec_dec2(n: nat) -> Seq<char> {
    if n <= 9 {
        seq!['0', spec_digit(n as int)]
    } else {
        spec_dec(n)
    }
}

/// Decimal form of a signed value: a '-' sign followed by the digits.
pub open spec fn spec_dec_signed(n: int) -> Seq<char> {
    if n < 0 {
        seq!['-'] + spec_dec((-n) as nat)
    } else {
        spec_dec(n as nat)
    }
}

fn digit_char(d: u64) -> (c: char)
    requires
        d < 10,
    ensures
        c == spec_digit(d as int),
{
    if d == 0 {
        '0'
    } else if d == 1 {
        '1'
    } else if d == 2 {
        '2'
    } else if d == 3 {
        '3'
    } else if d == 4 {
        '4'
    } else if d == 5 {
        '5'
    } else if d == 6 {
        '6'
    } else if d == 7 {
        '7'
    } else if d == 8 {
        '8'
    } else {
        '9'
    }
}

/// `n` in decimal.
pub fn fmt_u64(n: u64) -> (r: String)
    ensures
        r@ == spec_dec(n as nat),
    decreases n,
{
    if n <= 9 {
        let mut s = String::new();
        push_char(&mut s, digit_char(n));
        s
    } else {
        let mut s = fmt_u64(n / 10);
        push_char(&mut s, digit_char(n % 10));
        s
    }
}

/// `n` in decimal, zero padded to at least two places.
pub fn fmt_u64_pad2(n: u64) -> (r: String)
    ensures
        r@ == spec_dec2(n as nat),
{
    if n <= 9 {
        let mut s = String::new();
        push_char(&mut s, '0');
        push_char(&mut s, digit_char(n));
        s
    } else {
        fmt_u64(n)
    }
}

/// `n` in decimal with a leading '-' when negative.
pub fn fmt_i64(n: i64) -> (r: String)
    requires
        n > i64::MIN,
    ensures
        r@ == spec_dec_signed(n as int),
{
    if n < 0 {
        let mut s = String::new();
        push_char(&mut s, '-');
        let m: u64 = (-n) as u64;
        let d = fmt_u64(m);
        s.append(d.as_str());
        s
    } else {
        fmt_u64(n as u64)
    }
}

/// The uppercase hexadecimal digit character for `d`.
pub open spec fn spec_hex_digit(d: int) -> char {
    if d == 0 {
        '0'
    } else if d == 1 {
        '1'
    } else if d == 2 {
        '2'
    } else if d == 3 {
        '3'
    } else if d == 4 {
        '4'
    } else if d == 5 {
        '5'
    } else if d == 6 {
        '6'
    } else if d == 7 {
        '7'
    } else if d == 8 {
        '8'
    } else if d == 9 {
        '9'
    } else if d == 10 {
        'A'
    } else if d == 11 {
        'B'
    } else if d == 12 {
        'C'
    } else if d == 13 {
        'D'
    } else if d == 14 {
        'E'
    } else {
        'F'
    }
}

/// Two uppercase hexadecimal digits of a byte.
pub open spec fn spec_hex2(n: nat) -> Seq<char> {
    seq![spec_hex_digit((n / 16) as int), spec_hex_digit((n % 16) as int)]
}

fn hex_char(d: u8) -> (c: char)
    requires
        d < 16,
    ensures
        c == spec_hex_digit(d as int),
{
    if d == 0 {
        '0'
    } else if d == 1 {
        '1'
    } else if d == 2 {
        '2'
    } else if d == 3 {
        '3'
    } else if d == 4 {
        '4'
    } else if d == 5 {
        '5'
    } else if d == 6 {
        '6'
    } else if d == 7 {
        '7'
    } else if d == 8 {
        '8'
    } else if d == 9 {
        '9'
    } else if d == 10 {
        'A'
    } else if d == 11 {
        'B'
    } else if d == 12 {
        'C'
    } else if d == 13 {
        'D'
    } else if d == 14 {
        'E'
    } else {
        'F'
    }
}

/// A byte as two uppercase hexadecimal digits.
pub fn fmt_hex2(n: u8) -> (r: String)
    ensures
        r@ == spec_hex2(n as nat),
{
    let mut s = String::new();
    push_char(&mut s, hex_char(n / 16));
    push_char(&mut s, hex_char(n % 16));
    s
}

/// The lines of `s`, split on '\n' (the separator is not kept; a trailing
/// '\n' yields a final empty line, and an empty input yields one empty line).
pub open spec fn spec_split_lines(s: Seq<char>) -> Seq<Seq<char>>
    decreases s.len(),
{
    if s.len() == 0 {
        seq![Seq::<char>::empty()]
    } else if s.last() == '\n' {
        spec_split_lines(s.drop_last()).push(Seq::<char>::empty())
    } else {
        let r = spec_split_lines(s.drop_last());
        r.update(r.len() - 1, r.last().push(s.last()))
    }
}

/// `spec_split_lines` always yields at least one line.
pub proof fn lemma_split_lines_nonempty(s: Seq<char>)
    ensures
        spec_split_lines(s).len() >= 1,
    decreases s.len(),
{
    if s.len() > 0 {
        lemma_split_lines_nonempty(s.drop_last());
    }
}

/// The length of the longest sequence among `ls`.
pub open spec fn spec_seq_max_len(ls: Seq<Seq<char>>) -> nat
    decreases ls.len(),
{
    if ls.len() == 0 {
        0
    } else if ls.last().len() > spec_seq_max_len(ls.drop_last()) {
        ls.last().len()
    } else {
        spec_seq_max_len(ls.drop_last())
    }
}

/// `a * b`, clamped at `cap`.
pub open spec fn spec_mul_clamp(a: nat, b: nat, cap: nat) -> nat {
    if a * b > cap {
        cap
    } else {
        a * b
    }
}

proof fn lemma_mul_over_quotient(a: int, b: int, cap: int)
    requires
        b > 0,
        cap >= 0,
        a > cap / b,
    ensures
        a * b > cap,
{
    vstd::arithmetic::div_mod::lemma_fundamental_div_mod(cap, b);
    vstd::arithmetic::div_mod::lemma_mod_bound(cap, b);
    vstd::arithmetic::mul::lemma_mul_inequality(cap / b + 1, a, b);
    assert((cap / b + 1) * b == (cap / b) * b + b) by (nonlinear_arith);
    assert(cap == b * (cap / b) + cap % b);
    vstd::arithmetic::mul::lemma_mul_is_commutative(b, cap / b);
}

proof fn lemma_mul_within_quotient(a: int, b: int, cap: int)
    requires
        b > 0,
        cap >= 0,
        0 <= a <= cap / b,
    ensures
        a * b <= cap,
{
    vstd::arithmetic::div_mod::lemma_fundamental_div_mod(cap, b);
    vstd::arithmetic::div_mod::lemma_mod_bound(cap, b);
    vstd::arithmetic::mul::lemma_mul_inequality(a, cap / b, b);
    assert(cap == b * (cap / b) + cap % b);
    vstd::arithmetic::mul::lemma_mul_is_commutative(b, cap / b);
}

/// Saturating product used to keep estimated dimensions within bounds.
pub fn mul_clamp(a: u64, b: u64, cap: u64) -> (r: u64)
    ensures
        r == spec_mul_clamp(a as nat, b as nat, cap as nat),
{
    if b == 0 {
        0
    } else if a > cap / b {
        proof {
            lemma_mul_over_quotient(a as int, b as int, cap as int);
        }
        cap
    } else {
        proof {
            lemma_mul_within_quotient(a as int, b as int, cap as int);
        }
        a * b
    }
}

} // verus!

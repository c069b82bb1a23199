//! The document reader: a declaration whose version selects the field
//! layout, followed by comment elements whose single attribute is a
//! comma-separated field list and whose inner text is the body.

use vstd::prelude::*;
use vstd::string::{StrSliceExecFns, StringExecFns};
use crate::comment::{
    Comment, CommentData, CommentPosition, NormalCommentData, DIMENSION_CAP_CP,
};
use crate::error::{BiliassError, DecodeError, ParseError};
use crate::filter::{should_skip_parse, spec_should_skip_parse, BlockOptions};
use crate::reader::special::{
    char_from_u32, parse_special_comment, spec_all_digits, spec_decimal_micro,
    spec_fields_match, spec_json_array, spec_special_fields_g, spec_tdiv,
};
use crate::reader::utils::{
    calculate_length, filter_bad_chars, line_count, spec_calculate_length,
    spec_filter_bad_chars, spec_line_count, spec_unescape_newline, unescape_newline,
    LINE_COUNT_CAP,
};
use crate::text::{chars_string, mul_clamp, spec_mul_clamp, str_chars};
use crate::writer::utils::ZoomFactor;

verus! {

/// The two recognised field layouts of the document format.
#[derive(Debug, PartialEq, Eq, Structural, Clone, Copy)]
pub enum XmlVersion {
    V1,
    V2,
}

// ------------------------------------------------------------------
// Field splitting and plain integer parsing
// ------------------------------------------------------------------
/// The comma-separated fields of the attribute value.
pub open spec fn spec_split_commas(s: Seq<char>) -> Seq<Seq<char>>
    decreases s.len(),
{
    if s.len() == 0 {
        seq![Seq::<char>::empty()]
    } else if s.last() == ',' {
        spec_split_commas(s.drop_last()).push(Seq::<char>::empty())
    } else {
        let r = spec_split_commas(s.drop_last());
        r.update(r.len() - 1, r.last().push(s.last()))
    }
}

proof fn lemma_split_commas_nonempty(s: Seq<char>)
    ensures
        spec_split_commas(s).len() >= 1,
    decreases s.len(),
{
    if s.len() > 0 {
        lemma_split_commas_nonempty(s.drop_last());
    }
}

/// Splits the attribute value on commas.
#[verifier::loop_isolation(false)]
pub fn split_commas(s: &str) -> (r: Vec<Vec<char>>)
    ensures
        r@.map_values(|v: Vec<char>| v@) == spec_split_commas(s@),
        r@.len() >= 1,
{
    let cs = str_chars(s);
    let ghost full = cs@;
    let mut fields: Vec<Vec<char>> = Vec::new();
    let mut cur: Vec<char> = Vec::new();
    let mut j: usize = 0;
    while j < cs.len()
        invariant
            j <= full.len(),
            cs@ == full,
            fields@.map_values(|v: Vec<char>| v@).push(cur@) == spec_split_commas(
                full.take(j as int),
            ),
        decreases full.len() - j,
    {
        proof {
            assert(full.take(j as int + 1).drop_last() =~= full.take(j as int));
        }
        if cs[j] == ',' {
            fields.push(cur);
            cur = Vec::new();
            proof {
                assert(fields@.map_values(|v: Vec<char>| v@).push(cur@) =~= spec_split_commas(
                    full.take(j as int + 1),
                ));
            }
        } else {
            let c = cs[j];
            let ghost prev = fields@.map_values(|v: Vec<char>| v@).push(cur@);
            cur.push(c);
            proof {
                let now = fields@.map_values(|v: Vec<char>| v@).push(cur@);
                assert(now =~= prev.update(prev.len() - 1, prev.last().push(c)));
            }
        }
        j = j + 1;
    }
    proof {
        assert(full.take(full.len() as int) =~= full);
    }
    fields.push(cur);
    proof {
        lemma_split_commas_nonempty(full);
        assert(fields@.map_values(|v: Vec<char>| v@) =~= spec_split_commas(s@));
    }
    fields
}

/// Digit fold without clamping.
pub open spec fn spec_fold_plain(s: Seq<char>, i: int, j: int, acc: int) -> int
    decreases j - i,
{
    if i >= j {
        acc
    } else {
        spec_fold_plain(s, i + 1, j, acc * 10 + crate::reader::special::spec_digit_val(s[i]))
    }
}

/// The value of an unsigned decimal of one to nineteen digits.
pub open spec fn spec_parse_u64(s: Seq<char>) -> Option<int> {
    if 1 <= s.len() <= 19 && spec_all_digits(s, 0, s.len() as int) {
        Option::Some(spec_fold_plain(s, 0, s.len() as int, 0))
    } else {
        Option::None
    }
}

/// The value of a signed decimal of one to nineteen digits that fits
/// a 64-bit signed integer.
pub open spec fn spec_parse_i64(s: Seq<char>) -> Option<int> {
    if s.len() > 0 && s[0] == '-' {
        match spec_parse_u64(s.skip(1)) {
            Option::Some(v) => if v <= 0x7fffffffffffffff {
                Option::Some(-v)
            } else {
                Option::None
            },
            Option::None => Option::None,
        }
    } else {
        match spec_parse_u64(s) {
            Option::Some(v) => if v <= 0x7fffffffffffffff {
                Option::Some(v)
            } else {
                Option::None
            },
            Option::None => Option::None,
        }
    }
}

proof fn lemma_fold_plain_bound(s: Seq<char>, i: int, j: int, acc: int, k: nat)
    requires
        0 <= acc,
        j - i <= k,
        k <= 19,
        acc < crate::reader::special::spec_pow10((19 - k) as nat),
        spec_all_digits(s, i, j),
    ensures
        0 <= spec_fold_plain(s, i, j, acc) < crate::reader::special::spec_pow10(19),
    decreases k,
{
    lemma_pow10_le_19();
    if i >= j {
        lemma_pow10_mono((19 - k) as nat, 19);
    } else {
        assert(crate::reader::special::spec_is_digit(s[i]));
        let d = crate::reader::special::spec_digit_val(s[i]);
        let acc2 = acc * 10 + d;
        assert(acc2 < crate::reader::special::spec_pow10((19 - (k - 1)) as nat)) by {
            assert(acc <= crate::reader::special::spec_pow10((19 - k) as nat) - 1);
            assert(acc * 10 <= (crate::reader::special::spec_pow10((19 - k) as nat) - 1) * 10)
                by (nonlinear_arith)
                requires
                    acc <= crate::reader::special::spec_pow10((19 - k) as nat) - 1,
            ;
            assert(crate::reader::special::spec_pow10((19 - k + 1) as nat) == 10
                * crate::reader::special::spec_pow10((19 - k) as nat));
        }
        lemma_fold_plain_bound(s, i + 1, j, acc2, (k - 1) as nat);
    }
}

proof fn lemma_pow10_mono(a: nat, b: nat)
    requires
        a <= b,
    ensures
        crate::reader::special::spec_pow10(a) <= crate::reader::special::spec_pow10(b),
        crate::reader::special::spec_pow10(a) >= 1,
    decreases b,
{
    if a < b {
        lemma_pow10_mono(a, (b - 1) as nat);
    } else if a > 0 {
        lemma_pow10_mono((a - 1) as nat, (a - 1) as nat);
    }
}

proof fn lemma_pow10_le_19()
    ensures
        crate::reader::special::spec_pow10(19) == 10000000000000000000,
        crate::reader::special::spec_pow10(18) == 1000000000000000000,
{
    assert(crate::reader::special::spec_pow10(7) == 10 * crate::reader::special::spec_pow10(6));
    assert(crate::reader::special::spec_pow10(8) == 10 * crate::reader::special::spec_pow10(7));
    assert(crate::reader::special::spec_pow10(9) == 10 * crate::reader::special::spec_pow10(8));
    assert(crate::reader::special::spec_pow10(10) == 10 * crate::reader::special::spec_pow10(9));
    assert(crate::reader::special::spec_pow10(11) == 10 * crate::reader::special::spec_pow10(10));
    assert(crate::reader::special::spec_pow10(12) == 10 * crate::reader::special::spec_pow10(11));
    assert(crate::reader::special::spec_pow10(13) == 10 * crate::reader::special::spec_pow10(12));
    assert(crate::reader::special::spec_pow10(14) == 10 * crate::reader::special::spec_pow10(13));
    assert(crate::reader::special::spec_pow10(15) == 10 * crate::reader::special::spec_pow10(14));
    assert(crate::reader::special::spec_pow10(16) == 10 * crate::reader::special::spec_pow10(15));
    assert(crate::reader::special::spec_pow10(17) == 10 * crate::reader::special::spec_pow10(16));
    assert(crate::reader::special::spec_pow10(18) == 10 * crate::reader::special::spec_pow10(17));
    assert(crate::reader::special::spec_pow10(19) == 10 * crate::reader::special::spec_pow10(18));
    crate::reader::special::lemma_pow10_values();
}

/// Parses an unsigned decimal of at most nineteen digits.
#[verifier::loop_isolation(false)]
pub fn parse_u64_plain(cs: &Vec<char>) -> (r: Option<u64>)
    ensures
        match spec_parse_u64(cs@) {
            Option::Some(v) => r matches Some(q) && q as int == v,
            Option::None => r is None,
        },
{
    let n = cs.len();
    if n == 0 || n > 19 {
        return None;
    }
    let mut i: usize = 0;
    let mut acc: u64 = 0;
    proof {
        lemma_pow10_le_19();
        crate::reader::special::lemma_pow10_values();
    }
    while i < n
        invariant
            0 <= i <= n,
            n == cs@.len(),
            1 <= n <= 19,
            spec_all_digits(cs@, 0, i as int),
            acc as int == spec_fold_plain(cs@, 0, i as int, 0),
            acc as int <= crate::reader::special::spec_pow10(i as nat) - 1,
        decreases n - i,
    {
        let c = cs[i];
        if !('0' <= c && c <= '9') {
            proof {
                assert(!spec_all_digits(cs@, 0, cs@.len() as int)) by {
                    lemma_all_digits_prefix_counter(cs@, i as int);
                }
            }
            return None;
        }
        let d: u64 = ((c as u32) - ('0' as u32)) as u64;
        proof {
            lemma_pow10_mono(i as nat, 18);
            assert(crate::reader::special::spec_pow10(i as nat + 1) == 10
                * crate::reader::special::spec_pow10(i as nat));
            assert(acc * 10 + d <= (crate::reader::special::spec_pow10(i as nat) - 1) * 10 + 9)
                by (nonlinear_arith)
                requires
                    acc as int <= crate::reader::special::spec_pow10(i as nat) - 1,
                    d <= 9,
            ;
            lemma_fold_plain_snoc(cs@, 0, i as int, 0);
        }
        acc = acc * 10 + d;
        i = i + 1;
        proof {
            assert(spec_all_digits(cs@, 0, i as int)) by {
                lemma_all_digits_snoc(cs@, i as int);
            }
        }
    }
    Some(acc)
}

proof fn lemma_all_digits_prefix_counter(s: Seq<char>, i: int)
    requires
        0 <= i < s.len(),
        !crate::reader::special::spec_is_digit(s[i]),
    ensures
        !spec_all_digits(s, 0, s.len() as int),
{
    lemma_all_digits_index(s, 0, s.len() as int, i);
}

proof fn lemma_all_digits_index(s: Seq<char>, a: int, b: int, i: int)
    requires
        a <= i < b,
        !crate::reader::special::spec_is_digit(s[i]),
    ensures
        !spec_all_digits(s, a, b),
    decreases i - a,
{
    if a < i {
        lemma_all_digits_index(s, a + 1, b, i);
    }
}

proof fn lemma_all_digits_snoc(s: Seq<char>, j: int)
    requires
        0 < j <= s.len(),
        spec_all_digits(s, 0, j - 1),
        crate::reader::special::spec_is_digit(s[j - 1]),
    ensures
        spec_all_digits(s, 0, j),
{
    lemma_all_digits_snoc_from(s, 0, j);
}

proof fn lemma_all_digits_snoc_from(s: Seq<char>, a: int, j: int)
    requires
        a < j <= s.len(),
        spec_all_digits(s, a, j - 1),
        crate::reader::special::spec_is_digit(s[j - 1]),
    ensures
        spec_all_digits(s, a, j),
    decreases j - a,
{
    if a < j - 1 {
        lemma_all_digits_snoc_from(s, a + 1, j);
    } else {
        assert(spec_all_digits(s, j, j));
    }
}

proof fn lemma_fold_plain_snoc(s: Seq<char>, a: int, j: int, acc: int)
    requires
        a <= j < s.len(),
    ensures
        spec_fold_plain(s, a, j + 1, acc) == spec_fold_plain(s, a, j, acc) * 10
            + crate::reader::special::spec_digit_val(s[j]),
    decreases j - a,
{
    if a < j {
        lemma_fold_plain_snoc(s, a + 1, j, acc * 10 + crate::reader::special::spec_digit_val(
            s[a],
        ));
    } else {
        assert(spec_fold_plain(s, j + 1, j + 1, acc * 10
            + crate::reader::special::spec_digit_val(s[j])) == acc * 10
            + crate::reader::special::spec_digit_val(s[j]));
    }
}

/// Parses a signed decimal of at most nineteen digits.
pub fn parse_i64_plain(cs: &Vec<char>) -> (r: Option<i64>)
    ensures
        match spec_parse_i64(cs@) {
            Option::Some(v) => r matches Some(q) && q as int == v,
            Option::None => r is None,
        },
{
    if cs.len() > 0 && cs[0] == '-' {
        let rest = chars_tail(cs);
        match parse_u64_plain(&rest) {
            Some(v) => {
                if v <= 0x7fffffffffffffff {
                    Some(-(v as i64))
                } else {
                    None
                }
            },
            None => None,
        }
    } else {
        match parse_u64_plain(cs) {
            Some(v) => {
                if v <= 0x7fffffffffffffff {
                    Some(v as i64)
                } else {
                    None
                }
            },
            None => None,
        }
    }
}

/// All characters after the first.
fn chars_tail(cs: &Vec<char>) -> (r: Vec<char>)
    requires
        cs@.len() >= 1,
    ensures
        r@ == cs@.skip(1),
{
    let mut out: Vec<char> = Vec::new();
    let mut k: usize = 1;
    while k < cs.len()
        invariant
            1 <= k <= cs@.len(),
            out@ == cs@.subrange(1, k as int),
        decreases cs@.len() - k,
    {
        out.push(cs[k]);
        k = k + 1;
        proof {
            assert(out@ =~= cs@.subrange(1, k as int));
        }
    }
    proof {
        assert(cs@.subrange(1, cs@.len() as int) =~= cs@.skip(1));
    }
    out
}


// ------------------------------------------------------------------
// Entity unescaping
// ------------------------------------------------------------------
/// Prepends decoded text to an optional remainder.
pub open spec fn spec_opt_prepend(a: Seq<char>, o: Option<Seq<char>>) -> Option<Seq<char>> {
    match o {
        Option::Some(t) => Option::Some(a + t),
        Option::None => Option::None,
    }
}

/// Clamped decimal fold of a numeric character reference.
pub open spec fn spec_fold_dec_scalar(s: Seq<char>, i: int, j: int, acc: int) -> int
    decreases j - i,
{
    if i >= j {
        acc
    } else {
        let acc2 = acc * 10 + crate::reader::special::spec_digit_val(s[i]);
        spec_fold_dec_scalar(s, i + 1, j, if acc2 > 0x110000 {
            0x110000
        } else {
            acc2
        })
    }
}

/// Whether every character of `s[i..j)` is a hexadecimal digit.
pub open spec fn spec_all_hex(s: Seq<char>, i: int, j: int) -> bool
    decreases j - i,
{
    i >= j || (crate::reader::special::spec_hex_val(s[i]) is Some && spec_all_hex(s, i + 1, j))
}

/// Clamped hexadecimal fold of a numeric character reference.
pub open spec fn spec_fold_hex_scalar(s: Seq<char>, i: int, j: int, acc: int) -> int
    decreases j - i,
{
    if i >= j {
        acc
    } else {
        let acc2 = acc * 16 + (match crate::reader::special::spec_hex_val(s[i]) {
            Option::Some(v) => v,
            Option::None => 0,
        });
        spec_fold_hex_scalar(s, i + 1, j, if acc2 > 0x110000 {
            0x110000
        } else {
            acc2
        })
    }
}

/// The replacement of one entity: the five named ones, or a decimal or
/// hexadecimal character reference naming a Unicode scalar value.
pub open spec fn spec_entity_char(name: Seq<char>) -> Option<char> {
    if name == seq!['a', 'm', 'p'] {
        Option::Some('&')
    } else if name == seq!['l', 't'] {
        Option::Some('<')
    } else if name == seq!['g', 't'] {
        Option::Some('>')
    } else if name == seq!['q', 'u', 'o', 't'] {
        Option::Some('"')
    } else if name == seq!['a', 'p', 'o', 's'] {
        Option::Some('\'')
    } else if name.len() >= 2 && name[0] == '#' {
        if name[1] == 'x' || name[1] == 'X' {
            if name.len() >= 3 && spec_all_hex(name, 2, name.len() as int) {
                let v = spec_fold_hex_scalar(name, 2, name.len() as int, 0);
                if crate::reader::special::spec_scalar_ok(v) {
                    Option::Some((v as u32) as char)
                } else {
                    Option::None
                }
            } else {
                Option::None
            }
        } else if spec_all_digits(name, 1, name.len() as int) {
            let v = spec_fold_dec_scalar(name, 1, name.len() as int, 0);
            if crate::reader::special::spec_scalar_ok(v) {
                Option::Some((v as u32) as char)
            } else {
                Option::None
            }
        } else {
            Option::None
        }
    } else {
        Option::None
    }
}

/// The text with the five named entities decoded; any other entity
/// reference (numeric ones included) makes the text undecodable.
pub open spec fn spec_unescape_entities(s: Seq<char>) -> Option<Seq<char>>
    decreases s.len(),
{
    if s.len() == 0 {
        Option::Some(Seq::<char>::empty())
    } else if s[0] != '&' {
        spec_opt_prepend(seq![s[0]], spec_unescape_entities(s.skip(1)))
    } else {
        let k = spec_find_char(s, 1, ';');
        if k >= s.len() || k < 1 {
            Option::None
        } else {
            match spec_entity_char(s.subrange(1, k)) {
                Option::Some(c) => spec_opt_prepend(
                    seq![c],
                    spec_unescape_entities(s.skip(k + 1)),
                ),
                Option::None => Option::None,
            }
        }
    }
}

/// The first position of `c` in `s` at or after `i`, or the length.
pub open spec fn spec_find_char(s: Seq<char>, i: int, c: char) -> int {
    crate::reader::special::spec_find_char(s, i, c)
}

#[verifier::loop_isolation(false)]
fn entity_char(name: &Vec<char>) -> (r: Option<char>)
    ensures
        r == spec_entity_char(name@),
{
    let n = name.len();
    if n == 3 && name[0] == 'a' && name[1] == 'm' && name[2] == 'p' {
        proof {
            assert(name@ =~= seq!['a', 'm', 'p']);
        }
        Some('&')
    } else if n == 2 && name[0] == 'l' && name[1] == 't' {
        proof {
            assert(name@ =~= seq!['l', 't']);
        }
        Some('<')
    } else if n == 2 && name[0] == 'g' && name[1] == 't' {
        proof {
            assert(name@ =~= seq!['g', 't']);
        }
        Some('>')
    } else if n == 4 && name[0] == 'q' && name[1] == 'u' && name[2] == 'o' && name[3] == 't' {
        proof {
            assert(name@ =~= seq!['q', 'u', 'o', 't']);
        }
        Some('"')
    } else if n == 4 && name[0] == 'a' && name[1] == 'p' && name[2] == 'o' && name[3] == 's' {
        proof {
            assert(name@ =~= seq!['a', 'p', 'o', 's']);
        }
        Some('\'')
    } else if n >= 2 && name[0] == '#' {
        proof {
            assert(name@ != seq!['a', 'm', 'p']);
            assert(name@ != seq!['l', 't']);
            assert(name@ != seq!['g', 't']);
            assert(name@ != seq!['q', 'u', 'o', 't']);
            assert(name@ != seq!['a', 'p', 'o', 's']);
        }
        if name[1] == 'x' || name[1] == 'X' {
            if n < 3 {
                return None;
            }
            let mut v: u32 = 0;
            let mut q: usize = 2;
            while q < n
                invariant
                    2 <= q <= n,
                    v <= 0x110000,
                    spec_all_hex(name@, 2, q as int),
                    spec_fold_hex_scalar(name@, 2, n as int, 0) == spec_fold_hex_scalar(
                        name@,
                        q as int,
                        n as int,
                        v as int,
                    ),
                decreases n - q,
            {
                match crate::reader::special::hex_val(name[q]) {
                    Some(d) => {
                        let v2 = v * 16 + d;
                        v = if v2 > 0x110000 {
                            0x110000
                        } else {
                            v2
                        };
                        proof {
                            lemma_all_hex_snoc_from(name@, 2, q as int + 1);
                        }
                        q = q + 1;
                    },
                    None => {
                        proof {
                            lemma_all_hex_index(name@, 2, n as int, q as int);
                        }
                        return None;
                    },
                }
            }
            match char_from_u32(v) {
                Some(ch) => Some(ch),
                None => None,
            }
        } else {
            let mut v: u32 = 0;
            let mut q: usize = 1;
            while q < n
                invariant
                    1 <= q <= n,
                    v <= 0x110000,
                    spec_all_digits(name@, 1, q as int),
                    spec_fold_dec_scalar(name@, 1, n as int, 0) == spec_fold_dec_scalar(
                        name@,
                        q as int,
                        n as int,
                        v as int,
                    ),
                decreases n - q,
            {
                let c = name[q];
                if '0' <= c && c <= '9' {
                    let d: u32 = (c as u32) - ('0' as u32);
                    let v2 = v * 10 + d;
                    v = if v2 > 0x110000 {
                        0x110000
                    } else {
                        v2
                    };
                    proof {
                        lemma_all_digits_snoc_from(name@, 1, q as int + 1);
                    }
                    q = q + 1;
                } else {
                    proof {
                        lemma_all_digits_index(name@, 1, n as int, q as int);
                    }
                    return None;
                }
            }
            match char_from_u32(v) {
                Some(ch) => Some(ch),
                None => None,
            }
        }
    } else {
        proof {
            assert(name@ != seq!['a', 'm', 'p']);
            assert(name@ != seq!['l', 't']);
            assert(name@ != seq!['g', 't']);
            assert(name@ != seq!['q', 'u', 'o', 't']);
            assert(name@ != seq!['a', 'p', 'o', 's']);
        }
        None
    }
}

proof fn lemma_all_hex_index(s: Seq<char>, a: int, b: int, i: int)
    requires
        a <= i < b,
        crate::reader::special::spec_hex_val(s[i]) is None,
    ensures
        !spec_all_hex(s, a, b),
    decreases i - a,
{
    if a < i {
        lemma_all_hex_index(s, a + 1, b, i);
    }
}

proof fn lemma_all_hex_snoc_from(s: Seq<char>, a: int, j: int)
    requires
        a < j <= s.len(),
        spec_all_hex(s, a, j - 1),
        crate::reader::special::spec_hex_val(s[j - 1]) is Some,
    ensures
        spec_all_hex(s, a, j),
    decreases j - a,
{
    if a < j - 1 {
        lemma_all_hex_snoc_from(s, a + 1, j);
    } else {
        assert(spec_all_hex(s, j, j));
    }
}

fn char_slice(cs: &Vec<char>, i: usize, j: usize) -> (r: Vec<char>)
    requires
        i <= j <= cs@.len(),
    ensures
        r@ == cs@.subrange(i as int, j as int),
{
    let mut out: Vec<char> = Vec::new();
    let mut k: usize = i;
    while k < j
        invariant
            i <= k <= j <= cs@.len(),
            out@ == cs@.subrange(i as int, k as int),
        decreases j - k,
    {
        out.push(cs[k]);
        k = k + 1;
        proof {
            assert(out@ =~= cs@.subrange(i as int, k as int));
        }
    }
    out
}

#[verifier::loop_isolation(false)]
fn find_char_in(cs: &Vec<char>, start: usize, c: char) -> (r: usize)
    requires
        start <= cs@.len(),
    ensures
        r == spec_find_char(cs@, start as int, c),
        start <= r <= cs@.len(),
{
    let mut i: usize = start;
    while i < cs.len()
        invariant
            start <= i <= cs@.len(),
            spec_find_char(cs@, start as int, c) == spec_find_char(cs@, i as int, c),
        decreases cs@.len() - i,
    {
        if cs[i] == c {
            return i;
        }
        i = i + 1;
    }
    i
}

/// Decodes the five named entities in an attribute value or text node.
#[verifier::loop_isolation(false)]
pub fn unescape_entities(cs: &Vec<char>) -> (r: Option<Vec<char>>)
    ensures
        match spec_unescape_entities(cs@) {
            Option::Some(t) => r matches Some(v) && v@ == t,
            Option::None => r is None,
        },
{
    let n = cs.len();
    let mut out: Vec<char> = Vec::new();
    let mut i: usize = 0;
    proof {
        assert(cs@.skip(0) =~= cs@);
        assert(spec_opt_prepend(out@, spec_unescape_entities(cs@)) == spec_unescape_entities(
            cs@,
        )) by {
            match spec_unescape_entities(cs@) {
                Option::Some(t) => {
                    assert(out@ + t =~= t);
                },
                Option::None => {},
            }
        }
    }
    while i < n
        invariant
            i <= n,
            n == cs@.len(),
            spec_unescape_entities(cs@) == spec_opt_prepend(
                out@,
                spec_unescape_entities(cs@.skip(i as int)),
            ),
        decreases n - i,
    {
        let c = cs[i];
        if c != '&' {
            proof {
                assert(cs@.skip(i as int).skip(1) =~= cs@.skip(i as int + 1));
                let rest = spec_unescape_entities(cs@.skip(i as int + 1));
                match rest {
                    Option::Some(t) => {
                        assert(out@ + (seq![c] + t) =~= out@.push(c) + t);
                    },
                    Option::None => {},
                }
            }
            out.push(c);
            i = i + 1;
        } else {
            let k = find_char_in(cs, i + 1, ';');
            proof {
                assert(cs@.skip(i as int)[0] == cs@[i as int]);
                lemma_find_shift(cs@, i as int, k as int);
            }
            if k >= n {
                return None;
            }
            let name = char_slice(cs, i + 1, k);
            proof {
                assert(name@ =~= cs@.skip(i as int).subrange(1, k as int - i));
            }
            match entity_char(&name) {
                Some(rep) => {
                    proof {
                        assert(cs@.skip(i as int).skip(k as int - i + 1) =~= cs@.skip(
                            k as int + 1,
                        ));
                        let rest = spec_unescape_entities(cs@.skip(k as int + 1));
                        match rest {
                            Option::Some(t) => {
                                assert(out@ + (seq![rep] + t) =~= out@.push(rep) + t);
                            },
                            Option::None => {},
                        }
                    }
                    out.push(rep);
                    i = k + 1;
                },
                None => {
                    return None;
                },
            }
        }
    }
    proof {
        assert(cs@.skip(n as int) =~= Seq::<char>::empty());
        match spec_unescape_entities(cs@) {
            Option::Some(t) => {
                assert(out@ + Seq::<char>::empty() =~= out@);
            },
            Option::None => {},
        }
    }
    Some(out)
}

/// Finding ';' from `i + 1` in the whole text lands where finding it
/// from position 1 of the suffix at `i` does.
proof fn lemma_find_shift(s: Seq<char>, i: int, k: int)
    requires
        0 <= i < s.len(),
        k == crate::reader::special::spec_find_char(s, i + 1, ';'),
    ensures
        crate::reader::special::spec_find_char(s.skip(i), 1, ';') == k - i,
{
    lemma_find_shift_gen(s, i, i + 1);
}

proof fn lemma_find_shift_gen(s: Seq<char>, base: int, from: int)
    requires
        0 <= base <= from <= s.len(),
    ensures
        crate::reader::special::spec_find_char(s.skip(base), from - base, ';')
            == crate::reader::special::spec_find_char(s, from, ';') - base,
    decreases s.len() - from,
{
    if from < s.len() {
        assert(s.skip(base)[from - base] == s[from]);
        if s[from] != ';' {
            lemma_find_shift_gen(s, base, from + 1);
        }
    } else {
        assert(s.skip(base).len() == s.len() - base);
    }
}


// ------------------------------------------------------------------
// Per-element decoding
// ------------------------------------------------------------------
/// The position selected by a type-code field, when the code names one.
pub open spec fn spec_position_of(tid: Seq<char>) -> Option<CommentPosition> {
    if tid == seq!['1'] {
        Option::Some(CommentPosition::Scroll)
    } else if tid == seq!['4'] {
        Option::Some(CommentPosition::Top)
    } else if tid == seq!['5'] {
        Option::Some(CommentPosition::Bottom)
    } else if tid == seq!['6'] {
        Option::Some(CommentPosition::Reversed)
    } else if tid == seq!['7'] {
        Option::Some(CommentPosition::Special)
    } else {
        Option::None
    }
}

/// The numeric core of a decoded element, before the body is read.
pub ghost struct ParsedItemCore {
    pub timeline_ms: int,
    pub timestamp: int,
    pub pos: CommentPosition,
    pub color: int,
    pub size_raw: int,
}

/// The staged decoding of the attribute fields: too few fields, an
/// unknown type code, or an unparsable number is an element error;
/// a scripted/meta entry (code 8) or a blocked position drops the
/// element silently; otherwise the numeric core is produced.
pub open spec fn spec_item_core(
    fields: Seq<Seq<char>>,
    version: XmlVersion,
    opts: &BlockOptions,
) -> Result<Option<ParsedItemCore>, ()> {
    let off: int = if version == XmlVersion::V1 {
        0
    } else {
        2
    };
    if fields.len() < 5 {
        Result::Err(())
    } else if fields.len() <= 4 + off {
        Result::Err(())
    } else {
        let tid = fields[1 + off];
        if tid == seq!['8'] {
            Result::Ok(Option::None)
        } else {
            match spec_position_of(tid) {
                Option::None => Result::Err(()),
                Option::Some(pos) => {
                    let tl = spec_decimal_micro(fields[off]);
                    let ts = spec_parse_u64(fields[4 + off]);
                    if tl is None {
                        Result::Err(())
                    } else if ts is None {
                        Result::Err(())
                    } else if spec_should_skip_parse(pos, opts) {
                        Result::Ok(Option::None)
                    } else {
                        let co = spec_parse_u64(fields[3 + off]);
                        let sz = spec_parse_i64(fields[2 + off]);
                        if co is None || co->0 > 0xffffffff {
                            Result::Err(())
                        } else if sz is None || sz->0 > 0x7fffffff || sz->0 < -0x80000000 {
                            Result::Err(())
                        } else {
                            Result::Ok(
                                Option::Some(
                                    ParsedItemCore {
                                        timeline_ms: if version == XmlVersion::V1 {
                                            spec_tdiv(tl->0, 1000)
                                        } else {
                                            spec_tdiv(tl->0, 1000000)
                                        },
                                        timestamp: ts->0,
                                        pos: pos,
                                        color: co->0,
                                        size_raw: sz->0,
                                    },
                                ),
                            )
                        }
                    }
                },
            }
        }
    }
}

/// The resolved font size of a regular comment, in centipixels: the
/// raw size (never below zero) times the requested size over the
/// baseline of 25, clamped at the dimension cap.
pub open spec fn spec_size_cp(size_raw: int, fontsize: u32) -> nat {
    let raw: nat = if size_raw < 0 {
        0
    } else {
        size_raw as nat
    };
    spec_mul_clamp(raw, (fontsize * 4) as nat, DIMENSION_CAP_CP as nat)
}

/// The clipped line count used for the height estimate.
pub open spec fn spec_clipped_lines(s: Seq<char>) -> nat {
    if spec_line_count(s) <= LINE_COUNT_CAP as nat {
        spec_line_count(s)
    } else {
        LINE_COUNT_CAP as nat
    }
}

/// Whether `c` is the faithful decode of a comment element whose
/// attribute value is `raw_p` and whose body is `content`, under the
/// element index `id`.
pub open spec fn spec_comment_from_element(
    c: Comment,
    raw_p: Seq<char>,
    content: Seq<char>,
    version: XmlVersion,
    fontsize: u32,
    zoom: ZoomFactor,
    opts: &BlockOptions,
    id: u64,
) -> bool {
    match spec_item_core(spec_split_commas(raw_p), version, opts) {
        Result::Ok(Option::Some(core)) => {
            &&& c.timeline_ms == core.timeline_ms
            &&& c.timestamp == core.timestamp
            &&& c.no == id
            &&& c.pos == core.pos
            &&& c.color == core.color
            &&& c.wf()
            &&& (core.pos != CommentPosition::Special ==> {
                &&& c.content@ == spec_unescape_newline(content)
                &&& c.size_cp == spec_size_cp(core.size_raw, fontsize)
                &&& c.data == CommentData::Normal(
                    NormalCommentData {
                        height_cp: spec_mul_clamp(
                            spec_clipped_lines(spec_unescape_newline(content)),
                            spec_size_cp(core.size_raw, fontsize),
                            DIMENSION_CAP_CP as nat,
                        ) as u64,
                        width_cp: spec_mul_clamp(
                            spec_calculate_length(spec_unescape_newline(content)),
                            spec_size_cp(core.size_raw, fontsize),
                            DIMENSION_CAP_CP as nat,
                        ) as u64,
                    },
                )
            })
            &&& (core.pos == CommentPosition::Special ==> c.size_cp == spec_size_cp(
                core.size_raw,
                fontsize,
            ) && (match spec_json_array(spec_filter_bad_chars(content)) {
                Option::Some(gs) => match spec_special_fields_g(gs, zoom) {
                    Option::Some(f) => (c.data matches CommentData::Special(d)
                        && spec_fields_match(c.content@, d, f)),
                    Option::None => false,
                },
                Option::None => false,
            }))
        },
        _ => false,
    }
}

fn position_of(tid: &Vec<char>) -> (r: Option<CommentPosition>)
    ensures
        r == spec_position_of(tid@),
        (tid@ == seq!['8']) ==> r is None,
{
    if tid.len() == 1 {
        let c = tid[0];
        proof {
            assert(tid@ =~= seq![tid@[0]]);
        }
        if c == '1' {
            Some(CommentPosition::Scroll)
        } else if c == '4' {
            Some(CommentPosition::Top)
        } else if c == '5' {
            Some(CommentPosition::Bottom)
        } else if c == '6' {
            Some(CommentPosition::Reversed)
        } else if c == '7' {
            Some(CommentPosition::Special)
        } else {
            None
        }
    } else {
        proof {
            assert(tid@ != seq!['1'] && tid@ != seq!['4'] && tid@ != seq!['5'] && tid@
                != seq!['6'] && tid@ != seq!['7']);
        }
        None
    }
}

/// Decodes one comment element from its raw attribute value and its
/// body text. The numeric fields follow `spec_item_core` exactly; a
/// valid regular comment carries the unescaped body and the estimated
/// dimensions, a valid scripted comment carries its decoded animation
/// payload (a malformed payload drops the element).
#[verifier::rlimit(60)]
pub fn parse_comment_item(
    raw_p: &str,
    content: &str,
    version: XmlVersion,
    fontsize: u32,
    zoom_factor: &ZoomFactor,
    id: u64,
    block_options: &BlockOptions,
) -> (r: Result<Option<Comment>, ParseError>)
    requires
        1 <= fontsize <= crate::writer::ass::FONT_SIZE_CAP,
        zoom_factor.wf(),
    ensures
        r matches Ok(o) ==> (o matches Some(c) ==> spec_comment_from_element(
            c,
            raw_p@,
            content@,
            version,
            fontsize,
            *zoom_factor,
            block_options,
            id,
        )),
        ({
            let fields = spec_split_commas(raw_p@);
            match spec_item_core(fields, version, block_options) {
                Result::Err(()) => r matches Err(e) && e is Xml,
                Result::Ok(Option::None) => r == Result::<Option<Comment>, ParseError>::Ok(
                    Option::None,
                ),
                Result::Ok(Option::Some(core)) => {
                    if core.pos != CommentPosition::Special {
                        &&& r matches Ok(o)
                        &&& o matches Some(c)
                        &&& c.timeline_ms == core.timeline_ms
                        &&& c.timestamp == core.timestamp
                        &&& c.no == id
                        &&& c.pos == core.pos
                        &&& c.color == core.color
                        &&& c.content@ == spec_unescape_newline(content@)
                        &&& c.size_cp == spec_size_cp(core.size_raw, fontsize)
                        &&& c.data == CommentData::Normal(
                            NormalCommentData {
                                height_cp: spec_mul_clamp(
                                    spec_clipped_lines(spec_unescape_newline(content@)),
                                    spec_size_cp(core.size_raw, fontsize),
                                    DIMENSION_CAP_CP as nat,
                                ) as u64,
                                width_cp: spec_mul_clamp(
                                    spec_calculate_length(spec_unescape_newline(content@)),
                                    spec_size_cp(core.size_raw, fontsize),
                                    DIMENSION_CAP_CP as nat,
                                ) as u64,
                            },
                        )
                        &&& c.wf()
                    } else {
                        match spec_json_array(spec_filter_bad_chars(content@)) {
                            Option::None => r matches Ok(o) && o is None,
                            Option::Some(gs) => match spec_special_fields_g(
                                gs,
                                *zoom_factor,
                            ) {
                                Option::None => r matches Ok(o) && o is None,
                                Option::Some(f) => {
                                    &&& r matches Ok(o)
                                    &&& o matches Some(c)
                                    &&& c.timeline_ms == core.timeline_ms
                                    &&& c.timestamp == core.timestamp
                                    &&& c.no == id
                                    &&& c.pos == CommentPosition::Special
                                    &&& c.color == core.color
                                    &&& c.size_cp == spec_size_cp(core.size_raw, fontsize)
                                    &&& (c.data matches CommentData::Special(d)
                                        && spec_fields_match(c.content@, d, f))
                                    &&& c.wf()
                                },
                            },
                        }
                    }
                },
            }
        }),
{
    let fields = split_commas(raw_p);
    let off: usize = if matches!(version, XmlVersion::V1) {
        0
    } else {
        2
    };
    if fields.len() < 5 || fields.len() <= 4 + off {
        return Err(ParseError::Xml(String::from_str("Invalid p attribute")));
    }
    proof {
        assert(fields@.map_values(|v: Vec<char>| v@)[1 + off as int] == fields@[1 + off as int]@);
        assert(fields@.map_values(|v: Vec<char>| v@)[0 + off as int] == fields@[0 + off as int]@);
        assert(fields@.map_values(|v: Vec<char>| v@)[4 + off as int] == fields@[4 + off as int]@);
        assert(fields@.map_values(|v: Vec<char>| v@)[3 + off as int] == fields@[3 + off as int]@);
        assert(fields@.map_values(|v: Vec<char>| v@)[2 + off as int] == fields@[2 + off as int]@);
    }
    let tid = &fields[1 + off];
    if tid.len() == 1 && tid[0] == '8' {
        proof {
            assert(tid@ =~= seq!['8']);
        }
        return Ok(None);
    }
    proof {
        assert(tid@ != seq!['8']);
    }
    let pos = match position_of(tid) {
        Some(p) => p,
        None => {
            return Err(ParseError::Xml(String::from_str("Unknown danmaku type")));
        },
    };
    let timeline_mu = match crate::reader::special::parse_decimal_micro(&fields[0 + off]) {
        Some(v) => v,
        None => {
            return Err(ParseError::Xml(String::from_str("Error parsing timeline")));
        },
    };
    let timestamp = match parse_u64_plain(&fields[4 + off]) {
        Some(v) => v,
        None => {
            return Err(ParseError::Xml(String::from_str("Error parsing timestamp")));
        },
    };
    if should_skip_parse(&pos, block_options) {
        return Ok(None);
    }
    let color64 = match parse_u64_plain(&fields[3 + off]) {
        Some(v) => v,
        None => {
            return Err(ParseError::Xml(String::from_str("Error parsing color")));
        },
    };
    if color64 > 0xffffffff {
        return Err(ParseError::Xml(String::from_str("Error parsing color")));
    }
    let color: u32 = color64 as u32;
    let size_raw64 = match parse_i64_plain(&fields[2 + off]) {
        Some(v) => v,
        None => {
            return Err(ParseError::Xml(String::from_str("Error parsing size")));
        },
    };
    if size_raw64 > 0x7fffffff || size_raw64 < -0x80000000 {
        return Err(ParseError::Xml(String::from_str("Error parsing size")));
    }
    let timeline_ms: i64 = if matches!(version, XmlVersion::V1) {
        crate::reader::special::tdiv_micro(timeline_mu, 1000)
    } else {
        crate::reader::special::tdiv_micro(timeline_mu, 1000000)
    };
    proof {
        crate::reader::special::lemma_tdiv_cap_bound(timeline_mu as int, 1000);
        crate::reader::special::lemma_tdiv_cap_bound(timeline_mu as int, 1000000);
    }
    if matches!(pos, CommentPosition::Special) {
        let filtered = filter_bad_chars(content);
        match parse_special_comment(filtered.as_str(), zoom_factor) {
            Ok((text, data)) => {
                let raw_nonneg: u64 = if size_raw64 < 0 {
                    0
                } else {
                    size_raw64 as u64
                };
                let size_cp = mul_clamp(raw_nonneg, (fontsize * 4) as u64, DIMENSION_CAP_CP);
                Ok(
                    Some(
                        Comment {
                            timeline_ms,
                            timestamp,
                            no: id,
                            content: text,
                            pos: CommentPosition::Special,
                            color,
                            size_cp,
                            data: CommentData::Special(data),
                        },
                    ),
                )
            },
            Err(_) => Ok(None),
        }
    } else {
        let content2 = unescape_newline(content);
        let raw_nonneg: u64 = if size_raw64 < 0 {
            0
        } else {
            size_raw64 as u64
        };
        let size_cp = mul_clamp(raw_nonneg, (fontsize * 4) as u64, DIMENSION_CAP_CP);
        let lines = line_count(content2.as_str());
        let maxlen = calculate_length(content2.as_str());
        let height_cp = mul_clamp(lines as u64, size_cp, DIMENSION_CAP_CP);
        let width_cp = mul_clamp(maxlen as u64, size_cp, DIMENSION_CAP_CP);
        Ok(
            Some(
                Comment {
                    timeline_ms,
                    timestamp,
                    no: id,
                    content: content2,
                    pos,
                    color,
                    size_cp,
                    data: CommentData::Normal(NormalCommentData { height_cp, width_cp }),
                },
            ),
        )
    }
}



// ------------------------------------------------------------------
// The document scanner
// ------------------------------------------------------------------
/// One counted comment element of the document: its raw attribute
/// value and body (entities still encoded), the field layout in force,
/// and its element index.
pub ghost struct ElementRec {
    pub p_attr: Option<Seq<char>>,
    pub body: Seq<char>,
    pub version: XmlVersion,
    pub idx: nat,
}

/// The first position at or after `i` that ends an attribute name.
pub open spec fn spec_name_end(s: Seq<char>, i: int) -> int
    decreases s.len() - i,
{
    if i < 0 || i >= s.len() || s[i] == '=' || s[i] == '>' || s[i] == '/'
        || crate::reader::special::spec_is_ws(s[i]) {
        i
    } else {
        spec_name_end(s, i + 1)
    }
}

/// The attribute scan of an element tag from `j`: the last value of
/// the single-letter `p` attribute, the position after the closing
/// bracket, and whether the tag was self-closing; `None` on a
/// malformed tag, which is fatal to the whole input.
pub open spec fn spec_scan_tag(s: Seq<char>, j: int, p_acc: Option<Seq<char>>) -> Option<
    (Option<Seq<char>>, int, bool),
>
    decreases s.len() - j,
{
    if j < 0 {
        Option::None
    } else {
        let j2 = crate::reader::special::spec_skip_ws(s, j);
        if j2 >= s.len() {
            Option::None
        } else if s[j2] == '>' {
            Option::Some((p_acc, j2 + 1, false))
        } else if s[j2] == '/' {
            if j2 + 1 < s.len() && s[j2 + 1] == '>' {
                Option::Some((p_acc, j2 + 2, true))
            } else {
                Option::None
            }
        } else {
            let k = spec_name_end(s, j2);
            if k == j2 || k >= s.len() {
                Option::None
            } else {
                let is_p = k - j2 == 1 && s[j2] == 'p';
                let k2 = crate::reader::special::spec_skip_ws(s, k);
                if !(k2 < s.len() && s[k2] == '=') {
                    Option::None
                } else {
                    let k3 = crate::reader::special::spec_skip_ws(s, k2 + 1);
                    if !(k3 < s.len() && (s[k3] == '"' || s[k3] == '\'')) {
                        Option::None
                    } else {
                        let quote = s[k3];
                        let vend = spec_find_char(s, k3 + 1, quote);
                        if vend >= s.len() || !(j < vend + 1 <= s.len()) {
                            Option::None
                        } else {
                            let p2 = if is_p {
                                Option::Some(s.subrange(k3 + 1, vend))
                            } else {
                                p_acc
                            };
                            spec_scan_tag(s, vend + 1, p2)
                        }
                    }
                }
            }
        }
    }
}

/// The position of the declaration's closing marker at or after `j`.
pub open spec fn spec_decl_close(s: Seq<char>, j: int) -> Option<int>
    decreases s.len() - j,
{
    if j < 0 || j >= s.len() {
        Option::None
    } else if s[j] == '?' && j + 1 < s.len() && s[j + 1] == '>' {
        Option::Some(j)
    } else {
        spec_decl_close(s, j + 1)
    }
}

/// The version named by a declaration's text between `start` and
/// `end`: the quoted value of its `version` attribute, when it names a
/// recognised layout.
pub open spec fn spec_decl_version(s: Seq<char>, i: int, end: int) -> Option<XmlVersion>
    decreases end - i,
{
    if i < 0 || i >= end {
        Option::None
    } else if end - i > 7 && s[i] == 'v' && s[i + 1] == 'e' && s[i + 2] == 'r' && s[i + 3] == 's'
        && s[i + 4] == 'i' && s[i + 5] == 'o' && s[i + 6] == 'n' {
        let j = crate::reader::special::spec_skip_ws(s, i + 7);
        if j >= end || s[j] != '=' {
            Option::None
        } else {
            let j2 = crate::reader::special::spec_skip_ws(s, j + 1);
            if j2 >= end || !(s[j2] == '"' || s[j2] == '\'') {
                Option::None
            } else {
                let vstart = j2 + 1;
                let vend = spec_find_char(s, vstart, s[j2]);
                if vend > end {
                    Option::None
                } else if vend - vstart == 3 && s[vstart] == '1' && s[vstart + 1] == '.'
                    && s[vstart + 2] == '0' {
                    Option::Some(XmlVersion::V1)
                } else if vend - vstart == 3 && s[vstart] == '2' && s[vstart + 1] == '.'
                    && s[vstart + 2] == '0' {
                    Option::Some(XmlVersion::V2)
                } else {
                    Option::None
                }
            }
        }
    } else {
        spec_decl_version(s, i + 1, end)
    }
}

/// The document fold over the sanitised text from `i`: the counted
/// comment elements in order, each with the version in force; `Err`
/// exactly on the structural failures (unterminated declaration or
/// tag, unrecognised version, a comment element before any
/// declaration, malformed attributes).
pub open spec fn spec_doc_scan(
    s: Seq<char>,
    i: int,
    ver: Option<XmlVersion>,
    cnt: nat,
    acc: Seq<ElementRec>,
) -> Result<Seq<ElementRec>, ()>
    decreases s.len() - i,
{
    if i < 0 {
        Result::Err(())
    } else if i >= s.len() {
        Result::Ok(acc)
    } else if s[i] != '<' {
        spec_doc_scan(s, i + 1, ver, cnt, acc)
    } else if s.len() - i > 1 && s[i + 1] == '?' {
        match spec_decl_close(s, i + 2) {
            Option::None => Result::Err(()),
            Option::Some(close) => match spec_decl_version(s, i + 2, close) {
                Option::None => Result::Err(()),
                Option::Some(v) => if !(i < close + 2 <= s.len()) {
                    Result::Err(())
                } else {
                    spec_doc_scan(s, close + 2, Option::Some(v), cnt, acc)
                },
            },
        }
    } else if s.len() - i > 2 && s[i + 1] == 'd' && (crate::reader::special::spec_is_ws(s[i + 2])
        || s[i + 2] == '>' || s[i + 2] == '/') {
        match spec_scan_tag(s, i + 2, Option::None) {
            Option::None => Result::Err(()),
            Option::Some(tag) => {
                let p = tag.0;
                let j = tag.1;
                let self_closing = tag.2;
                if !(i < j <= s.len()) {
                    Result::Err(())
                } else if self_closing {
                    spec_doc_scan(s, j, ver, cnt, acc)
                } else if cnt >= 0xffffffffffffffff {
                    Result::Err(())
                } else if ver is None {
                    Result::Err(())
                } else {
                    let tend = spec_find_char(s, j, '<');
                    if !(i < tend <= s.len()) {
                        Result::Err(())
                    } else {
                        spec_doc_scan(
                            s,
                            tend,
                            ver,
                            cnt + 1,
                            acc.push(
                                ElementRec {
                                    p_attr: p,
                                    body: s.subrange(j, tend),
                                    version: ver->0,
                                    idx: cnt,
                                },
                            ),
                        )
                    }
                }
            },
        }
    } else {
        let e = spec_find_char(s, i, '>');
        if e >= s.len() || !(i < e + 1 <= s.len()) {
            Result::Err(())
        } else {
            spec_doc_scan(s, e + 1, ver, cnt, acc)
        }
    }
}

/// Whether a counted element yields a comment: decodable under the
/// first layout, a present attribute list, a non-empty body, and a
/// numeric core that neither errs nor is dropped (with a decodable
/// payload for a scripted element).
pub open spec fn spec_element_yields(e: ElementRec, zoom: ZoomFactor, opts: &BlockOptions) -> bool {
    &&& e.version == XmlVersion::V1
    &&& e.body.len() > 0
    &&& e.p_attr is Some
    &&& spec_unescape_entities(e.p_attr->0) is Some
    &&& spec_unescape_entities(e.body) is Some
    &&& (match spec_item_core(
        spec_split_commas(spec_unescape_entities(e.p_attr->0)->0),
        XmlVersion::V1,
        opts,
    ) {
        Result::Ok(Option::Some(core)) => core.pos != CommentPosition::Special || (
        match spec_json_array(
            spec_filter_bad_chars(spec_unescape_entities(e.body)->0),
        ) {
            Option::Some(gs) => spec_special_fields_g(gs, zoom) is Some,
            Option::None => false,
        }),
        _ => false,
    })
}

/// The comments are exactly the decodes of the yielding elements, in
/// order, each under its element index.
pub open spec fn spec_doc_matches(
    cs: Seq<Comment>,
    elems: Seq<ElementRec>,
    fontsize: u32,
    zoom: ZoomFactor,
    opts: &BlockOptions,
) -> bool
    decreases elems.len(),
{
    if elems.len() == 0 {
        cs.len() == 0
    } else {
        let e = elems.last();
        if spec_element_yields(e, zoom, opts) {
            &&& cs.len() >= 1
            &&& spec_comment_from_element(
                cs.last(),
                spec_unescape_entities(e.p_attr->0)->0,
                spec_unescape_entities(e.body)->0,
                XmlVersion::V1,
                fontsize,
                zoom,
                opts,
                e.idx as u64,
            )
            &&& spec_doc_matches(cs.drop_last(), elems.drop_last(), fontsize, zoom, opts)
        } else {
            spec_doc_matches(cs, elems.drop_last(), fontsize, zoom, opts)
        }
    }
}

fn is_space(c: char) -> (r: bool)
    ensures
        r == crate::reader::special::spec_is_ws(c),
{
    c == ' ' || c == '\t' || c == '\n' || c == '\r'
}

#[verifier::loop_isolation(false)]
fn skip_spaces(cs: &Vec<char>, start: usize) -> (r: usize)
    requires
        start <= cs@.len(),
    ensures
        start <= r <= cs@.len(),
        r as int == crate::reader::special::spec_skip_ws(cs@, start as int),
{
    let mut i: usize = start;
    while i < cs.len()
        invariant
            start <= i <= cs@.len(),
            crate::reader::special::spec_skip_ws(cs@, start as int)
                == crate::reader::special::spec_skip_ws(cs@, i as int),
        decreases cs@.len() - i,
    {
        if !is_space(cs[i]) {
            return i;
        }
        i = i + 1;
    }
    i
}

/// Reads the version value out of a declaration's text, between
/// `start` and `end`: the characters after `version=` inside quotes.
#[verifier::loop_isolation(false)]
fn scan_decl_version(cs: &Vec<char>, start: usize, end: usize) -> (r: Option<XmlVersion>)
    requires
        start <= end <= cs@.len(),
    ensures
        r == spec_decl_version(cs@, start as int, end as int),
{
    let mut i: usize = start;
    while i < end
        invariant
            start <= i <= end,
            spec_decl_version(cs@, start as int, end as int) == spec_decl_version(
                cs@,
                i as int,
                end as int,
            ),
        decreases end - i,
    {
        // look for the attribute name "version"
        if end - i > 7 && cs[i] == 'v' && cs[i + 1] == 'e' && cs[i + 2] == 'r' && cs[i + 3]
            == 's' && cs[i + 4] == 'i' && cs[i + 5] == 'o' && cs[i + 6] == 'n' {
            let mut j: usize = skip_spaces(cs, i + 7);
            if j >= end || cs[j] != '=' {
                return None;
            }
            j = skip_spaces(cs, j + 1);
            if j >= end || !(cs[j] == '"' || cs[j] == '\'') {
                return None;
            }
            let quote = cs[j];
            let vstart = j + 1;
            let vend = find_char_in(cs, vstart, quote);
            if vend > end {
                return None;
            }
            if vend - vstart == 3 && cs[vstart] == '1' && cs[vstart + 1] == '.' && cs[vstart
                + 2] == '0' {
                return Some(XmlVersion::V1);
            }
            if vend - vstart == 3 && cs[vstart] == '2' && cs[vstart + 1] == '.' && cs[vstart
                + 2] == '0' {
                return Some(XmlVersion::V2);
            }
            return None;
        }
        i = i + 1;
    }
    None
}

/// Reads comment elements out of a document. `Ok` holds exactly when
/// the document scan succeeds, and then the comments are exactly the
/// decodes of the yielding elements, in order, each under its element
/// index; the structural failures (unterminated declaration or tag, a
/// version naming no recognised layout, a comment element before any
/// declaration, malformed attributes) are fatal to the whole input,
/// while per-element failures drop the element and the run continues.
#[verifier::loop_isolation(false)]
#[verifier::rlimit(100)]
pub fn read_comments_from_xml(
    text: &str,
    fontsize: u32,
    zoom_factor: &ZoomFactor,
    block_options: &BlockOptions,
) -> (r: Result<Vec<Comment>, BiliassError>)
    requires
        1 <= fontsize <= crate::writer::ass::FONT_SIZE_CAP,
        zoom_factor.wf(),
    ensures
        match spec_doc_scan(
            spec_filter_bad_chars(text@),
            0,
            Option::<XmlVersion>::None,
            0,
            Seq::<ElementRec>::empty(),
        ) {
            Result::Ok(elems) => r matches Ok(cs) && spec_doc_matches(
                cs@,
                elems,
                fontsize,
                *zoom_factor,
                block_options,
            ),
            Result::Err(()) => r is Err,
        },
        r matches Ok(cs) ==> forall|k: int| 0 <= k < cs@.len() ==> (#[trigger] cs@[k]).wf(),
        r matches Ok(cs) ==> forall|j: int, k: int|
            0 <= j < k < cs@.len() ==> (#[trigger] cs@[j]).no < (#[trigger] cs@[k]).no,
{
    let filtered = filter_bad_chars(text);
    let cs = str_chars(filtered.as_str());
    let n = cs.len();
    let mut comments: Vec<Comment> = Vec::new();
    let ghost mut acc_g: Seq<ElementRec> = Seq::<ElementRec>::empty();
    let mut version: Option<XmlVersion> = None;
    let mut count: u64 = 0;
    let mut i: usize = 0;
    while i < n
        invariant
            i <= n,
            n == cs@.len(),
            count == acc_g.len(),
            spec_doc_scan(cs@, 0, Option::<XmlVersion>::None, 0, Seq::<ElementRec>::empty())
                == spec_doc_scan(cs@, i as int, version, count as nat, acc_g),
            spec_doc_matches(comments@, acc_g, fontsize, *zoom_factor, block_options),
            forall|k: int| 0 <= k < comments@.len() ==> (#[trigger] comments@[k]).wf(),
            forall|k: int| 0 <= k < comments@.len() ==> (#[trigger] comments@[k]).no < count,
            forall|j: int, k: int|
                0 <= j < k < comments@.len() ==> (#[trigger] comments@[j]).no < (
                #[trigger] comments@[k]).no,
        decreases n - i,
    {
        if cs[i] != '<' {
            i = i + 1;
        } else if n - i > 1 && cs[i + 1] == '?' {
            // declaration: scan for its closing marker
            let mut j: usize = i + 2;
            let mut close: usize = n;
            let mut found: bool = false;
            while !found && j < n
                invariant
                    i + 2 <= j <= n,
                    found ==> i + 2 <= close && close + 1 < n && spec_decl_close(
                        cs@,
                        i as int + 2,
                    ) == Option::Some(close as int),
                    !found ==> spec_decl_close(cs@, i as int + 2) == spec_decl_close(
                        cs@,
                        j as int,
                    ),
                decreases n - j + (if found {
                    0int
                } else {
                    1int
                }),
            {
                if cs[j] == '?' && j + 1 < n && cs[j + 1] == '>' {
                    close = j;
                    found = true;
                } else {
                    j = j + 1;
                }
            }
            if !found {
                return Err(
                    BiliassError::DecodeError(
                        DecodeError::Xml(String::from_str("Unterminated declaration")),
                    ),
                );
            }
            match scan_decl_version(&cs, i + 2, close) {
                Some(v) => {
                    version = Some(v);
                },
                None => {
                    return Err(
                        BiliassError::ParseError(
                            ParseError::Xml(String::from_str("Unknown XML version")),
                        ),
                    );
                },
            }
            i = close + 2;
        } else if n - i > 2 && cs[i + 1] == 'd' && (is_space(cs[i + 2]) || cs[i + 2] == '>'
            || cs[i + 2] == '/') {
            // a comment element: scan its attributes
            let mut j: usize = i + 2;
            let mut p_raw: Option<Vec<char>> = None;
            let ghost mut p_g: Option<Seq<char>> = Option::None;
            let mut self_closing: bool = false;
            let mut tag_ok: bool = false;
            while !tag_ok
                invariant
                    i + 2 <= j <= n,
                    !tag_ok ==> !self_closing,
                    (match p_raw {
                        Option::Some(v) => p_g matches Option::Some(t) && v@ == t,
                        Option::None => p_g is None,
                    }),
                    !tag_ok ==> spec_scan_tag(cs@, i as int + 2, Option::None) == spec_scan_tag(
                        cs@,
                        j as int,
                        p_g,
                    ),
                    tag_ok ==> spec_scan_tag(cs@, i as int + 2, Option::None) == Option::Some(
                        (p_g, j as int, self_closing),
                    ),
                decreases n - j + (if tag_ok {
                    0int
                } else {
                    1int
                }),
            {
                let j2 = skip_spaces(&cs, j);
                if j2 >= n {
                    return Err(
                        BiliassError::DecodeError(
                            DecodeError::Xml(String::from_str("Unterminated element tag")),
                        ),
                    );
                }
                if cs[j2] == '>' {
                    proof {
                        assert(spec_scan_tag(cs@, j as int, p_g) == Option::Some(
                            (p_g, j2 as int + 1, false),
                        ));
                    }
                    j = j2 + 1;
                    tag_ok = true;
                } else if cs[j2] == '/' {
                    if j2 + 1 < n && cs[j2 + 1] == '>' {
                        proof {
                            assert(spec_scan_tag(cs@, j as int, p_g) == Option::Some(
                                (p_g, j2 as int + 2, true),
                            ));
                        }
                        j = j2 + 2;
                        self_closing = true;
                        tag_ok = true;
                    } else {
                        return Err(
                            BiliassError::DecodeError(
                                DecodeError::Xml(String::from_str("Malformed element tag")),
                            ),
                        );
                    }
                } else {
                    // attribute: name, '=', quoted value
                    let mut k: usize = j2;
                    while k < n && cs[k] != '=' && cs[k] != '>' && cs[k] != '/' && !is_space(
                        cs[k],
                    )
                        invariant
                            j2 <= k <= n,
                            spec_name_end(cs@, j2 as int) == spec_name_end(cs@, k as int),
                        decreases n - k,
                    {
                        k = k + 1;
                    }
                    if k == j2 || k >= n {
                        return Err(
                            BiliassError::DecodeError(
                                DecodeError::Xml(String::from_str("Malformed attribute")),
                            ),
                        );
                    }
                    let is_p: bool = k - j2 == 1 && cs[j2] == 'p';
                    let k2 = skip_spaces(&cs, k);
                    if k2 >= n || cs[k2] != '=' {
                        return Err(
                            BiliassError::DecodeError(
                                DecodeError::Xml(String::from_str("Malformed attribute")),
                            ),
                        );
                    }
                    let k3 = skip_spaces(&cs, k2 + 1);
                    if k3 >= n || !(cs[k3] == '"' || cs[k3] == '\'') {
                        return Err(
                            BiliassError::DecodeError(
                                DecodeError::Xml(String::from_str("Malformed attribute")),
                            ),
                        );
                    }
                    let quote = cs[k3];
                    let vend = find_char_in(&cs, k3 + 1, quote);
                    if vend >= n {
                        return Err(
                            BiliassError::DecodeError(
                                DecodeError::Xml(String::from_str("Unterminated attribute")),
                            ),
                        );
                    }
                    if is_p {
                        p_raw = Some(char_slice(&cs, k3 + 1, vend));
                        proof {
                            p_g = Option::Some(cs@.subrange(k3 as int + 1, vend as int));
                        }
                    }
                    j = vend + 1;
                }
            }
            if self_closing {
                i = j;
            } else {
                let id = count;
                if count == 0xffffffffffffffff {
                    return Err(
                        BiliassError::ParseError(
                            ParseError::Xml(String::from_str("Too many elements")),
                        ),
                    );
                }
                if matches!(version, Option::<XmlVersion>::None) {
                    return Err(
                        BiliassError::ParseError(
                            ParseError::Xml(String::from_str("No version specified")),
                        ),
                    );
                }
                count = count + 1;
                let ver = match version {
                    Some(v) => v,
                    None => XmlVersion::V1,
                };
                // the body text runs to the next tag
                let tend = find_char_in(&cs, j, '<');
                let body = char_slice(&cs, j, tend);
                let ghost e_rec = ElementRec {
                    p_attr: p_g,
                    body: cs@.subrange(j as int, tend as int),
                    version: ver,
                    idx: id as nat,
                };
                let ghost old_acc = acc_g;
                let ghost old_comments = comments@;
                proof {
                    acc_g = acc_g.push(e_rec);
                    assert(acc_g.drop_last() =~= old_acc);
                    assert(acc_g.last() == e_rec);
                }
                let mut pushed: bool = false;
                // per-element failures drop the element
                if matches!(ver, XmlVersion::V2) {
                    // layout not decoded: reported unsupported, element dropped
                } else if body.len() == 0 {
                    // no content found in the element
                } else {
                    match p_raw {
                        Some(raw) => {
                            match (unescape_entities(&raw), unescape_entities(&body)) {
                                (Some(p_chars), Some(body_chars)) => {
                                    let p_str = chars_string(&p_chars);
                                    let body_str = chars_string(&body_chars);
                                    match parse_comment_item(
                                        p_str.as_str(),
                                        body_str.as_str(),
                                        ver,
                                        fontsize,
                                        zoom_factor,
                                        id,
                                        block_options,
                                    ) {
                                        Ok(Some(c)) => {
                                            proof {
                                                assert(spec_comment_from_element(
                                                    c,
                                                    p_str@,
                                                    body_str@,
                                                    XmlVersion::V1,
                                                    fontsize,
                                                    *zoom_factor,
                                                    block_options,
                                                    id,
                                                ));
                                                assert(spec_element_yields(
                                                    e_rec,
                                                    *zoom_factor,
                                                    block_options,
                                                ));
                                                assert(c.no == id && c.wf());
                                            }
                                            comments.push(c);
                                            pushed = true;
                                        },
                                        Ok(None) => {},
                                        Err(_) => {},
                                    }
                                },
                                _ => {},
                            }
                        },
                        None => {},
                    }
                }
                proof {
                    if !pushed {
                        assert(!spec_element_yields(
                            e_rec,
                            *zoom_factor,
                            block_options,
                        ));
                    }
                    assert(spec_doc_matches(
                        comments@,
                        acc_g,
                        fontsize,
                        *zoom_factor,
                        block_options,
                    )) by {
                        if spec_element_yields(e_rec, *zoom_factor, block_options) {
                            assert(comments@.drop_last() =~= old_comments);
                        }
                    }
                }
                i = tend;
            }
        } else {
            // any other tag is skipped to its closing bracket
            let e = find_char_in(&cs, i, '>');
            if e >= n {
                return Err(
                    BiliassError::DecodeError(
                        DecodeError::Xml(String::from_str("Unterminated tag")),
                    ),
                );
            }
            i = e + 1;
        }
    }
    Ok(comments)
}

} // verus!

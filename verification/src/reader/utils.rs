//! Content sanitising and measuring shared by both format readers.

use vstd::prelude::*;
use crate::text::{chars_string, spec_seq_max_len, spec_split_lines, str_chars};

verus! {

/// Control characters and Unicode line/paragraph separators that the
/// sanitiser replaces.
pub open spec fn spec_bad_char(c: char) -> bool {
    let u = c as u32;
    u <= 0x08 || u == 0x0b || u == 0x0c || (0x0e <= u && u <= 0x1f) || u == 0x2028 || u == 0x2029
}

/// One sanitised character: bad characters become U+FFFD.
pub open spec fn spec_replace_bad_char(c: char) -> char {
    if spec_bad_char(c) {
        '\u{fffd}'
    } else {
        c
    }
}

/// The sanitised form of a text: every bad character replaced by U+FFFD.
pub open spec fn spec_filter_bad_chars(s: Seq<char>) -> Seq<char> {
    s.map_values(|c: char| spec_replace_bad_char(c))
}

fn is_bad_char(c: char) -> (r: bool)
    ensures
        r == spec_bad_char(c),
{
    let u = c as u32;
    u <= 0x08 || u == 0x0b || u == 0x0c || (0x0e <= u && u <= 0x1f) || u == 0x2028 || u == 0x2029
}

/// Replaces control characters and Unicode line/paragraph separators with
/// the replacement character U+FFFD.
pub fn filter_bad_chars(string: &str) -> (r: String)
    ensures
        r@ == spec_filter_bad_chars(string@),
{
    let cs = str_chars(string);
    let mut out: Vec<char> = Vec::new();
    let mut i: usize = 0;
    while i < cs.len()
        invariant
            i <= cs@.len(),
            out@ == spec_filter_bad_chars(cs@.take(i as int)),
        decreases cs@.len() - i,
    {
        if is_bad_char(cs[i]) {
            out.push('\u{fffd}');
        } else {
            out.push(cs[i]);
        }
        i = i + 1;
        proof {
            assert(out@ =~= spec_filter_bad_chars(cs@.take(i as int)));
        }
    }
    proof {
        assert(cs@.take(cs@.len() as int) =~= cs@);
    }
    chars_string(&out)
}

/// The text with every two-character escape "/n" turned into a newline,
/// leftmost first, without rescanning the replacement.
pub open spec fn spec_unescape_newline(s: Seq<char>) -> Seq<char>
    decreases s.len(),
{
    if s.len() >= 2 && s[0] == '/' && s[1] == 'n' {
        seq!['\n'] + spec_unescape_newline(s.skip(2))
    } else if s.len() >= 1 {
        seq![s[0]] + spec_unescape_newline(s.skip(1))
    } else {
        Seq::<char>::empty()
    }
}

/// Turns the literal two-character sequence "/n" into a real newline.
pub fn unescape_newline(s: &str) -> (r: String)
    ensures
        r@ == spec_unescape_newline(s@),
{
    let cs = str_chars(s);
    let mut out: Vec<char> = Vec::new();
    let mut i: usize = 0;
    proof {
        assert(cs@.skip(0) =~= cs@);
        assert(out@ + spec_unescape_newline(cs@) =~= spec_unescape_newline(cs@));
    }
    while i < cs.len()
        invariant
            i <= cs@.len(),
            spec_unescape_newline(cs@) == out@ + spec_unescape_newline(cs@.skip(i as int)),
        decreases cs@.len() - i,
    {
        if i + 1 < cs.len() && cs[i] == '/' && cs[i + 1] == 'n' {
            proof {
                assert(cs@.skip(i as int).skip(2) =~= cs@.skip(i as int + 2));
            }
            out.push('\n');
            i = i + 2;
        } else {
            proof {
                assert(cs@.skip(i as int).skip(1) =~= cs@.skip(i as int + 1));
            }
            out.push(cs[i]);
            i = i + 1;
        }
    }
    proof {
        assert(cs@.skip(cs@.len() as int) =~= Seq::<char>::empty());
        assert(out@ =~= out@ + spec_unescape_newline(cs@.skip(cs@.len() as int)));
    }
    chars_string(&out)
}

/// The character count of the longest line of `s`.
pub open spec fn spec_calculate_length(s: Seq<char>) -> nat {
    spec_seq_max_len(spec_split_lines(s))
}

/// The number of lines of `s` (one more than the newline count).
pub open spec fn spec_line_count(s: Seq<char>) -> nat {
    spec_split_lines(s).len()
}

/// The character count of the longest line, a monospace width estimate.
pub fn calculate_length(s: &str) -> (r: usize)
    ensures
        r == spec_calculate_length(s@),
{
    let cs = str_chars(s);
    let mut done_max: usize = 0;
    let mut cur: usize = 0;
    let mut i: usize = 0;
    while i < cs.len()
        invariant
            i <= cs@.len(),
            cur <= i,
            done_max <= i,
            ({
                let lines = spec_split_lines(cs@.take(i as int));
                &&& lines.len() >= 1
                &&& cur == lines.last().len()
                &&& done_max == spec_seq_max_len(lines.drop_last())
            }),
        decreases cs@.len() - i,
    {
        proof {
            crate::text::lemma_split_lines_nonempty(cs@.take(i as int + 1));
            assert(cs@.take(i as int + 1).drop_last() =~= cs@.take(i as int));
        }
        if cs[i] == '\n' {
            if cur > done_max {
                done_max = cur;
            }
            cur = 0;
            proof {
                let prev = spec_split_lines(cs@.take(i as int));
                let next = spec_split_lines(cs@.take(i as int + 1));
                assert(next == prev.push(Seq::<char>::empty()));
                assert(next.drop_last() =~= prev);
            }
        } else {
            cur = cur + 1;
            proof {
                let prev = spec_split_lines(cs@.take(i as int));
                let next = spec_split_lines(cs@.take(i as int + 1));
                assert(next == prev.update(prev.len() - 1, prev.last().push(cs@[i as int])));
                assert(next.drop_last() =~= prev.drop_last());
                assert(next.last() == prev.last().push(cs@[i as int]));
            }
        }
        i = i + 1;
    }
    proof {
        assert(cs@.take(cs@.len() as int) =~= cs@);
    }
    if cur > done_max {
        cur
    } else {
        done_max
    }
}

/// The largest line count the readers ever use for a height estimate;
/// longer texts are clipped to it.
pub const LINE_COUNT_CAP: usize = 100000;

/// The number of lines of the text, clipped at `LINE_COUNT_CAP`.
pub fn line_count(s: &str) -> (r: usize)
    ensures
        r == if spec_line_count(s@) <= LINE_COUNT_CAP as nat {
            spec_line_count(s@)
        } else {
            LINE_COUNT_CAP as nat
        },
        1 <= r <= LINE_COUNT_CAP,
{
    let cs = str_chars(s);
    let mut count: usize = 1;
    let mut i: usize = 0;
    while i < cs.len()
        invariant
            i <= cs@.len(),
            1 <= count <= LINE_COUNT_CAP,
            count == if spec_split_lines(cs@.take(i as int)).len() <= LINE_COUNT_CAP as nat {
                spec_split_lines(cs@.take(i as int)).len()
            } else {
                LINE_COUNT_CAP as nat
            },
        decreases cs@.len() - i,
    {
        proof {
            crate::text::lemma_split_lines_nonempty(cs@.take(i as int));
            assert(cs@.take(i as int + 1).drop_last() =~= cs@.take(i as int));
        }
        if cs[i] == '\n' && count < LINE_COUNT_CAP {
            count = count + 1;
        }
        i = i + 1;
    }
    proof {
        assert(cs@.take(cs@.len() as int) =~= cs@);
    }
    count
}

} // verus!

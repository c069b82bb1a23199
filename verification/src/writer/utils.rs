//! Scalar formatting helpers: timestamps, text escaping, colors, and the
//! zoom factor mapping the reference player canvas onto the output stage.

use vstd::prelude::*;
use vstd::string::StringExecFns;
use crate::text::{
    chars_string, fmt_u64, fmt_u64_pad2, push_char, spec_dec, spec_dec2, spec_hex2, str_chars,
    fmt_hex2,
};

verus! {

// ------------------------------------------------------------------
// Timestamps
// ------------------------------------------------------------------
/// The timestamp `H:MM:SS.CC` for a playback time in milliseconds;
/// times at or below zero format as time zero. `CC` is hundredths of a
/// second, rounded half up from the milliseconds.
pub open spec fn spec_convert_timestamp(ms: int) -> Seq<char> {
    let cs = if ms <= 0 {
        0
    } else {
        (ms + 5) / 10
    };
    spec_dec((cs / 360000) as nat) + seq![':'] + spec_dec2(((cs % 360000) / 6000) as nat)
        + seq![':'] + spec_dec2(((cs % 6000) / 100) as nat) + seq!['.'] + spec_dec2(
        (cs % 100) as nat,
    )
}

/// Formats a playback time in milliseconds as `H:MM:SS.CC`.
pub fn convert_timestamp(ms: i64) -> (r: String)
    requires
        ms < 0x4000000000000000,
    ensures
        r@ == spec_convert_timestamp(ms as int),
{
    let cs: i64 = if ms <= 0 {
        0
    } else {
        (ms + 5) / 10
    };
    let cs: u64 = cs as u64;
    let hour: u64 = cs / 360000;
    let minute: u64 = (cs % 360000) / 6000;
    let second: u64 = (cs % 6000) / 100;
    let cent: u64 = cs % 100;
    let mut s = fmt_u64(hour);
    push_char(&mut s, ':');
    let m = fmt_u64_pad2(minute);
    s.append(m.as_str());
    push_char(&mut s, ':');
    let sec = fmt_u64_pad2(second);
    s.append(sec.as_str());
    push_char(&mut s, '.');
    let ce = fmt_u64_pad2(cent);
    s.append(ce.as_str());
    s
}

// ------------------------------------------------------------------
// Text escaping
// ------------------------------------------------------------------
/// The figure space used to preserve leading and trailing blanks.
pub const FIGURE_SPACE: char = '\u{2007}';

/// How one character is escaped for the markup: backslash and the two
/// brace characters get a leading backslash.
pub open spec fn spec_escape_char(c: char) -> Seq<char> {
    if c == '\\' {
        seq!['\\', '\\']
    } else if c == '{' {
        seq!['\\', '{']
    } else if c == '}' {
        seq!['\\', '}']
    } else {
        seq![c]
    }
}

/// The whole text with every character escaped.
pub open spec fn spec_escape_chars(s: Seq<char>) -> Seq<char>
    decreases s.len(),
{
    if s.len() == 0 {
        Seq::<char>::empty()
    } else {
        spec_escape_chars(s.drop_last()) + spec_escape_char(s.last())
    }
}

/// Count of leading ASCII spaces.
pub open spec fn spec_leading_spaces(s: Seq<char>) -> nat
    decreases s.len(),
{
    if s.len() > 0 && s[0] == ' ' {
        1 + spec_leading_spaces(s.skip(1))
    } else {
        0
    }
}

/// Count of trailing ASCII spaces.
pub open spec fn spec_trailing_spaces(s: Seq<char>) -> nat
    decreases s.len(),
{
    if s.len() > 0 && s.last() == ' ' {
        1 + spec_trailing_spaces(s.drop_last())
    } else {
        0
    }
}

/// `n` figure spaces.
pub open spec fn spec_repeat_figure(n: nat) -> Seq<char> {
    Seq::new(n, |i: int| FIGURE_SPACE)
}

/// One output line: leading and trailing spaces replaced by figure
/// spaces (a line of blanks only keeps one run for each side).
pub open spec fn spec_pad_line(l: Seq<char>) -> Seq<char> {
    let lead = spec_leading_spaces(l);
    let trail = spec_trailing_spaces(l);
    let core = if lead == l.len() {
        Seq::<char>::empty()
    } else {
        l.subrange(lead as int, l.len() - trail)
    };
    spec_repeat_figure(lead) + core + spec_repeat_figure(trail)
}

/// The padded lines joined with the explicit markup line break.
pub open spec fn spec_join_padded(ls: Seq<Seq<char>>) -> Seq<char>
    decreases ls.len(),
{
    if ls.len() == 0 {
        Seq::<char>::empty()
    } else if ls.len() == 1 {
        spec_pad_line(ls[0])
    } else {
        spec_join_padded(ls.drop_last()) + seq!['\\', 'N'] + spec_pad_line(ls.last())
    }
}

/// The markup escape of a comment body: backslash and braces escaped,
/// each line's edge blanks replaced by figure spaces, lines joined with
/// the explicit break sequence.
pub open spec fn spec_ass_escape(s: Seq<char>) -> Seq<char> {
    spec_join_padded(crate::text::spec_split_lines(spec_escape_chars(s)))
}

proof fn lemma_leading_spaces_le(s: Seq<char>)
    ensures
        spec_leading_spaces(s) <= s.len(),
    decreases s.len(),
{
    if s.len() > 0 && s[0] == ' ' {
        lemma_leading_spaces_le(s.skip(1));
    }
}

proof fn lemma_trailing_spaces_le(s: Seq<char>)
    ensures
        spec_trailing_spaces(s) <= s.len(),
    decreases s.len(),
{
    if s.len() > 0 && s.last() == ' ' {
        lemma_trailing_spaces_le(s.drop_last());
    }
}

proof fn lemma_leading_spaces_char(s: Seq<char>)
    requires
        spec_leading_spaces(s) < s.len(),
    ensures
        s[spec_leading_spaces(s) as int] != ' ',
    decreases s.len(),
{
    if s.len() > 0 && s[0] == ' ' {
        lemma_leading_spaces_char(s.skip(1));
    }
}

proof fn lemma_trailing_spaces_bound(s: Seq<char>, k: int)
    requires
        0 <= k < s.len(),
        s[k] != ' ',
    ensures
        spec_trailing_spaces(s) <= s.len() - 1 - k,
    decreases s.len(),
{
    if s.len() > 0 && s.last() == ' ' {
        lemma_trailing_spaces_bound(s.drop_last(), k);
    }
}

/// When a line is not all blanks, its leading and trailing runs do not
/// overlap.
proof fn lemma_lead_trail_fit(s: Seq<char>)
    requires
        spec_leading_spaces(s) < s.len(),
    ensures
        spec_leading_spaces(s) + spec_trailing_spaces(s) <= s.len(),
{
    lemma_leading_spaces_char(s);
    lemma_trailing_spaces_bound(s, spec_leading_spaces(s) as int);
}

fn count_leading_spaces(line: &Vec<char>) -> (r: usize)
    ensures
        r == spec_leading_spaces(line@),
{
    let n = line.len();
    let mut i: usize = 0;
    proof {
        assert(line@.skip(0) =~= line@);
    }
    while i < n && line[i] == ' '
        invariant
            i <= n,
            n == line@.len(),
            spec_leading_spaces(line@) == i + spec_leading_spaces(line@.skip(i as int)),
        decreases n - i,
    {
        proof {
            assert(line@.skip(i as int).skip(1) =~= line@.skip(i as int + 1));
        }
        i = i + 1;
    }
    i
}

fn count_trailing_spaces(line: &Vec<char>) -> (r: usize)
    ensures
        r == spec_trailing_spaces(line@),
{
    let n = line.len();
    let mut t: usize = 0;
    proof {
        assert(line@.take(n as int) =~= line@);
    }
    while t < n && line[n - 1 - t] == ' '
        invariant
            t <= n,
            n == line@.len(),
            spec_trailing_spaces(line@) == t + spec_trailing_spaces(line@.take(n - t as int)),
        decreases n - t,
    {
        proof {
            assert(line@.take(n - t as int).drop_last() =~= line@.take(n - (t as int + 1)));
            assert(line@.take(n - t as int).last() == line@[n - 1 - t as int]);
        }
        t = t + 1;
    }
    t
}

fn pad_line(line: &Vec<char>) -> (r: Vec<char>)
    ensures
        r@ == spec_pad_line(line@),
{
    let n = line.len();
    let lead = count_leading_spaces(line);
    let trail = count_trailing_spaces(line);
    proof {
        lemma_leading_spaces_le(line@);
        lemma_trailing_spaces_le(line@);
        if lead < n {
            lemma_lead_trail_fit(line@);
        }
    }
    let mut out: Vec<char> = Vec::new();
    let mut k: usize = 0;
    while k < lead
        invariant
            k <= lead,
            out@ == spec_repeat_figure(k as nat),
        decreases lead - k,
    {
        out.push(FIGURE_SPACE);
        k = k + 1;
        proof {
            assert(out@ =~= spec_repeat_figure(k as nat));
        }
    }
    if lead < n {
        let stop: usize = n - trail;
        let mut p: usize = lead;
        while p < stop
            invariant
                lead <= p <= stop,
                stop == n - trail,
                lead + trail <= n,
                n == line@.len(),
                lead == spec_leading_spaces(line@),
                trail == spec_trailing_spaces(line@),
                out@ == spec_repeat_figure(lead as nat) + line@.subrange(lead as int, p as int),
            decreases stop - p,
        {
            out.push(line[p]);
            p = p + 1;
            proof {
                assert(out@ =~= spec_repeat_figure(lead as nat) + line@.subrange(
                    lead as int,
                    p as int,
                ));
            }
        }
    }
    let mut k2: usize = 0;
    let ghost mid = out@;
    while k2 < trail
        invariant
            k2 <= trail,
            out@ == mid + spec_repeat_figure(k2 as nat),
        decreases trail - k2,
    {
        out.push(FIGURE_SPACE);
        k2 = k2 + 1;
        proof {
            assert(out@ =~= mid + spec_repeat_figure(k2 as nat));
        }
    }
    proof {
        if lead == n {
            assert(mid =~= spec_repeat_figure(lead as nat) + Seq::<char>::empty());
        }
        assert(out@ =~= spec_pad_line(line@));
    }
    out
}

/// Escapes a comment body for emission inside a markup event line.
pub fn ass_escape(text: &str) -> (r: String)
    ensures
        r@ == spec_ass_escape(text@),
{
    let cs = str_chars(text);
    // escape backslash and braces
    let mut esc: Vec<char> = Vec::new();
    let mut i: usize = 0;
    while i < cs.len()
        invariant
            i <= cs@.len(),
            esc@ == spec_escape_chars(cs@.take(i as int)),
        decreases cs@.len() - i,
    {
        let c = cs[i];
        if c == '\\' {
            esc.push('\\');
            esc.push('\\');
        } else if c == '{' {
            esc.push('\\');
            esc.push('{');
        } else if c == '}' {
            esc.push('\\');
            esc.push('}');
        } else {
            esc.push(c);
        }
        i = i + 1;
        proof {
            assert(cs@.take(i as int).drop_last() =~= cs@.take(i as int - 1));
            assert(esc@ =~= spec_escape_chars(cs@.take(i as int)));
        }
    }
    proof {
        assert(cs@.take(cs@.len() as int) =~= cs@);
    }
    // split the escaped text into lines
    let ghost escv = esc@;
    let mut lines: Vec<Vec<char>> = Vec::new();
    let mut cur: Vec<char> = Vec::new();
    let mut j: usize = 0;
    while j < esc.len()
        invariant
            j <= escv.len(),
            esc@ == escv,
            lines@.map_values(|v: Vec<char>| v@).push(cur@) == crate::text::spec_split_lines(
                escv.take(j as int),
            ),
        decreases escv.len() - j,
    {
        proof {
            assert(escv.take(j as int + 1).drop_last() =~= escv.take(j as int));
        }
        if esc[j] == '\n' {
            lines.push(cur);
            cur = Vec::new();
            proof {
                assert(lines@.map_values(|v: Vec<char>| v@).push(cur@) =~= crate::text::spec_split_lines(
                    escv.take(j as int + 1),
                ));
            }
        } else {
            let c = esc[j];
            let ghost prev = lines@.map_values(|v: Vec<char>| v@).push(cur@);
            cur.push(c);
            proof {
                let now = lines@.map_values(|v: Vec<char>| v@).push(cur@);
                assert(now =~= prev.update(prev.len() - 1, prev.last().push(c)));
            }
        }
        j = j + 1;
    }
    proof {
        assert(escv.take(escv.len() as int) =~= escv);
    }
    lines.push(cur);
    // pad each line and join with the explicit break
    let ghost lviews = lines@.map_values(|v: Vec<char>| v@);
    proof {
        assert(lviews =~= crate::text::spec_split_lines(escv));
        assert(lviews.len() >= 1);
    }
    let mut outv: Vec<char> = Vec::new();
    let mut k: usize = 0;
    while k < lines.len()
        invariant
            k <= lines@.len(),
            lines@.map_values(|v: Vec<char>| v@) == lviews,
            lviews.len() >= 1,
            outv@ == spec_join_padded(lviews.take(k as int)),
        decreases lines@.len() - k,
    {
        proof {
            assert(lviews.take(k as int + 1).drop_last() =~= lviews.take(k as int));
            assert(lviews.take(k as int + 1).last() == lviews[k as int]);
        }
        if k > 0 {
            outv.push('\\');
            outv.push('N');
        }
        let mut padded = pad_line(&lines[k]);
        let ghost before = outv@;
        let mut q: usize = 0;
        while q < padded.len()
            invariant
                q <= padded@.len(),
                outv@ == before + padded@.take(q as int),
            decreases padded@.len() - q,
        {
            outv.push(padded[q]);
            q = q + 1;
            proof {
                assert(outv@ =~= before + padded@.take(q as int));
            }
        }
        proof {
            assert(padded@.take(padded@.len() as int) =~= padded@);
            if k == 0 {
                assert(outv@ =~= spec_join_padded(lviews.take(1)));
            } else {
                assert(outv@ =~= spec_join_padded(lviews.take(k as int + 1)));
            }
        }
        k = k + 1;
    }
    proof {
        assert(lviews.take(lviews.len() as int) =~= lviews);
    }
    chars_string(&outv)
}

// ------------------------------------------------------------------
// Colors
// ------------------------------------------------------------------
// Fixed-point color-correction coefficients, scaled by 10^12
// (a BT.601-derived 3x3 matrix applied before the channel swap).
pub const COLOR_SCALE: i64 = 1000000000000;

pub const CB_R: i64 = 9563840881;

pub const CB_G: i64 = 32172545402;

pub const CB_B: i64 = 958263613717;

pub const CG_R: i64 = -104939331421;

pub const CG_G: i64 = 1172314781919;

pub const CG_B: i64 = -67375450498;

pub const CR_R: i64 = 913489123740;

pub const CR_G: i64 = 78585363725;

pub const CR_B: i64 = 7925512535;

/// A corrected channel: the fixed-point sum rounded half up and clamped
/// into a byte.
pub open spec fn spec_color_channel(x: int) -> nat {
    if x <= 0 {
        0
    } else {
        let v = (x + (COLOR_SCALE as int) / 2) / (COLOR_SCALE as int);
        if v > 255 {
            255
        } else {
            v as nat
        }
    }
}

/// The six hex digits emitted for a comment color: pure black and pure
/// white are fixed literals; otherwise the channels are swapped to BGR,
/// matrix-corrected first when the stage reaches the reference
/// resolution (1280 x 576).
pub open spec fn spec_convert_color(rgb: u32, width: Option<u32>, height: Option<u32>) -> Seq<
    char,
> {
    let w = match width {
        Option::Some(w) => w,
        Option::None => 1280,
    };
    let h = match height {
        Option::Some(h) => h,
        Option::None => 576,
    };
    if rgb == 0x000000 {
        seq!['0', '0', '0', '0', '0', '0']
    } else if rgb == 0xFFFFFF {
        seq!['F', 'F', 'F', 'F', 'F', 'F']
    } else {
        let r = (rgb / 65536) % 256;
        let g = (rgb / 256) % 256;
        let b = rgb % 256;
        if w < 1280 && h < 576 {
            spec_hex2(b as nat) + spec_hex2(g as nat) + spec_hex2(r as nat)
        } else {
            spec_hex2(spec_color_channel(r * CB_R + g * CB_G + b * CB_B)) + spec_hex2(
                spec_color_channel(r * CG_R + g * CG_G + b * CG_B),
            ) + spec_hex2(spec_color_channel(r * CR_R + g * CR_G + b * CR_B))
        }
    }
}

fn color_channel(x: i64) -> (r: u8)
    requires
        -1000000000000000 <= x <= 1000000000000000,
    ensures
        r as nat == spec_color_channel(x as int),
{
    if x <= 0 {
        0
    } else {
        let v: i64 = (x + COLOR_SCALE / 2) / COLOR_SCALE;
        if v > 255 {
            255
        } else {
            v as u8
        }
    }
}

/// Formats a 24-bit RGB color for the markup. `width` and `height`
/// default to the reference resolution when absent.
pub fn convert_color(rgb: u32, width: Option<u32>, height: Option<u32>) -> (res: String)
    ensures
        res@ == spec_convert_color(rgb, width, height),
{
    let w: u32 = match width {
        Option::Some(w) => w,
        Option::None => 1280,
    };
    let h: u32 = match height {
        Option::Some(h) => h,
        Option::None => 576,
    };
    if rgb == 0x000000 {
        let s = String::from_str("000000");
        proof {
            reveal_strlit("000000");
            assert(s@ =~= spec_convert_color(rgb, width, height));
        }
        s
    } else if rgb == 0xFFFFFF {
        let s = String::from_str("FFFFFF");
        proof {
            reveal_strlit("FFFFFF");
            assert(s@ =~= spec_convert_color(rgb, width, height));
        }
        s
    } else {
        let r: u32 = (rgb / 65536) % 256;
        let g: u32 = (rgb / 256) % 256;
        let b: u32 = rgb % 256;
        if w < 1280 && h < 576 {
            let mut s = fmt_hex2(b as u8);
            let s2 = fmt_hex2(g as u8);
            s.append(s2.as_str());
            let s3 = fmt_hex2(r as u8);
            s.append(s3.as_str());
            s
        } else {
            let ri: i64 = r as i64;
            let gi: i64 = g as i64;
            let bi: i64 = b as i64;
            let c1 = color_channel(ri * CB_R + gi * CB_G + bi * CB_B);
            let c2 = color_channel(ri * CG_R + gi * CG_G + bi * CG_B);
            let c3 = color_channel(ri * CR_R + gi * CR_G + bi * CR_B);
            let mut s = fmt_hex2(c1);
            let s2 = fmt_hex2(c2);
            s.append(s2.as_str());
            let s3 = fmt_hex2(c3);
            s.append(s3.as_str());
            s
        }
    }
}

// ------------------------------------------------------------------
// Zoom factor
// ------------------------------------------------------------------
/// The mapping of the reference player canvas onto the output stage:
/// a rational scale and a letterbox or pillarbox offset in centipixels.
#[derive(Debug, PartialEq, Eq, Structural, Clone, Copy)]
pub struct ZoomFactor {
    /// Numerator of the uniform scale factor.
    pub scale_num: u32,
    /// Denominator of the uniform scale factor.
    pub scale_den: u32,
    /// Horizontal (pillarbox) offset, in centipixels.
    pub offset_x_cp: u64,
    /// Vertical (letterbox) offset, in centipixels.
    pub offset_y_cp: u64,
}

/// Largest stage or canvas dimension the zoom computation accepts.
pub const MAX_STAGE_DIM: u32 = 65536;

impl ZoomFactor {
    pub open spec fn wf(self) -> bool {
        &&& 1 <= self.scale_num <= MAX_STAGE_DIM
        &&& 1 <= self.scale_den <= MAX_STAGE_DIM
        &&& self.offset_x_cp <= 0x10000000000
        &&& self.offset_y_cp <= 0x10000000000
    }
}

/// The zoom factor for mapping `source` onto `target`, preserving
/// aspect ratio: a narrower target scales by width and adds a vertical
/// letterbox offset, a wider one scales by height and adds a horizontal
/// offset, an equal aspect scales by width with no offset.
pub open spec fn spec_zoom_factor(source: (u32, u32), target: (u32, u32)) -> ZoomFactor {
    let sw = source.0;
    let sh = source.1;
    let tw = target.0;
    let th = target.1;
    if (tw as int) * (sh as int) < (sw as int) * (th as int) {
        ZoomFactor {
            scale_num: tw,
            scale_den: sw,
            offset_x_cp: 0,
            offset_y_cp: (((th as int) * (sw as int) - (tw as int) * (sh as int)) * 50 / (
            sw as int)) as u64,
        }
    } else if (tw as int) * (sh as int) > (sw as int) * (th as int) {
        ZoomFactor {
            scale_num: th,
            scale_den: sh,
            offset_x_cp: (((tw as int) * (sh as int) - (th as int) * (sw as int)) * 50 / (
            sh as int)) as u64,
            offset_y_cp: 0,
        }
    } else {
        ZoomFactor { scale_num: tw, scale_den: sw, offset_x_cp: 0, offset_y_cp: 0 }
    }
}

/// Computes the zoom factor. The result is a pure function of the two
/// sizes, so repeated calls with the same arguments return identical
/// values; the aspect-ratio comparison deterministically selects the
/// narrower, wider, or equal branch.
pub fn get_zoom_factor(source: (u32, u32), target: (u32, u32)) -> (r: ZoomFactor)
    requires
        1 <= source.0 <= MAX_STAGE_DIM,
        1 <= source.1 <= MAX_STAGE_DIM,
        1 <= target.0 <= MAX_STAGE_DIM,
        1 <= target.1 <= MAX_STAGE_DIM,
    ensures
        r == spec_zoom_factor(source, target),
        r.wf(),
{
    let sw: u64 = source.0 as u64;
    let sh: u64 = source.1 as u64;
    let tw: u64 = target.0 as u64;
    let th: u64 = target.1 as u64;
    proof {
        vstd::arithmetic::mul::lemma_mul_upper_bound(tw as int, 0x10000, sh as int, 0x10000);
        vstd::arithmetic::mul::lemma_mul_upper_bound(sw as int, 0x10000, th as int, 0x10000);
        vstd::arithmetic::mul::lemma_mul_upper_bound(th as int, 0x10000, sw as int, 0x10000);
        vstd::arithmetic::mul::lemma_mul_upper_bound(tw as int, 0x10000, sh as int, 0x10000);
        vstd::arithmetic::mul::lemma_mul_nonnegative(tw as int, sh as int);
        vstd::arithmetic::mul::lemma_mul_nonnegative(sw as int, th as int);
        vstd::arithmetic::mul::lemma_mul_nonnegative(th as int, sw as int);
    }
    if tw * sh < sw * th {
        let off: u64 = (th * sw - tw * sh) * 50 / sw;
        ZoomFactor { scale_num: target.0, scale_den: source.0, offset_x_cp: 0, offset_y_cp: off }
    } else if tw * sh > sw * th {
        let off: u64 = (tw * sh - th * sw) * 50 / sh;
        ZoomFactor { scale_num: target.1, scale_den: source.1, offset_x_cp: off, offset_y_cp: 0 }
    } else {
        ZoomFactor { scale_num: target.0, scale_den: source.0, offset_x_cp: 0, offset_y_cp: 0 }
    }
}

} // verus!

//! The binary reader: a wire-format decoder for the fixed message
//! schema — a reply holding a list of entries, each with numeric
//! mode/progress/color/fontsize/time fields and a text payload.

use vstd::prelude::*;
use vstd::arithmetic::power2::pow2;
use vstd::string::StringExecFns;
use crate::comment::{
    Comment, CommentData, CommentPosition, NormalCommentData, DIMENSION_CAP_CP,
};
use crate::error::{BiliassError, DecodeError};
use crate::filter::{should_skip_parse, spec_should_skip_parse, BlockOptions};
use crate::reader::special::{
    parse_special_comment, spec_fields_match, spec_json_array, spec_special_fields_g,
};
use crate::reader::utils::{
    calculate_length, filter_bad_chars, line_count, spec_calculate_length, spec_filter_bad_chars,
    spec_unescape_newline, unescape_newline,
};
use crate::text::{mul_clamp, spec_mul_clamp};
use crate::writer::utils::ZoomFactor;

verus! {

// ------------------------------------------------------------------
// Varints
// ------------------------------------------------------------------
/// The base-128 continuation decoding from position `i`, with `acc`
/// already collected below bit `shift`: `None` on a truncated,
/// over-long, or over-64-bit encoding.
pub open spec fn spec_varint_rec(s: Seq<u8>, i: int, shift: nat, acc: nat) -> Option<(nat, int)>
    decreases 70 - shift,
{
    if i >= s.len() || shift > 63 {
        Option::None
    } else {
        let b = s[i];
        let low = (b % 128) as nat;
        if b < 128 {
            if shift == 63 && low > 1 {
                Option::None
            } else {
                Option::Some((acc + low * pow2(shift), i + 1))
            }
        } else {
            if shift == 63 {
                Option::None
            } else {
                spec_varint_rec(s, i + 1, shift + 7, acc + low * pow2(shift))
            }
        }
    }
}

/// The value and end position of the varint at `i`.
pub open spec fn spec_varint(s: Seq<u8>, i: int) -> Option<(nat, int)> {
    spec_varint_rec(s, i, 0, 0)
}

proof fn lemma_varint_rec_bounds(s: Seq<u8>, i: int, shift: nat, acc: nat)
    requires
        0 <= i,
        acc < pow2(shift),
        shift <= 63,
        shift % 7 == 0,
    ensures
        match spec_varint_rec(s, i, shift, acc) {
            Option::Some(p) => p.0 < pow2(64) && i < p.1 <= s.len(),
            Option::None => true,
        },
    decreases 70 - shift,
{
    vstd::arithmetic::power2::lemma2_to64();
    vstd::arithmetic::power2::lemma2_to64_rest();
    vstd::arithmetic::power2::lemma_pow2_pos(shift);
    if i < s.len() && shift <= 63 {
        let b = s[i];
        let low = (b % 128) as nat;
        vstd::arithmetic::power2::lemma_pow2_adds(shift, 7);
        assert(acc + low * pow2(shift) < pow2(shift + 7)) by (nonlinear_arith)
            requires
                acc < pow2(shift),
                low <= 127,
                pow2(shift + 7) == pow2(shift) * 128,
                pow2(shift) >= 1,
        ;
        if b < 128 {
            if shift == 63 && low > 1 {
            } else if shift == 63 {
                assert(acc + low * pow2(shift) < pow2(64)) by (nonlinear_arith)
                    requires
                        shift == 63,
                        acc < pow2(63),
                        low <= 1,
                        pow2(64) == 2 * pow2(63),
                        pow2(63) >= 1,
                ;
            } else {
                assert(shift + 7 <= 63);
                if shift + 7 < 64 {
                    vstd::arithmetic::power2::lemma_pow2_strictly_increases(shift + 7, 64);
                }
            }
        } else {
            if shift < 63 {
                assert(shift + 7 <= 63);
                lemma_varint_rec_bounds(s, i + 1, shift + 7, acc + low * pow2(shift));
            }
        }
    }
}

/// Decodes the varint at `i`.
#[verifier::loop_isolation(false)]
pub fn decode_varint(s: &Vec<u8>, start: usize) -> (r: Option<(u64, usize)>)
    requires
        start <= s@.len(),
    ensures
        match spec_varint(s@, start as int) {
            Option::Some(p) => r matches Some(q) && q.0 as nat == p.0 && q.1 as int == p.1
                && start < q.1 <= s@.len(),
            Option::None => r is None,
        },
{
    proof {
        vstd::arithmetic::power2::lemma2_to64();
        vstd::arithmetic::power2::lemma2_to64_rest();
        lemma_varint_rec_bounds(s@, start as int, 0, 0);
    }
    let mut i: usize = start;
    let mut shift: u32 = 0;
    let mut acc: u64 = 0;
    let mut mult: u64 = 1;
    while i < s.len() && shift <= 63
        invariant
            start <= i <= s@.len(),
            shift <= 70,
            shift % 7 == 0,
            mult as nat == pow2(shift as nat),
            acc < mult,
            spec_varint(s@, start as int) == spec_varint_rec(
                s@,
                i as int,
                shift as nat,
                acc as nat,
            ),
        decreases s@.len() - i,
    {
        let b = s[i];
        let low: u64 = (b % 128) as u64;
        proof {
            vstd::arithmetic::power2::lemma_pow2_adds(shift as nat, 7);
            assert((acc + low * mult) < mult * 128) by (nonlinear_arith)
                requires
                    acc < mult,
                    low <= 127,
            ;
            assert(mult as nat * 128 == pow2(shift as nat + 7));
            if shift == 63 {
                assert(mult as nat == pow2(63));
            } else {
                assert(shift as nat + 7 <= 63 + 7);
                vstd::arithmetic::power2::lemma_pow2_strictly_increases(
                    shift as nat + 7,
                    71,
                );
            }
        }
        if b < 128 {
            if shift == 63 && low > 1 {
                return None;
            }
            proof {
                if shift == 63 {
                    assert(acc + low * mult < 0x10000000000000000) by (nonlinear_arith)
                        requires
                            acc < mult,
                            low <= 1,
                            mult == 0x8000000000000000,
                    ;
                } else {
                    assert(pow2(shift as nat + 7) <= pow2(64)) by {
                        if shift as nat + 7 < 64 {
                            vstd::arithmetic::power2::lemma_pow2_strictly_increases(
                                shift as nat + 7,
                                64,
                            );
                        }
                    }
                }
            }
            let value: u64 = acc + low * mult;
            return Some((value, i + 1));
        }
        if shift == 63 {
            return None;
        }
        proof {
            assert(pow2(shift as nat + 7) <= pow2(63)) by {
                if shift as nat + 7 < 63 {
                    vstd::arithmetic::power2::lemma_pow2_strictly_increases(
                        shift as nat + 7,
                        63,
                    );
                }
            }
        }
        acc = acc + low * mult;
        mult = mult * 128;
        shift = shift + 7;
        i = i + 1;
    }
    None
}

// ------------------------------------------------------------------
// Text payloads
// ------------------------------------------------------------------
/// Relies on core::str::from_utf8: `Ok` exactly for valid UTF-8, and
/// the resulting text is the decoded scalar sequence of those bytes.
#[verifier::external_body]
fn bytes_to_string(v: &Vec<u8>) -> (r: Option<String>)
    ensures
        (r is Some) <==> vstd::utf8::valid_utf8(v@),
        r matches Some(s) ==> s@ == vstd::utf8::decode_utf8(v@),
{
    match core::str::from_utf8(v.as_slice()) {
        Ok(s) => Some(s.to_owned()),
        Err(_) => None,
    }
}

fn byte_slice(s: &Vec<u8>, i: usize, j: usize) -> (r: Vec<u8>)
    requires
        i <= j <= s@.len(),
    ensures
        r@ == s@.subrange(i as int, j as int),
{
    let mut out: Vec<u8> = Vec::new();
    let mut k: usize = i;
    while k < j
        invariant
            i <= k <= j <= s@.len(),
            out@ == s@.subrange(i as int, k as int),
        decreases j - k,
    {
        out.push(s[k]);
        k = k + 1;
        proof {
            assert(out@ =~= s@.subrange(i as int, k as int));
        }
    }
    out
}

// ------------------------------------------------------------------
// Entries
// ------------------------------------------------------------------
/// One decoded entry of the reply: the fields the conversion reads,
/// with schema defaults when absent.
pub struct DanmakuElem {
    /// Appearance time, in milliseconds (a 32-bit field).
    pub progress: i32,
    /// Display mode (the type code).
    pub mode: i32,
    /// Raw font size.
    pub fontsize: i32,
    /// Color as 0xRRGGBB.
    pub color: u32,
    /// Text payload.
    pub content: String,
    /// Submission time, UNIX seconds (a 64-bit field).
    pub ctime: i64,
}

/// One entry of the reply, as mathematics.
pub ghost struct ElemSpec {
    pub progress: i32,
    pub mode: i32,
    pub fontsize: i32,
    pub color: u32,
    pub content: Seq<char>,
    pub ctime: i64,
}

/// The mathematical content of a decoded entry.
pub open spec fn elem_view(e: DanmakuElem) -> ElemSpec {
    ElemSpec {
        progress: e.progress,
        mode: e.mode,
        fontsize: e.fontsize,
        color: e.color,
        content: e.content@,
        ctime: e.ctime,
    }
}

/// The end of one skipped field payload of the given wire type.
pub open spec fn spec_skip_field(s: Seq<u8>, i: int, wire: int) -> Option<int> {
    if wire == 0 {
        match spec_varint(s, i) {
            Option::Some(p) => Option::Some(p.1),
            Option::None => Option::None,
        }
    } else if wire == 1 {
        if s.len() - i >= 8 {
            Option::Some(i + 8)
        } else {
            Option::None
        }
    } else if wire == 5 {
        if s.len() - i >= 4 {
            Option::Some(i + 4)
        } else {
            Option::None
        }
    } else if wire == 2 {
        match spec_varint(s, i) {
            Option::Some(p) => if p.0 <= s.len() - p.1 {
                Option::Some(p.1 + p.0)
            } else {
                Option::None
            },
            Option::None => Option::None,
        }
    } else {
        Option::None
    }
}

/// The field fold of one entry's payload between `i` and `stop`, with
/// the fields collected so far in `acc`: later occurrences overwrite,
/// unknown fields are skipped, and an undecodable field or invalid
/// text is an error.
pub open spec fn spec_elem_scan(s: Seq<u8>, i: int, stop: int, acc: ElemSpec) -> Option<
    ElemSpec,
>
    decreases stop - i,
{
    if i >= stop {
        Option::Some(acc)
    } else {
        match spec_varint(s, i) {
            Option::None => Option::None,
            Option::Some(tagp) => {
                let tag = tagp.0;
                let j = tagp.1;
                let field = tag / 8;
                let wire = tag % 8;
                if j > stop {
                    Option::None
                } else if wire == 0 {
                    match spec_varint(s, j) {
                        Option::None => Option::None,
                        Option::Some(vp) => {
                            let v = vp.0;
                            let j2 = vp.1;
                            if j2 > stop || j2 <= i {
                                Option::None
                            } else {
                                let acc2 = if field == 2 {
                                    ElemSpec { progress: ((v as u64) as u32) as i32, ..acc }
                                } else if field == 3 {
                                    ElemSpec { mode: ((v as u64) as u32) as i32, ..acc }
                                } else if field == 4 {
                                    ElemSpec { fontsize: ((v as u64) as u32) as i32, ..acc }
                                } else if field == 5 {
                                    ElemSpec { color: (v as u64) as u32, ..acc }
                                } else if field == 8 {
                                    ElemSpec { ctime: (v as u64) as i64, ..acc }
                                } else {
                                    acc
                                };
                                spec_elem_scan(s, j2, stop, acc2)
                            }
                        },
                    }
                } else if wire == 2 {
                    match spec_varint(s, j) {
                        Option::None => Option::None,
                        Option::Some(lp) => {
                            let len = lp.0;
                            let j2 = lp.1;
                            if j2 > stop || len > stop - j2 || j2 + len <= i {
                                Option::None
                            } else {
                                let end = j2 + len;
                                if field == 7 {
                                    if !vstd::utf8::valid_utf8(s.subrange(j2 as int, end)) {
                                        Option::None
                                    } else {
                                        spec_elem_scan(
                                            s,
                                            end,
                                            stop,
                                            ElemSpec {
                                                content: vstd::utf8::decode_utf8(
                                                    s.subrange(j2 as int, end),
                                                ),
                                                ..acc
                                            },
                                        )
                                    }
                                } else {
                                    spec_elem_scan(s, end, stop, acc)
                                }
                            }
                        },
                    }
                } else {
                    match spec_skip_field(s, j, wire as int) {
                        Option::Some(j2) => if j2 > stop || j2 <= i {
                            Option::None
                        } else {
                            spec_elem_scan(s, j2, stop, acc)
                        },
                        Option::None => Option::None,
                    }
                }
            },
        }
    }
}

/// An entry with every field at its schema default.
pub open spec fn spec_elem_init() -> ElemSpec {
    ElemSpec { progress: 0, mode: 0, fontsize: 0, color: 0, content: Seq::<char>::empty(), ctime: 0 }
}

/// The reply fold from `i`: the decoded entries of the list field, in
/// order, with everything else skipped; an undecodable buffer is an
/// error.
pub open spec fn spec_reply_scan(s: Seq<u8>, i: int, acc: Seq<ElemSpec>) -> Option<Seq<ElemSpec>>
    decreases s.len() - i,
{
    if i >= s.len() {
        Option::Some(acc)
    } else {
        match spec_varint(s, i) {
            Option::None => Option::None,
            Option::Some(tagp) => {
                let tag = tagp.0;
                let j = tagp.1;
                let field = tag / 8;
                let wire = tag % 8;
                if field == 1 && wire == 2 {
                    match spec_varint(s, j) {
                        Option::None => Option::None,
                        Option::Some(lp) => {
                            let len = lp.0;
                            let j2 = lp.1;
                            if j2 > s.len() || len > s.len() - j2 || acc.len()
                                >= 0xffffffffffffffff || j2 + len <= i {
                                Option::None
                            } else {
                                let end = j2 + len;
                                match spec_elem_scan(s, j2, end, spec_elem_init()) {
                                    Option::None => Option::None,
                                    Option::Some(g) => spec_reply_scan(s, end, acc.push(g)),
                                }
                            }
                        },
                    }
                } else {
                    match spec_skip_field(s, j, wire as int) {
                        Option::Some(j2) => if j2 <= i || j2 > s.len() {
                            Option::None
                        } else {
                            spec_reply_scan(s, j2, acc)
                        },
                        Option::None => Option::None,
                    }
                }
            },
        }
    }
}

/// Whether an entry yields a comment: a recognised, unblocked mode,
/// and for a scripted entry a payload that decodes.
pub open spec fn spec_entry_yields(
    e: ElemSpec,
    zoom: crate::writer::utils::ZoomFactor,
    opts: &BlockOptions,
) -> bool {
    match spec_elem_position(e.mode) {
        Option::None => false,
        Option::Some(pos) => !spec_should_skip_parse(pos, opts) && (pos
            != CommentPosition::Special || (match spec_json_array(
            spec_filter_bad_chars(e.content),
        ) {
            Option::Some(gs) => spec_special_fields_g(gs, zoom) is Some,
            Option::None => false,
        })),
    }
}

/// The comments are exactly the conversions of the yielding entries,
/// in order, each under its entry index.
pub open spec fn spec_reply_matches(
    cs: Seq<Comment>,
    entries: Seq<ElemSpec>,
    fontsize: u32,
    zoom: crate::writer::utils::ZoomFactor,
    opts: &BlockOptions,
) -> bool
    decreases entries.len(),
{
    if entries.len() == 0 {
        cs.len() == 0
    } else {
        let e = entries.last();
        let idx = entries.len() - 1;
        if spec_entry_yields(e, zoom, opts) {
            &&& cs.len() >= 1
            &&& spec_comment_from_entry(cs.last(), e, fontsize, zoom, opts, idx as u64)
            &&& spec_reply_matches(cs.drop_last(), entries.drop_last(), fontsize, zoom, opts)
        } else {
            spec_reply_matches(cs, entries.drop_last(), fontsize, zoom, opts)
        }
    }
}

/// Skips the payload of one field, given its wire type.
#[verifier::loop_isolation(false)]
fn skip_field(s: &Vec<u8>, start: usize, wire: u64) -> (r: Option<usize>)
    requires
        start <= s@.len(),
    ensures
        r matches Some(j) ==> start <= j <= s@.len(),
        match spec_skip_field(s@, start as int, wire as int) {
            Option::Some(j) => r matches Some(q) && q as int == j,
            Option::None => r is None,
        },
{
    if wire == 0 {
        match decode_varint(s, start) {
            Some((_, j)) => Some(j),
            None => None,
        }
    } else if wire == 1 {
        if s.len() - start >= 8 {
            Some(start + 8)
        } else {
            None
        }
    } else if wire == 5 {
        if s.len() - start >= 4 {
            Some(start + 4)
        } else {
            None
        }
    } else if wire == 2 {
        match decode_varint(s, start) {
            Some((len, j)) => {
                if len <= (s.len() - j) as u64 {
                    Some(j + len as usize)
                } else {
                    None
                }
            },
            None => None,
        }
    } else {
        None
    }
}

/// Decodes one entry from its length-delimited payload; unknown fields
/// are skipped, numeric fields take the truncated wire value.
#[verifier::loop_isolation(false)]
fn decode_elem(s: &Vec<u8>, start: usize, stop: usize) -> (r: Option<DanmakuElem>)
    requires
        start <= stop <= s@.len(),
    ensures
        match spec_elem_scan(s@, start as int, stop as int, spec_elem_init()) {
            Option::Some(g) => r matches Some(e) && elem_view(e) == g,
            Option::None => r is None,
        },
{
    let mut progress: i32 = 0;
    let mut mode: i32 = 0;
    let mut fontsize: i32 = 0;
    let mut color: u32 = 0;
    let mut content = String::new();
    let mut ctime: i64 = 0;
    let mut i: usize = start;
    proof {
        assert(content@ =~= Seq::<char>::empty());
    }
    while i < stop
        invariant
            start <= i <= stop <= s@.len(),
            spec_elem_scan(s@, start as int, stop as int, spec_elem_init()) == spec_elem_scan(
                s@,
                i as int,
                stop as int,
                ElemSpec {
                    progress: progress,
                    mode: mode,
                    fontsize: fontsize,
                    color: color,
                    content: content@,
                    ctime: ctime,
                },
            ),
        decreases stop - i,
    {
        let (tag, j) = match decode_varint(s, i) {
            Some(p) => p,
            None => {
                return None;
            },
        };
        if j > stop {
            return None;
        }
        let field = tag / 8;
        let wire = tag % 8;
        if wire == 0 {
            let (v, j2) = match decode_varint(s, j) {
                Some(p) => p,
                None => {
                    return None;
                },
            };
            if j2 > stop {
                return None;
            }
            if field == 2 {
                progress = (v as u32) as i32;
            } else if field == 3 {
                mode = (v as u32) as i32;
            } else if field == 4 {
                fontsize = (v as u32) as i32;
            } else if field == 5 {
                color = v as u32;
            } else if field == 8 {
                ctime = v as i64;
            }
            i = j2;
        } else if wire == 2 {
            let (len, j2) = match decode_varint(s, j) {
                Some(p) => p,
                None => {
                    return None;
                },
            };
            if j2 > stop || len > (stop - j2) as u64 {
                return None;
            }
            let end = j2 + len as usize;
            if field == 7 {
                let bytes = byte_slice(s, j2, end);
                content = match bytes_to_string(&bytes) {
                    Some(t) => t,
                    None => {
                        return None;
                    },
                };
            }
            i = end;
        } else {
            let j2 = match skip_field(s, j, wire) {
                Some(j2) => j2,
                None => {
                    return None;
                },
            };
            if j2 > stop || j2 <= i {
                return None;
            }
            i = j2;
        }
    }
    Some(DanmakuElem { progress, mode, fontsize, color, content, ctime })
}

/// The numeric core of an entry conversion, mirrored by
/// `elem_to_comment`: a recognised mode yields the position, the meta
/// mode and unknown modes drop the entry, a blocked position drops it
/// too.
pub open spec fn spec_elem_position(mode: i32) -> Option<CommentPosition> {
    if mode == 1 {
        Option::Some(CommentPosition::Scroll)
    } else if mode == 4 {
        Option::Some(CommentPosition::Top)
    } else if mode == 5 {
        Option::Some(CommentPosition::Bottom)
    } else if mode == 6 {
        Option::Some(CommentPosition::Reversed)
    } else if mode == 7 {
        Option::Some(CommentPosition::Special)
    } else {
        Option::None
    }
}

/// Whether `c` is the faithful conversion of the decoded entry `e`
/// under the entry index `idx`.
pub open spec fn spec_comment_from_entry(
    c: Comment,
    e: ElemSpec,
    fontsize: u32,
    zoom: crate::writer::utils::ZoomFactor,
    opts: &BlockOptions,
    idx: u64,
) -> bool {
    match spec_elem_position(e.mode) {
        Option::Some(pos) => {
            &&& !spec_should_skip_parse(pos, opts)
            &&& c.wf()
            &&& c.timeline_ms == e.progress as int
            &&& c.timestamp == e.ctime as u64
            &&& c.no == idx
            &&& c.pos == pos
            &&& c.color == e.color
            &&& c.size_cp == crate::reader::xml::spec_size_cp(e.fontsize as int, fontsize)
            &&& (pos != CommentPosition::Special ==> {
                &&& c.content@ == spec_unescape_newline(spec_filter_bad_chars(e.content))
                &&& c.data == CommentData::Normal(
                    NormalCommentData {
                        height_cp: spec_mul_clamp(
                            crate::reader::xml::spec_clipped_lines(
                                spec_unescape_newline(spec_filter_bad_chars(e.content)),
                            ),
                            crate::reader::xml::spec_size_cp(e.fontsize as int, fontsize),
                            DIMENSION_CAP_CP as nat,
                        ) as u64,
                        width_cp: spec_mul_clamp(
                            spec_calculate_length(
                                spec_unescape_newline(spec_filter_bad_chars(e.content)),
                            ),
                            crate::reader::xml::spec_size_cp(e.fontsize as int, fontsize),
                            DIMENSION_CAP_CP as nat,
                        ) as u64,
                    },
                )
            })
            &&& (pos == CommentPosition::Special ==> (match spec_json_array(
                spec_filter_bad_chars(e.content),
            ) {
                Option::Some(gs) => match spec_special_fields_g(gs, zoom) {
                    Option::Some(f) => (c.data matches CommentData::Special(d)
                        && spec_fields_match(c.content@, d, f)),
                    Option::None => false,
                },
                Option::None => false,
            }))
        },
        Option::None => false,
    }
}

/// Converts one decoded entry into a comment. The entry is dropped
/// (`None`) when its mode is the meta mode or unknown, when its
/// position is blocked, or when a scripted payload is malformed. A
/// produced regular comment carries the sanitised, unescaped body and
/// the estimated dimensions from the resolved font size.
pub fn elem_to_comment(
    elem: &DanmakuElem,
    index: u64,
    fontsize: u32,
    zoom_factor: &ZoomFactor,
    block_options: &BlockOptions,
) -> (r: Option<Comment>)
    requires
        1 <= fontsize <= crate::writer::ass::FONT_SIZE_CAP,
        zoom_factor.wf(),
    ensures
        r matches Some(c) ==> spec_comment_from_entry(
            c,
            elem_view(*elem),
            fontsize,
            *zoom_factor,
            block_options,
            index,
        ),
        (r is Some) <==> spec_entry_yields(elem_view(*elem), *zoom_factor, block_options),
        match spec_elem_position(elem.mode) {
            Option::None => r is None,
            Option::Some(pos) => {
                &&& (spec_should_skip_parse(pos, block_options) ==> r is None)
                &&& (r matches Some(c) ==> {
                    &&& c.wf()
                    &&& c.size_cp == crate::reader::xml::spec_size_cp(
                        elem.fontsize as int,
                        fontsize,
                    )
                    &&& c.timeline_ms == elem.progress as int
                    &&& c.timestamp == elem.ctime as u64
                    &&& c.no == index
                    &&& c.pos == pos
                    &&& c.color == elem.color
                    &&& (pos != CommentPosition::Special ==> {
                        &&& c.content@ == spec_unescape_newline(
                            spec_filter_bad_chars(elem.content@),
                        )
                        &&& c.size_cp == crate::reader::xml::spec_size_cp(
                            elem.fontsize as int,
                            fontsize,
                        )
                        &&& c.data == CommentData::Normal(
                            NormalCommentData {
                                height_cp: spec_mul_clamp(
                                    crate::reader::xml::spec_clipped_lines(
                                        spec_unescape_newline(
                                            spec_filter_bad_chars(elem.content@),
                                        ),
                                    ),
                                    crate::reader::xml::spec_size_cp(
                                        elem.fontsize as int,
                                        fontsize,
                                    ),
                                    DIMENSION_CAP_CP as nat,
                                ) as u64,
                                width_cp: spec_mul_clamp(
                                    spec_calculate_length(
                                        spec_unescape_newline(
                                            spec_filter_bad_chars(elem.content@),
                                        ),
                                    ),
                                    crate::reader::xml::spec_size_cp(
                                        elem.fontsize as int,
                                        fontsize,
                                    ),
                                    DIMENSION_CAP_CP as nat,
                                ) as u64,
                            },
                        )
                    })
                    &&& (pos == CommentPosition::Special ==> c.data is Special)
                })
                &&& (!spec_should_skip_parse(pos, block_options) && pos
                    != CommentPosition::Special ==> r is Some)
                &&& (!spec_should_skip_parse(pos, block_options) && pos
                    == CommentPosition::Special ==> (r is Some <==> (match spec_json_array(
                    spec_filter_bad_chars(elem.content@),
                ) {
                    Option::Some(gs) => spec_special_fields_g(gs, *zoom_factor) is Some,
                    Option::None => false,
                })))
            },
        },
{
    let pos = if elem.mode == 1 {
        CommentPosition::Scroll
    } else if elem.mode == 4 {
        CommentPosition::Top
    } else if elem.mode == 5 {
        CommentPosition::Bottom
    } else if elem.mode == 6 {
        CommentPosition::Reversed
    } else if elem.mode == 7 {
        CommentPosition::Special
    } else {
        return None;
    };
    if should_skip_parse(&pos, block_options) {
        return None;
    }
    let timeline_ms: i64 = elem.progress as i64;
    let timestamp: u64 = elem.ctime as u64;
    let raw_nonneg: u64 = if elem.fontsize < 0 {
        0
    } else {
        elem.fontsize as u64
    };
    let size_cp = mul_clamp(raw_nonneg, (fontsize * 4) as u64, DIMENSION_CAP_CP);
    if matches!(pos, CommentPosition::Special) {
        let filtered = filter_bad_chars(elem.content.as_str());
        match parse_special_comment(filtered.as_str(), zoom_factor) {
            Ok((text, data)) => Some(
                Comment {
                    timeline_ms,
                    timestamp,
                    no: index,
                    content: text,
                    pos: CommentPosition::Special,
                    color: elem.color,
                    size_cp,
                    data: CommentData::Special(data),
                },
            ),
            Err(_) => None,
        }
    } else {
        let filtered = filter_bad_chars(elem.content.as_str());
        let content2 = unescape_newline(filtered.as_str());
        let lines = line_count(content2.as_str());
        let maxlen = calculate_length(content2.as_str());
        let height_cp = mul_clamp(lines as u64, size_cp, DIMENSION_CAP_CP);
        let width_cp = mul_clamp(maxlen as u64, size_cp, DIMENSION_CAP_CP);
        Some(
            Comment {
                timeline_ms,
                timestamp,
                no: index,
                content: content2,
                pos,
                color: elem.color,
                size_cp,
                data: CommentData::Normal(NormalCommentData { height_cp, width_cp }),
            },
        )
    }
}

/// Decodes a whole reply: the comments are exactly the conversions of
/// the yielding entries of the buffer's list field, in order, each
/// under its entry index; an undecodable envelope is fatal to the
/// whole input.
#[verifier::loop_isolation(false)]
pub fn read_comments_from_protobuf(
    data: &Vec<u8>,
    fontsize: u32,
    zoom_factor: &ZoomFactor,
    block_options: &BlockOptions,
) -> (r: Result<Vec<Comment>, BiliassError>)
    requires
        1 <= fontsize <= crate::writer::ass::FONT_SIZE_CAP,
        zoom_factor.wf(),
    ensures
        match spec_reply_scan(data@, 0, Seq::<ElemSpec>::empty()) {
            Option::Some(entries) => r matches Ok(cs) && spec_reply_matches(
                cs@,
                entries,
                fontsize,
                *zoom_factor,
                block_options,
            ),
            Option::None => r is Err,
        },
        r matches Ok(cs) ==> forall|k: int| 0 <= k < cs@.len() ==> (#[trigger] cs@[k]).wf(),
        r matches Ok(cs) ==> forall|j: int, k: int|
            0 <= j < k < cs@.len() ==> (#[trigger] cs@[j]).no < (#[trigger] cs@[k]).no,
{
    let n = data.len();
    let mut comments: Vec<Comment> = Vec::new();
    let ghost mut acc_g: Seq<ElemSpec> = Seq::<ElemSpec>::empty();
    let mut index: u64 = 0;
    let mut i: usize = 0;
    while i < n
        invariant
            i <= n,
            n == data@.len(),
            index == acc_g.len(),
            spec_reply_scan(data@, 0, Seq::<ElemSpec>::empty()) == spec_reply_scan(
                data@,
                i as int,
                acc_g,
            ),
            spec_reply_matches(comments@, acc_g, fontsize, *zoom_factor, block_options),
            forall|k: int| 0 <= k < comments@.len() ==> (#[trigger] comments@[k]).wf(),
            forall|k: int| 0 <= k < comments@.len() ==> (#[trigger] comments@[k]).no < index,
            forall|j: int, k: int|
                0 <= j < k < comments@.len() ==> (#[trigger] comments@[j]).no < (
                #[trigger] comments@[k]).no,
        decreases n - i,
    {
        let (tag, j) = match decode_varint(data, i) {
            Some(p) => p,
            None => {
                return Err(
                    BiliassError::DecodeError(
                        DecodeError::Protobuf(String::from_str("invalid varint")),
                    ),
                );
            },
        };
        let field = tag / 8;
        let wire = tag % 8;
        if field == 1 && wire == 2 {
            let (len, j2) = match decode_varint(data, j) {
                Some(p) => p,
                None => {
                    return Err(
                        BiliassError::DecodeError(
                            DecodeError::Protobuf(String::from_str("invalid varint")),
                        ),
                    );
                },
            };
            if len > (n - j2) as u64 {
                return Err(
                    BiliassError::DecodeError(
                        DecodeError::Protobuf(String::from_str("buffer underflow")),
                    ),
                );
            }
            if index == 0xffffffffffffffff {
                return Err(
                    BiliassError::DecodeError(
                        DecodeError::Protobuf(String::from_str("too many entries")),
                    ),
                );
            }
            let end = j2 + len as usize;
            let elem = match decode_elem(data, j2, end) {
                Some(e) => e,
                None => {
                    return Err(
                        BiliassError::DecodeError(
                            DecodeError::Protobuf(String::from_str("invalid entry")),
                        ),
                    );
                },
            };
            let ghost g = spec_elem_scan(data@, j2 as int, end as int, spec_elem_init())->0;
            proof {
                assert(elem_view(elem) == g);
            }
            let ghost old_comments = comments@;
            match elem_to_comment(&elem, index, fontsize, zoom_factor, block_options) {
                Some(c) => {
                    proof {
                        assert(spec_comment_from_entry(
                            c,
                            g,
                            fontsize,
                            *zoom_factor,
                            block_options,
                            index,
                        ));
                    }
                    comments.push(c);
                },
                None => {},
            }
            proof {
                let old_acc = acc_g;
                acc_g = acc_g.push(g);
                assert(acc_g.last() == g);
                assert(acc_g.drop_last() =~= old_acc);
                assert(spec_reply_matches(
                    comments@,
                    acc_g,
                    fontsize,
                    *zoom_factor,
                    block_options,
                )) by {
                    if spec_entry_yields(g, *zoom_factor, block_options) {
                        assert(comments@.drop_last() =~= old_comments);
                        assert(comments@.last() == comments@[comments@.len() - 1]);
                    }
                }
            }
            index = index + 1;
            i = end;
        } else {
            let j2 = match skip_field(data, j, wire) {
                Some(j2) => j2,
                None => {
                    return Err(
                        BiliassError::DecodeError(
                            DecodeError::Protobuf(String::from_str("invalid field")),
                        ),
                    );
                },
            };
            if j2 <= i {
                return Err(
                    BiliassError::DecodeError(
                        DecodeError::Protobuf(String::from_str("invalid field")),
                    ),
                );
            }
            i = j2;
        }
    }
    Ok(comments)
}

} // verus!

//! The markup writer: the fixed header, one event line per placed
//! regular comment, and the expansion of scripted animations.

use vstd::prelude::*;
use vstd::string::StringExecFns;
use crate::comment::{Comment, CommentPosition};
use crate::text::{fmt_hex2, fmt_i64, fmt_u64, spec_dec, spec_dec_signed, spec_hex2};
use crate::writer::rows::{
    Rows, rows_view, spec_alternative_bound, spec_blocks, spec_find_alternative_row,
    spec_free_rows_from, spec_is_moving, spec_layout_args_wf, spec_mark_rows, spec_needed_rows,
    spec_test_free_rows, DURATION_CAP_MS,
};
use crate::writer::utils::{
    ass_escape, convert_color, convert_timestamp, spec_ass_escape, spec_convert_color,
    spec_convert_timestamp, ZoomFactor,
};

verus! {

/// Largest accepted configured font size, in pixels.
pub const FONT_SIZE_CAP: u32 = 10000;

/// Largest accepted opacity, in per-mille.
pub const OPACITY_CAP_PM: u32 = 1000;

/// The outline width emitted in the style: the font size divided by 25,
/// rounded half up, and at least one pixel.
pub open spec fn spec_outline(fontsize: u32) -> int {
    let o = (2 * fontsize + 25) / 50;
    if o >= 1 {
        o
    } else {
        1
    }
}

/// The alpha byte of the style: 255 minus the opacity (given in
/// per-mille) scaled to a byte, rounded half up.
pub open spec fn spec_head_alpha(alpha_promille: u32) -> int {
    255 - (alpha_promille * 255 + 500) / 1000
}

/// The header: script metadata and the single reusable style.
#[verifier::opaque]
pub open spec fn spec_write_head(
    width: u32,
    height: u32,
    fontface: Seq<char>,
    fontsize: u32,
    alpha_promille: u32,
    styleid: Seq<char>,
) -> Seq<char> {
    let alpha2 = spec_hex2(spec_head_alpha(alpha_promille) as nat);
    "[Script Info]\n; Script generated by biliass\nScript Updated By: biliass\nScriptType: v4.00+\nPlayResX: "@
        + spec_dec(width as nat) + "\nPlayResY: "@ + spec_dec(height as nat)
        + "\nAspect Ratio: "@ + spec_dec(width as nat) + ":"@ + spec_dec(height as nat)
        + "\nCollisions: Normal\nWrapStyle: 2\nScaledBorderAndShadow: yes\nYCbCr Matrix: TV.601\n\n[V4+ Styles]\nFormat: Name, Fontname, Fontsize, PrimaryColour, SecondaryColour, OutlineColour, BackColour, Bold, Italic, Underline, StrikeOut, ScaleX, ScaleY, Spacing, Angle, BorderStyle, Outline, Shadow, Alignment, MarginL, MarginR, MarginV, Encoding\nStyle: "@
        + styleid + ", "@ + fontface + ", "@ + spec_dec(fontsize as nat) + ", &H"@ + alpha2
        + "FFFFFF, &H"@ + alpha2 + "FFFFFF, &H"@ + alpha2 + "000000, &H"@ + alpha2
        + "000000, 0, 0, 0, 0, 100, 100, 0.00, 0.00, 1, "@ + spec_dec(
        spec_outline(fontsize) as nat,
    )
        + ", 0, 7, 0, 0, 0, 0\n\n[Events]\nFormat: Layer, Start, End, Style, Name, MarginL, MarginR, MarginV, Effect, Text\n"@
}

/// Emits the header: canvas size and one style keyed by the global
/// font, size and opacity settings.
pub fn write_head(
    width: u32,
    height: u32,
    fontface: &str,
    fontsize: u32,
    alpha_promille: u32,
    styleid: &str,
) -> (r: String)
    requires
        alpha_promille <= OPACITY_CAP_PM,
        fontsize <= FONT_SIZE_CAP,
    ensures
        r@ == spec_write_head(width, height, fontface@, fontsize, alpha_promille, styleid@),
{
    let alpha: u32 = 255 - (alpha_promille * 255 + 500) / 1000;
    let alpha2 = fmt_hex2(alpha as u8);
    let outline_raw: u32 = (2 * fontsize + 25) / 50;
    let outline: u32 = if outline_raw >= 1 {
        outline_raw
    } else {
        1
    };
    let mut s = String::from_str(
        "[Script Info]\n; Script generated by biliass\nScript Updated By: biliass\nScriptType: v4.00+\nPlayResX: ",
    );
    let wd = fmt_u64(width as u64);
    let hd = fmt_u64(height as u64);
    s.append(wd.as_str());
    s.append("\nPlayResY: ");
    s.append(hd.as_str());
    s.append("\nAspect Ratio: ");
    s.append(wd.as_str());
    s.append(":");
    s.append(hd.as_str());
    s.append(
        "\nCollisions: Normal\nWrapStyle: 2\nScaledBorderAndShadow: yes\nYCbCr Matrix: TV.601\n\n[V4+ Styles]\nFormat: Name, Fontname, Fontsize, PrimaryColour, SecondaryColour, OutlineColour, BackColour, Bold, Italic, Underline, StrikeOut, ScaleX, ScaleY, Spacing, Angle, BorderStyle, Outline, Shadow, Alignment, MarginL, MarginR, MarginV, Encoding\nStyle: ",
    );
    s.append(styleid);
    s.append(", ");
    s.append(fontface);
    s.append(", ");
    let fsd = fmt_u64(fontsize as u64);
    s.append(fsd.as_str());
    s.append(", &H");
    s.append(alpha2.as_str());
    s.append("FFFFFF, &H");
    s.append(alpha2.as_str());
    s.append("FFFFFF, &H");
    s.append(alpha2.as_str());
    s.append("000000, &H");
    s.append(alpha2.as_str());
    s.append("000000, 0, 0, 0, 0, 100, 100, 0.00, 0.00, 1, ");
    let od = fmt_u64(outline as u64);
    s.append(od.as_str());
    s.append(
        ", 0, 7, 0, 0, 0, 0\n\n[Events]\nFormat: Layer, Start, End, Style, Name, MarginL, MarginR, MarginV, Effect, Text\n",
    );
    proof {
        reveal(spec_write_head);
        assert(s@ =~= spec_write_head(
            width,
            height,
            fontface@,
            fontsize,
            alpha_promille,
            styleid@,
        ));
    }
    s
}

/// Rows are counted from the bottom for top comments.
pub open spec fn spec_convert_type2(row: int, height: u32, bottom_reserved: u32) -> int {
    height - bottom_reserved - row
}

pub fn convert_type2(row: usize, height: u32, bottom_reserved: u32) -> (r: usize)
    requires
        bottom_reserved <= height,
        row <= height - bottom_reserved,
    ensures
        r == spec_convert_type2(row as int, height, bottom_reserved),
{
    (height as usize) - (bottom_reserved as usize) - row
}

/// The comment's width in whole pixels, rounded up.
pub open spec fn spec_ceil_px(cp: u64) -> int {
    (cp + 99) / 100
}

/// The comment's font size in whole pixels, rounded half up.
pub open spec fn spec_round_px(cp: u64) -> int {
    (cp + 50) / 100
}

/// The positioning override and display duration of a regular comment:
/// bottom and top comments are centered at a fixed midpoint with the
/// still duration, scroll and reversed comments move horizontally
/// across the stage with the marquee duration.
pub open spec fn spec_comment_style(
    c: Comment,
    row: int,
    width: u32,
    height: u32,
    bottom_reserved: u32,
    duration_marquee_ms: u64,
    duration_still_ms: u64,
) -> (Seq<char>, u64) {
    let halfwidth = spec_dec((width / 2) as nat);
    let rowd = spec_dec_signed(row);
    match c.pos {
        CommentPosition::Bottom => (
            "\\an8\\pos("@ + halfwidth + ", "@ + rowd + ")"@,
            duration_still_ms,
        ),
        CommentPosition::Top => (
            "\\an2\\pos("@ + halfwidth + ", "@ + spec_dec_signed(
                spec_convert_type2(row, height, bottom_reserved),
            ) + ")"@,
            duration_still_ms,
        ),
        CommentPosition::Reversed => (
            "\\move("@ + spec_dec_signed(-spec_ceil_px(c.data->Normal_0.width_cp)) + ", "@ + rowd
                + ", "@ + spec_dec(width as nat) + ", "@ + rowd + ")"@,
            duration_marquee_ms,
        ),
        _ => (
            "\\move("@ + spec_dec(width as nat) + ", "@ + rowd + ", "@ + spec_dec_signed(
                -spec_ceil_px(c.data->Normal_0.width_cp),
            ) + ", "@ + rowd + ")"@,
            duration_marquee_ms,
        ),
    }
}

/// The style-override extras of a regular comment: a font-size override
/// when it differs from the default by more than a pixel, a color
/// override for non-white colors, and a white outline for pure black.
pub open spec fn spec_comment_extras(c: Comment, fontsize: u32) -> Seq<char> {
    let fs_part = if c.size_cp + 100 < (fontsize as u64) * 100 || c.size_cp > (fontsize as u64)
        * 100 + 100 {
        "\\fs"@ + spec_dec_signed(spec_round_px(c.size_cp))
    } else {
        Seq::<char>::empty()
    };
    let color_part = if c.color != 0xFFFFFF {
        let base = "\\c&H"@ + spec_convert_color(c.color, Option::None, Option::None) + "&"@;
        if c.color == 0x000000 {
            base + "\\3c&HFFFFFF&"@
        } else {
            base
        }
    } else {
        Seq::<char>::empty()
    };
    fs_part + color_part
}

/// One event line of a regular comment placed at `row`.
#[verifier::opaque]
pub open spec fn spec_write_comment(
    c: Comment,
    row: int,
    width: u32,
    height: u32,
    bottom_reserved: u32,
    fontsize: u32,
    duration_marquee_ms: u64,
    duration_still_ms: u64,
    styleid: Seq<char>,
) -> Seq<char> {
    let sd = spec_comment_style(
        c,
        row,
        width,
        height,
        bottom_reserved,
        duration_marquee_ms,
        duration_still_ms,
    );
    let styles = sd.0 + spec_comment_extras(c, fontsize);
    let dur = sd.1;
    "Dialogue: 2,"@ + spec_convert_timestamp(c.timeline_ms as int) + ","@
        + spec_convert_timestamp(c.timeline_ms + dur) + ","@ + styleid
        + ",,0000,0000,0000,,{"@ + styles + "}"@ + spec_ass_escape(c.content@) + "\n"@
}

/// Emits the event line of a regular comment placed at `row`.
#[verifier::rlimit(50)]
pub fn write_comment(
    comment: &Comment,
    row: usize,
    width: u32,
    height: u32,
    bottom_reserved: u32,
    fontsize: u32,
    duration_marquee_ms: u64,
    duration_still_ms: u64,
    styleid: &str,
) -> (r: String)
    requires
        comment.wf(),
        comment.data is Normal,
        comment.pos != CommentPosition::Special,
        bottom_reserved <= height <= crate::writer::rows::STAGE_DIM_CAP,
        width <= crate::writer::rows::STAGE_DIM_CAP,
        row <= height - bottom_reserved,
        duration_marquee_ms <= DURATION_CAP_MS,
        duration_still_ms <= DURATION_CAP_MS,
        fontsize <= FONT_SIZE_CAP,
    ensures
        r@ == spec_write_comment(
            *comment,
            row as int,
            width,
            height,
            bottom_reserved,
            fontsize,
            duration_marquee_ms,
            duration_still_ms,
            styleid@,
        ),
{
    let text = ass_escape(comment.content.as_str());
    let ghost sty = spec_comment_style(
        *comment,
        row as int,
        width,
        height,
        bottom_reserved,
        duration_marquee_ms,
        duration_still_ms,
    );
    let width_cp: u64 = match comment.data.as_normal() {
        Ok(d) => d.width_cp,
        Err(_) => 0,
    };
    let halfwidth = fmt_u64((width / 2) as u64);
    let rowd = fmt_i64(row as i64);
    let mut style = String::new();
    let duration: u64;
    match comment.pos {
        CommentPosition::Bottom => {
            style.append("\\an8\\pos(");
            style.append(halfwidth.as_str());
            style.append(", ");
            style.append(rowd.as_str());
            style.append(")");
            duration = duration_still_ms;
            proof {
                assert(style@ =~= sty.0);
            }
        },
        CommentPosition::Top => {
            let row2 = convert_type2(row, height, bottom_reserved);
            let row2d = fmt_i64(row2 as i64);
            style.append("\\an2\\pos(");
            style.append(halfwidth.as_str());
            style.append(", ");
            style.append(row2d.as_str());
            style.append(")");
            duration = duration_still_ms;
            proof {
                assert(style@ =~= sty.0);
            }
        },
        CommentPosition::Reversed => {
            let neglen: i64 = -(((width_cp + 99) / 100) as i64);
            let negd = fmt_i64(neglen);
            let wd = fmt_u64(width as u64);
            style.append("\\move(");
            style.append(negd.as_str());
            style.append(", ");
            style.append(rowd.as_str());
            style.append(", ");
            style.append(wd.as_str());
            style.append(", ");
            style.append(rowd.as_str());
            style.append(")");
            duration = duration_marquee_ms;
            proof {
                assert(style@ =~= sty.0);
            }
        },
        _ => {
            let neglen: i64 = -(((width_cp + 99) / 100) as i64);
            let negd = fmt_i64(neglen);
            let wd = fmt_u64(width as u64);
            style.append("\\move(");
            style.append(wd.as_str());
            style.append(", ");
            style.append(rowd.as_str());
            style.append(", ");
            style.append(negd.as_str());
            style.append(", ");
            style.append(rowd.as_str());
            style.append(")");
            duration = duration_marquee_ms;
            proof {
                assert(style@ =~= sty.0);
            }
        },
    }
    proof {
        assert(duration == sty.1);
    }
    let mut extras = String::new();
    if comment.size_cp + 100 < (fontsize as u64) * 100 || comment.size_cp > (fontsize as u64)
        * 100 + 100 {
        extras.append("\\fs");
        let fsd = fmt_i64(((comment.size_cp + 50) / 100) as i64);
        extras.append(fsd.as_str());
    }
    if comment.color != 0xFFFFFF {
        extras.append("\\c&H");
        let cd = convert_color(comment.color, None, None);
        extras.append(cd.as_str());
        extras.append("&");
        if comment.color == 0x000000 {
            extras.append("\\3c&HFFFFFF&");
        }
    }
    proof {
        assert(extras@ =~= spec_comment_extras(*comment, fontsize));
    }
    let start = convert_timestamp(comment.timeline_ms);
    let end = convert_timestamp(comment.timeline_ms + (duration as i64));
    let mut r = String::from_str("Dialogue: 2,");
    r.append(start.as_str());
    r.append(",");
    r.append(end.as_str());
    r.append(",");
    r.append(styleid);
    r.append(",,0000,0000,0000,,{");
    r.append(style.as_str());
    r.append(extras.as_str());
    r.append("}");
    r.append(text.as_str());
    r.append("\n");
    proof {
        reveal(spec_write_comment);
        assert(r@ =~= spec_write_comment(
            *comment,
            row as int,
            width,
            height,
            bottom_reserved,
            fontsize,
            duration_marquee_ms,
            duration_still_ms,
            styleid@,
        ));
    }
    r
}

/// The probe scan: starting at `row`, the first row whose contiguous
/// free count reaches the comment's required rows, advancing past each
/// insufficient probe by the count found (at least one row).
pub open spec fn spec_place_scan(
    pool: Seq<Option<usize>>,
    comments: Seq<Comment>,
    c: Comment,
    row: int,
    row_last: int,
    rowmax: int,
    width: u32,
    duration_marquee_ms: u64,
    duration_still_ms: u64,
) -> Option<int>
    decreases
            (if row > row_last {
                0int
            } else {
                row_last + 1 - row
            }),
{
    if row > row_last {
        Option::None
    } else {
        let fr = spec_test_free_rows(
            pool,
            comments,
            c,
            row,
            rowmax,
            width,
            duration_marquee_ms,
            duration_still_ms,
        );
        if fr >= spec_needed_rows(c.data->Normal_0.height_cp) {
            Option::Some(row)
        } else {
            let advance = if fr >= 1 {
                fr
            } else {
                1
            };
            spec_place_scan(
                pool,
                comments,
                c,
                row + advance,
                row_last,
                rowmax,
                width,
                duration_marquee_ms,
                duration_still_ms,
            )
        }
    }
}

/// Where the layout engine puts the comment: the probe scan's row, or
/// on a full scan failure the forced-placement row (`None` only in
/// reduced mode, where the comment is dropped instead).
pub open spec fn spec_assigned_row(
    pool: Seq<Option<usize>>,
    comments: Seq<Comment>,
    c: Comment,
    width: u32,
    height: u32,
    bottom_reserved: u32,
    duration_marquee_ms: u64,
    duration_still_ms: u64,
    reduced: bool,
) -> Option<int> {
    let rowmax = (height - bottom_reserved) as int;
    let needed = spec_needed_rows(c.data->Normal_0.height_cp);
    let scanned = spec_place_scan(
        pool,
        comments,
        c,
        0,
        rowmax - needed,
        rowmax,
        width,
        duration_marquee_ms,
        duration_still_ms,
    );
    match scanned {
        Option::Some(row) => Option::Some(row),
        Option::None => if reduced {
            Option::None
        } else {
            Option::Some(
                spec_find_alternative_row(
                    pool,
                    comments,
                    spec_alternative_bound(c, height, bottom_reserved),
                    0,
                    0,
                ),
            )
        },
    }
}

/// The line a regular comment contributes and the pool it leaves
/// behind: a placed comment writes its event line and claims its row
/// span; a dropped one writes nothing and leaves the pool unchanged.
pub open spec fn spec_write_normal_comment(
    pool: Seq<Option<usize>>,
    comments: Seq<Comment>,
    comment_index: int,
    width: u32,
    height: u32,
    bottom_reserved: u32,
    fontsize: u32,
    duration_marquee_ms: u64,
    duration_still_ms: u64,
    styleid: Seq<char>,
    reduced: bool,
) -> (Seq<char>, Seq<Option<usize>>) {
    let c = comments[comment_index];
    let assigned = spec_assigned_row(
        pool,
        comments,
        c,
        width,
        height,
        bottom_reserved,
        duration_marquee_ms,
        duration_still_ms,
        reduced,
    );
    match assigned {
        Option::Some(row) => (
            spec_write_comment(
                c,
                row,
                width,
                height,
                bottom_reserved,
                fontsize,
                duration_marquee_ms,
                duration_still_ms,
                styleid,
            ),
            spec_mark_rows(
                pool,
                comment_index as usize,
                row,
                spec_needed_rows(c.data->Normal_0.height_cp),
            ),
        ),
        Option::None => (Seq::<char>::empty(), pool),
    }
}

/// Places one regular comment and emits its event line; in reduced
/// mode a comment that fits nowhere is dropped and yields no line.
#[verifier::loop_isolation(false)]
pub fn write_normal_comment(
    rows: &mut Rows,
    comments: &Vec<Comment>,
    comment_index: usize,
    width: u32,
    height: u32,
    bottom_reserved: u32,
    fontsize: u32,
    duration_marquee_ms: u64,
    duration_still_ms: u64,
    styleid: &str,
    reduced: bool,
) -> (r: String)
    requires
        spec_layout_args_wf(
            rows_view(old(rows)@),
            comments@,
            comment_index as int,
            width,
            height,
            bottom_reserved,
            duration_marquee_ms,
            duration_still_ms,
        ),
        fontsize <= FONT_SIZE_CAP,
    ensures
        ({
            let pid = comments@[comment_index as int].pos.spec_row_index();
            let out = spec_write_normal_comment(
                rows_view(old(rows)@)[pid],
                comments@,
                comment_index as int,
                width,
                height,
                bottom_reserved,
                fontsize,
                duration_marquee_ms,
                duration_still_ms,
                styleid@,
                reduced,
            );
            &&& r@ == out.0
            &&& rows_view(final(rows)@)[pid] == out.1
            &&& final(rows)@.len() == old(rows)@.len()
            &&& forall|p: int|
                0 <= p < old(rows)@.len() && p != pid ==> rows_view(final(rows)@)[p] == rows_view(
                    old(rows)@,
                )[p]
            &&& spec_layout_args_wf(
                rows_view(final(rows)@),
                comments@,
                comment_index as int,
                width,
                height,
                bottom_reserved,
                duration_marquee_ms,
                duration_still_ms,
            )
        }),
{
    let c = &comments[comment_index];
    let ghost cc = comments@[comment_index as int];
    let ghost pid = cc.pos.spec_row_index();
    let ghost pool = rows_view(rows@)[pid];
    let height_cp: u64 = match c.data.as_normal() {
        Ok(d) => d.height_cp,
        Err(_) => 0,
    };
    let needed: u64 = (height_cp + 99) / 100;
    let rowmax: u64 = (height - bottom_reserved) as u64;
    let mut placed: Option<usize> = None;
    if needed <= rowmax {
        let row_last: usize = (rowmax - needed) as usize;
        let mut row: usize = 0;
        while placed.is_none() && row <= row_last
            invariant
                match placed {
                    Option::None => spec_place_scan(
                        pool,
                        comments@,
                        cc,
                        0,
                        row_last as int,
                        rowmax as int,
                        width,
                        duration_marquee_ms,
                        duration_still_ms,
                    ) == spec_place_scan(
                        pool,
                        comments@,
                        cc,
                        row as int,
                        row_last as int,
                        rowmax as int,
                        width,
                        duration_marquee_ms,
                        duration_still_ms,
                    ),
                    Option::Some(pr) => pr <= row_last && spec_place_scan(
                        pool,
                        comments@,
                        cc,
                        0,
                        row_last as int,
                        rowmax as int,
                        width,
                        duration_marquee_ms,
                        duration_still_ms,
                    ) == Option::Some(pr as int),
                },
            decreases
                    (if row > row_last {
                        0int
                    } else {
                        row_last + 1 - row
                    }) + (if placed is None {
                        1int
                    } else {
                        0int
                    }),
        {
            let fr = crate::writer::rows::test_free_rows(
                rows,
                comments,
                comment_index,
                row,
                width,
                height,
                bottom_reserved,
                duration_marquee_ms,
                duration_still_ms,
            );
            if (fr as u64) >= needed {
                placed = Some(row);
            } else {
                let advance: usize = if fr >= 1 {
                    fr
                } else {
                    1
                };
                row = row + advance;
            }
        }
    }
    proof {
        if placed is None {
            assert(spec_place_scan(
                pool,
                comments@,
                cc,
                0,
                rowmax as int - needed as int,
                rowmax as int,
                width,
                duration_marquee_ms,
                duration_still_ms,
            ) is None);
        }
    }
    let chosen: Option<usize> = match placed {
        Some(row) => Some(row),
        None => {
            if reduced {
                None
            } else {
                let row = crate::writer::rows::find_alternative_row(
                    rows,
                    comments,
                    comment_index,
                    height,
                    bottom_reserved,
                );
                Some(row)
            }
        },
    };
    match chosen {
        Some(row) => {
            crate::writer::rows::mark_comment_row(rows, comments, comment_index, row);
            write_comment(
                c,
                row,
                width,
                height,
                bottom_reserved,
                fontsize,
                duration_marquee_ms,
                duration_still_ms,
                styleid,
            )
        },
        None => String::new(),
    }
}

} // verus!

verus! {

/// Upper bound on the magnitude of a projected animation parameter.
pub const ROTATION_PARAM_CAP: i64 = 1000000000000000;

/// The 2D affine parameters an animation frame is emitted with:
/// a translation, three in-plane rotation angles, and a uniform scale
/// in percent. They come out of the projective transform already
/// rounded to output precision.
#[derive(Debug, PartialEq, Eq, Structural, Clone, Copy)]
pub struct RotationParams {
    /// Translation, in whole output pixels.
    pub x: i64,
    pub y: i64,
    /// Output rotation angles, in whole degrees.
    pub rot_x: i64,
    pub rot_y: i64,
    pub rot_z: i64,
    /// Uniform scale, in whole percent.
    pub scale_pct: i64,
}

impl RotationParams {
    pub open spec fn wf(self) -> bool {
        &&& -ROTATION_PARAM_CAP <= self.x <= ROTATION_PARAM_CAP
        &&& -ROTATION_PARAM_CAP <= self.y <= ROTATION_PARAM_CAP
        &&& -ROTATION_PARAM_CAP <= self.rot_x <= ROTATION_PARAM_CAP
        &&& -ROTATION_PARAM_CAP <= self.rot_y <= ROTATION_PARAM_CAP
        &&& -ROTATION_PARAM_CAP <= self.rot_z <= ROTATION_PARAM_CAP
        &&& -ROTATION_PARAM_CAP <= self.scale_pct <= ROTATION_PARAM_CAP
    }
}

/// The transform parameters of one animation endpoint, start and end.
#[derive(Debug, PartialEq, Eq, Structural, Clone, Copy)]
pub struct SpecialAnim {
    pub from_params: RotationParams,
    pub to_params: RotationParams,
}

impl SpecialAnim {
    pub open spec fn wf(self) -> bool {
        self.from_params.wf() && self.to_params.wf()
    }
}

/// A centipixel coordinate rounded to whole pixels, half up.
pub open spec fn spec_round_coord(cp: int) -> int {
    (cp + 50) / 100
}

/// Floor division of a centipixel value by 100.
fn div_floor_100(a: i64) -> (r: i64)
    requires
        -0x7fffffffffffff00 <= a <= 0x7fffffffffffff00,
    ensures
        r == a as int / 100,
{
    if a >= 0 {
        a / 100
    } else {
        -((-a + 99) / 100)
    }
}

/// The degenerate projective transform of an unrotated comment: a pure
/// translation with no rotation and unit scale.
pub open spec fn spec_zero_rotation(x_cp: int, y_cp: int) -> RotationParams {
    RotationParams {
        x: spec_round_coord(x_cp) as i64,
        y: spec_round_coord(y_cp) as i64,
        rot_x: 0,
        rot_y: 0,
        rot_z: 0,
        scale_pct: 100,
    }
}

/// Builds the transform of an endpoint when both rotation angles are
/// zero: the perspective term vanishes and the position is kept.
pub fn zero_rotation_params(x_cp: i64, y_cp: i64) -> (r: RotationParams)
    requires
        -crate::comment::COORD_CAP_CP <= x_cp <= crate::comment::COORD_CAP_CP,
        -crate::comment::COORD_CAP_CP <= y_cp <= crate::comment::COORD_CAP_CP,
    ensures
        r == spec_zero_rotation(x_cp as int, y_cp as int),
        r.wf(),
{
    RotationParams {
        x: div_floor_100(x_cp + 50),
        y: div_floor_100(y_cp + 50),
        rot_x: 0,
        rot_y: 0,
        rot_z: 0,
        scale_pct: 100,
    }
}

/// The rotation and scale fragment of one endpoint.
pub open spec fn spec_rotation_fragment(p: RotationParams) -> Seq<char> {
    "\\frx"@ + spec_dec_signed(p.rot_x as int) + "\\fry"@ + spec_dec_signed(p.rot_y as int)
        + "\\frz"@ + spec_dec_signed(p.rot_z as int) + "\\fscx"@ + spec_dec_signed(
        p.scale_pct as int,
    ) + "\\fscy"@ + spec_dec_signed(p.scale_pct as int)
}

/// The alpha fragment: a constant alpha, a fade in, a fade out, or a
/// general fade between the two endpoint alphas.
pub open spec fn spec_alpha_fragment(d: crate::comment::SpecialCommentData) -> Seq<char> {
    if d.from_alpha == d.to_alpha {
        "\\alpha&H"@ + spec_hex2(d.from_alpha as nat)
    } else if d.from_alpha == 255 && d.to_alpha == 0 {
        "\\fad("@ + spec_dec_signed(d.lifetime_ms as int) + ",0)"@
    } else if d.from_alpha == 0 && d.to_alpha == 255 {
        "\\fad(0, "@ + spec_dec_signed(d.lifetime_ms as int) + ")"@
    } else {
        "\\fade("@ + spec_dec(d.from_alpha as nat) + ", "@ + spec_dec(d.to_alpha as nat) + ", "@
            + spec_dec(d.to_alpha as nat) + ", 0, "@ + spec_dec_signed(d.lifetime_ms as int)
            + ", "@ + spec_dec_signed(d.lifetime_ms as int) + ", "@ + spec_dec_signed(
            d.lifetime_ms as int,
        ) + ")"@
    }
}

/// The position fragment: a fixed position when both endpoints project
/// to the same point, else a move over the active animation window.
pub open spec fn spec_position_fragment(
    d: crate::comment::SpecialCommentData,
    anim: SpecialAnim,
) -> Seq<char> {
    if anim.from_params.x == anim.to_params.x && anim.from_params.y == anim.to_params.y {
        "\\pos("@ + spec_dec_signed(anim.from_params.x as int) + ", "@ + spec_dec_signed(
            anim.from_params.y as int,
        ) + ")"@
    } else {
        "\\move("@ + spec_dec_signed(anim.from_params.x as int) + ", "@ + spec_dec_signed(
            anim.from_params.y as int,
        ) + ", "@ + spec_dec_signed(anim.to_params.x as int) + ", "@ + spec_dec_signed(
            anim.to_params.y as int,
        ) + ", "@ + spec_dec_signed(d.delay_ms as int) + ", "@ + spec_dec_signed(
            d.delay_ms + d.duration_ms,
        ) + ")"@
    }
}

/// The transition fragment: when the start and end positions differ,
/// the end rotation and scale are animated over the active window.
pub open spec fn spec_transition_fragment(
    d: crate::comment::SpecialCommentData,
    anim: SpecialAnim,
) -> Seq<char> {
    if d.from_x_cp != d.to_x_cp || d.from_y_cp != d.to_y_cp {
        "\\t("@ + spec_dec_signed(d.delay_ms as int) + ", "@ + spec_dec_signed(
            d.delay_ms + d.duration_ms,
        ) + ", "@ + spec_rotation_fragment(anim.to_params) + ")"@
    } else {
        Seq::<char>::empty()
    }
}

/// The font size of a special comment: the comment size scaled by the
/// zoom factor, rounded to whole pixels half up.
pub open spec fn spec_special_font_px(size_cp: u64, zoom: ZoomFactor) -> int {
    ((size_cp as int) * (zoom.scale_num as int) / (zoom.scale_den as int) + 50) / 100
}

/// The color fragment shared with regular comments.
pub open spec fn spec_special_color_fragment(color: u32) -> Seq<char> {
    if color != 0xFFFFFF {
        let base = "\\c&H"@ + spec_convert_color(color, Option::None, Option::None) + "&"@;
        if color == 0x000000 {
            base + "\\3c&HFFFFFF&"@
        } else {
            base
        }
    } else {
        Seq::<char>::empty()
    }
}

/// The style-override block of a special comment.
#[verifier::opaque]
pub open spec fn spec_special_styles(
    c: Comment,
    width: u32,
    height: u32,
    zoom: ZoomFactor,
    anim: SpecialAnim,
) -> Seq<char> {
    let d = c.data->Special_0;
    "\\org("@ + spec_dec((width / 2) as nat) + ", "@ + spec_dec((height / 2) as nat)
        + ")"@ + spec_position_fragment(d, anim) + spec_rotation_fragment(anim.from_params)
        + spec_transition_fragment(d, anim) + (if d.fontface@.len() > 0 {
        "\\fn"@ + spec_ass_escape(d.fontface@)
    } else {
        Seq::<char>::empty()
    }) + "\\fs"@ + spec_dec_signed(spec_special_font_px(c.size_cp, zoom))
        + spec_special_color_fragment(c.color) + spec_alpha_fragment(d) + (if !d.is_border {
        "\\bord0"@
    } else {
        Seq::<char>::empty()
    })
}

/// One event line of a special comment: the animation payload expanded
/// into origin, position or move, rotation, transition, font, color,
/// alpha and border overrides.
pub open spec fn spec_write_special_comment(
    c: Comment,
    width: u32,
    height: u32,
    zoom: ZoomFactor,
    anim: SpecialAnim,
    styleid: Seq<char>,
) -> Seq<char> {
    let d = c.data->Special_0;
    "Dialogue: -1,"@ + spec_convert_timestamp(c.timeline_ms as int) + ","@
        + spec_convert_timestamp(c.timeline_ms + d.lifetime_ms) + ","@ + styleid + ",,0,0,0,,{"@
        + spec_special_styles(c, width, height, zoom, anim) + "}"@ + spec_ass_escape(c.content@)
        + "\n"@
}

fn position_fragment(d: &crate::comment::SpecialCommentData, anim: &SpecialAnim) -> (r: String)
    requires
        d.wf(),
        anim.wf(),
    ensures
        r@ == spec_position_fragment(*d, *anim),
{
    let mut s = String::new();
    if anim.from_params.x == anim.to_params.x && anim.from_params.y == anim.to_params.y {
        s.append("\\pos(");
        let xd = fmt_i64(anim.from_params.x);
        s.append(xd.as_str());
        s.append(", ");
        let yd = fmt_i64(anim.from_params.y);
        s.append(yd.as_str());
        s.append(")");
    } else {
        s.append("\\move(");
        let fxd = fmt_i64(anim.from_params.x);
        s.append(fxd.as_str());
        s.append(", ");
        let fyd = fmt_i64(anim.from_params.y);
        s.append(fyd.as_str());
        s.append(", ");
        let txd = fmt_i64(anim.to_params.x);
        s.append(txd.as_str());
        s.append(", ");
        let tyd = fmt_i64(anim.to_params.y);
        s.append(tyd.as_str());
        s.append(", ");
        let deld = fmt_i64(d.delay_ms);
        s.append(deld.as_str());
        s.append(", ");
        let endd = fmt_i64(d.delay_ms + d.duration_ms);
        s.append(endd.as_str());
        s.append(")");
    }
    proof {
        assert(s@ =~= spec_position_fragment(*d, *anim));
    }
    s
}

fn alpha_fragment(d: &crate::comment::SpecialCommentData) -> (r: String)
    requires
        d.wf(),
    ensures
        r@ == spec_alpha_fragment(*d),
{
    let mut s = String::new();
    if d.from_alpha == d.to_alpha {
        s.append("\\alpha&H");
        let ad = fmt_hex2(d.from_alpha);
        s.append(ad.as_str());
    } else if d.from_alpha == 255 && d.to_alpha == 0 {
        s.append("\\fad(");
        let ld = fmt_i64(d.lifetime_ms);
        s.append(ld.as_str());
        s.append(",0)");
    } else if d.from_alpha == 0 && d.to_alpha == 255 {
        s.append("\\fad(0, ");
        let ld = fmt_i64(d.lifetime_ms);
        s.append(ld.as_str());
        s.append(")");
    } else {
        s.append("\\fade(");
        let fad = fmt_u64(d.from_alpha as u64);
        s.append(fad.as_str());
        s.append(", ");
        let tad = fmt_u64(d.to_alpha as u64);
        s.append(tad.as_str());
        s.append(", ");
        s.append(tad.as_str());
        s.append(", 0, ");
        let ld = fmt_i64(d.lifetime_ms);
        s.append(ld.as_str());
        s.append(", ");
        s.append(ld.as_str());
        s.append(", ");
        s.append(ld.as_str());
        s.append(")");
    }
    proof {
        assert(s@ =~= spec_alpha_fragment(*d));
    }
    s
}

#[verifier::rlimit(60)]
fn special_styles(
    comment: &Comment,
    width: u32,
    height: u32,
    zoom: &ZoomFactor,
    anim: &SpecialAnim,
) -> (r: String)
    requires
        comment.wf(),
        comment.data is Special,
        anim.wf(),
        zoom.wf(),
        width <= crate::writer::rows::STAGE_DIM_CAP,
        height <= crate::writer::rows::STAGE_DIM_CAP,
    ensures
        r@ == spec_special_styles(*comment, width, height, *zoom, *anim),
{
    let d = match comment.data.as_special() {
        Ok(d) => d,
        Err(_) => {
            proof {
                assert(false);
            }
            vstd::pervasive::unreached()
        },
    };
    let mut styles = String::from_str("\\org(");
    let wd = fmt_u64((width / 2) as u64);
    let hd = fmt_u64((height / 2) as u64);
    styles.append(wd.as_str());
    styles.append(", ");
    styles.append(hd.as_str());
    styles.append(")");
    let pos = position_fragment(d, anim);
    styles.append(pos.as_str());
    let from_frag = rotation_fragment(&anim.from_params);
    styles.append(from_frag.as_str());
    let ghost rot_done = styles@;
    if d.from_x_cp != d.to_x_cp || d.from_y_cp != d.to_y_cp {
        styles.append("\\t(");
        let deld = fmt_i64(d.delay_ms);
        styles.append(deld.as_str());
        styles.append(", ");
        let endd = fmt_i64(d.delay_ms + d.duration_ms);
        styles.append(endd.as_str());
        styles.append(", ");
        let to_frag = rotation_fragment(&anim.to_params);
        styles.append(to_frag.as_str());
        styles.append(")");
    }
    proof {
        assert(styles@ =~= rot_done + spec_transition_fragment(*d, *anim));
    }
    let ghost trans_done = styles@;
    if d.fontface.as_str().unicode_len() > 0 {
        styles.append("\\fn");
        let face = ass_escape(d.fontface.as_str());
        styles.append(face.as_str());
    }
    styles.append("\\fs");
    proof {
        vstd::arithmetic::mul::lemma_mul_upper_bound(
            comment.size_cp as int,
            crate::comment::DIMENSION_CAP_CP as int,
            zoom.scale_num as int,
            crate::writer::utils::MAX_STAGE_DIM as int,
        );
        vstd::arithmetic::mul::lemma_mul_nonnegative(
            comment.size_cp as int,
            zoom.scale_num as int,
        );
        vstd::arithmetic::div_mod::lemma_div_nonincreasing(
            comment.size_cp as int * zoom.scale_num as int,
            zoom.scale_den as int,
        );
        vstd::arithmetic::div_mod::lemma_div_pos_is_pos(
            comment.size_cp as int * zoom.scale_num as int,
            zoom.scale_den as int,
        );
    }
    let scaled: u64 = comment.size_cp * (zoom.scale_num as u64) / (zoom.scale_den as u64);
    let fsd = fmt_i64(((scaled + 50) / 100) as i64);
    styles.append(fsd.as_str());
    let ghost font_done = styles@;
    proof {
        assert(font_done =~= trans_done + (if d.fontface@.len() > 0 {
            "\\fn"@ + spec_ass_escape(d.fontface@)
        } else {
            Seq::<char>::empty()
        }) + "\\fs"@ + spec_dec_signed(spec_special_font_px(comment.size_cp, *zoom)));
    }
    if comment.color != 0xFFFFFF {
        styles.append("\\c&H");
        let cd = convert_color(comment.color, None, None);
        styles.append(cd.as_str());
        styles.append("&");
        if comment.color == 0x000000 {
            styles.append("\\3c&HFFFFFF&");
        }
    }
    proof {
        assert(styles@ =~= font_done + spec_special_color_fragment(comment.color));
    }
    let ghost color_done = styles@;
    let alpha = alpha_fragment(d);
    styles.append(alpha.as_str());
    if !d.is_border {
        styles.append("\\bord0");
    }
    proof {
        assert(styles@ =~= color_done + spec_alpha_fragment(*d) + (if !d.is_border {
            "\\bord0"@
        } else {
            Seq::<char>::empty()
        }));
        reveal(spec_special_styles);
        assert(styles@ =~= spec_special_styles(*comment, width, height, *zoom, *anim));
    }
    styles
}

/// Emits the event line of a special comment from its decoded payload
/// and the projected transform of its two endpoints.
pub fn write_special_comment(
    comment: &Comment,
    width: u32,
    height: u32,
    zoom: &ZoomFactor,
    anim: &SpecialAnim,
    styleid: &str,
) -> (r: String)
    requires
        comment.wf(),
        comment.data is Special,
        anim.wf(),
        zoom.wf(),
        width <= crate::writer::rows::STAGE_DIM_CAP,
        height <= crate::writer::rows::STAGE_DIM_CAP,
    ensures
        r@ == spec_write_special_comment(*comment, width, height, *zoom, *anim, styleid@),
{
    let d = match comment.data.as_special() {
        Ok(d) => d,
        Err(_) => {
            proof {
                assert(false);
            }
            vstd::pervasive::unreached()
        },
    };
    let styles = special_styles(comment, width, height, zoom, anim);
    let text = ass_escape(comment.content.as_str());
    let start = convert_timestamp(comment.timeline_ms);
    let end = convert_timestamp(comment.timeline_ms + d.lifetime_ms);
    let mut r = String::from_str("Dialogue: -1,");
    r.append(start.as_str());
    r.append(",");
    r.append(end.as_str());
    r.append(",");
    r.append(styleid);
    r.append(",,0,0,0,,{");
    r.append(styles.as_str());
    r.append("}");
    r.append(text.as_str());
    r.append("\n");
    proof {
        assert(r@ =~= spec_write_special_comment(
            *comment,
            width,
            height,
            *zoom,
            *anim,
            styleid@,
        ));
    }
    r
}

/// Formats the rotation and scale fragment of one endpoint.
fn rotation_fragment(p: &RotationParams) -> (r: String)
    requires
        p.wf(),
    ensures
        r@ == spec_rotation_fragment(*p),
{
    let mut s = String::from_str("\\frx");
    let a = fmt_i64(p.rot_x);
    s.append(a.as_str());
    s.append("\\fry");
    let b = fmt_i64(p.rot_y);
    s.append(b.as_str());
    s.append("\\frz");
    let c = fmt_i64(p.rot_z);
    s.append(c.as_str());
    s.append("\\fscx");
    let d = fmt_i64(p.scale_pct);
    s.append(d.as_str());
    s.append("\\fscy");
    s.append(d.as_str());
    proof {
        assert(s@ =~= spec_rotation_fragment(*p));
    }
    s
}


// ------------------------------------------------------------------
// Laws of the layout engine
// ------------------------------------------------------------------
/// `res` reaches the required rows exactly when `res * 100` reaches
/// the height.
proof fn lemma_needed_rows_iff(h: int, res: int)
    requires
        h >= 0,
        res >= 0,
    ensures
        (res * 100 >= h) <==> (res >= (h + 99) / 100),
{
    let n = (h + 99) / 100;
    vstd::arithmetic::div_mod::lemma_fundamental_div_mod(h + 99, 100);
    vstd::arithmetic::div_mod::lemma_mod_bound(h + 99, 100);
    if res >= n {
        assert(res * 100 >= n * 100) by (nonlinear_arith)
            requires
                res >= n,
        ;
    }
    if res < n {
        assert(res * 100 <= (n - 1) * 100) by (nonlinear_arith)
            requires
                res <= n - 1,
        ;
    }
}

/// When no slot in the remaining window contests the comment, the
/// probe reaches the required rows whenever the window is long enough.
proof fn lemma_free_rows_unblocked(
    pool: Seq<Option<usize>>,
    comments: Seq<Comment>,
    c: Comment,
    prev: Option<usize>,
    cur: int,
    rowmax: int,
    res: int,
    moving: bool,
    width: u32,
    duration_marquee_ms: u64,
    duration_still_ms: u64,
)
    requires
        0 <= res,
        0 <= cur <= rowmax,
        c.data is Normal,
        forall|k: int|
            cur <= k < rowmax ==> !((#[trigger] pool[k]) matches Option::Some(t) && spec_blocks(
                comments[t as int],
                c,
                moving,
                width,
                duration_marquee_ms,
                duration_still_ms,
            )),
        spec_needed_rows(c.data->Normal_0.height_cp) <= res + (rowmax - cur),
    ensures
        spec_free_rows_from(
            pool,
            comments,
            c,
            prev,
            cur,
            rowmax,
            res,
            moving,
            width,
            duration_marquee_ms,
            duration_still_ms,
        ) >= spec_needed_rows(c.data->Normal_0.height_cp),
    decreases rowmax - cur,
{
    let h = c.data->Normal_0.height_cp as int;
    lemma_needed_rows_iff(h, res);
    if cur >= rowmax || res * 100 >= h {
    } else {
        let o = pool[cur];
        lemma_free_rows_unblocked(
            pool,
            comments,
            c,
            o,
            cur + 1,
            rowmax,
            res + 1,
            moving,
            width,
            duration_marquee_ms,
            duration_still_ms,
        );
    }
}

/// When every slot of the scan window contests the comment, every
/// probe reports zero free rows and the whole scan fails.
proof fn lemma_scan_all_blocked(
    pool: Seq<Option<usize>>,
    comments: Seq<Comment>,
    c: Comment,
    row: int,
    row_last: int,
    rowmax: int,
    width: u32,
    duration_marquee_ms: u64,
    duration_still_ms: u64,
)
    requires
        0 <= row,
        row_last < rowmax,
        c.data is Normal,
        c.data->Normal_0.height_cp >= 1,
        forall|k: int|
            row <= k < rowmax ==> ((#[trigger] pool[k]) matches Option::Some(t) && spec_blocks(
                comments[t as int],
                c,
                spec_is_moving(c.pos),
                width,
                duration_marquee_ms,
                duration_still_ms,
            )),
    ensures
        spec_place_scan(
            pool,
            comments,
            c,
            row,
            row_last,
            rowmax,
            width,
            duration_marquee_ms,
            duration_still_ms,
        ) is None,
    decreases
            (if row > row_last {
                0int
            } else {
                row_last + 1 - row
            }),
{
    if row <= row_last {
        let fr = spec_test_free_rows(
            pool,
            comments,
            c,
            row,
            rowmax,
            width,
            duration_marquee_ms,
            duration_still_ms,
        );
        assert(fr == 0);
        assert(spec_needed_rows(c.data->Normal_0.height_cp) >= 1);
        lemma_scan_all_blocked(
            pool,
            comments,
            c,
            row + 1,
            row_last,
            rowmax,
            width,
            duration_marquee_ms,
            duration_still_ms,
        );
    }
}

/// The fallback row is the first row whose occupant has the earliest
/// timeline among the scanned rows.
proof fn lemma_find_alt_first_min(
    pool: Seq<Option<usize>>,
    comments: Seq<Comment>,
    bound: int,
    res: int,
    row: int,
)
    requires
        0 < bound <= pool.len(),
        forall|k: int| 0 <= k < bound ==> (#[trigger] pool[k]) is Some,
        forall|k: int| 0 <= k < bound ==> 0 <= (#[trigger] pool[k])->0 < comments.len(),
        0 <= res < bound,
        0 <= row <= bound,
        res < row || (res == 0 && row == 0),
        forall|k: int|
            0 <= k < row ==> comments[(pool[res])->0 as int].timeline_ms <= comments[(
            #[trigger] pool[k])->0 as int].timeline_ms,
        forall|k: int|
            0 <= k < res ==> comments[(#[trigger] pool[k])->0 as int].timeline_ms > comments[(
            pool[res])->0 as int].timeline_ms,
    ensures
        ({
            let r = spec_find_alternative_row(pool, comments, bound, res, row);
            &&& 0 <= r < bound
            &&& forall|k: int|
                0 <= k < bound ==> comments[(pool[r])->0 as int].timeline_ms
                    <= comments[(#[trigger] pool[k])->0 as int].timeline_ms
            &&& forall|k: int|
                0 <= k < r ==> comments[(#[trigger] pool[k])->0 as int].timeline_ms > comments[(
                pool[r])->0 as int].timeline_ms
        }),
    decreases bound - row,
{
    if row >= bound {
    } else {
        match pool[row] {
            Option::None => {
                assert(false);
            },
            Option::Some(t) => {
                let new_res = if pool[res] matches Option::Some(r) && comments[t as int].timeline_ms
                    < comments[r as int].timeline_ms {
                    row
                } else {
                    res
                };
                lemma_find_alt_first_min(pool, comments, bound, new_res, row + 1);
            },
        }
    }
}

/// When a top comment arrives and every scanned lane is still held by
/// an unexpired occupant, the scan finds no lane; without reduced mode
/// the engine force-places the comment on the first lane whose
/// occupant went on screen earliest, and in reduced mode the comment
/// is dropped and contributes no event line.
pub proof fn lemma_forced_placement_earliest_timeline(
    pool: Seq<Option<usize>>,
    comments: Seq<Comment>,
    comment_index: int,
    width: u32,
    height: u32,
    bottom_reserved: u32,
    duration_marquee_ms: u64,
    duration_still_ms: u64,
)
    requires
        0 <= comment_index < comments.len(),
        comments[comment_index].wf(),
        comments[comment_index].pos == CommentPosition::Top,
        comments[comment_index].data is Normal,
        comments[comment_index].data->Normal_0.height_cp >= 1,
        bottom_reserved < height,
        pool.len() == height - bottom_reserved + 1,
        spec_alternative_bound(comments[comment_index], height, bottom_reserved) > 0,
        // every lane of the region is occupied by an unexpired occupant
        forall|k: int|
            0 <= k < height - bottom_reserved ==> ((#[trigger] pool[k]) matches Option::Some(t)
                && 0 <= t < comments.len() && comments[t as int].timeline_ms + duration_still_ms
                > comments[comment_index].timeline_ms),
    ensures
        ({
            let c = comments[comment_index];
            let forced = spec_assigned_row(
                pool,
                comments,
                c,
                width,
                height,
                bottom_reserved,
                duration_marquee_ms,
                duration_still_ms,
                false,
            );
            let bound = spec_alternative_bound(c, height, bottom_reserved);
            &&& forced matches Option::Some(r)
            &&& 0 <= forced->0 < bound
            &&& forall|k: int|
                0 <= k < bound ==> comments[(pool[forced->0])->0 as int].timeline_ms
                    <= comments[(#[trigger] pool[k])->0 as int].timeline_ms
            &&& forall|k: int|
                0 <= k < forced->0 ==> comments[(#[trigger] pool[k])->0 as int].timeline_ms
                    > comments[(pool[forced->0])->0 as int].timeline_ms
            &&& spec_assigned_row(
                pool,
                comments,
                c,
                width,
                height,
                bottom_reserved,
                duration_marquee_ms,
                duration_still_ms,
                true,
            ) is None
            &&& spec_write_normal_comment(
                pool,
                comments,
                comment_index,
                width,
                height,
                bottom_reserved,
                0,
                duration_marquee_ms,
                duration_still_ms,
                Seq::<char>::empty(),
                true,
            ).0 == Seq::<char>::empty()
        }),
{
    let c = comments[comment_index];
    let rowmax = (height - bottom_reserved) as int;
    let needed = spec_needed_rows(c.data->Normal_0.height_cp);
    let bound = spec_alternative_bound(c, height, bottom_reserved);
    assert(forall|k: int|
        0 <= k < rowmax ==> ((#[trigger] pool[k]) matches Option::Some(t) && spec_blocks(
            comments[t as int],
            c,
            spec_is_moving(c.pos),
            width,
            duration_marquee_ms,
            duration_still_ms,
        )));
    lemma_scan_all_blocked(
        pool,
        comments,
        c,
        0,
        rowmax - needed,
        rowmax,
        width,
        duration_marquee_ms,
        duration_still_ms,
    );
    assert(bound <= rowmax);
    lemma_find_alt_first_min(pool, comments, bound, 0, 0);
}

/// Two scroll comments with disjoint effective travel windows share a
/// lane: with the first placed from lane zero, the second's probe
/// still finds its full span there. With overlapping windows and the
/// same lane span, the second is pushed to the next span.
pub proof fn lemma_scroll_travel_windows(
    comments: Seq<Comment>,
    width: u32,
    height: u32,
    bottom_reserved: u32,
    duration_marquee_ms: u64,
    duration_still_ms: u64,
)
    requires
        comments.len() == 2,
        comments[0].wf(),
        comments[1].wf(),
        comments[0].pos == CommentPosition::Scroll,
        comments[1].pos == CommentPosition::Scroll,
        comments[0].data is Normal,
        comments[1].data is Normal,
        comments[0].data->Normal_0.height_cp >= 1,
        comments[1].data->Normal_0.height_cp >= 1,
        bottom_reserved < height,
        spec_needed_rows(comments[0].data->Normal_0.height_cp) + spec_needed_rows(
            comments[1].data->Normal_0.height_cp,
        ) <= height - bottom_reserved,
    ensures
        ({
            let pool0 = Seq::new((height - bottom_reserved + 1) as nat, |j: int| Option::<
                usize,
            >::None);
            let r1 = spec_assigned_row(
                pool0,
                comments,
                comments[0],
                width,
                height,
                bottom_reserved,
                duration_marquee_ms,
                duration_still_ms,
                false,
            );
            let needed1 = spec_needed_rows(comments[0].data->Normal_0.height_cp);
            let pool1 = spec_mark_rows(pool0, 0, 0, needed1);
            let r2 = spec_assigned_row(
                pool1,
                comments,
                comments[1],
                width,
                height,
                bottom_reserved,
                duration_marquee_ms,
                duration_still_ms,
                false,
            );
            let blocks = spec_blocks(
                comments[0],
                comments[1],
                true,
                width,
                duration_marquee_ms,
                duration_still_ms,
            );
            &&& r1 == Option::Some(0int)
            &&& (!blocks ==> r2 == Option::Some(0int))
            &&& (blocks ==> r2 == Option::Some(needed1))
        }),
{
    let rowmax = (height - bottom_reserved) as int;
    let pool0 = Seq::new((height - bottom_reserved + 1) as nat, |j: int| Option::<usize>::None);
    let c1 = comments[0];
    let c2 = comments[1];
    let needed1 = spec_needed_rows(c1.data->Normal_0.height_cp);
    let needed2 = spec_needed_rows(c2.data->Normal_0.height_cp);
    assert(needed1 >= 1 && needed2 >= 1) by {
        lemma_needed_rows_iff(c1.data->Normal_0.height_cp as int, 0);
        lemma_needed_rows_iff(c2.data->Normal_0.height_cp as int, 0);
    }
    // the first comment lands on lane zero of the empty pools
    lemma_free_rows_unblocked(
        pool0,
        comments,
        c1,
        Option::None,
        0,
        rowmax,
        0,
        true,
        width,
        duration_marquee_ms,
        duration_still_ms,
    );
    assert(spec_place_scan(
        pool0,
        comments,
        c1,
        0,
        rowmax - needed1,
        rowmax,
        width,
        duration_marquee_ms,
        duration_still_ms,
    ) == Option::Some(0int));
    let pool1 = spec_mark_rows(pool0, 0, 0, needed1);
    let blocks = spec_blocks(c1, c2, true, width, duration_marquee_ms, duration_still_ms);
    if !blocks {
        assert(forall|k: int|
            0 <= k < rowmax ==> !((#[trigger] pool1[k]) matches Option::Some(t) && spec_blocks(
                comments[t as int],
                c2,
                true,
                width,
                duration_marquee_ms,
                duration_still_ms,
            )));
        lemma_free_rows_unblocked(
            pool1,
            comments,
            c2,
            Option::None,
            0,
            rowmax,
            0,
            true,
            width,
            duration_marquee_ms,
            duration_still_ms,
        );
        assert(spec_place_scan(
            pool1,
            comments,
            c2,
            0,
            rowmax - needed2,
            rowmax,
            width,
            duration_marquee_ms,
            duration_still_ms,
        ) == Option::Some(0int));
    } else {
        lemma_scan_blocked_prefix(
            pool1,
            comments,
            c2,
            0,
            needed1,
            rowmax - needed2,
            rowmax,
            width,
            duration_marquee_ms,
            duration_still_ms,
        );
        lemma_free_rows_unblocked(
            pool1,
            comments,
            c2,
            Option::None,
            needed1,
            rowmax,
            0,
            true,
            width,
            duration_marquee_ms,
            duration_still_ms,
        );
        assert(spec_place_scan(
            pool1,
            comments,
            c2,
            needed1,
            rowmax - needed2,
            rowmax,
            width,
            duration_marquee_ms,
            duration_still_ms,
        ) == Option::Some(needed1));
    }
}

/// A scan over a prefix of lanes all blocked by occupants advances one
/// lane at a time to the end of the prefix.
proof fn lemma_scan_blocked_prefix(
    pool: Seq<Option<usize>>,
    comments: Seq<Comment>,
    c: Comment,
    row: int,
    prefix_end: int,
    row_last: int,
    rowmax: int,
    width: u32,
    duration_marquee_ms: u64,
    duration_still_ms: u64,
)
    requires
        0 <= row <= prefix_end,
        prefix_end <= row_last,
        row_last <= rowmax,
        prefix_end <= pool.len(),
        c.data is Normal,
        c.data->Normal_0.height_cp >= 1,
        forall|k: int|
            row <= k < prefix_end ==> ((#[trigger] pool[k]) matches Option::Some(t) && 0 <= t
                < comments.len() && spec_blocks(
                comments[t as int],
                c,
                spec_is_moving(c.pos),
                width,
                duration_marquee_ms,
                duration_still_ms,
            )),
    ensures
        spec_place_scan(
            pool,
            comments,
            c,
            row,
            row_last,
            rowmax,
            width,
            duration_marquee_ms,
            duration_still_ms,
        ) == spec_place_scan(
            pool,
            comments,
            c,
            prefix_end,
            row_last,
            rowmax,
            width,
            duration_marquee_ms,
            duration_still_ms,
        ),
    decreases prefix_end - row,
{
    if row < prefix_end {
        let fr = spec_test_free_rows(
            pool,
            comments,
            c,
            row,
            rowmax,
            width,
            duration_marquee_ms,
            duration_still_ms,
        );
        assert(fr == 0);
        assert(spec_needed_rows(c.data->Normal_0.height_cp) >= 1) by {
            lemma_needed_rows_iff(c.data->Normal_0.height_cp as int, 0);
        }
        lemma_scan_blocked_prefix(
            pool,
            comments,
            c,
            row + 1,
            prefix_end,
            row_last,
            rowmax,
            width,
            duration_marquee_ms,
            duration_still_ms,
        );
    }
}

} // verus!

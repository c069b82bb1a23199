//! The row-layout engine: per-category pools of lane slots, a
//! contiguous-free-row probe with two occupancy predicates (dwell time
//! for static comments, travel-time projection for moving ones), a
//! forced-placement fallback, and span marking.
//!
//! Row slots hold indices into the sorted comment sequence.

use vstd::prelude::*;
use crate::comment::{Comment, CommentPosition, DIMENSION_CAP_CP};

verus! {

/// Per-position-category lane pools; a slot holds the index of its
/// current occupant in the comment sequence.
pub type Rows = Vec<Vec<Option<usize>>>;

/// Upper bound on a configured display duration, in milliseconds.
pub const DURATION_CAP_MS: u64 = 1000000000;

/// Largest accepted stage dimension, in pixels.
pub const STAGE_DIM_CAP: u32 = 65536;

/// A slot value is valid when it points at a well-formed regular
/// comment of the sequence.
pub open spec fn spec_slot_wf(slot: Option<usize>, comments: Seq<Comment>) -> bool {
    match slot {
        Option::Some(t) => {
            &&& (t as int) < comments.len()
            &&& comments[t as int].wf()
            &&& comments[t as int].data is Normal
        },
        Option::None => true,
    }
}

/// The pools as plain sequences.
pub open spec fn rows_view(rs: Seq<Vec<Option<usize>>>) -> Seq<Seq<Option<usize>>> {
    rs.map_values(|v: Vec<Option<usize>>| v@)
}

/// Every slot of every pool is valid for the comment sequence.
pub open spec fn spec_rows_wf(rows: Seq<Seq<Option<usize>>>, comments: Seq<Comment>) -> bool {
    forall|p: int, i: int|
        0 <= p < rows.len() && 0 <= i < rows[p].len() ==> spec_slot_wf(
            #[trigger] rows[p][i],
            comments,
        )
}

/// Whether the layout engine treats this position as moving (travel
/// projection) rather than static (dwell time).
pub open spec fn spec_is_moving(pos: CommentPosition) -> bool {
    !(pos == CommentPosition::Bottom || pos == CommentPosition::Top)
}

/// The number of whole rows a comment's estimated height occupies.
pub open spec fn spec_needed_rows(height_cp: u64) -> int {
    (height_cp + 99) / 100
}

/// Whether the occupant `t` still contests a lane against the incoming
/// comment `c`.
///
/// Static categories: the occupant blocks until its still-display
/// window has elapsed. Moving categories: the occupant blocks if it
/// would still overlap on screen given the relative travel speeds,
/// using integer division of the marquee duration by the width ratios.
pub open spec fn spec_blocks(
    t: Comment,
    c: Comment,
    moving: bool,
    width: u32,
    duration_marquee_ms: u64,
    duration_still_ms: u64,
) -> bool {
    if !moving {
        t.timeline_ms + duration_still_ms > c.timeline_ms
    } else {
        let w100 = (width as int) * 100;
        let cw = c.data->Normal_0.width_cp as int;
        let tw = t.data->Normal_0.width_cp as int;
        let threshold = c.timeline_ms - duration_marquee_ms + (duration_marquee_ms as int) * w100
            / (cw + w100);
        ||| t.timeline_ms > threshold
        ||| t.timeline_ms + tw * duration_marquee_ms / (tw + w100) > c.timeline_ms
    }
}

/// The probe loop: counts contiguous free rows from `cur` (having seen
/// `prev` in the previous slot), stopping at `rowmax`, at the required
/// height, or at a blocking occupant that differs from the previous
/// slot's occupant.
pub open spec fn spec_free_rows_from(
    pool: Seq<Option<usize>>,
    comments: Seq<Comment>,
    c: Comment,
    prev: Option<usize>,
    cur: int,
    rowmax: int,
    res: int,
    moving: bool,
    width: u32,
    duration_marquee_ms: u64,
    duration_still_ms: u64,
) -> int
    decreases rowmax - cur,
{
    if cur >= rowmax || res * 100 >= c.data->Normal_0.height_cp {
        res
    } else {
        let o = pool[cur];
        if o != prev && (match o {
            Option::Some(t) => spec_blocks(
                comments[t as int],
                c,
                moving,
                width,
                duration_marquee_ms,
                duration_still_ms,
            ),
            Option::None => false,
        }) {
            res
        } else {
            spec_free_rows_from(
                pool,
                comments,
                c,
                o,
                cur + 1,
                rowmax,
                res + 1,
                moving,
                width,
                duration_marquee_ms,
                duration_still_ms,
            )
        }
    }
}

/// The contiguous free-row count the probe reports at `row`.
pub open spec fn spec_test_free_rows(
    pool: Seq<Option<usize>>,
    comments: Seq<Comment>,
    c: Comment,
    row: int,
    rowmax: int,
    width: u32,
    duration_marquee_ms: u64,
    duration_still_ms: u64,
) -> int {
    spec_free_rows_from(
        pool,
        comments,
        c,
        Option::None,
        row,
        rowmax,
        0,
        spec_is_moving(c.pos),
        width,
        duration_marquee_ms,
        duration_still_ms,
    )
}

/// Freshly allocated lane pools: `num_types` pools of `capacity` empty
/// slots each.
pub fn init_rows(num_types: usize, capacity: usize) -> (r: Rows)
    ensures
        r@.len() == num_types,
        forall|p: int| 0 <= p < num_types ==> #[trigger] r@[p]@.len() == capacity,
        forall|p: int, i: int|
            0 <= p < num_types && 0 <= i < capacity ==> #[trigger] r@[p]@[i] is None,
{
    let mut rows: Rows = Vec::new();
    let mut p: usize = 0;
    while p < num_types
        invariant
            p <= num_types,
            rows@.len() == p,
            forall|q: int| 0 <= q < p ==> #[trigger] rows@[q]@.len() == capacity,
            forall|q: int, i: int|
                0 <= q < p && 0 <= i < capacity ==> #[trigger] rows@[q]@[i] is None,
        decreases num_types - p,
    {
        let mut type_rows: Vec<Option<usize>> = Vec::new();
        let mut i: usize = 0;
        while i < capacity
            invariant
                i <= capacity,
                type_rows@.len() == i,
                forall|j: int| 0 <= j < i ==> #[trigger] type_rows@[j] is None,
            decreases capacity - i,
        {
            type_rows.push(None);
            i = i + 1;
        }
        rows.push(type_rows);
        p = p + 1;
    }
    rows
}

/// Common validity requirements of the layout-engine entry points.
pub open spec fn spec_layout_args_wf(
    rows: Seq<Seq<Option<usize>>>,
    comments: Seq<Comment>,
    comment_index: int,
    width: u32,
    height: u32,
    bottom_reserved: u32,
    duration_marquee_ms: u64,
    duration_still_ms: u64,
) -> bool {
    &&& spec_rows_wf(rows, comments)
    &&& 0 <= comment_index < comments.len()
    &&& comments[comment_index].wf()
    &&& comments[comment_index].data is Normal
    &&& comments[comment_index].pos != CommentPosition::Special
    &&& 1 <= width <= STAGE_DIM_CAP
    &&& 1 <= height <= STAGE_DIM_CAP
    &&& bottom_reserved <= height
    &&& duration_marquee_ms <= DURATION_CAP_MS
    &&& duration_still_ms <= DURATION_CAP_MS
    &&& rows.len() == 4
    &&& forall|p: int| 0 <= p < rows.len() ==> (#[trigger] rows[p].len()) == height
        - bottom_reserved + 1
}

/// Counts the contiguous free rows available for the comment starting
/// at `row`, under the category's occupancy predicate.
#[verifier::loop_isolation(false)]
pub fn test_free_rows(
    rows: &Rows,
    comments: &Vec<Comment>,
    comment_index: usize,
    row: usize,
    width: u32,
    height: u32,
    bottom_reserved: u32,
    duration_marquee_ms: u64,
    duration_still_ms: u64,
) -> (res: usize)
    requires
        spec_layout_args_wf(
            rows_view(rows@),
            comments@,
            comment_index as int,
            width,
            height,
            bottom_reserved,
            duration_marquee_ms,
            duration_still_ms,
        ),
        row <= height - bottom_reserved,
    ensures
        res == spec_test_free_rows(
            rows_view(rows@)[comments@[comment_index as int].pos.spec_row_index()],
            comments@,
            comments@[comment_index as int],
            row as int,
            (height - bottom_reserved) as int,
            width,
            duration_marquee_ms,
            duration_still_ms,
        ),
        row + res <= height - bottom_reserved,
{
    let rowmax: usize = (height - bottom_reserved) as usize;
    let c = &comments[comment_index];
    let pid = c.pos.row_index();
    let moving: bool = !(matches!(c.pos, CommentPosition::Bottom) || matches!(
        c.pos,
        CommentPosition::Top,
    ));
    let height_cp: u64 = match c.data.as_normal() {
        Ok(d) => d.height_cp,
        Err(_) => 0,
    };
    let width_cp: u64 = match c.data.as_normal() {
        Ok(d) => d.width_cp,
        Err(_) => 0,
    };
    let ghost pool = rows_view(rows@)[c.pos.spec_row_index()];
    let ghost cc = comments@[comment_index as int];
    let mut res: usize = 0;
    let mut cur: usize = row;
    let mut prev: Option<usize> = None;
    proof {
        assert(rows@[pid as int]@ == pool);
    }
    while cur < rowmax && (res as u64) * 100 < height_cp
        invariant
            spec_layout_args_wf(
                rows_view(rows@),
                comments@,
                comment_index as int,
                width,
                height,
                bottom_reserved,
                duration_marquee_ms,
                duration_still_ms,
            ),
            rowmax == height - bottom_reserved,
            pool == rows_view(rows@)[cc.pos.spec_row_index()],
            cc == comments@[comment_index as int],
            pid == cc.pos.spec_row_index(),
            moving == spec_is_moving(cc.pos),
            height_cp == cc.data->Normal_0.height_cp,
            width_cp == cc.data->Normal_0.width_cp,
            row <= cur <= rowmax,
            res <= cur,
            res + row <= cur,
            spec_test_free_rows(
                pool,
                comments@,
                cc,
                row as int,
                rowmax as int,
                width,
                duration_marquee_ms,
                duration_still_ms,
            ) == spec_free_rows_from(
                pool,
                comments@,
                cc,
                prev,
                cur as int,
                rowmax as int,
                res as int,
                moving,
                width,
                duration_marquee_ms,
                duration_still_ms,
            ),
        decreases rowmax - cur,
    {
        let slot: Option<usize> = rows[pid][cur];
        proof {
            assert(slot == pool[cur as int]);
            assert(spec_slot_wf(pool[cur as int], comments@));
        }
        let slot_changed: bool = match (slot, prev) {
            (Some(a), Some(b)) => a != b,
            (None, None) => false,
            _ => true,
        };
        if slot_changed {
            if let Some(t) = slot {
                let occ = &comments[t];
                let blocks: bool;
                if !moving {
                    blocks = occ.timeline_ms + (duration_still_ms as i64) > c.timeline_ms;
                } else {
                    let w100: i64 = (width as i64) * 100;
                    let occ_w: i64 = match occ.data.as_normal() {
                        Ok(d) => d.width_cp as i64,
                        Err(_) => 0,
                    };
                    proof {
                        vstd::arithmetic::mul::lemma_mul_upper_bound(
                            duration_marquee_ms as int,
                            DURATION_CAP_MS as int,
                            w100 as int,
                            6553600,
                        );
                        vstd::arithmetic::mul::lemma_mul_nonnegative(
                            duration_marquee_ms as int,
                            w100 as int,
                        );
                        vstd::arithmetic::div_mod::lemma_div_nonincreasing(
                            (duration_marquee_ms as int) * (w100 as int),
                            width_cp as int + w100 as int,
                        );
                        vstd::arithmetic::div_mod::lemma_div_pos_is_pos(
                            (duration_marquee_ms as int) * (w100 as int),
                            width_cp as int + w100 as int,
                        );
                        vstd::arithmetic::mul::lemma_mul_upper_bound(
                            occ_w as int,
                            DIMENSION_CAP_CP as int,
                            duration_marquee_ms as int,
                            DURATION_CAP_MS as int,
                        );
                        vstd::arithmetic::mul::lemma_mul_nonnegative(
                            occ_w as int,
                            duration_marquee_ms as int,
                        );
                        vstd::arithmetic::div_mod::lemma_div_nonincreasing(
                            (occ_w as int) * (duration_marquee_ms as int),
                            occ_w as int + w100 as int,
                        );
                        vstd::arithmetic::div_mod::lemma_div_pos_is_pos(
                            (occ_w as int) * (duration_marquee_ms as int),
                            occ_w as int + w100 as int,
                        );
                    }
                    let threshold: i64 = c.timeline_ms - (duration_marquee_ms as i64) + (
                    duration_marquee_ms as i64) * w100 / (width_cp as i64 + w100);
                    blocks = occ.timeline_ms > threshold || occ.timeline_ms + occ_w * (
                    duration_marquee_ms as i64) / (occ_w + w100) > c.timeline_ms;
                }
                proof {
                    assert(blocks == spec_blocks(
                        comments@[t as int],
                        cc,
                        moving,
                        width,
                        duration_marquee_ms,
                        duration_still_ms,
                    ));
                }
                if blocks {
                    return res;
                }
            }
        }
        prev = slot;
        cur = cur + 1;
        res = res + 1;
    }
    res
}

/// The row the forced-placement fallback chooses: the first entirely
/// vacant row in the scanned range if one exists, else the scanned row
/// whose occupant has the earliest timeline (ties keep the earliest
/// such row).
pub open spec fn spec_find_alternative_row(
    pool: Seq<Option<usize>>,
    comments: Seq<Comment>,
    bound: int,
    res: int,
    row: int,
) -> int
    decreases bound - row,
{
    if row >= bound {
        res
    } else {
        match pool[row] {
            Option::None => row,
            Option::Some(t) => {
                let new_res = if pool[res] matches Option::Some(r) && comments[t as int].timeline_ms
                    < comments[r as int].timeline_ms {
                    row
                } else {
                    res
                };
                spec_find_alternative_row(pool, comments, bound, new_res, row + 1)
            },
        }
    }
}

/// The number of rows scanned by the fallback: the row span below the
/// reserved region that could hold the whole comment, never negative.
pub open spec fn spec_alternative_bound(c: Comment, height: u32, bottom_reserved: u32) -> int {
    let b = height - bottom_reserved - spec_needed_rows(c.data->Normal_0.height_cp);
    if b >= 0 {
        b
    } else {
        0
    }
}

/// Picks the forced-placement row: the first vacant row, else the row
/// whose occupant went on screen earliest.
#[verifier::loop_isolation(false)]
pub fn find_alternative_row(
    rows: &Rows,
    comments: &Vec<Comment>,
    comment_index: usize,
    height: u32,
    bottom_reserved: u32,
) -> (res: usize)
    requires
        spec_layout_args_wf(
            rows_view(rows@),
            comments@,
            comment_index as int,
            1,
            height,
            bottom_reserved,
            0,
            0,
        ),
    ensures
        res == spec_find_alternative_row(
            rows_view(rows@)[comments@[comment_index as int].pos.spec_row_index()],
            comments@,
            spec_alternative_bound(comments@[comment_index as int], height, bottom_reserved),
            0,
            0,
        ),
        res <= height - bottom_reserved,
{
    let c = &comments[comment_index];
    let pid = c.pos.row_index();
    let height_cp: u64 = match c.data.as_normal() {
        Ok(d) => d.height_cp,
        Err(_) => 0,
    };
    let needed: u64 = (height_cp + 99) / 100;
    let region: u64 = (height - bottom_reserved) as u64;
    let bound: usize = if needed > region {
        0
    } else {
        (region - needed) as usize
    };
    let ghost pool = rows_view(rows@)[c.pos.spec_row_index()];
    let ghost cc = comments@[comment_index as int];
    proof {
        assert(bound as int == spec_alternative_bound(cc, height, bottom_reserved));
        assert(rows@[pid as int]@ == pool);
    }
    let mut res: usize = 0;
    let mut row: usize = 0;
    while row < bound
        invariant
            spec_layout_args_wf(rows_view(rows@), comments@, comment_index as int, 1, height,
                bottom_reserved, 0, 0),
            pool == rows_view(rows@)[cc.pos.spec_row_index()],
            cc == comments@[comment_index as int],
            pid == cc.pos.spec_row_index(),
            bound <= height - bottom_reserved,
            bound <= pool.len(),
            row <= bound,
            res == 0 || res < row,
            row > 0 ==> pool[res as int] is Some,
            spec_find_alternative_row(pool, comments@, bound as int, 0, 0)
                == spec_find_alternative_row(pool, comments@, bound as int, res as int, row as int),
        decreases bound - row,
    {
        let slot: Option<usize> = rows[pid][row];
        proof {
            assert(slot == pool[row as int]);
            assert(spec_slot_wf(pool[row as int], comments@));
            assert(spec_slot_wf(pool[res as int], comments@));
        }
        match slot {
            None => {
                proof {
                    assert(spec_find_alternative_row(
                        pool,
                        comments@,
                        bound as int,
                        res as int,
                        row as int,
                    ) == row as int);
                }
                return row;
            },
            Some(t) => {
                let occ = &comments[t];
                let take: bool = match rows[pid][res] {
                    Some(r) => occ.timeline_ms < comments[r].timeline_ms,
                    None => false,
                };
                proof {
                    let new_res: int = if take {
                        row as int
                    } else {
                        res as int
                    };
                    assert(spec_find_alternative_row(
                        pool,
                        comments@,
                        bound as int,
                        res as int,
                        row as int,
                    ) == spec_find_alternative_row(
                        pool,
                        comments@,
                        bound as int,
                        new_res,
                        row as int + 1,
                    ));
                }
                if take {
                    res = row;
                }
            },
        }
        row = row + 1;
    }
    res
}

/// The pool after the span `[row, row + needed)` is claimed by the
/// comment, clipped at the pool's end.
pub open spec fn spec_mark_rows(
    pool: Seq<Option<usize>>,
    comment_index: usize,
    row: int,
    needed: int,
) -> Seq<Option<usize>> {
    Seq::new(
        pool.len(),
        |i: int|
            if row <= i < row + needed {
                Option::Some(comment_index)
            } else {
                pool[i]
            },
    )
}

/// Marks the chosen row span as occupied by the comment for subsequent
/// probes; rows past the end of the pool are silently clipped.
#[verifier::loop_isolation(false)]
pub fn mark_comment_row(
    rows: &mut Rows,
    comments: &Vec<Comment>,
    comment_index: usize,
    row: usize,
)
    requires
        spec_rows_wf(rows_view(old(rows)@), comments@),
        comment_index < comments@.len(),
        comments@[comment_index as int].wf(),
        comments@[comment_index as int].data is Normal,
        comments@[comment_index as int].pos.spec_row_index() < old(rows)@.len(),
    ensures
        final(rows)@.len() == old(rows)@.len(),
        spec_rows_wf(rows_view(final(rows)@), comments@),
        ({
            let pid = comments@[comment_index as int].pos.spec_row_index();
            let needed = spec_needed_rows(comments@[comment_index as int].data->Normal_0.height_cp);
            &&& rows_view(final(rows)@)[pid] == spec_mark_rows(
                rows_view(old(rows)@)[pid],
                comment_index,
                row as int,
                needed,
            )
            &&& forall|p: int|
                0 <= p < old(rows)@.len() && p != pid ==> rows_view(final(rows)@)[p] == rows_view(
                    old(rows)@,
                )[p]
        }),
{
    let c = &comments[comment_index];
    let pid = c.pos.row_index();
    let height_cp: u64 = match c.data.as_normal() {
        Ok(d) => d.height_cp,
        Err(_) => 0,
    };
    let needed: u64 = (height_cp + 99) / 100;
    let ghost pool0 = rows_view(old(rows)@)[pid as int];
    let pool_len: usize = rows[pid].len();
    let mut i: usize = row;
    let mut steps: u64 = 0;
    while steps < needed && i < pool_len
        invariant
            pid == comments@[comment_index as int].pos.spec_row_index(),
            pid < rows@.len(),
            needed == spec_needed_rows(comments@[comment_index as int].data->Normal_0.height_cp),
            comment_index < comments@.len(),
            comments@[comment_index as int].wf(),
            comments@[comment_index as int].data is Normal,
            rows@.len() == old(rows)@.len(),
            pool_len == rows@[pid as int]@.len(),
            pool0.len() == pool_len,
            i == row + steps,
            steps <= needed,
            forall|p: int|
                0 <= p < rows@.len() && p != pid ==> rows_view(rows@)[p] == rows_view(
                    old(rows)@,
                )[p],
            forall|j: int|
                0 <= j < pool_len ==> rows_view(rows@)[pid as int][j] == (if row <= j < i {
                    Option::Some(comment_index)
                } else {
                    pool0[j]
                }),
        decreases needed - steps,
    {
        let ghost prev_rows = rows@;
        let inner: &mut Vec<Option<usize>> = &mut rows[pid];
        inner.set(i, Some(comment_index));
        proof {
            assert(rows@[pid as int]@ =~= prev_rows[pid as int]@.update(
                i as int,
                Option::Some(comment_index),
            ));
            assert(forall|p: int|
                0 <= p < rows@.len() && p != pid ==> rows@[p] == prev_rows[p]);
            assert(rows_view(rows@)[pid as int] == rows@[pid as int]@);
            assert(rows_view(prev_rows)[pid as int] == prev_rows[pid as int]@);
            assert(forall|p: int|
                0 <= p < rows@.len() && p != pid ==> #[trigger] rows_view(rows@)[p]
                    == prev_rows[p]@);
            assert(forall|p: int|
                0 <= p < rows@.len() && p != pid ==> #[trigger] rows_view(prev_rows)[p]
                    == prev_rows[p]@);
        }
        i = i + 1;
        steps = steps + 1;
    }
    proof {
        let pid_i = pid as int;
        let needed_i = needed as int;
        assert(rows_view(rows@)[pid_i] =~= spec_mark_rows(
            pool0,
            comment_index,
            row as int,
            needed_i,
        ));
        assert forall|p: int, j: int|
            0 <= p < rows_view(rows@).len() && 0 <= j < rows_view(rows@)[p].len() implies spec_slot_wf(
            #[trigger] rows_view(rows@)[p][j],
            comments@,
        ) by {
            if p != pid_i {
                assert(rows_view(rows@)[p] == rows_view(old(rows)@)[p]);
                assert(spec_slot_wf(rows_view(old(rows)@)[p][j], comments@));
            } else {
                assert(spec_slot_wf(pool0[j], comments@));
            }
        }
    }
}

} // verus!

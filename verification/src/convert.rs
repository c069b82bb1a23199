//! Pipeline orchestration on decoded comments: keyword and color
//! filtering, the deterministic total sort, and driving the row layout
//! and markup writer over the sorted sequence.

use vstd::prelude::*;
use vstd::relations::sorted_by;
use vstd::seq_lib::lemma_multiset_commutative;
use vstd::string::{StrSliceExecFns, StringExecFns};
use crate::comment::{Comment, CommentData, CommentPosition};
use crate::error::BiliassError;
use crate::filter::{any_keyword_matches, spec_any_keyword_matches, spec_patterns_of, BlockOptions};
use crate::text::str_eq;
use crate::writer::ass::{
    spec_write_head, spec_write_normal_comment, spec_write_special_comment, spec_zero_rotation,
    write_head, write_normal_comment, write_special_comment, zero_rotation_params, SpecialAnim,
    FONT_SIZE_CAP, OPACITY_CAP_PM,
};
use crate::writer::rows::{
    init_rows, rows_view, spec_layout_args_wf, spec_rows_wf, Rows, DURATION_CAP_MS, STAGE_DIM_CAP,
};
use crate::writer::utils::ZoomFactor;

verus! {

// ------------------------------------------------------------------
// The deterministic total sort
// ------------------------------------------------------------------
/// Strict lexicographic order on character sequences, by scalar value.
pub open spec fn spec_str_lt(a: Seq<char>, b: Seq<char>) -> bool
    decreases a.len(),
{
    if a.len() == 0 {
        b.len() > 0
    } else if b.len() == 0 {
        false
    } else if (a[0] as u32) < (b[0] as u32) {
        true
    } else if (a[0] as u32) > (b[0] as u32) {
        false
    } else {
        spec_str_lt(a.skip(1), b.skip(1))
    }
}

/// Whether two payloads agree in everything the writer can observe:
/// same variant and equal fields, text compared by its characters.
pub open spec fn spec_data_view_eq(a: CommentData, b: CommentData) -> bool {
    match (a, b) {
        (CommentData::Normal(x), CommentData::Normal(y)) => x.height_cp == y.height_cp
            && x.width_cp == y.width_cp,
        (CommentData::Special(x), CommentData::Special(y)) => {
            &&& x.rotate_y == y.rotate_y
            &&& x.rotate_z == y.rotate_z
            &&& x.from_x_cp == y.from_x_cp
            &&& x.from_y_cp == y.from_y_cp
            &&& x.to_x_cp == y.to_x_cp
            &&& x.to_y_cp == y.to_y_cp
            &&& x.from_alpha == y.from_alpha
            &&& x.to_alpha == y.to_alpha
            &&& x.delay_ms == y.delay_ms
            &&& x.lifetime_ms == y.lifetime_ms
            &&& x.duration_ms == y.duration_ms
            &&& x.fontface@ == y.fontface@
            &&& x.is_border == y.is_border
        },
        _ => false,
    }
}

/// Strict order on payloads: regular before scripted, then the fields
/// in declaration order, text by its characters.
pub open spec fn spec_data_lt(a: CommentData, b: CommentData) -> bool {
    match (a, b) {
        (CommentData::Normal(x), CommentData::Normal(y)) => if x.height_cp != y.height_cp {
            x.height_cp < y.height_cp
        } else {
            x.width_cp < y.width_cp
        },
        (CommentData::Normal(_), CommentData::Special(_)) => true,
        (CommentData::Special(_), CommentData::Normal(_)) => false,
        (CommentData::Special(x), CommentData::Special(y)) => if x.rotate_y != y.rotate_y {
            x.rotate_y < y.rotate_y
        } else if x.rotate_z != y.rotate_z {
            x.rotate_z < y.rotate_z
        } else if x.from_x_cp != y.from_x_cp {
            x.from_x_cp < y.from_x_cp
        } else if x.from_y_cp != y.from_y_cp {
            x.from_y_cp < y.from_y_cp
        } else if x.to_x_cp != y.to_x_cp {
            x.to_x_cp < y.to_x_cp
        } else if x.to_y_cp != y.to_y_cp {
            x.to_y_cp < y.to_y_cp
        } else if x.from_alpha != y.from_alpha {
            x.from_alpha < y.from_alpha
        } else if x.to_alpha != y.to_alpha {
            x.to_alpha < y.to_alpha
        } else if x.delay_ms != y.delay_ms {
            x.delay_ms < y.delay_ms
        } else if x.lifetime_ms != y.lifetime_ms {
            x.lifetime_ms < y.lifetime_ms
        } else if x.duration_ms != y.duration_ms {
            x.duration_ms < y.duration_ms
        } else if x.fontface@ != y.fontface@ {
            spec_str_lt(x.fontface@, y.fontface@)
        } else if x.is_border != y.is_border {
            !x.is_border
        } else {
            false
        },
    }
}

/// The sort's total order: timeline, then submission time, then
/// sequence number, then content, then position, then color, then
/// size, then the payload. Two comments the order does not separate
/// agree in every field the writer reads, so the emitted script never
/// depends on how a tie is resolved.
pub open spec fn spec_comment_le(a: Comment, b: Comment) -> bool {
    if a.timeline_ms != b.timeline_ms {
        a.timeline_ms < b.timeline_ms
    } else if a.timestamp != b.timestamp {
        a.timestamp < b.timestamp
    } else if a.no != b.no {
        a.no < b.no
    } else if a.content@ != b.content@ {
        spec_str_lt(a.content@, b.content@)
    } else if a.pos.spec_rank() != b.pos.spec_rank() {
        a.pos.spec_rank() < b.pos.spec_rank()
    } else if a.color != b.color {
        a.color < b.color
    } else if a.size_cp != b.size_cp {
        a.size_cp < b.size_cp
    } else if !spec_data_view_eq(a.data, b.data) {
        spec_data_lt(a.data, b.data)
    } else {
        true
    }
}

proof fn lemma_str_lt_connected(a: Seq<char>, b: Seq<char>)
    requires
        !spec_str_lt(a, b),
        !spec_str_lt(b, a),
    ensures
        a == b,
    decreases a.len(),
{
    if a.len() == 0 {
        assert(b.len() == 0);
        assert(a =~= b);
    } else {
        assert(b.len() > 0);
        lemma_str_lt_connected(a.skip(1), b.skip(1));
        assert(a[0] == b[0]) by {
            assert((a[0] as u32) >= (b[0] as u32));
            assert((b[0] as u32) >= (a[0] as u32));
            assert((a[0] as u32) == (b[0] as u32));
            crate::convert::lemma_char_eq_by_scalar(a[0], b[0]);
        }
        assert(a =~= seq![a[0]] + a.skip(1));
        assert(b =~= seq![b[0]] + b.skip(1));
    }
}

/// Two characters with the same scalar value are the same character.
proof fn lemma_char_eq_by_scalar(x: char, y: char)
    requires
        (x as u32) == (y as u32),
    ensures
        x == y,
{
}

proof fn lemma_str_lt_trans(a: Seq<char>, b: Seq<char>, c: Seq<char>)
    requires
        spec_str_lt(a, b),
        spec_str_lt(b, c),
    ensures
        spec_str_lt(a, c),
    decreases a.len(),
{
    if a.len() == 0 {
    } else {
        assert(b.len() > 0);
        assert(c.len() > 0);
        if (a[0] as u32) == (b[0] as u32) && (b[0] as u32) == (c[0] as u32) {
            lemma_str_lt_trans(a.skip(1), b.skip(1), c.skip(1));
        }
    }
}

/// The sort's order relates every pair of comments.
pub proof fn lemma_comment_le_total(a: Comment, b: Comment)
    ensures
        spec_comment_le(a, b) || spec_comment_le(b, a),
{
    if a.content@ != b.content@ {
        if !spec_str_lt(a.content@, b.content@) && !spec_str_lt(b.content@, a.content@) {
            lemma_str_lt_connected(a.content@, b.content@);
        }
    }
    if !spec_data_lt(a.data, b.data) && !spec_data_lt(b.data, a.data) {
        lemma_data_lt_connected(a.data, b.data);
    }
}

proof fn lemma_str_lt_irreflexive(a: Seq<char>)
    ensures
        !spec_str_lt(a, a),
    decreases a.len(),
{
    if a.len() > 0 {
        lemma_str_lt_irreflexive(a.skip(1));
    }
}

proof fn lemma_data_lt_connected(a: CommentData, b: CommentData)
    requires
        !spec_data_lt(a, b),
        !spec_data_lt(b, a),
    ensures
        spec_data_view_eq(a, b),
{
    match (a, b) {
        (CommentData::Special(x), CommentData::Special(y)) => {
            if x.fontface@ != y.fontface@ {
                lemma_str_lt_connected(x.fontface@, y.fontface@);
            }
        },
        _ => {},
    }
}

proof fn lemma_data_lt_trans(a: CommentData, b: CommentData, c: CommentData)
    requires
        spec_data_lt(a, b),
        spec_data_lt(b, c),
    ensures
        spec_data_lt(a, c),
{
    match (a, b, c) {
        (CommentData::Special(x), CommentData::Special(y), CommentData::Special(z)) => {
            if spec_str_lt(x.fontface@, y.fontface@) && spec_str_lt(y.fontface@, z.fontface@) {
                lemma_str_lt_trans(x.fontface@, y.fontface@, z.fontface@);
            }
            lemma_str_lt_irreflexive(x.fontface@);
            lemma_str_lt_irreflexive(y.fontface@);
            lemma_str_lt_irreflexive(z.fontface@);
        },
        _ => {},
    }
}

proof fn lemma_data_lt_asymmetric(a: CommentData, b: CommentData)
    requires
        spec_data_lt(a, b),
    ensures
        !spec_data_lt(b, a),
{
    match (a, b) {
        (CommentData::Special(x), CommentData::Special(y)) => {
            if spec_str_lt(x.fontface@, y.fontface@) && spec_str_lt(y.fontface@, x.fontface@) {
                lemma_str_lt_trans(x.fontface@, y.fontface@, x.fontface@);
            }
            lemma_str_lt_irreflexive(x.fontface@);
            lemma_str_lt_irreflexive(y.fontface@);
        },
        _ => {},
    }
}

/// The sort's order is transitive.
pub proof fn lemma_comment_le_trans(a: Comment, b: Comment, c: Comment)
    requires
        spec_comment_le(a, b),
        spec_comment_le(b, c),
    ensures
        spec_comment_le(a, c),
{
    if spec_str_lt(a.content@, b.content@) && spec_str_lt(b.content@, c.content@) {
        lemma_str_lt_trans(a.content@, b.content@, c.content@);
    }
    lemma_str_lt_irreflexive(a.content@);
    lemma_str_lt_irreflexive(b.content@);
    lemma_str_lt_irreflexive(c.content@);
    if spec_data_lt(a.data, b.data) && spec_data_lt(b.data, c.data) {
        lemma_data_lt_trans(a.data, b.data, c.data);
    }
    if !spec_data_lt(a.data, b.data) && !spec_data_lt(b.data, a.data) {
        lemma_data_lt_connected(a.data, b.data);
    }
    if !spec_data_lt(b.data, c.data) && !spec_data_lt(c.data, b.data) {
        lemma_data_lt_connected(b.data, c.data);
    }
    if spec_data_lt(a.data, b.data) {
        lemma_data_lt_asymmetric(a.data, b.data);
    }
    if spec_data_lt(b.data, c.data) {
        lemma_data_lt_asymmetric(b.data, c.data);
    }
}

/// Two comments the order places on both sides of each other agree in
/// every field the writer reads: with sortedness and multiset equality
/// this pins the sorted sequence's observable content, so a conversion
/// rerun emits the identical script.
pub proof fn lemma_comment_le_antisymmetric(a: Comment, b: Comment)
    requires
        spec_comment_le(a, b),
        spec_comment_le(b, a),
    ensures
        a.timeline_ms == b.timeline_ms,
        a.timestamp == b.timestamp,
        a.no == b.no,
        a.content@ == b.content@,
        a.pos == b.pos,
        a.color == b.color,
        a.size_cp == b.size_cp,
        spec_data_view_eq(a.data, b.data),
{
    if a.content@ != b.content@ {
        lemma_str_lt_irreflexive(a.content@);
        lemma_str_lt_trans(a.content@, b.content@, a.content@);
    }
    if !spec_data_view_eq(a.data, b.data) {
        lemma_data_lt_asymmetric(a.data, b.data);
    }
}

/// Strict lexicographic comparison of two strings by character scalar
/// values.
#[verifier::loop_isolation(false)]
pub fn str_lt(a: &str, b: &str) -> (r: bool)
    ensures
        r == spec_str_lt(a@, b@),
{
    let na: usize = a.unicode_len();
    let nb: usize = b.unicode_len();
    let mut i: usize = 0;
    proof {
        assert(a@.skip(0) =~= a@);
        assert(b@.skip(0) =~= b@);
    }
    while i < na && i < nb
        invariant
            i <= na,
            i <= nb,
            na == a@.len(),
            nb == b@.len(),
            spec_str_lt(a@, b@) == spec_str_lt(a@.skip(i as int), b@.skip(i as int)),
        decreases na - i,
    {
        let ca = a.get_char(i);
        let cb = b.get_char(i);
        if (ca as u32) < (cb as u32) {
            return true;
        }
        if (ca as u32) > (cb as u32) {
            return false;
        }
        proof {
            assert(a@.skip(i as int).skip(1) =~= a@.skip(i as int + 1));
            assert(b@.skip(i as int).skip(1) =~= b@.skip(i as int + 1));
        }
        i = i + 1;
    }
    i >= na && i < nb
}

fn data_view_eq(a: &CommentData, b: &CommentData) -> (r: bool)
    ensures
        r == spec_data_view_eq(*a, *b),
{
    match (a, b) {
        (CommentData::Normal(x), CommentData::Normal(y)) => x.height_cp == y.height_cp
            && x.width_cp == y.width_cp,
        (CommentData::Special(x), CommentData::Special(y)) => x.rotate_y == y.rotate_y
            && x.rotate_z == y.rotate_z && x.from_x_cp == y.from_x_cp && x.from_y_cp
            == y.from_y_cp && x.to_x_cp == y.to_x_cp && x.to_y_cp == y.to_y_cp && x.from_alpha
            == y.from_alpha && x.to_alpha == y.to_alpha && x.delay_ms == y.delay_ms
            && x.lifetime_ms == y.lifetime_ms && x.duration_ms == y.duration_ms && str_eq(
            x.fontface.as_str(),
            y.fontface.as_str(),
        ) && x.is_border == y.is_border,
        _ => false,
    }
}

fn data_lt(a: &CommentData, b: &CommentData) -> (r: bool)
    ensures
        r == spec_data_lt(*a, *b),
{
    match (a, b) {
        (CommentData::Normal(x), CommentData::Normal(y)) => {
            if x.height_cp != y.height_cp {
                x.height_cp < y.height_cp
            } else {
                x.width_cp < y.width_cp
            }
        },
        (CommentData::Normal(_), CommentData::Special(_)) => true,
        (CommentData::Special(_), CommentData::Normal(_)) => false,
        (CommentData::Special(x), CommentData::Special(y)) => {
            if x.rotate_y != y.rotate_y {
                x.rotate_y < y.rotate_y
            } else if x.rotate_z != y.rotate_z {
                x.rotate_z < y.rotate_z
            } else if x.from_x_cp != y.from_x_cp {
                x.from_x_cp < y.from_x_cp
            } else if x.from_y_cp != y.from_y_cp {
                x.from_y_cp < y.from_y_cp
            } else if x.to_x_cp != y.to_x_cp {
                x.to_x_cp < y.to_x_cp
            } else if x.to_y_cp != y.to_y_cp {
                x.to_y_cp < y.to_y_cp
            } else if x.from_alpha != y.from_alpha {
                x.from_alpha < y.from_alpha
            } else if x.to_alpha != y.to_alpha {
                x.to_alpha < y.to_alpha
            } else if x.delay_ms != y.delay_ms {
                x.delay_ms < y.delay_ms
            } else if x.lifetime_ms != y.lifetime_ms {
                x.lifetime_ms < y.lifetime_ms
            } else if x.duration_ms != y.duration_ms {
                x.duration_ms < y.duration_ms
            } else if !str_eq(x.fontface.as_str(), y.fontface.as_str()) {
                str_lt(x.fontface.as_str(), y.fontface.as_str())
            } else if x.is_border != y.is_border {
                !x.is_border
            } else {
                false
            }
        },
    }
}

/// The sort's comparison on comments.
pub fn comment_le(a: &Comment, b: &Comment) -> (r: bool)
    ensures
        r == spec_comment_le(*a, *b),
{
    if a.timeline_ms != b.timeline_ms {
        a.timeline_ms < b.timeline_ms
    } else if a.timestamp != b.timestamp {
        a.timestamp < b.timestamp
    } else if a.no != b.no {
        a.no < b.no
    } else if !str_eq(a.content.as_str(), b.content.as_str()) {
        str_lt(a.content.as_str(), b.content.as_str())
    } else if a.pos.rank() != b.pos.rank() {
        a.pos.rank() < b.pos.rank()
    } else if a.color != b.color {
        a.color < b.color
    } else if a.size_cp != b.size_cp {
        a.size_cp < b.size_cp
    } else if !data_view_eq(&a.data, &b.data) {
        data_lt(&a.data, &b.data)
    } else {
        true
    }
}

proof fn lemma_insert_to_multiset(s: Seq<Comment>, p: int, a: Comment)
    requires
        0 <= p <= s.len(),
    ensures
        s.insert(p, a).to_multiset() =~= s.to_multiset().insert(a),
{
    broadcast use vstd::seq_lib::group_to_multiset_ensures;

    let t = s.insert(p, a);
    let left = s.subrange(0, p);
    let right = s.subrange(p, s.len() as int);
    assert(t =~= left + (seq![a] + right));
    assert(s =~= left + right);
    lemma_multiset_commutative(left, seq![a] + right);
    lemma_multiset_commutative(seq![a], right);
    lemma_multiset_commutative(left, right);
    assert(seq![a] =~= Seq::<Comment>::empty().push(a));
    assert(Seq::<Comment>::empty().push(a).to_multiset() =~= vstd::multiset::Multiset::<Comment>::empty().insert(
        a,
    )) by {
        assert(Seq::<Comment>::empty().to_multiset().len() == 0);
        assert(Seq::<Comment>::empty().to_multiset() =~= vstd::multiset::Multiset::<Comment>::empty());
    }
}

/// Sorts the comments by the deterministic total order, keeping
/// exactly the same comments.
#[verifier::loop_isolation(false)]
pub fn sort_comments(comments: &Vec<Comment>) -> (r: Vec<Comment>)
    ensures
        sorted_by(r@, |x: Comment, y: Comment| spec_comment_le(x, y)),
        r@.to_multiset() == comments@.to_multiset(),
        r@.len() == comments@.len(),
{
    broadcast use vstd::seq_lib::group_to_multiset_ensures;

    let ghost le = |x: Comment, y: Comment| spec_comment_le(x, y);
    let mut out: Vec<Comment> = Vec::new();
    let mut i: usize = 0;
    proof {
        assert(comments@.take(0) =~= Seq::<Comment>::empty());
        assert(out@.to_multiset() =~= comments@.take(0).to_multiset());
    }
    while i < comments.len()
        invariant
            i <= comments@.len(),
            out@.len() == i,
            sorted_by(out@, le),
            out@.to_multiset() == comments@.take(i as int).to_multiset(),
        decreases comments@.len() - i,
    {
        let c = comments[i].clone();
        let mut p: usize = 0;
        while p < out.len() && comment_le(&out[p], &c)
            invariant
                p <= out@.len(),
                out@.len() == i,
                sorted_by(out@, le),
                forall|k: int| 0 <= k < p ==> le(out@[k], c),
            decreases out@.len() - p,
        {
            p = p + 1;
        }
        proof {
            assert forall|k: int| p <= k < out@.len() implies le(c, out@[k]) by {
                lemma_comment_le_total(out@[p as int], c);
                assert(le(c, out@[p as int]));
                if k > p {
                    assert(le(out@[p as int], out@[k]));
                    lemma_comment_le_trans(c, out@[p as int], out@[k]);
                }
            }
            let newseq = out@.insert(p as int, c);
            assert forall|x: int, y: int| 0 <= x < y < newseq.len() implies le(
                newseq[x],
                newseq[y],
            ) by {
                if y < p {
                    assert(newseq[x] == out@[x] && newseq[y] == out@[y]);
                } else if x > p {
                    assert(newseq[x] == out@[x - 1] && newseq[y] == out@[y - 1]);
                } else if y == p {
                    assert(newseq[x] == out@[x] && newseq[y] == c);
                } else if x == p {
                    assert(newseq[y] == out@[y - 1]);
                    assert(le(c, out@[y - 1]));
                } else {
                    assert(newseq[x] == out@[x] && newseq[y] == out@[y - 1]);
                    if y - 1 >= p {
                        assert(le(out@[x], c)); 
                        assert(le(c, out@[y - 1]));
                        lemma_comment_le_trans(out@[x], c, out@[y - 1]);
                    }
                }
            }
            lemma_insert_to_multiset(out@, p as int, c);
            assert(comments@.take(i as int + 1).drop_last() =~= comments@.take(i as int));
            assert(comments@.take(i as int + 1) =~= comments@.take(i as int).push(
                comments@[i as int],
            ));
        }
        out.insert(p, c);
        i = i + 1;
    }
    proof {
        assert(comments@.take(comments@.len() as int) =~= comments@);
        out@.to_multiset_ensures();
        comments@.to_multiset_ensures();
    }
    out
}

// ------------------------------------------------------------------
// Filtering
// ------------------------------------------------------------------
/// Whether the comment survives the keyword-exclusion patterns.
pub open spec fn spec_keyword_keeps(patterns: Seq<Seq<char>>, c: Comment) -> bool {
    !spec_any_keyword_matches(patterns, c.content@)
}

/// Whether the comment survives the colorful filter.
pub open spec fn spec_colorful_keeps(block_colorful: bool, c: Comment) -> bool {
    !block_colorful || c.color == 0xffffff
}

/// The comments that survive the keyword and colorful filters, in
/// order.
pub open spec fn spec_filter_comments(comments: Seq<Comment>, opts: &BlockOptions) -> Seq<
    Comment,
> {
    let pats = spec_patterns_of(opts.block_keyword_patterns@);
    comments.filter(|c: Comment| spec_keyword_keeps(pats, c)).filter(
        |c: Comment| spec_colorful_keeps(opts.block_colorful, c),
    )
}

#[verifier::loop_isolation(false)]
fn retain_keyword(comments: Vec<Comment>, opts: &BlockOptions) -> (r: Vec<Comment>)
    ensures
        r@ == comments@.filter(
            |c: Comment| spec_keyword_keeps(spec_patterns_of(opts.block_keyword_patterns@), c),
        ),
{
    let ghost pred = |c: Comment|
        spec_keyword_keeps(spec_patterns_of(opts.block_keyword_patterns@), c);
    let mut out: Vec<Comment> = Vec::new();
    let mut i: usize = 0;
    proof {
        reveal_with_fuel(Seq::<Comment>::filter, 2);
        assert(comments@.take(0) =~= Seq::<Comment>::empty());
        assert(comments@.take(0).filter(pred) =~= Seq::<Comment>::empty());
        assert(out@ =~= comments@.take(0).filter(pred));
    }
    while i < comments.len()
        invariant
            i <= comments@.len(),
            out@ == comments@.take(i as int).filter(pred),
        decreases comments@.len() - i,
    {
        proof {
            assert(comments@.take(i as int + 1).drop_last() =~= comments@.take(i as int));
        }
        let keep = !any_keyword_matches(
            &opts.block_keyword_patterns,
            comments[i].content.as_str(),
        );
        proof {
            reveal_with_fuel(Seq::<Comment>::filter, 2);
            assert(keep == pred(comments@[i as int]));
            let s1 = comments@.take(i as int + 1);
            assert(s1.len() == i + 1);
            assert(s1.drop_last() =~= comments@.take(i as int));
            assert(s1.last() == comments@[i as int]);
            assert(s1.filter(pred) == (if pred(s1.last()) {
                s1.drop_last().filter(pred).push(s1.last())
            } else {
                s1.drop_last().filter(pred)
            }));
        }
        if keep {
            let c = comments[i].clone();
            out.push(c);
        }
        i = i + 1;
    }
    proof {
        assert(comments@.take(comments@.len() as int) =~= comments@);
    }
    out
}

#[verifier::loop_isolation(false)]
fn retain_colorful(comments: Vec<Comment>, block_colorful: bool) -> (r: Vec<Comment>)
    ensures
        r@ == comments@.filter(|c: Comment| spec_colorful_keeps(block_colorful, c)),
{
    let ghost pred = |c: Comment| spec_colorful_keeps(block_colorful, c);
    let mut out: Vec<Comment> = Vec::new();
    let mut i: usize = 0;
    proof {
        reveal_with_fuel(Seq::<Comment>::filter, 2);
        assert(comments@.take(0) =~= Seq::<Comment>::empty());
        assert(comments@.take(0).filter(pred) =~= Seq::<Comment>::empty());
        assert(out@ =~= comments@.take(0).filter(pred));
    }
    while i < comments.len()
        invariant
            i <= comments@.len(),
            out@ == comments@.take(i as int).filter(pred),
        decreases comments@.len() - i,
    {
        proof {
            assert(comments@.take(i as int + 1).drop_last() =~= comments@.take(i as int));
        }
        let keep = !block_colorful || comments[i].color == 0xffffff;
        proof {
            reveal_with_fuel(Seq::<Comment>::filter, 2);
            assert(keep == pred(comments@[i as int]));
            let s1 = comments@.take(i as int + 1);
            assert(s1.len() == i + 1);
            assert(s1.drop_last() =~= comments@.take(i as int));
            assert(s1.last() == comments@[i as int]);
            assert(s1.filter(pred) == (if pred(s1.last()) {
                s1.drop_last().filter(pred).push(s1.last())
            } else {
                s1.drop_last().filter(pred)
            }));
        }
        if keep {
            let c = comments[i].clone();
            out.push(c);
        }
        i = i + 1;
    }
    proof {
        assert(comments@.take(comments@.len() as int) =~= comments@);
    }
    out
}

/// Applies the keyword-exclusion patterns, then the colorful filter.
pub fn filter_comments(comments: Vec<Comment>, block_options: &BlockOptions) -> (r: Vec<Comment>)
    ensures
        r@ == spec_filter_comments(comments@, block_options),
{
    let kept = retain_keyword(comments, block_options);
    retain_colorful(kept, block_options.block_colorful)
}

// ------------------------------------------------------------------
// Processing
// ------------------------------------------------------------------
/// The transform a special comment is rendered with: the supplied one
/// when present, the degenerate pure-translation transform when both
/// rotation angles are zero, nothing otherwise (the comment is then
/// skipped).
pub open spec fn spec_chosen_anim(c: Comment, supplied: Option<SpecialAnim>) -> Option<
    SpecialAnim,
> {
    match supplied {
        Option::Some(a) => Option::Some(a),
        Option::None => {
            let d = c.data->Special_0;
            if d.rotate_y == 0 && d.rotate_z == 0 {
                Option::Some(
                    SpecialAnim {
                        from_params: spec_zero_rotation(d.from_x_cp as int, d.from_y_cp as int),
                        to_params: spec_zero_rotation(d.to_x_cp as int, d.to_y_cp as int),
                    },
                )
            } else {
                Option::None
            }
        },
    }
}

/// The event lines of the comments from index `i` on, threading the
/// lane pools through each placement.
pub open spec fn spec_process_from(
    comments: Seq<Comment>,
    anims: Seq<Option<SpecialAnim>>,
    i: int,
    rows: Seq<Seq<Option<usize>>>,
    width: u32,
    height: u32,
    bottom_reserved: u32,
    zoom: ZoomFactor,
    fontsize: u32,
    duration_marquee_ms: u64,
    duration_still_ms: u64,
    styleid: Seq<char>,
    reduced: bool,
) -> Seq<char>
    decreases comments.len() - i,
{
    if i < 0 || i >= comments.len() {
        Seq::<char>::empty()
    } else {
        let c = comments[i];
        if c.pos == CommentPosition::Special {
            let line = match spec_chosen_anim(c, anims[i]) {
                Option::Some(anim) => spec_write_special_comment(
                    c,
                    width,
                    height,
                    zoom,
                    anim,
                    styleid,
                ),
                Option::None => Seq::<char>::empty(),
            };
            line + spec_process_from(
                comments,
                anims,
                i + 1,
                rows,
                width,
                height,
                bottom_reserved,
                zoom,
                fontsize,
                duration_marquee_ms,
                duration_still_ms,
                styleid,
                reduced,
            )
        } else {
            let pid = c.pos.spec_row_index();
            let out = spec_write_normal_comment(
                rows[pid],
                comments,
                i,
                width,
                height,
                bottom_reserved,
                fontsize,
                duration_marquee_ms,
                duration_still_ms,
                styleid,
                reduced,
            );
            out.0 + spec_process_from(
                comments,
                anims,
                i + 1,
                rows.update(pid, out.1),
                width,
                height,
                bottom_reserved,
                zoom,
                fontsize,
                duration_marquee_ms,
                duration_still_ms,
                styleid,
                reduced,
            )
        }
    }
}

/// The reserved bottom region: the stage height times the fraction of
/// vertical space not given to comments, in per-mille, truncated.
pub open spec fn spec_bottom_reserved(height: u32, display_region_ratio_pm: u32) -> int {
    (height as int) * (1000 - display_region_ratio_pm) / 1000
}

/// The whole output of a conversion run: the header followed by the
/// event lines of the sorted comments in order.
pub open spec fn spec_process_comments(
    comments: Seq<Comment>,
    anims: Seq<Option<SpecialAnim>>,
    width: u32,
    height: u32,
    zoom: ZoomFactor,
    display_region_ratio_pm: u32,
    fontface: Seq<char>,
    fontsize: u32,
    alpha_promille: u32,
    duration_marquee_ms: u64,
    duration_still_ms: u64,
    reduced: bool,
) -> Seq<char> {
    let bottom_reserved = spec_bottom_reserved(height, display_region_ratio_pm) as u32;
    let pools = Seq::new(4, |p: int| Seq::new((height - bottom_reserved + 1) as nat, |j: int|
        Option::<usize>::None));
    spec_write_head(width, height, fontface, fontsize, alpha_promille, "biliass"@)
        + spec_process_from(
        comments,
        anims,
        0,
        pools,
        width,
        height,
        bottom_reserved,
        zoom,
        fontsize,
        duration_marquee_ms,
        duration_still_ms,
        "biliass"@,
        reduced,
    )
}

/// Validity requirements of a conversion run's inputs.
pub open spec fn spec_process_args_wf(
    comments: Seq<Comment>,
    anims: Seq<Option<SpecialAnim>>,
    width: u32,
    height: u32,
    zoom: ZoomFactor,
    display_region_ratio_pm: u32,
    fontsize: u32,
    alpha_promille: u32,
    duration_marquee_ms: u64,
    duration_still_ms: u64,
) -> bool {
    &&& forall|i: int| 0 <= i < comments.len() ==> (#[trigger] comments[i]).wf()
    &&& anims.len() == comments.len()
    &&& forall|i: int|
        0 <= i < anims.len() ==> match #[trigger] anims[i] {
            Option::Some(a) => a.wf(),
            Option::None => true,
        }
    &&& 1 <= width <= STAGE_DIM_CAP
    &&& 1 <= height <= STAGE_DIM_CAP
    &&& zoom.wf()
    &&& display_region_ratio_pm <= 1000
    &&& fontsize <= FONT_SIZE_CAP
    &&& alpha_promille <= OPACITY_CAP_PM
    &&& duration_marquee_ms <= DURATION_CAP_MS
    &&& duration_still_ms <= DURATION_CAP_MS
}

/// The reserved bottom region of the stage, in pixels.
fn compute_bottom_reserved(height: u32, display_region_ratio_pm: u32) -> (r: u32)
    requires
        1 <= height <= STAGE_DIM_CAP,
        display_region_ratio_pm <= 1000,
    ensures
        r as int == spec_bottom_reserved(height, display_region_ratio_pm),
        r <= height,
{
    proof {
        vstd::arithmetic::mul::lemma_mul_upper_bound(height as int, STAGE_DIM_CAP as int, (1000
            - display_region_ratio_pm) as int, 1000);
        vstd::arithmetic::mul::lemma_mul_nonnegative(height as int, (1000
            - display_region_ratio_pm) as int);
    }
    let r: u32 = ((height as u64) * ((1000 - display_region_ratio_pm) as u64) / 1000) as u32;
    proof {
        vstd::arithmetic::mul::lemma_mul_upper_bound(height as int, STAGE_DIM_CAP as int, (1000
            - display_region_ratio_pm) as int, 1000);
        vstd::arithmetic::mul::lemma_mul_nonnegative(height as int, (1000
            - display_region_ratio_pm) as int);
        vstd::arithmetic::div_mod::lemma_div_pos_is_pos(
            (height as int) * ((1000 - display_region_ratio_pm) as int),
            1000,
        );
        vstd::arithmetic::mul::lemma_mul_inequality((1000 - display_region_ratio_pm) as int, 1000,
            height as int);
        vstd::arithmetic::mul::lemma_mul_is_commutative(height as int, (1000
            - display_region_ratio_pm) as int);
        vstd::arithmetic::mul::lemma_mul_is_commutative(height as int, 1000);
        vstd::arithmetic::div_mod::lemma_div_is_ordered(
            (height as int) * ((1000 - display_region_ratio_pm) as int),
            (height as int) * 1000,
            1000,
        );
        vstd::arithmetic::div_mod::lemma_div_multiples_vanish(height as int, 1000);
        assert(r as int == spec_bottom_reserved(height, display_region_ratio_pm));
        assert(r <= height);
    }
    r
}

/// Emits the header and one event line per placed comment, in order:
/// the full output of a conversion run over sorted comments.
///
/// A special comment is rendered with its supplied transform; one
/// without a supplied transform is rendered unrotated when both its
/// angles are zero and dropped otherwise. A regular comment is placed
/// by the layout engine; in reduced mode one that fits nowhere is
/// dropped.
/// Renders one special comment: appends its event line, or nothing
/// when no transform is available for it.
fn process_special(
    comments: &Vec<Comment>,
    i: usize,
    supplied: Option<SpecialAnim>,
    width: u32,
    height: u32,
    zoom: &ZoomFactor,
    styleid: &str,
    ass_result: &mut String,
)
    requires
        i < comments@.len(),
        comments@[i as int].wf(),
        comments@[i as int].pos == CommentPosition::Special,
        supplied matches Some(a) ==> a.wf(),
        1 <= width <= STAGE_DIM_CAP,
        1 <= height <= STAGE_DIM_CAP,
        zoom.wf(),
    ensures
        final(ass_result)@ == old(ass_result)@ + (match spec_chosen_anim(
            comments@[i as int],
            supplied,
        ) {
            Option::Some(anim) => spec_write_special_comment(
                comments@[i as int],
                width,
                height,
                *zoom,
                anim,
                styleid@,
            ),
            Option::None => Seq::<char>::empty(),
        }),
{
    let c = &comments[i];
    let chosen: Option<SpecialAnim> = match supplied {
        Some(a) => Some(a),
        None => {
            let d = match c.data.as_special() {
                Ok(d) => d,
                Err(_) => {
                    proof {
                        assert(false);
                    }
                    vstd::pervasive::unreached()
                },
            };
            if d.rotate_y == 0 && d.rotate_z == 0 {
                Some(
                    SpecialAnim {
                        from_params: zero_rotation_params(d.from_x_cp, d.from_y_cp),
                        to_params: zero_rotation_params(d.to_x_cp, d.to_y_cp),
                    },
                )
            } else {
                None
            }
        },
    };
    proof {
        assert(chosen == spec_chosen_anim(comments@[i as int], supplied));
    }
    match chosen {
        Some(anim) => {
            let line = write_special_comment(c, width, height, zoom, &anim, styleid);
            ass_result.append(line.as_str());
        },
        None => {
            proof {
                assert(ass_result@ =~= old(ass_result)@ + Seq::<char>::empty());
            }
        },
    }
}

/// Places and renders one regular comment, appending its event line
/// (empty when dropped in reduced mode) and updating the lane pools.
fn process_normal(
    rows: &mut Rows,
    comments: &Vec<Comment>,
    i: usize,
    width: u32,
    height: u32,
    bottom_reserved: u32,
    fontsize: u32,
    duration_marquee_ms: u64,
    duration_still_ms: u64,
    styleid: &str,
    reduced: bool,
    ass_result: &mut String,
)
    requires
        spec_layout_args_wf(
            rows_view(old(rows)@),
            comments@,
            i as int,
            width,
            height,
            bottom_reserved,
            duration_marquee_ms,
            duration_still_ms,
        ),
        fontsize <= FONT_SIZE_CAP,
    ensures
        ({
            let pid = comments@[i as int].pos.spec_row_index();
            let out = spec_write_normal_comment(
                rows_view(old(rows)@)[pid],
                comments@,
                i as int,
                width,
                height,
                bottom_reserved,
                fontsize,
                duration_marquee_ms,
                duration_still_ms,
                styleid@,
                reduced,
            );
            &&& final(ass_result)@ == old(ass_result)@ + out.0
            &&& rows_view(final(rows)@) =~= rows_view(old(rows)@).update(pid, out.1)
            &&& spec_layout_args_wf(
                rows_view(final(rows)@),
                comments@,
                i as int,
                width,
                height,
                bottom_reserved,
                duration_marquee_ms,
                duration_still_ms,
            )
        }),
{
    let ghost rows_before = rows_view(rows@);
    let ghost pid = comments@[i as int].pos.spec_row_index();
    let line = write_normal_comment(
        rows,
        comments,
        i,
        width,
        height,
        bottom_reserved,
        fontsize,
        duration_marquee_ms,
        duration_still_ms,
        styleid,
        reduced,
    );
    proof {
        let out = spec_write_normal_comment(
            rows_before[pid],
            comments@,
            i as int,
            width,
            height,
            bottom_reserved,
            fontsize,
            duration_marquee_ms,
            duration_still_ms,
            styleid@,
            reduced,
        );
        assert(rows_view(rows@) =~= rows_before.update(pid, out.1));
    }
    ass_result.append(line.as_str());
}

#[verifier::loop_isolation(false)]
#[verifier::rlimit(100)]
pub fn process_comments(
    comments: &Vec<Comment>,
    anims: &Vec<Option<SpecialAnim>>,
    width: u32,
    height: u32,
    zoom: &ZoomFactor,
    display_region_ratio_pm: u32,
    fontface: &str,
    fontsize: u32,
    alpha_promille: u32,
    duration_marquee_ms: u64,
    duration_still_ms: u64,
    reduced: bool,
) -> (r: Result<String, BiliassError>)
    requires
        spec_process_args_wf(
            comments@,
            anims@,
            width,
            height,
            *zoom,
            display_region_ratio_pm,
            fontsize,
            alpha_promille,
            duration_marquee_ms,
            duration_still_ms,
        ),
    ensures
        r matches Ok(s) && s@ == spec_process_comments(
            comments@,
            anims@,
            width,
            height,
            *zoom,
            display_region_ratio_pm,
            fontface@,
            fontsize,
            alpha_promille,
            duration_marquee_ms,
            duration_still_ms,
            reduced,
        ),
{
    let styleid = "biliass";
    let bottom_reserved: u32 = compute_bottom_reserved(height, display_region_ratio_pm);
    let mut ass_result = write_head(width, height, fontface, fontsize, alpha_promille, styleid);
    let capacity: usize = (height - bottom_reserved + 1) as usize;
    let mut rows: Rows = init_rows(4, capacity);
    let ghost pools0 = Seq::new(4, |p: int| Seq::new((height - bottom_reserved + 1) as nat, |j: int|
        Option::<usize>::None));
    proof {
        assert(rows_view(rows@) =~= pools0) by {
            assert forall|p: int| 0 <= p < 4 implies rows_view(rows@)[p] =~= pools0[p] by {
                assert(rows_view(rows@)[p] == rows@[p]@);
            }
        }
    }
    let ghost full = spec_process_comments(
        comments@,
        anims@,
        width,
        height,
        *zoom,
        display_region_ratio_pm,
        fontface@,
        fontsize,
        alpha_promille,
        duration_marquee_ms,
        duration_still_ms,
        reduced,
    );
    let mut i: usize = 0;
    while i < comments.len()
        invariant
            i <= comments@.len(),
            spec_rows_wf(rows_view(rows@), comments@),
            rows_view(rows@).len() == 4,
            forall|p: int| 0 <= p < 4 ==> (#[trigger] rows_view(rows@)[p]).len() == height
                - bottom_reserved + 1,
            rows@.len() == 4,
            full == ass_result@ + spec_process_from(
                comments@,
                anims@,
                i as int,
                rows_view(rows@),
                width,
                height,
                bottom_reserved,
                *zoom,
                fontsize,
                duration_marquee_ms,
                duration_still_ms,
                "biliass"@,
                reduced,
            ),
        decreases comments@.len() - i,
    {
        let ghost rows_before = rows_view(rows@);
        let ghost acc_before = ass_result@;
        let is_special = matches!(comments[i].pos, CommentPosition::Special);
        if is_special {
            let supplied: Option<SpecialAnim> = anims[i];
            process_special(
                comments,
                i,
                supplied,
                width,
                height,
                zoom,
                styleid,
                &mut ass_result,
            );
            proof {
                let line = match spec_chosen_anim(comments@[i as int], anims@[i as int]) {
                    Option::Some(anim) => spec_write_special_comment(
                        comments@[i as int],
                        width,
                        height,
                        *zoom,
                        anim,
                        "biliass"@,
                    ),
                    Option::None => Seq::<char>::empty(),
                };
                assert(ass_result@ == acc_before + line);
                assert(spec_process_from(
                    comments@,
                    anims@,
                    i as int,
                    rows_before,
                    width,
                    height,
                    bottom_reserved,
                    *zoom,
                    fontsize,
                    duration_marquee_ms,
                    duration_still_ms,
                    "biliass"@,
                    reduced,
                ) == line + spec_process_from(
                    comments@,
                    anims@,
                    i as int + 1,
                    rows_before,
                    width,
                    height,
                    bottom_reserved,
                    *zoom,
                    fontsize,
                    duration_marquee_ms,
                    duration_still_ms,
                    "biliass"@,
                    reduced,
                ));
                let rest = spec_process_from(
                    comments@,
                    anims@,
                    i as int + 1,
                    rows_before,
                    width,
                    height,
                    bottom_reserved,
                    *zoom,
                    fontsize,
                    duration_marquee_ms,
                    duration_still_ms,
                    "biliass"@,
                    reduced,
                );
                assert(acc_before + (line + rest) =~= (acc_before + line) + rest);
            }
        } else {
            process_normal(
                &mut rows,
                comments,
                i,
                width,
                height,
                bottom_reserved,
                fontsize,
                duration_marquee_ms,
                duration_still_ms,
                styleid,
                reduced,
                &mut ass_result,
            );
            proof {
                let pid = comments@[i as int].pos.spec_row_index();
                let out = spec_write_normal_comment(
                    rows_before[pid],
                    comments@,
                    i as int,
                    width,
                    height,
                    bottom_reserved,
                    fontsize,
                    duration_marquee_ms,
                    duration_still_ms,
                    "biliass"@,
                    reduced,
                );
                assert(ass_result@ == acc_before + out.0);
                assert(rows_view(rows@) =~= rows_before.update(pid, out.1));
                assert(spec_process_from(
                    comments@,
                    anims@,
                    i as int,
                    rows_before,
                    width,
                    height,
                    bottom_reserved,
                    *zoom,
                    fontsize,
                    duration_marquee_ms,
                    duration_still_ms,
                    "biliass"@,
                    reduced,
                ) == out.0 + spec_process_from(
                    comments@,
                    anims@,
                    i as int + 1,
                    rows_before.update(pid, out.1),
                    width,
                    height,
                    bottom_reserved,
                    *zoom,
                    fontsize,
                    duration_marquee_ms,
                    duration_still_ms,
                    "biliass"@,
                    reduced,
                ));
                let rest = spec_process_from(
                    comments@,
                    anims@,
                    i as int + 1,
                    rows_before.update(pid, out.1),
                    width,
                    height,
                    bottom_reserved,
                    *zoom,
                    fontsize,
                    duration_marquee_ms,
                    duration_still_ms,
                    "biliass"@,
                    reduced,
                );
                assert(acc_before + (out.0 + rest) =~= (acc_before + out.0) + rest);
            }
        }
        i = i + 1;
    }
    Ok(ass_result)
}

} // verus!

//! The canonical in-memory comment record produced by both format readers.

use vstd::prelude::*;

verus! {

/// Upper bound on an estimated text dimension, in centipixels.
pub const DIMENSION_CAP_CP: u64 = 1000000000;

/// Upper bound on the magnitude of a playback time, in milliseconds.
pub const TIMELINE_CAP_MS: i64 = 10000000000000;

/// Upper bound on the magnitude of a scripted-animation coordinate, in
/// centipixels.
pub const COORD_CAP_CP: i64 = 10000000000000000;

/// Upper bound on the magnitude of a scripted-animation duration or
/// delay, in milliseconds.
pub const SPECIAL_TIME_CAP_MS: i64 = 1000000000000;

/// Where and how a comment is displayed.
#[derive(Debug, PartialEq, Eq, Structural, Clone, Copy)]
pub enum CommentPosition {
    /// Regular comment moving from right to left.
    Scroll,
    /// Bottom centered comment.
    Bottom,
    /// Top centered comment.
    Top,
    /// Comment moving from left to right.
    Reversed,
    /// Scripted animation comment.
    Special,
}

impl CommentPosition {
    /// Index of the row pool used by the layout engine for this position.
    pub open spec fn spec_row_index(self) -> int {
        match self {
            CommentPosition::Scroll => 0,
            CommentPosition::Bottom => 1,
            CommentPosition::Top => 2,
            CommentPosition::Reversed => 3,
            CommentPosition::Special => 4,
        }
    }

    /// Rank used by the deterministic total sort.
    pub open spec fn spec_rank(self) -> int {
        self.spec_row_index()
    }

    pub fn row_index(&self) -> (r: usize)
        ensures
            r == self.spec_row_index(),
    {
        match self {
            CommentPosition::Scroll => 0,
            CommentPosition::Bottom => 1,
            CommentPosition::Top => 2,
            CommentPosition::Reversed => 3,
            CommentPosition::Special => 4,
        }
    }

    pub fn rank(&self) -> (r: usize)
        ensures
            r == self.spec_rank(),
    {
        self.row_index()
    }
}

/// Estimated pixel dimensions of a regular comment's rendered text, in
/// centipixels: height is (line count) x font size, width is the longest
/// line's character count x font size.
#[derive(Debug, PartialEq, Clone, Copy)]
pub struct NormalCommentData {
    /// Estimated height, in centipixels.
    pub height_cp: u64,
    /// Estimated width, in centipixels.
    pub width_cp: u64,
}

impl NormalCommentData {
    pub open spec fn wf(self) -> bool {
        &&& self.height_cp <= DIMENSION_CAP_CP
        &&& self.width_cp <= DIMENSION_CAP_CP
    }
}

/// Decoded scripted-animation parameters of a special comment.
/// Coordinates are already mapped into output space, in centipixels;
/// alphas are output bytes (0 = opaque); times are in milliseconds.
#[derive(Debug, PartialEq)]
pub struct SpecialCommentData {
    /// Rotation around the Y axis, in degrees.
    pub rotate_y: i64,
    /// Rotation around the Z axis, in degrees.
    pub rotate_z: i64,
    /// Start position, in centipixels of output space.
    pub from_x_cp: i64,
    pub from_y_cp: i64,
    /// End position, in centipixels of output space.
    pub to_x_cp: i64,
    pub to_y_cp: i64,
    /// Start and end alpha bytes (0 = opaque, 255 = transparent).
    pub from_alpha: u8,
    pub to_alpha: u8,
    /// Appearance delay, in milliseconds.
    pub delay_ms: i64,
    /// Total lifetime, in milliseconds.
    pub lifetime_ms: i64,
    /// Active-animation duration, in milliseconds.
    pub duration_ms: i64,
    /// Font face override.
    pub fontface: String,
    /// Whether the border is kept.
    pub is_border: bool,
}

impl SpecialCommentData {
    pub open spec fn wf(self) -> bool {
        &&& -1000000000 <= self.rotate_y <= 1000000000
        &&& -1000000000 <= self.rotate_z <= 1000000000
        &&& -COORD_CAP_CP <= self.from_x_cp <= COORD_CAP_CP
        &&& -COORD_CAP_CP <= self.from_y_cp <= COORD_CAP_CP
        &&& -COORD_CAP_CP <= self.to_x_cp <= COORD_CAP_CP
        &&& -COORD_CAP_CP <= self.to_y_cp <= COORD_CAP_CP
        &&& -SPECIAL_TIME_CAP_MS <= self.delay_ms <= SPECIAL_TIME_CAP_MS
        &&& -SPECIAL_TIME_CAP_MS <= self.lifetime_ms <= SPECIAL_TIME_CAP_MS
        &&& -SPECIAL_TIME_CAP_MS <= self.duration_ms <= SPECIAL_TIME_CAP_MS
    }
}

impl Clone for SpecialCommentData {
    fn clone(&self) -> (r: Self)
        ensures
            r == *self,
    {
        SpecialCommentData {
            rotate_y: self.rotate_y,
            rotate_z: self.rotate_z,
            from_x_cp: self.from_x_cp,
            from_y_cp: self.from_y_cp,
            to_x_cp: self.to_x_cp,
            to_y_cp: self.to_y_cp,
            from_alpha: self.from_alpha,
            to_alpha: self.to_alpha,
            delay_ms: self.delay_ms,
            lifetime_ms: self.lifetime_ms,
            duration_ms: self.duration_ms,
            fontface: self.fontface.clone(),
            is_border: self.is_border,
        }
    }
}

/// The variant payload of a comment: regular comments carry estimated
/// dimensions, special comments carry animation parameters.
#[derive(Debug, PartialEq)]
pub enum CommentData {
    Normal(NormalCommentData),
    Special(SpecialCommentData),
}

impl CommentData {
    pub open spec fn wf(self) -> bool {
        match self {
            CommentData::Normal(d) => d.wf(),
            CommentData::Special(d) => d.wf(),
        }
    }

    /// The payload as normal data; an error when the payload is special.
    pub fn as_normal(&self) -> (r: Result<&NormalCommentData, &str>)
        ensures
            match self {
                CommentData::Normal(d) => r matches Ok(v) && *v == d,
                CommentData::Special(_) => r is Err,
            },
    {
        match self {
            CommentData::Normal(data) => Ok(data),
            CommentData::Special(_) => Err("CommentData is Special"),
        }
    }

    /// The payload as special data; an error when the payload is normal.
    pub fn as_special(&self) -> (r: Result<&SpecialCommentData, &str>)
        ensures
            match self {
                CommentData::Special(d) => r matches Ok(v) && *v == d,
                CommentData::Normal(_) => r is Err,
            },
    {
        match self {
            CommentData::Normal(_) => Err("CommentData is Normal"),
            CommentData::Special(data) => Ok(data),
        }
    }
}

impl Clone for CommentData {
    fn clone(&self) -> (r: Self)
        ensures
            r == *self,
    {
        match self {
            CommentData::Normal(d) => CommentData::Normal(*d),
            CommentData::Special(d) => CommentData::Special(d.clone()),
        }
    }
}

/// One decoded overlay comment.
#[derive(Debug, PartialEq)]
pub struct Comment {
    /// Playback time at which the comment appears, in milliseconds.
    pub timeline_ms: i64,
    /// Wall-clock submission time (UNIX seconds), a tie-break only.
    pub timestamp: u64,
    /// Strictly increasing sequence number within one input, the final
    /// stable tie-break.
    pub no: u64,
    /// The sanitised comment body.
    pub content: String,
    /// Layout category.
    pub pos: CommentPosition,
    /// Font color as 0xRRGGBB.
    pub color: u32,
    /// Resolved font size, in centipixels.
    pub size_cp: u64,
    /// The variant payload.
    pub data: CommentData,
}

impl Comment {
    /// Validity: the payload tag matches the position, and every scaled
    /// quantity is within its cap.
    pub open spec fn wf(self) -> bool {
        &&& (self.pos == CommentPosition::Special <==> self.data is Special)
        &&& -TIMELINE_CAP_MS <= self.timeline_ms <= TIMELINE_CAP_MS
        &&& self.size_cp <= DIMENSION_CAP_CP
        &&& self.data.wf()
    }
}

impl Clone for Comment {
    fn clone(&self) -> (r: Self)
        ensures
            r == *self,
    {
        Comment {
            timeline_ms: self.timeline_ms,
            timestamp: self.timestamp,
            no: self.no,
            content: self.content.clone(),
            pos: self.pos,
            color: self.color,
            size_cp: self.size_cp,
            data: self.data.clone(),
        }
    }
}

} // verus!

//! Blocking options: per-position toggles and compiled keyword-exclusion
//! patterns. The regex engine is outside code; its behaviour is taken on
//! trust as a pure function of the pattern and the text.

use vstd::prelude::*;
use vstd::string::StringExecFns;
use crate::comment::CommentPosition;

verus! {

#[verifier::external_type_specification]
#[verifier::external_body]
pub struct ExRegex(regex::Regex);

#[verifier::external_type_specification]
#[verifier::external_body]
pub struct ExRegexError(regex::Error);

/// Whether the regex compiled from `pattern` matches somewhere in
/// `text`. The regex crate documents matching as a deterministic
/// function of the pattern and the haystack alone.
pub uninterp spec fn regex_is_match(pattern: Seq<char>, text: Seq<char>) -> bool;

/// One compiled keyword-exclusion pattern, kept together with the
/// pattern text it was compiled from.
pub struct KeywordPattern {
    regex: regex::Regex,
    pattern: String,
}

/// Relies on regex::Regex::new: compiles the pattern, or reports why it
/// is invalid.
#[verifier::external_body]
fn regex_new(pattern: &str) -> Result<regex::Regex, regex::Error> {
    regex::Regex::new(pattern)
}

/// Relies on the Display impl of regex::Error: diagnostic text only,
/// nothing is claimed of it.
#[verifier::external_body]
fn regex_error_message(e: &regex::Error) -> String {
    e.to_string()
}

/// Relies on regex::Regex::is_match: the result depends only on the
/// pattern the regex was compiled from and on the text, which is what
/// `regex_is_match` names. A `KeywordPattern` is only ever built by
/// `KeywordPattern::new`, which compiles exactly the stored pattern.
#[verifier::external_body]
fn keyword_is_match(k: &KeywordPattern, text: &str) -> (r: bool)
    ensures
        r == regex_is_match(k.pattern@, text@),
{
    k.regex.is_match(text)
}

impl KeywordPattern {
    /// The pattern text this keyword filter was compiled from.
    pub closed spec fn spec_pattern(&self) -> Seq<char> {
        self.pattern@
    }

    pub fn pattern_str(&self) -> (r: &str)
        ensures
            r@ == self.spec_pattern(),
    {
        self.pattern.as_str()
    }

    /// Compiles a keyword-exclusion pattern; an invalid pattern is a
    /// configuration error reported as diagnostic text.
    pub fn new(pattern: &str) -> (r: Result<KeywordPattern, String>)
        ensures
            r matches Ok(k) ==> k.spec_pattern() == pattern@,
    {
        match regex_new(pattern) {
            Ok(re) => Ok(KeywordPattern { regex: re, pattern: String::from_str(pattern) }),
            Err(e) => Err(regex_error_message(&e)),
        }
    }

    /// Whether this pattern matches somewhere in `text`.
    pub fn is_match(&self, text: &str) -> (r: bool)
        ensures
            r == regex_is_match(self.spec_pattern(), text@),
    {
        keyword_is_match(self, text)
    }
}

/// Whether any of the keyword patterns matches the text.
pub open spec fn spec_any_keyword_matches(patterns: Seq<Seq<char>>, text: Seq<char>) -> bool {
    exists|i: int| 0 <= i < patterns.len() && regex_is_match(patterns[i], text)
}

/// The pattern texts of a pattern list.
pub open spec fn spec_patterns_of(patterns: Seq<KeywordPattern>) -> Seq<Seq<char>> {
    patterns.map_values(|k: KeywordPattern| k.spec_pattern())
}

/// Whether any pattern of the list matches the text.
pub fn any_keyword_matches(patterns: &Vec<KeywordPattern>, text: &str) -> (r: bool)
    ensures
        r == spec_any_keyword_matches(spec_patterns_of(patterns@), text@),
{
    let mut i: usize = 0;
    while i < patterns.len()
        invariant
            i <= patterns@.len(),
            forall|j: int|
                0 <= j < i ==> !regex_is_match(
                    spec_patterns_of(patterns@)[j],
                    text@,
                ),
        decreases patterns@.len() - i,
    {
        if patterns[i].is_match(text) {
            proof {
                assert(spec_patterns_of(patterns@)[i as int] == patterns@[i as int].spec_pattern());
                assert(regex_is_match(spec_patterns_of(patterns@)[i as int], text@));
            }
            return true;
        }
        i = i + 1;
    }
    false
}

/// Six per-category toggles and the keyword-exclusion patterns,
/// immutable once constructed.
pub struct BlockOptions {
    pub block_top: bool,
    pub block_bottom: bool,
    pub block_scroll: bool,
    pub block_reverse: bool,
    pub block_special: bool,
    pub block_colorful: bool,
    pub block_keyword_patterns: Vec<KeywordPattern>,
}

impl Default for BlockOptions {
    /// All toggles off and no keyword patterns.
    fn default() -> (r: Self)
        ensures
            !r.block_top && !r.block_bottom && !r.block_scroll && !r.block_reverse
                && !r.block_special && !r.block_colorful,
            r.block_keyword_patterns@.len() == 0,
    {
        BlockOptions {
            block_top: false,
            block_bottom: false,
            block_scroll: false,
            block_reverse: false,
            block_special: false,
            block_colorful: false,
            block_keyword_patterns: Vec::new(),
        }
    }
}

/// Whether parsing of a whole element is skipped for this position.
pub open spec fn spec_should_skip_parse(pos: CommentPosition, opts: &BlockOptions) -> bool {
    match pos {
        CommentPosition::Top => opts.block_top,
        CommentPosition::Bottom => opts.block_bottom,
        CommentPosition::Scroll => opts.block_scroll,
        CommentPosition::Reversed => opts.block_reverse,
        CommentPosition::Special => opts.block_special,
    }
}

/// Whether the block options drop every comment of this position before
/// its body is materialised.
pub fn should_skip_parse(pos: &CommentPosition, block_options: &BlockOptions) -> (r: bool)
    ensures
        r == spec_should_skip_parse(*pos, block_options),
{
    match pos {
        CommentPosition::Top => block_options.block_top,
        CommentPosition::Bottom => block_options.block_bottom,
        CommentPosition::Scroll => block_options.block_scroll,
        CommentPosition::Reversed => block_options.block_reverse,
        CommentPosition::Special => block_options.block_special,
    }
}

} // verus!

//! Spelling classifications, credibility scores and candidate spellings.

use vstd::prelude::*;

verus! {

/// Identifier that the dictionary assigns to a recognised spelling unit.
pub type SyllableId = i32;

/// A log-probability in fixed point: millionths of a natural-logarithm unit.
/// Zero is certain; a more negative score is less likely.
pub type Credibility = i64;

/// Score added to a spelling accepted as a partial match: ln 0.5.
pub const COMPLETION_PENALTY: i64 = -693_147;

/// Score added to a spelling that the corrector supplied: ln 0.01.
pub const CORRECTION_PENALTY: i64 = -4_605_170;

/// Score added to every spelling that ends a competing decomposition: ln 1e-10.
pub const AMBIGUITY_PENALTY: i64 = -23_025_851;

/// Score added to the favoured syllable of a competing decomposition.
pub const JOINT_BONUS: i64 = 1_000_000;

/// The syllable that receives the bonus at an ambiguous joint.
pub const FAVOURED_SYLLABLE: i32 = 1;

/// How a stretch of input was recognised, from most to least preferred.
#[derive(Clone, Copy, Debug, PartialEq, Eq, Structural, PartialOrd, Ord, Hash)]
pub enum SpellingType {
    Invalid,
    Normal,
    Fuzzy,
    AbbreviatedWholeSyllable,
    AbbreviatedSingleChar,
    Completion,
}

impl SpellingType {
    /// Position of the classification in the order of preference.
    pub open spec fn rank(self) -> nat {
        match self {
            SpellingType::Invalid => 0,
            SpellingType::Normal => 1,
            SpellingType::Fuzzy => 2,
            SpellingType::AbbreviatedWholeSyllable => 3,
            SpellingType::AbbreviatedSingleChar => 4,
            SpellingType::Completion => 5,
        }
    }

    /// Position of the classification in the order of preference.
    pub fn preference(self) -> (r: u8)
        ensures
            r == self.rank(),
    {
        match self {
            SpellingType::Invalid => 0,
            SpellingType::Normal => 1,
            SpellingType::Fuzzy => 2,
            SpellingType::AbbreviatedWholeSyllable => 3,
            SpellingType::AbbreviatedSingleChar => 4,
            SpellingType::Completion => 5,
        }
    }

    /// The more preferred of two classifications; the first at a tie.
    pub fn preferred(self, other: SpellingType) -> (r: SpellingType)
        ensures
            r == (if other.rank() < self.rank() { other } else { self }),
    {
        if other.preference() < self.preference() {
            other
        } else {
            self
        }
    }
}

/// The score `base` moved by `delta`, held within the range of the score type.
pub open spec fn shifted(base: int, delta: int) -> int {
    if base + delta < i64::MIN {
        i64::MIN as int
    } else if base + delta > i64::MAX {
        i64::MAX as int
    } else {
        base + delta
    }
}

/// Moves a score by `delta`, saturating at the ends of the range.
pub fn shift_credibility(base: i64, delta: i64) -> (r: i64)
    ensures
        r == shifted(base as int, delta as int),
{
    match base.checked_add(delta) {
        Some(sum) => sum,
        None => if delta < 0 { i64::MIN } else { i64::MAX },
    }
}

/// One spelling that a dictionary or a corrector offers from some position.
#[derive(Clone, Copy, Debug, PartialEq, Eq, Structural)]
pub struct Candidate {
    /// Position just behind the spelling.
    pub end: usize,
    pub syllable_id: SyllableId,
    pub spelling_type: SpellingType,
    /// Score that the source gives the spelling, before any penalty.
    pub credibility: Credibility,
    /// The spelling is a prefix of a syllable that the input has not finished.
    pub is_partial: bool,
}

} // verus!

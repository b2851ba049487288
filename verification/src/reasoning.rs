//! Reasoning visibility levels and the string form of each level.

use vstd::prelude::*;

verus! {

/// How much of the model's internal reasoning a response item exposes:
/// the raw trace, a summary, an opaque encrypted blob, or nothing.
#[derive(Debug, Clone, Copy, PartialEq, Eq, Structural)]
pub enum ReasoningLevel {
    Raw,
    Summary,
    Encrypted,
    Absent,
}

/// Fidelity rank of a level: `Raw` > `Summary` > `Encrypted` > `Absent`.
pub open spec fn level_rank(level: ReasoningLevel) -> nat {
    match level {
        ReasoningLevel::Raw => 3,
        ReasoningLevel::Summary => 2,
        ReasoningLevel::Encrypted => 1,
        ReasoningLevel::Absent => 0,
    }
}

/// The display name of each level.
pub open spec fn level_name(level: ReasoningLevel) -> Seq<char> {
    match level {
        ReasoningLevel::Raw => "RAW"@,
        ReasoningLevel::Summary => "SUMMARY"@,
        ReasoningLevel::Encrypted => "ENCRYPTED"@,
        ReasoningLevel::Absent => "NONE"@,
    }
}

impl ReasoningLevel {
    /// The display name of this level.
    pub fn as_str(&self) -> (r: &'static str)
        ensures
            r@ == level_name(*self),
    {
        match self {
            ReasoningLevel::Raw => "RAW",
            ReasoningLevel::Summary => "SUMMARY",
            ReasoningLevel::Encrypted => "ENCRYPTED",
            ReasoningLevel::Absent => "NONE",
        }
    }

    /// Executable fidelity rank, matching `level_rank`.
    pub fn rank(&self) -> (r: u8)
        ensures
            r as nat == level_rank(*self),
    {
        match self {
            ReasoningLevel::Raw => 3,
            ReasoningLevel::Summary => 2,
            ReasoningLevel::Encrypted => 1,
            ReasoningLevel::Absent => 0,
        }
    }
}

} // verus!

//! What can stop a run before any file is touched.

use crate::pattern::error_text;
use vstd::prelude::*;
use vstd::string::*;

verus! {

/// A fault in the arguments.
#[derive(Clone, Copy, Debug, PartialEq, Eq, Structural)]
pub enum UsageError {
    /// `--match` stands last, with no pattern behind it.
    MissingMatchValue,
    /// No directory was named.
    MissingDirectory,
    /// No output prefix was named.
    MissingPrefix,
    /// No output suffix was named.
    MissingSuffix,
}

impl UsageError {
    /// What the fault is, in words.
    pub open spec fn text(self) -> Seq<char> {
        match self {
            UsageError::MissingMatchValue => "no value supplied for --match"@,
            UsageError::MissingDirectory => "missing dir to run in"@,
            UsageError::MissingPrefix => "missing output prefix"@,
            UsageError::MissingSuffix => "missing output suffix"@,
        }
    }

    /// What the fault is, in words.
    pub fn message(&self) -> (r: &'static str)
        ensures
            r@ == self.text(),
    {
        match self {
            UsageError::MissingMatchValue => "no value supplied for --match",
            UsageError::MissingDirectory => "missing dir to run in",
            UsageError::MissingPrefix => "missing output prefix",
            UsageError::MissingSuffix => "missing output suffix",
        }
    }
}

/// Why a run ends before its first action.
#[derive(Debug, PartialEq)]
pub enum RenumberError {
    /// The arguments are incomplete.
    Usage(UsageError),
    /// The match pattern is no regular expression.
    Pattern(regex::Error),
    /// The directory holds more candidates than a run takes.
    TooManyCandidates,
}

impl RenumberError {
    /// The words in front of the reason a pattern was refused.
    pub open spec fn pattern_prefix() -> Seq<char> {
        "failed to compile regex: "@
    }

    /// The words for a directory with too many candidates.
    pub open spec fn capacity_text() -> Seq<char> {
        "currently not supporting more than 1,000,000 entries"@
    }

    /// What went wrong, in words.  For a refused pattern the words of the
    /// `regex` crate follow a fixed beginning.
    pub fn message(&self) -> (r: String)
        ensures
            match *self {
                RenumberError::Usage(e) => r@ == e.text(),
                RenumberError::Pattern(_) => exists|reason: Seq<char>| r@ == Self::pattern_prefix() + reason,
                RenumberError::TooManyCandidates => r@ == Self::capacity_text(),
            },
    {
        match self {
            RenumberError::Usage(e) => String::from_str(e.message()),
            RenumberError::Pattern(e) => {
                let reason = error_text(e);
                let mut out = String::from_str("failed to compile regex: ");
                out.append(reason.as_str());
                assert(out@ == Self::pattern_prefix() + reason@);
                out
            },
            RenumberError::TooManyCandidates => String::from_str(
                "currently not supporting more than 1,000,000 entries",
            ),
        }
    }
}

} // verus!

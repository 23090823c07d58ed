//! The flag vocabulary: protocol flag tokens mapped onto the closed set of
//! flags the store keeps.
//!
//! Tokens outside the vocabulary are never an error.  A fixed deny-list of
//! known-irrelevant markers is dropped silently; any other unknown token is
//! dropped too, but callers are told so and may report it, since the remote
//! side grows new tokens over time.

use vstd::prelude::*;
use crate::text::str_eq;

verus! {

/// A recognized message flag.
#[derive(Clone, Copy, Debug, PartialEq, Eq, Structural)]
pub enum Flag {
    Answered,
    Flagged,
    Seen,
}

/// What the vocabulary says about one token.
#[derive(Clone, Copy, Debug, PartialEq, Eq, Structural)]
pub enum FlagOutcome {
    /// The token names a flag the store keeps.
    Recognized(Flag),
    /// The token is on the deny-list of known-irrelevant markers; dropped
    /// silently.
    Suppressed,
    /// The token is outside the vocabulary; dropped, but worth a diagnostic.
    Unrecognized,
}

/// How the vocabulary classifies a token, including whether an unknown token
/// deserves a diagnostic.
pub open spec fn spec_classify_outcome(t: Seq<char>) -> FlagOutcome {
    if t == "\\Answered"@ {
        FlagOutcome::Recognized(Flag::Answered)
    } else if t == "\\Flagged"@ {
        FlagOutcome::Recognized(Flag::Flagged)
    } else if t == "\\Seen"@ {
        FlagOutcome::Recognized(Flag::Seen)
    } else if t == "Junk"@ || t == "$Phishing"@ || t == "NonJunk"@ || t == "$MDNSent"@
        || t == "$Forwarded"@ {
        FlagOutcome::Suppressed
    } else {
        FlagOutcome::Unrecognized
    }
}

/// The flag a token names, if any.
pub open spec fn spec_classify(t: Seq<char>) -> Option<Flag> {
    match spec_classify_outcome(t) {
        FlagOutcome::Recognized(f) => Some(f),
        _ => None,
    }
}

/// Classifies one protocol token, distinguishing deny-listed tokens from
/// tokens the vocabulary has never seen.
pub fn classify_outcome(token: &str) -> (r: FlagOutcome)
    ensures
        r == spec_classify_outcome(token@),
{
    if str_eq(token, "\\Answered") {
        FlagOutcome::Recognized(Flag::Answered)
    } else if str_eq(token, "\\Flagged") {
        FlagOutcome::Recognized(Flag::Flagged)
    } else if str_eq(token, "\\Seen") {
        FlagOutcome::Recognized(Flag::Seen)
    } else if str_eq(token, "Junk") || str_eq(token, "$Phishing") || str_eq(token, "NonJunk")
        || str_eq(token, "$MDNSent") || str_eq(token, "$Forwarded") {
        FlagOutcome::Suppressed
    } else {
        FlagOutcome::Unrecognized
    }
}

/// Classifies one protocol token: the flag it names, or `None` for any token
/// outside the recognized set.
pub fn classify(token: &str) -> (r: Option<Flag>)
    ensures
        r == spec_classify(token@),
{
    match classify_outcome(token) {
        FlagOutcome::Recognized(f) => Some(f),
        FlagOutcome::Suppressed => None,
        FlagOutcome::Unrecognized => None,
    }
}

impl Flag {
    /// The flag a token names, or `None` for any token outside the
    /// recognized set.
    pub fn from_str(s: &str) -> (r: Option<Flag>)
        ensures
            r == spec_classify(s@),
    {
        classify(s)
    }

    /// The flag a token names; the caller must already know the token is in
    /// the vocabulary.
    pub fn from(s: &str) -> (r: Flag)
        requires
            spec_classify(s@) is Some,
        ensures
            Some(r) == spec_classify(s@),
    {
        match classify(s) {
            Some(f) => f,
            None => vstd::pervasive::unreached(),
        }
    }
}

} // verus!

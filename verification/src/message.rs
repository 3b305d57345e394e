//! Identifiers of displayable conversation messages.

use vstd::prelude::*;

verus! {

/// The two kinds of messages that can be folded.
#[derive(Clone, Copy, Debug, PartialEq, Eq, Structural, PartialOrd, Ord)]
pub enum TranscriptMessageKind {
    User,
    Assistant,
}

/// Text of `TranscriptMessageKind::label`.
pub open spec fn kind_label_spec(kind: TranscriptMessageKind) -> Seq<char> {
    match kind {
        TranscriptMessageKind::User => "User"@,
        TranscriptMessageKind::Assistant => "Assistant"@,
    }
}

impl TranscriptMessageKind {
    /// The word that names this kind of message in a placeholder.
    pub fn label(self) -> (res: &'static str)
        ensures
            res@ == kind_label_spec(self),
    {
        match self {
            TranscriptMessageKind::User => "User",
            TranscriptMessageKind::Assistant => "Assistant",
        }
    }
}

/// A stable-in-a-rollout identifier for a displayable conversation message:
/// its kind and its ordinal among the messages of that kind.
#[derive(Clone, Copy, Debug, PartialEq, Eq, Structural, PartialOrd, Ord)]
pub struct TranscriptMessageId {
    pub kind: TranscriptMessageKind,
    pub ordinal: usize,
}

} // verus!

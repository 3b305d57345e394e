//! Transcript folding: which displayed conversation messages are collapsed,
//! how transcript cells are grouped into messages, and what a folded message
//! is replaced with.
//!
//! Folding only changes how a transcript is displayed; nothing here touches
//! the conversation itself.

pub mod message;
pub mod cells;
pub mod summary;
pub mod fold_state;
pub mod cache;

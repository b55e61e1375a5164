//! The one-shot flash signal attached to a session token.

use vstd::prelude::*;

verus! {

/// A transient signal stored per session token. It is set by a successful
/// submit or draw and consumed (reset to `Empty`) the instant it is read.
#[derive(Clone, Copy, PartialEq, Eq, Structural, Debug)]
pub enum Flash {
    /// No pending signal.
    Empty,
    /// The session's wish note was just accepted.
    FillSuccess,
    /// The session just drew a note to fulfil.
    DrawSuccess,
}

} // verus!

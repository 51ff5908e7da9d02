//! The kinds of message the user interface distinguishes; how each kind
//! is rendered on a terminal is the caller's concern.

use vstd::prelude::*;

verus! {

/// The role of a message shown to the user.
#[derive(Debug, Clone, Copy, PartialEq, Eq, Structural)]
pub enum Type {
    Error,
    Success,
    Warning,
    Info,
    Header,
}

} // verus!

//! The tone of a user-facing notification; how one is shown is the
//! caller's business.

use vstd::prelude::*;

verus! {

/// The tone of a notification.
#[derive(Clone, Copy, Debug, PartialEq, Eq, Structural)]
pub enum Msg {
    /// Work has started.
    Info,
    /// Work succeeded.
    Done,
    /// Work failed.
    Fail,
}

} // verus!

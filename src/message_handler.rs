//! The receiving end for decoded messages and decode failures.
use vstd::prelude::*;

use crate::messages::GenericMessage;

verus! {

/// Takes each decoded message, or the description of a failure. It keeps no
/// state of its own yet.
pub struct MsgHandler {}

impl MsgHandler {
    /// Accepts a decoded message.
    pub fn handle_msg(&mut self, _msg: &GenericMessage) -> (r: ())
        ensures
            *final(self) == *old(self),
    {
    }

    /// Accepts the description of a failure.
    pub fn handle_error(&mut self, _msg: String) -> (r: ())
        ensures
            *final(self) == *old(self),
    {
    }
}

} // verus!

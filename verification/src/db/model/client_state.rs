use vstd::prelude::*;

verus! {

/// Conversation state of a chat: waiting at the menu, or waiting for a
/// plate to be typed in.
#[derive(Debug, Clone, Copy, PartialEq, Eq, Structural)]
pub enum ClientState {
    Initial,
    AddVehicle,
}

} // verus!

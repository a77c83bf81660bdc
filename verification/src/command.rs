//! The kinds of command a connection can have outstanding.

use vstd::prelude::*;

verus! {

/// The command a response belongs to.  The kind decides both when a response
/// is complete and how its lines are parsed.
#[derive(Clone, Copy, PartialEq, Eq, Structural, Debug)]
pub enum IMAPCommand {
    Greeting,
    Login,
    Logout,
    Authenticate,
    Select,
    Examine,
    Fetch,
}

} // verus!

//! Decision logic of the entry-removal action.  The owner dispatches the
//! wrapped action to its state container and polls for a recorded response;
//! dispatching and the future plumbing are I/O on the owner's side, while
//! the decisions — what is dispatched, and what one poll concludes — are
//! pure and stand here.

use vstd::prelude::*;

verus! {

/// An action addressed to the owner's state container.
pub enum Action {
    RemoveEntry(Vec<u8>),
}

/// An action together with the identity it was dispatched under.
pub struct ActionWrapper {
    pub id: u64,
    pub action: Action,
}

impl ActionWrapper {
    pub fn new(id: u64, action: Action) -> (r: ActionWrapper)
        ensures
            r.id == id,
            r.action == action,
    {
        ActionWrapper { id, action }
    }
}

/// What one poll of a pending action concludes.
pub enum ActionPoll {
    Ready,
    Pending,
    Failed(String),
}

/// Resolve one poll against the owner's action-response store: while the
/// store is absent or holds no response the action stays pending; a
/// recorded response settles it, carrying the failure text through.
pub fn poll_action_outcome(lookup: Option<Option<Result<(), String>>>) -> (r: ActionPoll)
    ensures
        (match lookup {
            None => r is Pending,
            Some(inner) => (match inner {
                None => r is Pending,
                Some(res) => (match res {
                    Ok(_) => r is Ready,
                    Err(e) => r matches ActionPoll::Failed(msg) && msg == e,
                }),
            }),
        }),
{
    match lookup {
        None => ActionPoll::Pending,
        Some(inner) => match inner {
            None => ActionPoll::Pending,
            Some(res) => match res {
                Ok(_) => ActionPoll::Ready,
                Err(e) => ActionPoll::Failed(e),
            },
        },
    }
}

} // verus!

//! How handlers are specified: what a request leads to, as a function of the state
//! before it.

use crate::error::{ContractError, ErrorView};
use crate::response::{Response, ResponseView};
use crate::state::StateView;
use vstd::prelude::*;

verus! {

/// What a request leads to: the next state and the reply, or a refusal.
pub type Outcome = Result<(StateView, ResponseView), ErrorView>;

/// A refusal where there is a reason for one, otherwise the next state and the
/// reply.
pub open spec fn unless_refused(
    refusal: Option<ErrorView>,
    next: StateView,
    response: ResponseView,
) -> Outcome {
    match refusal {
        Some(e) => Err(e),
        None => Ok((next, response)),
    }
}

/// The state that an outcome leaves behind; a refused request leaves everything as
/// it was.
pub open spec fn state_after(before: StateView, outcome: Outcome) -> StateView {
    match outcome {
        Ok((next, _)) => next,
        Err(_) => before,
    }
}

/// Whether a handler did what an outcome says: the reply or the error is the one
/// expected, and so is the state that it left behind.
pub open spec fn conforms(
    before: StateView,
    after: StateView,
    result: Result<Response, ContractError>,
    outcome: Outcome,
) -> bool {
    &&& after == state_after(before, outcome)
    &&& match outcome {
        Ok((_, response)) => result matches Ok(r) && r@ == response,
        Err(e) => result matches Err(error) && error@ == e,
    }
}

} // verus!

use crate::messages::{Outcome, Request};
use vstd::prelude::*;

verus! {

/// The actor's private state after its handler processes `req` in state `s`.
///
/// The handler is a pure mapping `(state, request) -> (state', reply)`: only
/// `Request::Add` changes the running total, and a failing request leaves
/// the state intact, so one bad message cannot corrupt the actor.
pub open spec fn next_state(s: u64, req: Request) -> u64 {
    match req {
        Request::Add(n) => vstd::wrapping::u64_specs::wrapping_add(s, n),
        Request::Sum(_, _) => s,
        Request::Crash(_) => s,
    }
}

/// The terminal outcome the handler produces for `req` in state `s`.
pub open spec fn outcome_of(s: u64, req: Request) -> Outcome {
    match req {
        Request::Add(n) => Outcome::Success(vstd::wrapping::u64_specs::wrapping_add(s, n)),
        Request::Sum(a, b) => Outcome::Success(vstd::wrapping::u64_specs::wrapping_add(a, b)),
        Request::Crash(code) => Outcome::HandlerFailure(code),
    }
}

/// One handler invocation against exclusive mutable access to actor state.
///
/// A failing request reports its error through `Err` rather than panicking;
/// the runtime converts it into `Outcome::HandlerFailure` and keeps the
/// actor alive.
pub fn handle(state: &mut u64, req: Request) -> (r: Result<u64, u64>)
    ensures
        *final(state) == next_state(*old(state), req),
        (match r {
            Ok(v) => Outcome::Success(v),
            Err(c) => Outcome::HandlerFailure(c),
        }) == outcome_of(*old(state), req),
{
    match req {
        Request::Add(n) => {
            *state = state.wrapping_add(n);
            Ok(*state)
        },
        Request::Sum(a, b) => Ok(a.wrapping_add(b)),
        Request::Crash(code) => Err(code),
    }
}

} // verus!

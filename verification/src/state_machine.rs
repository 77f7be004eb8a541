//! The transition interface: a capability contract saying "given a state and
//! a transition, produce the next state". It has no logic of its own; every
//! ledger and machine below implements it, and each implementation carries
//! its own exact postcondition.

use vstd::prelude::*;

verus! {

/// A state machine, generic over the state and transition types.
///
/// `next_state` is pure and total: every input pairs with exactly one
/// deterministic output, and rejection of an invalid transition is encoded
/// as returning the state unchanged, never as a panic. Implementations
/// state what they compute in their own `ensures` clauses.
pub trait StateMachine {
    /// The states that can be occupied by this machine.
    type State;

    /// The transitions that can be made between states.
    type Transition;

    /// Calculate the resulting state when this state undergoes the given
    /// transition.
    fn next_state(starting_state: &Self::State, t: &Self::Transition) -> Self::State;
}

/// A set of play users for experimenting with the multi-user state machines.
#[derive(Hash, Eq, PartialEq, Debug, Clone, Copy, Structural)]
pub enum User {
    Alice,
    Bob,
    Charlie,
}

} // verus!

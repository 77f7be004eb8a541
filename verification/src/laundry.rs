//! When you wear clothes they get dirty. When you wash them they get wet.
//! When you dry them, they're ready to be worn again. Washing and wearing
//! clothes takes its toll, and eventually they get tattered.

use vstd::prelude::*;
use crate::state_machine::StateMachine;

verus! {

/// This state machine models the typical life cycle of clothes as they
/// make their way through the laundry cycle several times before
/// ultimately becoming tattered.
pub struct ClothesMachine;

/// Models a piece of clothing throughout its lifecycle.
#[derive(Clone, Copy, PartialEq, Eq, Debug, Structural)]
pub enum ClothesState {
    /// Clean clothes ready to be worn. With some given life left.
    Clean(u64),
    /// Dirty clothes. With some given life left.
    Dirty(u64),
    /// Wet clothes. With some given life left. The clothes are assumed to
    /// be wet because they were just washed, and washing clothes is the
    /// only modeled way to get them wet.
    Wet(u64),
    /// Tattered clothes beyond their useful life. These clothes will
    /// always be tattered no matter what is done with them.
    Tattered,
}

/// Something you can do with clothes.
pub enum ClothesAction {
    /// Wearing clothes decreases their life by 1 and makes them dirty.
    Wear,
    /// Washing clothes decreases their life by 1, and makes them wet.
    Wash,
    /// This operation models a tumble drier. Drying clothes decreases
    /// their life by 1. If the clothes were clean or wet to begin with
    /// they will be clean after drying. If they were dirty to begin with,
    /// they will still be dirty after drying.
    Dry,
}

/// The life cycle in one function: every action costs one unit of life,
/// clothes whose last unit is spent come out tattered, and tattered
/// clothes stay tattered whatever is done with them.
pub open spec fn laundry_next(s: ClothesState, a: ClothesAction) -> ClothesState {
    match s {
        ClothesState::Tattered => ClothesState::Tattered,
        ClothesState::Clean(life) => if life <= 1 {
            ClothesState::Tattered
        } else {
            match a {
                ClothesAction::Wear => ClothesState::Dirty((life - 1) as u64),
                ClothesAction::Wash => ClothesState::Wet((life - 1) as u64),
                ClothesAction::Dry => ClothesState::Clean((life - 1) as u64),
            }
        },
        ClothesState::Dirty(life) => if life <= 1 {
            ClothesState::Tattered
        } else {
            match a {
                ClothesAction::Wear => ClothesState::Dirty((life - 1) as u64),
                ClothesAction::Wash => ClothesState::Wet((life - 1) as u64),
                ClothesAction::Dry => ClothesState::Dirty((life - 1) as u64),
            }
        },
        ClothesState::Wet(life) => if life <= 1 {
            ClothesState::Tattered
        } else {
            match a {
                ClothesAction::Wear => ClothesState::Dirty((life - 1) as u64),
                ClothesAction::Wash => ClothesState::Wet((life - 1) as u64),
                ClothesAction::Dry => ClothesState::Clean((life - 1) as u64),
            }
        },
    }
}

impl StateMachine for ClothesMachine {
    type State = ClothesState;

    type Transition = ClothesAction;

    fn next_state(starting_state: &ClothesState, t: &ClothesAction) -> (r: ClothesState)
        ensures
            r == laundry_next(*starting_state, *t),
    {
        match starting_state {
            ClothesState::Tattered => ClothesState::Tattered,
            ClothesState::Clean(life) => if *life <= 1 {
                ClothesState::Tattered
            } else {
                match t {
                    ClothesAction::Wear => ClothesState::Dirty(*life - 1),
                    ClothesAction::Wash => ClothesState::Wet(*life - 1),
                    ClothesAction::Dry => ClothesState::Clean(*life - 1),
                }
            },
            ClothesState::Dirty(life) => if *life <= 1 {
                ClothesState::Tattered
            } else {
                match t {
                    ClothesAction::Wear => ClothesState::Dirty(*life - 1),
                    ClothesAction::Wash => ClothesState::Wet(*life - 1),
                    ClothesAction::Dry => ClothesState::Dirty(*life - 1),
                }
            },
            ClothesState::Wet(life) => if *life <= 1 {
                ClothesState::Tattered
            } else {
                match t {
                    ClothesAction::Wear => ClothesState::Dirty(*life - 1),
                    ClothesAction::Wash => ClothesState::Wet(*life - 1),
                    ClothesAction::Dry => ClothesState::Clean(*life - 1),
                }
            },
        }
    }
}

} // verus!

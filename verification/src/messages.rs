//! Plain records shared between the game and this library.
//!
//! The wire formats themselves are handled outside the library; these types
//! carry the already-validated values that the board logic reads.

use vstd::prelude::*;

verus! {

/// Player 1 or player 2.
#[derive(Copy, Clone, PartialEq, Eq, Structural, Debug, Hash)]
pub enum PlayerId {
    Player1,
    Player2,
}

impl PlayerId {
    /// Both players, in order.
    pub fn all() -> (r: [PlayerId; 2])
        ensures
            r@ == seq![PlayerId::Player1, PlayerId::Player2],
    {
        let r = [PlayerId::Player1, PlayerId::Player2];
        proof {
            assert(r@ =~= seq![PlayerId::Player1, PlayerId::Player2]);
        }
        r
    }
}

/// Phase of a game frame.
#[derive(Copy, Clone, PartialEq, Eq, Structural, Debug, Hash)]
pub enum Phase {
    Deploy,
    Action,
    EndGame,
}

/// Outcome of a finished game.
#[derive(Copy, Clone, PartialEq, Eq, Structural, Debug, Hash)]
pub enum Winner {
    Tie,
    Player1,
    Player2,
}

/// Category of a spawnable unit type.
#[derive(Copy, Clone, PartialEq, Eq, Structural, Debug, Hash)]
pub enum UnitCategory {
    Structure,
    Mobile,
}

/// Per-type configuration record: costs, starting health, upgrade costs and
/// the shorthand code used in the wire command format.
///
/// An upgrade cost of `None` means the type has no distinct upgrade cost and
/// falls back to its base cost.
pub struct UnitInformation {
    pub unit_category: Option<UnitCategory>,
    pub start_health: Option<u32>,
    pub cost1: Option<u32>,
    pub cost2: Option<u32>,
    pub upgrade_cost1: Option<u32>,
    pub upgrade_cost2: Option<u32>,
    pub shorthand: Option<String>,
}

impl UnitInformation {
    /// An exact copy of this record.
    pub fn duplicate(&self) -> (r: UnitInformation)
        ensures
            r == *self,
    {
        UnitInformation {
            unit_category: self.unit_category,
            start_health: self.start_health,
            cost1: self.cost1,
            cost2: self.cost2,
            upgrade_cost1: self.upgrade_cost1,
            upgrade_cost2: self.upgrade_cost2,
            shorthand: match &self.shorthand {
                Some(s) => Some(s.clone()),
                None => None,
            },
        }
    }
}

} // verus!

use vstd::prelude::*;
use crate::common::Color;
use crate::game::Ending;
use crate::map::Cities;

verus! {

/// What a game tells those who watch it, in the order in which it happens.
#[derive(Clone, Copy, Debug, PartialEq, Eq, Structural)]
pub enum Notice {
    /// A cube of the colour was placed in the city.
    Infected { city: Cities, color: Color },
    /// The disease of the colour broke out in the city.
    Outbreak { city: Cities, color: Color },
    /// An epidemic struck the city.
    EpidemicDrawn { city: Cities },
    /// The cure of the disease was found.
    Cured { color: Color },
    /// The disease was eradicated.
    Eradicated { color: Color },
    /// A research station was built in the city.
    StationBuilt { city: Cities },
    /// A research station was moved from one city to another.
    StationMoved { from: Cities, to: Cities },
    /// The hand of the player at the position has changed.
    HandChanged { player: usize },
    /// The turn has gone to the player at the position.
    TurnAdvanced { next: usize },
    /// The game has ended.
    GameOver { reason: Ending },
}

} // verus!

use vstd::prelude::*;
use crate::common::Color;
use crate::deck::Deck;
use crate::map::{listed_cities, listing, Cities, CITY_COUNT};

verus! {

/// A card of the infection deck: a city and the colour of its disease.
#[derive(Clone, Copy, Debug, PartialEq, Eq, Structural)]
pub struct InfectionCard {
    pub city: Cities,
    pub color: Color,
}

/// The card that the infection deck holds for `city`.
pub open spec fn infection_card(city: Cities) -> InfectionCard {
    InfectionCard { city, color: city.native_color() }
}

/// The infection deck before the game: one card for each city, in the order
/// of the map's listing.
pub open spec fn fresh_infection_deck() -> Seq<InfectionCard> {
    Seq::new(CITY_COUNT as nat, |i: int| infection_card(listing(i)))
}

impl InfectionCard {
    /// The card that the infection deck holds for `city`.
    pub fn of(city: Cities) -> (card: Self)
        ensures
            card == infection_card(city),
    {
        InfectionCard { city, color: city.color() }
    }
}

fn make_deck() -> (cards: Vec<InfectionCard>)
    ensures
        cards@ == fresh_infection_deck(),
{
    let cities = listed_cities();
    let mut cards: Vec<InfectionCard> = Vec::new();
    let mut i: usize = 0;
    while i < cities.len()
        invariant
            cities@ == crate::map::listed(),
            i <= CITY_COUNT,
            cards.len() == i,
            forall|k: int| 0 <= k < i ==> cards[k] == infection_card(listing(k)),
        decreases CITY_COUNT - i,
    {
        cards.push(InfectionCard::of(cities[i]));
        i += 1;
    }
    assert(cards@ =~= fresh_infection_deck());
    cards
}

impl Deck<InfectionCard> {
    /// The infection deck before the game, not yet shuffled.
    pub fn new() -> (deck: Self)
        ensures
            deck@ == fresh_infection_deck(),
    {
        Deck::from_vec(make_deck())
    }
}

} // verus!

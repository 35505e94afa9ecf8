use vstd::prelude::*;
use crate::chance::Dice;
use crate::common::Color;
use crate::deck::{shuffled, Deck};
use crate::infection_card::{fresh_infection_deck, InfectionCard};
pub use crate::map::Cities;
use crate::map::{contains_city, every_city, neighbours, WorldMap, CITY_COUNT};
use crate::notice::Notice;
use crate::player::{hands, views, Player};
use crate::player_card::{fresh_player_deck, seeded, PlayerCard};

verus! {

/// Number of player cards that a player draws in a turn.
pub const DRAW_CARDS_PER_ROUND: u8 = 2;

/// Number of cities that get the same number of cubes in the first
/// infection of a game.
pub const NUMBER_OF_CITIES_TO_INFECT_PER_ROUND_AT_START: u8 = 3;

/// The largest number of research stations on the board.
pub const MAX_RESEARCH_STATIONS: u8 = 6;

/// Number of cubes that each colour has.
pub const MAX_INFECTION_PER_TYPE: u8 = 24;

/// The largest number of cubes of one colour in a city.
pub const MAX_INFECTION_PER_TYPE_PER_CITY: u8 = 3;

/// The last position of the outbreak marker at which the game goes on.
pub const MAX_OUTBREAKS: u8 = 8;

/// Number of infection cards drawn at the end of a turn, by the position of
/// the infection-rate marker.
pub const INFECTION_RATE: [u8; 7] = [2, 2, 2, 3, 3, 4, 4];

/// The last position of the infection-rate marker.
pub const MAX_INFECTION_RATE_INDEX: usize = 6;

/// How far the players have come with a disease.
#[derive(Clone, Copy, Debug, PartialEq, Eq, Structural, Hash, PartialOrd, Ord)]
pub enum DiseaseState {
    Default,
    Cured,
    Eradicated,
}

impl DiseaseState {
    /// How far the state is on the way from a disease without cure to one
    /// that is eradicated.
    pub open spec fn rank(self) -> int {
        match self {
            DiseaseState::Default => 0,
            DiseaseState::Cured => 1,
            DiseaseState::Eradicated => 2,
        }
    }
}

/// What changes in a city during a game: its cubes by colour, whether it has
/// a research station, and whether it has broken out in the running chain of
/// outbreaks.
pub struct CityView {
    pub blue: nat,
    pub yellow: nat,
    pub black: nat,
    pub red: nat,
    pub station: bool,
    pub visited: bool,
}

impl CityView {
    /// Number of cubes of `color`.
    pub open spec fn cubes(self, color: Color) -> nat {
        match color {
            Color::Blue => self.blue,
            Color::Yellow => self.yellow,
            Color::Black => self.black,
            Color::Red => self.red,
        }
    }

    /// The same city with `n` cubes of `color`.
    pub open spec fn with_cubes(self, color: Color, n: nat) -> CityView {
        match color {
            Color::Blue => CityView { blue: n, ..self },
            Color::Yellow => CityView { yellow: n, ..self },
            Color::Black => CityView { black: n, ..self },
            Color::Red => CityView { red: n, ..self },
        }
    }

    /// A city without cubes, outside any chain of outbreaks.
    pub open spec fn blank(station: bool) -> CityView {
        CityView { blue: 0, yellow: 0, black: 0, red: 0, station, visited: false }
    }
}

/// The sum of `weight` over the cities of `cities`.
pub open spec fn tally(cities: Seq<CityView>, weight: spec_fn(CityView) -> nat) -> nat
    decreases cities.len(),
{
    if cities.len() == 0 {
        0
    } else {
        tally(cities.drop_last(), weight) + weight(cities.last())
    }
}

/// Counts a city's cubes of `color`.
pub open spec fn cube_weight(color: Color) -> spec_fn(CityView) -> nat {
    |city: CityView| city.cubes(color)
}

/// Counts 1 for a city with a research station.
pub open spec fn station_weight() -> spec_fn(CityView) -> nat {
    |city: CityView|
        if city.station {
            1nat
        } else {
            0nat
        }
}

/// Counts 1 for a city that has not broken out in the running chain.
pub open spec fn unvisited_weight() -> spec_fn(CityView) -> nat {
    |city: CityView|
        if city.visited {
            0nat
        } else {
            1nat
        }
}

/// Replacing one city changes the sum by the difference of the two weights.
pub proof fn lemma_tally_update(
    cities: Seq<CityView>,
    i: int,
    city: CityView,
    weight: spec_fn(CityView) -> nat,
)
    requires
        0 <= i < cities.len(),
    ensures
        tally(cities.update(i, city), weight) + weight(cities[i]) == tally(cities, weight) + weight(
            city,
        ),
    decreases cities.len(),
{
    let changed = cities.update(i, city);
    if i == cities.len() - 1 {
        assert(changed.drop_last() =~= cities.drop_last());
    } else {
        assert(changed.drop_last() =~= cities.drop_last().update(i, city));
        lemma_tally_update(cities.drop_last(), i, city, weight);
    }
}

/// Where no weight is above `bound`, the sum is at most `bound` for each city.
pub proof fn lemma_tally_bound(cities: Seq<CityView>, weight: spec_fn(CityView) -> nat, bound: nat)
    requires
        forall|i: int| 0 <= i < cities.len() ==> weight(#[trigger] cities[i]) <= bound,
    ensures
        tally(cities, weight) <= bound * cities.len(),
    decreases cities.len(),
{
    if cities.len() > 0 {
        let rest = cities.drop_last();
        assert forall|i: int| 0 <= i < rest.len() implies weight(#[trigger] rest[i]) <= bound by {
            assert(rest[i] == cities[i]);
        }
        lemma_tally_bound(rest, weight, bound);
        assert(bound * cities.len() == bound * rest.len() + bound) by (nonlinear_arith)
            requires
                cities.len() == rest.len() + 1,
        ;
    }
}

/// The sum over the first `n + 1` cities is the sum over the first `n` and
/// the weight of the next one.
pub proof fn lemma_tally_step(cities: Seq<CityView>, weight: spec_fn(CityView) -> nat, n: int)
    requires
        0 <= n < cities.len(),
    ensures
        tally(cities.take(n + 1), weight) == tally(cities.take(n), weight) + weight(cities[n]),
{
    assert(cities.take(n + 1).drop_last() =~= cities.take(n));
}

/// A sum that is 0 has only weights that are 0.
pub proof fn lemma_tally_zero(cities: Seq<CityView>, weight: spec_fn(CityView) -> nat, i: int)
    requires
        tally(cities, weight) == 0,
        0 <= i < cities.len(),
    ensures
        weight(cities[i]) == 0,
    decreases cities.len(),
{
    if i < cities.len() - 1 {
        lemma_tally_zero(cities.drop_last(), weight, i);
    }
}

/// The board as plain values. The cities stand in alphabetical order, the
/// piles are listed from the bottom card to the top one.
pub struct BoardView {
    pub cities: Seq<CityView>,
    pub blue_disease: DiseaseState,
    pub yellow_disease: DiseaseState,
    pub black_disease: DiseaseState,
    pub red_disease: DiseaseState,
    pub outbreaks: nat,
    pub epidemics: nat,
    pub max_epidemics: nat,
    pub rate_index: nat,
    pub player_deck: Seq<PlayerCard>,
    pub player_discard: Seq<PlayerCard>,
    pub infection_deck: Seq<InfectionCard>,
    pub infection_discard: Seq<InfectionCard>,
    pub notices: Seq<Notice>,
}

impl BoardView {
    /// What `city` holds.
    pub open spec fn city(self, city: Cities) -> CityView {
        self.cities[city.slot()]
    }

    /// Number of cubes of `color` in `city`.
    pub open spec fn cubes(self, city: Cities, color: Color) -> nat {
        self.city(city).cubes(color)
    }

    /// Whether `city` has a research station.
    pub open spec fn has_station(self, city: Cities) -> bool {
        self.city(city).station
    }

    /// Whether `city` has broken out in the running chain of outbreaks.
    pub open spec fn visited(self, city: Cities) -> bool {
        self.city(city).visited
    }

    /// How far the players have come with the disease of `color`.
    pub open spec fn disease(self, color: Color) -> DiseaseState {
        match color {
            Color::Blue => self.blue_disease,
            Color::Yellow => self.yellow_disease,
            Color::Black => self.black_disease,
            Color::Red => self.red_disease,
        }
    }

    /// Number of cubes of `color` on the whole board.
    pub open spec fn total(self, color: Color) -> nat {
        tally(self.cities, cube_weight(color))
    }

    /// Number of research stations on the board.
    pub open spec fn stations(self) -> nat {
        tally(self.cities, station_weight())
    }

    /// Number of cities that have not broken out in the running chain.
    pub open spec fn unvisited(self) -> nat {
        tally(self.cities, unvisited_weight())
    }

    /// The board after it has told `notice`.
    pub open spec fn noted(self, notice: Notice) -> BoardView {
        BoardView { notices: self.notices.push(notice), ..self }
    }

    /// The board with `city` holding `view`.
    pub open spec fn with_city(self, city: Cities, view: CityView) -> BoardView {
        BoardView { cities: self.cities.update(city.slot(), view), ..self }
    }

    /// The board with the disease of `color` in `state`.
    pub open spec fn with_disease(self, color: Color, state: DiseaseState) -> BoardView {
        match color {
            Color::Blue => BoardView { blue_disease: state, ..self },
            Color::Yellow => BoardView { yellow_disease: state, ..self },
            Color::Black => BoardView { black_disease: state, ..self },
            Color::Red => BoardView { red_disease: state, ..self },
        }
    }

    /// The board with one more cube of `color` in `city`.
    pub open spec fn with_cube(self, city: Cities, color: Color) -> BoardView {
        self.with_city(
            city,
            self.city(city).with_cubes(color, self.cubes(city, color) + 1),
        ).noted(Notice::Infected { city, color })
    }

    /// The board after the disease of `color` has broken out in `city`: the
    /// city is part of the running chain and the outbreak marker has moved
    /// one step.
    pub open spec fn with_outbreak(self, city: Cities, color: Color) -> BoardView {
        BoardView {
            outbreaks: self.outbreaks + 1,
            ..self.with_city(city, CityView { visited: true, ..self.city(city) })
        }.noted(Notice::Outbreak { city, color })
    }

    /// The board with `n` cubes of `color` taken from `city`, before anyone
    /// looks whether the disease is gone.
    pub open spec fn with_fewer_cubes(self, city: Cities, color: Color, n: nat) -> BoardView {
        self.with_city(
            city,
            self.city(city).with_cubes(color, (self.cubes(city, color) - n) as nat),
        )
    }

    /// The board on which the disease of `color` counts as eradicated if it
    /// is cured and has no cube left. This is looked at after cubes were
    /// taken from the board, and only then.
    pub open spec fn with_eradication_noted(self, color: Color) -> BoardView {
        if self.disease(color) == DiseaseState::Cured && self.total(color) == 0 {
            self.with_disease(color, DiseaseState::Eradicated).noted(
                Notice::Eradicated { color },
            )
        } else {
            self
        }
    }

    /// The board after `n` cubes of `color` were treated in `city`: they are
    /// gone, and a cured disease that has no cube left after that is
    /// eradicated. Where no cube is taken, the board stays as it is.
    pub open spec fn with_cubes_removed(self, city: Cities, color: Color, n: nat) -> BoardView {
        if n == 0 {
            self
        } else {
            self.with_fewer_cubes(city, color, n).with_eradication_noted(color)
        }
    }

    /// The board after every cube of `color` was taken from `city`, if the
    /// disease is cured and the city holds a cube of it; else the board as
    /// it is.
    pub open spec fn with_cured_cleared(self, city: Cities, color: Color) -> BoardView {
        if self.disease(color) == DiseaseState::Cured && self.cubes(city, color) > 0 {
            self.with_cubes_removed(city, color, self.cubes(city, color))
        } else {
            self
        }
    }

    /// The board after a medic has come to `city`: the cubes of every cured
    /// disease are gone from it. A city without such cubes leaves the board
    /// as it is.
    pub open spec fn with_medic_in(self, city: Cities) -> BoardView {
        self.with_cured_cleared(city, Color::Yellow).with_cured_cleared(
            city,
            Color::Black,
        ).with_cured_cleared(city, Color::Blue).with_cured_cleared(city, Color::Red)
    }

    /// The board after the cure of the disease of `color` was found.
    pub open spec fn with_cure(self, color: Color) -> BoardView {
        self.with_disease(color, DiseaseState::Cured).noted(Notice::Cured { color })
    }

    /// The board with a research station in `city`, or without one.
    pub open spec fn with_station(self, city: Cities, station: bool) -> BoardView {
        self.with_city(city, CityView { station, ..self.city(city) })
    }

    /// Whether a cure is known for all four diseases.
    pub open spec fn all_cured(self) -> bool {
        &&& self.blue_disease != DiseaseState::Default
        &&& self.yellow_disease != DiseaseState::Default
        &&& self.black_disease != DiseaseState::Default
        &&& self.red_disease != DiseaseState::Default
    }

    /// The board with no city in a chain of outbreaks.
    pub open spec fn with_chain_ended(self) -> BoardView {
        BoardView {
            cities: Seq::new(
                self.cities.len(),
                |i: int| CityView { visited: false, ..self.cities[i] },
            ),
            ..self
        }
    }

    /// No city holds more than three cubes of a colour.
    pub open spec fn cubes_bounded(self) -> bool {
        forall|i: int, color: Color|
            0 <= i < self.cities.len() ==> (#[trigger] self.cities[i].cubes(color))
                <= MAX_INFECTION_PER_TYPE_PER_CITY
    }

    /// No colour has more than 24 cubes on the board.
    pub open spec fn supply_respected(self) -> bool {
        forall|color: Color|
            #[trigger] tally(self.cities, cube_weight(color)) <= MAX_INFECTION_PER_TYPE
    }

    /// An eradicated disease has no cube on the board.
    pub open spec fn eradicated_are_gone(self) -> bool {
        forall|color: Color|
            self.disease(color) == DiseaseState::Eradicated ==> #[trigger] tally(
                self.cities,
                cube_weight(color),
            ) == 0
    }

    /// What holds of the board at any time: the bounds on cubes and stations,
    /// no cube of an eradicated disease, and a valid infection rate.
    pub open spec fn sound(self) -> bool {
        &&& self.cities.len() == CITY_COUNT
        &&& self.cubes_bounded()
        &&& self.supply_respected()
        &&& self.stations() <= MAX_RESEARCH_STATIONS
        &&& self.eradicated_are_gone()
        &&& self.rate_index <= MAX_INFECTION_RATE_INDEX
    }

    /// The outbreak marker has not passed its last position: the game is not
    /// lost to outbreaks.
    pub open spec fn in_play(self) -> bool {
        self.outbreaks <= MAX_OUTBREAKS
    }

    /// The board at the start: a research station in Atlanta, no cubes, both
    /// decks unshuffled.
    pub open spec fn initial() -> BoardView {
        BoardView {
            cities: Seq::new(
                CITY_COUNT as nat,
                |i: int| CityView::blank(Cities::at(i) == Cities::Atlanta),
            ),
            blue_disease: DiseaseState::Default,
            yellow_disease: DiseaseState::Default,
            black_disease: DiseaseState::Default,
            red_disease: DiseaseState::Default,
            outbreaks: 0,
            epidemics: 0,
            max_epidemics: 0,
            rate_index: 0,
            player_deck: fresh_player_deck(),
            player_discard: Seq::empty(),
            infection_deck: fresh_infection_deck(),
            infection_discard: Seq::empty(),
            notices: Seq::empty(),
        }
    }
}

/// Two lists of cities with the same weights, city by city, have the same sum.
pub proof fn lemma_tally_same(
    a: Seq<CityView>,
    b: Seq<CityView>,
    weight: spec_fn(CityView) -> nat,
)
    requires
        a.len() == b.len(),
        forall|i: int| 0 <= i < a.len() ==> weight(#[trigger] a[i]) == weight(b[i]),
    ensures
        tally(a, weight) == tally(b, weight),
    decreases a.len(),
{
    if a.len() > 0 {
        assert(weight(a[a.len() - 1]) == weight(b[a.len() - 1]));
        assert forall|i: int| 0 <= i < a.drop_last().len() implies weight(
            #[trigger] a.drop_last()[i],
        ) == weight(b.drop_last()[i]) by {
            assert(weight(a[i]) == weight(b[i]));
        }
        lemma_tally_same(a.drop_last(), b.drop_last(), weight);
    }
}

/// Placing a cube where the rules allow it keeps the board sound, adds one to
/// the colour's total and leaves the chain of outbreaks as it is.
pub proof fn lemma_cube_keeps_sound(board: BoardView, city: Cities, color: Color)
    requires
        board.sound(),
        board.disease(color) != DiseaseState::Eradicated,
        board.total(color) < MAX_INFECTION_PER_TYPE,
        board.cubes(city, color) < MAX_INFECTION_PER_TYPE_PER_CITY,
    ensures
        board.with_cube(city, color).sound(),
        board.with_cube(city, color).total(color) == board.total(color) + 1,
        board.with_cube(city, color).unvisited() == board.unvisited(),
        board.with_cube(city, color).stations() == board.stations(),
{
    crate::map::lemma_slot_inverse(city);
    let after = board.with_cube(city, color);
    let changed = board.city(city).with_cubes(color, board.cubes(city, color) + 1);
    lemma_tally_update(board.cities, city.slot(), changed, station_weight());
    lemma_tally_update(board.cities, city.slot(), changed, unvisited_weight());
    assert forall|other: Color| #[trigger]
        tally(after.cities, cube_weight(other)) <= MAX_INFECTION_PER_TYPE && (after.disease(other)
            == DiseaseState::Eradicated ==> tally(after.cities, cube_weight(other)) == 0) by {
        lemma_tally_update(board.cities, city.slot(), changed, cube_weight(other));
        assert(tally(board.cities, cube_weight(other)) <= MAX_INFECTION_PER_TYPE);
    }
    lemma_tally_update(board.cities, city.slot(), changed, cube_weight(color));
    assert forall|i: int, other: Color| 0 <= i < after.cities.len() implies (
    #[trigger] after.cities[i].cubes(other)) <= MAX_INFECTION_PER_TYPE_PER_CITY by {
        assert(board.cities[i].cubes(other) <= MAX_INFECTION_PER_TYPE_PER_CITY);
    }
}

/// An outbreak keeps the board sound and takes the city out of those that
/// have not broken out yet.
pub proof fn lemma_outbreak_keeps_sound(board: BoardView, city: Cities, color: Color)
    requires
        board.cities.len() == CITY_COUNT,
    ensures
        board.sound() ==> board.with_outbreak(city, color).sound(),
        board.with_outbreak(city, color).cities.len() == CITY_COUNT,
        !board.visited(city) ==> board.with_outbreak(city, color).unvisited() + 1
            == board.unvisited(),
        forall|other: Color| #[trigger]
            board.with_outbreak(city, color).total(other) == board.total(other),
{
    crate::map::lemma_slot_inverse(city);
    let after = board.with_outbreak(city, color);
    let changed = CityView { visited: true, ..board.city(city) };
    lemma_tally_update(board.cities, city.slot(), changed, station_weight());
    lemma_tally_update(board.cities, city.slot(), changed, unvisited_weight());
    assert forall|other: Color| #[trigger]
        tally(after.cities, cube_weight(other)) == tally(board.cities, cube_weight(other)) by {
        lemma_tally_update(board.cities, city.slot(), changed, cube_weight(other));
    }
    assert forall|other: Color| #[trigger] after.total(other) == board.total(other) by {
        assert(tally(after.cities, cube_weight(other)) == tally(
            board.cities,
            cube_weight(other),
        ));
    }
    if board.sound() {
        assert forall|i: int, other: Color| 0 <= i < after.cities.len() implies (
        #[trigger] after.cities[i].cubes(other)) <= MAX_INFECTION_PER_TYPE_PER_CITY by {
            assert(board.cities[i].cubes(other) <= MAX_INFECTION_PER_TYPE_PER_CITY);
        }
        assert forall|other: Color| #[trigger]
            tally(after.cities, cube_weight(other)) <= MAX_INFECTION_PER_TYPE && (after.disease(
                other,
            ) == DiseaseState::Eradicated ==> tally(after.cities, cube_weight(other)) == 0) by {
            assert(tally(after.cities, cube_weight(other)) == tally(
                board.cities,
                cube_weight(other),
            ));
        }
    }
}

/// What a chain of infections does to the board, and whether the game goes
/// on after it.
///
/// `pending` holds the cities that are still to be infected with `color`, the
/// next one last. A city of an eradicated disease, or one that has already
/// broken out in this chain, is passed over. Where the colour's 24 cubes are
/// all on the board the infection fails. A city with fewer than three cubes
/// of the colour gets one more. Any other city breaks out: it joins the
/// chain, the outbreak marker moves, and, unless the marker has passed its
/// last position, the city's neighbours are infected in alphabetical order,
/// each with all that follows from it, before the cities that were pending.
/// `ok` says whether everything before went well.
pub open spec fn cascade(board: BoardView, color: Color, pending: Seq<Cities>, ok: bool) -> (
    BoardView,
    bool,
)
    decreases board.unvisited(), pending.len(),
    when board.cities.len() == CITY_COUNT
{
    if pending.len() == 0 {
        (board, ok)
    } else {
        let city = pending.last();
        let rest = pending.drop_last();
        if board.disease(color) == DiseaseState::Eradicated || board.visited(city) {
            cascade(board, color, rest, ok)
        } else if board.total(color) >= MAX_INFECTION_PER_TYPE {
            cascade(board, color, rest, false)
        } else if board.cubes(city, color) < MAX_INFECTION_PER_TYPE_PER_CITY {
            proof {
                crate::map::lemma_slot_inverse(city);
                lemma_tally_update(
                    board.cities,
                    city.slot(),
                    board.city(city).with_cubes(color, board.cubes(city, color) + 1),
                    unvisited_weight(),
                );
            }
            cascade(board.with_cube(city, color), color, rest, ok)
        } else {
            proof {
                lemma_outbreak_keeps_sound(board, city, color);
            }
            let spread = board.with_outbreak(city, color);
            if spread.outbreaks > MAX_OUTBREAKS {
                cascade(spread, color, rest, false)
            } else {
                cascade(spread, color, rest + neighbours(city).reverse(), ok)
            }
        }
    }
}

/// What infecting `city` with `color` does to the board, and whether the
/// game goes on.
pub open spec fn infection(board: BoardView, color: Color, city: Cities) -> (BoardView, bool) {
    cascade(board, color, seq![city], true)
}

/// What an outbreak of `color` in `city` does to the board, and whether the
/// game goes on. Nothing happens where the disease is eradicated or the city
/// has already broken out in the running chain.
pub open spec fn outbreak(board: BoardView, color: Color, city: Cities) -> (BoardView, bool) {
    if board.disease(color) == DiseaseState::Eradicated || board.visited(city) {
        (board, true)
    } else {
        let spread = board.with_outbreak(city, color);
        if spread.outbreaks > MAX_OUTBREAKS {
            (spread, false)
        } else {
            cascade(spread, color, neighbours(city).reverse(), true)
        }
    }
}

/// What infecting `city` with its own colour up to `times` times in one chain
/// does to the board, and whether the game goes on: after an infection that
/// ends the game no further one is tried.
pub open spec fn strike(board: BoardView, city: Cities, times: nat) -> (BoardView, bool)
    decreases times,
{
    if times == 0 {
        (board, true)
    } else {
        let hit = infection(board, city.native_color(), city);
        if hit.1 {
            strike(hit.0, city, (times - 1) as nat)
        } else {
            hit
        }
    }
}

/// What the infection card `card`, drawn for `times` cubes, does to the
/// board: a new chain of outbreaks begins, the card's city is infected, and
/// the card lies on top of the infection discard pile.
pub open spec fn card_strike(board: BoardView, card: InfectionCard, times: nat) -> (
    BoardView,
    bool,
) {
    let hit = strike(board.with_chain_ended(), card.city, times);
    (BoardView { infection_discard: hit.0.infection_discard.push(card), ..hit.0 }, hit.1)
}

/// How an epidemic ends on `before`: the infection rate has moved, the
/// bottom card of the infection deck has struck three times, and, if the
/// game goes on, the shuffled discard pile lies on top of the infection
/// deck. With an empty infection deck only the markers move.
pub open spec fn epidemic_outcome(before: BoardView, goes_on: bool, after: BoardView) -> bool {
    let marked = BoardView {
        rate_index: if before.rate_index < MAX_INFECTION_RATE_INDEX {
            before.rate_index + 1
        } else {
            before.rate_index
        },
        epidemics: before.epidemics + 1,
        ..before
    };
    if before.infection_deck.len() == 0 {
        goes_on && after == marked
    } else {
        let card = before.infection_deck.first();
        let drawn = BoardView {
            infection_deck: before.infection_deck.drop_first(),
            notices: marked.notices.push(Notice::EpidemicDrawn { city: card.city }),
            ..marked
        };
        let struck = card_strike(drawn, card, MAX_INFECTION_PER_TYPE_PER_CITY as nat);
        &&& goes_on == struck.1
        &&& !goes_on ==> after == struck.0
        &&& goes_on ==> {
            &&& after == (BoardView {
                infection_deck: after.infection_deck,
                infection_discard: Seq::empty(),
                ..struck.0
            })
            &&& after.infection_deck.len() == drawn.infection_deck.len()
                + struck.0.infection_discard.len()
            &&& after.infection_deck.take(drawn.infection_deck.len() as int)
                == drawn.infection_deck
            &&& after.infection_deck.skip(drawn.infection_deck.len() as int).to_multiset()
                == struck.0.infection_discard.to_multiset()
        }
    }
}

/// How the infection of cities at the end of a turn goes, card by card from
/// the top of the infection deck: each card begins a new chain of outbreaks
/// and strikes once; after a card that ends the game, or when the deck is
/// empty, no further card is drawn.
pub open spec fn infect_cities(board: BoardView, cards: nat) -> (BoardView, bool)
    decreases cards,
{
    if cards == 0 || board.infection_deck.len() == 0 {
        (board, true)
    } else {
        let card = board.infection_deck.last();
        let drawn = BoardView { infection_deck: board.infection_deck.drop_last(), ..board };
        let struck = card_strike(drawn, card, 1);
        if struck.1 {
            infect_cities(struck.0, (cards - 1) as nat)
        } else {
            struck
        }
    }
}

/// How the first infection of the game goes: three cards from the top of
/// the infection deck strike three times each, then three strike twice, then
/// three strike once.
pub open spec fn first_infection(board: BoardView) -> (BoardView, bool) {
    let heavy = infect_start(board, 3, 3);
    if !heavy.1 {
        heavy
    } else {
        let medium = infect_start(heavy.0, 2, 3);
        if !medium.1 {
            medium
        } else {
            infect_start(medium.0, 1, 3)
        }
    }
}

/// How `cards` cards from the top of the infection deck strike `times` times
/// each.
pub open spec fn infect_start(board: BoardView, times: nat, cards: nat) -> (BoardView, bool)
    decreases cards,
{
    if cards == 0 || board.infection_deck.len() == 0 {
        (board, true)
    } else {
        let card = board.infection_deck.last();
        let drawn = BoardView { infection_deck: board.infection_deck.drop_last(), ..board };
        let struck = card_strike(drawn, card, times);
        if struck.1 {
            infect_start(struck.0, times, (cards - 1) as nat)
        } else {
            struck
        }
    }
}

/// A city of the board: what the map says of it and what it holds.
#[derive(Debug)]
pub struct City {
    pub(crate) city: Cities,
    pub(crate) color: Color,
    pub(crate) adjacent_cities: Vec<Cities>,
    pub(crate) has_research_station: bool,
    pub(crate) blue_infection_count: u8,
    pub(crate) yellow_infection_count: u8,
    pub(crate) black_infection_count: u8,
    pub(crate) red_infection_count: u8,
    current_outbreak: bool,
}

impl View for City {
    type V = CityView;

    closed spec fn view(&self) -> CityView {
        CityView {
            blue: self.blue_infection_count as nat,
            yellow: self.yellow_infection_count as nat,
            black: self.black_infection_count as nat,
            red: self.red_infection_count as nat,
            station: self.has_research_station,
            visited: self.current_outbreak,
        }
    }
}

impl City {
    /// The city's identity.
    pub closed spec fn identity(&self) -> Cities {
        self.city
    }

    /// The colour that the city was made with.
    pub closed spec fn tint(&self) -> Color {
        self.color
    }

    /// The cities that the city was made next to.
    pub closed spec fn links(&self) -> Seq<Cities> {
        self.adjacent_cities@
    }

    /// The city stands for `city` as the map describes it.
    pub open spec fn matches_map(&self, city: Cities) -> bool {
        &&& self.identity() == city
        &&& self.tint() == city.native_color()
        &&& self.links() == neighbours(city)
    }

    /// A city without cubes and without a research station.
    pub fn new(city: Cities, color: Color, adjacent_cities: Vec<Cities>) -> (made: Self)
        ensures
            made.identity() == city,
            made.tint() == color,
            made.links() == adjacent_cities@,
            made@ == CityView::blank(false),
    {
        Self {
            city,
            color,
            adjacent_cities,
            has_research_station: false,
            blue_infection_count: 0,
            yellow_infection_count: 0,
            black_infection_count: 0,
            red_infection_count: 0,
            current_outbreak: false,
        }
    }

    /// A city without cubes, with a research station.
    pub fn new_with_research_station(
        city: Cities,
        color: Color,
        adjacent_cities: Vec<Cities>,
    ) -> (made: Self)
        ensures
            made.identity() == city,
            made.tint() == color,
            made.links() == adjacent_cities@,
            made@ == CityView::blank(true),
    {
        Self {
            city,
            color,
            adjacent_cities,
            has_research_station: true,
            blue_infection_count: 0,
            yellow_infection_count: 0,
            black_infection_count: 0,
            red_infection_count: 0,
            current_outbreak: false,
        }
    }

    /// Number of cubes of `color` in the city.
    pub fn infection_count(&self, color: Color) -> (n: u8)
        ensures
            n == self@.cubes(color),
    {
        match color {
            Color::Blue => self.blue_infection_count,
            Color::Yellow => self.yellow_infection_count,
            Color::Black => self.black_infection_count,
            Color::Red => self.red_infection_count,
        }
    }

    fn set_infection_count(&mut self, color: Color, n: u8)
        ensures
            final(self)@ == old(self)@.with_cubes(color, n as nat),
            final(self).identity() == old(self).identity(),
            final(self).tint() == old(self).tint(),
            final(self).links() == old(self).links(),
    {
        match color {
            Color::Blue => {
                self.blue_infection_count = n;
            },
            Color::Yellow => {
                self.yellow_infection_count = n;
            },
            Color::Black => {
                self.black_infection_count = n;
            },
            Color::Red => {
                self.red_infection_count = n;
            },
        }
    }
}

fn make_cities() -> (cities: Vec<City>)
    ensures
        cities.len() == CITY_COUNT,
        forall|i: int|
            0 <= i < CITY_COUNT ==> {
                &&& (#[trigger] cities[i]).matches_map(Cities::at(i))
                &&& cities[i]@ == CityView::blank(Cities::at(i) == Cities::Atlanta)
            },
{
    let map = WorldMap::new();
    let names = map.all_cities();
    let mut cities: Vec<City> = Vec::new();
    let mut i: usize = 0;
    while i < names.len()
        invariant
            names@ == every_city(),
            i <= CITY_COUNT,
            cities.len() == i,
            forall|k: int|
                0 <= k < i ==> {
                    &&& (#[trigger] cities[k]).matches_map(Cities::at(k))
                    &&& cities[k]@ == CityView::blank(Cities::at(k) == Cities::Atlanta)
                },
        decreases CITY_COUNT - i,
    {
        let name = names[i];
        let adjacent = match map.adjacent_to(name) {
            Some(adjacent) => adjacent,
            None => Vec::new(),
        };
        let city = if name == Cities::Atlanta {
            City::new_with_research_station(name, name.color(), adjacent)
        } else {
            City::new(name, name.color(), adjacent)
        };
        cities.push(city);
        i += 1;
    }
    cities
}

/// The board: the cities with their cubes and stations, the four piles of
/// cards, the state of the four diseases and the markers.
pub struct Board {
    pub(crate) map: Vec<City>,
    pub(crate) player_deck: Deck<PlayerCard>,
    pub(crate) player_discard: Deck<PlayerCard>,
    pub(crate) infection_deck: Deck<InfectionCard>,
    pub(crate) infection_discard: Deck<InfectionCard>,
    pub(crate) blue_disease: DiseaseState,
    pub(crate) yellow_disease: DiseaseState,
    pub(crate) black_disease: DiseaseState,
    pub(crate) red_disease: DiseaseState,
    pub(crate) outbreaks: u8,
    pub(crate) epidemics: u8,
    max_epidemics: u8,
    infection_rate: usize,
    notices: Vec<Notice>,
}

impl View for Board {
    type V = BoardView;

    closed spec fn view(&self) -> BoardView {
        BoardView {
            cities: Seq::new(self.map.len() as nat, |i: int| self.map[i]@),
            blue_disease: self.blue_disease,
            yellow_disease: self.yellow_disease,
            black_disease: self.black_disease,
            red_disease: self.red_disease,
            outbreaks: self.outbreaks as nat,
            epidemics: self.epidemics as nat,
            max_epidemics: self.max_epidemics as nat,
            rate_index: self.infection_rate as nat,
            player_deck: self.player_deck@,
            player_discard: self.player_discard@,
            infection_deck: self.infection_deck@,
            infection_discard: self.infection_discard@,
            notices: self.notices@,
        }
    }
}

impl Board {
    /// The cities stand in alphabetical order, each as the map describes it.
    pub closed spec fn consistent(&self) -> bool {
        &&& self.map.len() == CITY_COUNT
        &&& forall|i: int|
            0 <= i < CITY_COUNT ==> (#[trigger] self.map[i]).matches_map(Cities::at(i))
    }

    /// The board is consistent with the map and sound.
    pub open spec fn wf(&self) -> bool {
        &&& self.consistent()
        &&& self@.sound()
    }

    /// The board at the start of a game: a research station in Atlanta, no
    /// cubes, both decks complete and in the order of the map's listing.
    pub fn new() -> (board: Self)
        ensures
            board.wf(),
            board@ == BoardView::initial(),
    {
        let board = Self {
            map: make_cities(),
            player_deck: Deck::<PlayerCard>::new(),
            player_discard: Deck::new_empty(),
            infection_deck: Deck::<InfectionCard>::new(),
            infection_discard: Deck::new_empty(),
            blue_disease: DiseaseState::Default,
            yellow_disease: DiseaseState::Default,
            black_disease: DiseaseState::Default,
            red_disease: DiseaseState::Default,
            outbreaks: 0,
            epidemics: 0,
            max_epidemics: 0,
            infection_rate: 0,
            notices: Vec::new(),
        };
        proof {
            assert(board@.cities =~= BoardView::initial().cities);
            lemma_initial_is_sound();
        }
        board
    }

    /// The cities next to `city`, in alphabetical order.
    pub fn adjacent_to(&self, city: Cities) -> (adjacent: Option<Vec<Cities>>)
        requires
            self.wf(),
        ensures
            adjacent is Some,
            adjacent.unwrap()@ == neighbours(city),
    {
        let i = city.index();
        proof {
            crate::map::lemma_slot_inverse(city);
            assert(self.map[i as int].matches_map(Cities::at(i as int)));
        }
        Some(self.map[i].adjacent_cities.clone())
    }

    /// Whether the map links the two cities, in either direction.
    pub fn is_adjacent(&self, from: Cities, to: Cities) -> (linked: bool)
        requires
            self.wf(),
        ensures
            linked == crate::map::linked(from, to),
    {
        let forward = match self.adjacent_to(from) {
            Some(cities) => contains_city(&cities, to),
            None => false,
        };
        if forward {
            return true;
        }
        match self.adjacent_to(to) {
            Some(cities) => contains_city(&cities, from),
            None => false,
        }
    }

    /// All the cities of the board, in alphabetical order.
    pub fn all_cities(&self) -> (cities: Vec<Cities>)
        requires
            self.wf(),
        ensures
            cities@ == every_city(),
    {
        let mut cities = Vec::new();
        let mut i: usize = 0;
        while i < self.map.len()
            invariant
                self.wf(),
                i <= CITY_COUNT,
                cities.len() == i,
                forall|k: int| 0 <= k < i ==> cities[k] == Cities::at(k),
            decreases CITY_COUNT - i,
        {
            assert(self.map[i as int].matches_map(Cities::at(i as int)));
            cities.push(self.map[i].city);
            i += 1;
        }
        assert(cities@ =~= every_city());
        cities
    }

    /// Number of cubes of `color` on the whole board.
    pub fn total_cubes(&self, color: Color) -> (total: u8)
        requires
            self.wf(),
        ensures
            total == self@.total(color),
            total <= MAX_INFECTION_PER_TYPE,
    {
        let mut acc: u8 = 0;
        let mut i: usize = 0;
        while i < self.map.len()
            invariant
                self.wf(),
                i <= CITY_COUNT,
                acc == tally(self@.cities.take(i as int), cube_weight(color)),
                acc <= 3 * i,
            decreases CITY_COUNT - i,
        {
            proof {
                lemma_tally_step(self@.cities, cube_weight(color), i as int);
                assert(self@.cities[i as int].cubes(color) <= 3);
            }
            acc += self.map[i].infection_count(color);
            i += 1;
        }
        assert(self@.cities.take(CITY_COUNT as int) =~= self@.cities);
        acc
    }

    /// Number of research stations on the board.
    pub fn total_research_stations(&self) -> (total: u8)
        requires
            self.wf(),
        ensures
            total == self@.stations(),
            total <= MAX_RESEARCH_STATIONS,
    {
        let mut acc: u8 = 0;
        let mut i: usize = 0;
        while i < self.map.len()
            invariant
                self.wf(),
                i <= CITY_COUNT,
                acc == tally(self@.cities.take(i as int), station_weight()),
                acc <= i,
            decreases CITY_COUNT - i,
        {
            proof {
                lemma_tally_step(self@.cities, station_weight(), i as int);
            }
            if self.map[i].has_research_station {
                acc += 1;
            }
            i += 1;
        }
        assert(self@.cities.take(CITY_COUNT as int) =~= self@.cities);
        acc
    }

    /// Number of cubes of `color` in `city`.
    pub fn infection_count(&self, city: Cities, color: Color) -> (n: u8)
        requires
            self.wf(),
        ensures
            n == self@.cubes(city, color),
            n <= MAX_INFECTION_PER_TYPE_PER_CITY,
    {
        let i = city.index();
        assert(self@.cities[i as int].cubes(color) <= MAX_INFECTION_PER_TYPE_PER_CITY);
        self.map[i].infection_count(color)
    }

    /// Whether `city` has a research station.
    pub fn has_research_station(&self, city: Cities) -> (yes: bool)
        requires
            self.wf(),
        ensures
            yes == self@.has_station(city),
    {
        self.map[city.index()].has_research_station
    }

    /// How far the players have come with the disease of `color`.
    pub fn disease_state(&self, color: Color) -> (state: DiseaseState)
        ensures
            state == self@.disease(color),
    {
        match color {
            Color::Blue => self.blue_disease,
            Color::Yellow => self.yellow_disease,
            Color::Black => self.black_disease,
            Color::Red => self.red_disease,
        }
    }

    /// The player deck.
    pub fn player_deck(&self) -> (deck: &Deck<PlayerCard>)
        ensures
            deck@ == self@.player_deck,
    {
        &self.player_deck
    }

    /// The discard pile of the player deck.
    pub fn player_discard(&self) -> (deck: &Deck<PlayerCard>)
        ensures
            deck@ == self@.player_discard,
    {
        &self.player_discard
    }

    /// The infection deck.
    pub fn infection_deck(&self) -> (deck: &Deck<InfectionCard>)
        ensures
            deck@ == self@.infection_deck,
    {
        &self.infection_deck
    }

    /// The discard pile of the infection deck.
    pub fn infection_discard(&self) -> (deck: &Deck<InfectionCard>)
        ensures
            deck@ == self@.infection_discard,
    {
        &self.infection_discard
    }

    /// Number of outbreaks so far.
    pub fn outbreaks(&self) -> (n: u8)
        ensures
            n == self@.outbreaks,
    {
        self.outbreaks
    }

    /// Number of epidemics drawn so far.
    pub fn epidemics(&self) -> (n: u8)
        ensures
            n == self@.epidemics,
    {
        self.epidemics
    }

    /// Number of epidemic cards that the game was set up with.
    pub fn max_epidemics(&self) -> (n: u8)
        ensures
            n == self@.max_epidemics,
    {
        self.max_epidemics
    }

    /// Ends the running chain of outbreaks: no city counts as broken out any
    /// more. Whoever starts a new sequence of infections calls this first.
    pub fn end_outbreak_chain(&mut self)
        requires
            old(self).wf(),
        ensures
            final(self).wf(),
            final(self)@ == old(self)@.with_chain_ended(),
            final(self)@.in_play() == old(self)@.in_play(),
    {
        let mut i: usize = 0;
        while i < self.map.len()
            invariant
                self.consistent(),
                i <= CITY_COUNT,
                self@.cities.len() == CITY_COUNT,
                old(self)@.cities.len() == CITY_COUNT,
                forall|k: int|
                    0 <= k < i ==> #[trigger] self@.cities[k] == (CityView {
                        visited: false,
                        ..old(self)@.cities[k]
                    }),
                forall|k: int| i <= k < CITY_COUNT ==> #[trigger] self@.cities[k] == old(self)@.cities[k],
                self@ == (BoardView { cities: self@.cities, ..old(self)@ }),
            decreases CITY_COUNT - i,
        {
            let ghost before = self.map@;
            let ghost prev = self@;
            self.map[i].current_outbreak = false;
            proof {
                assert forall|k: int| 0 <= k < CITY_COUNT implies (#[trigger] self.map[k]).matches_map(
                    Cities::at(k),
                ) by {
                    assert(before[k].matches_map(Cities::at(k)));
                }
                assert(self@.cities =~= prev.cities.update(
                    i as int,
                    CityView { visited: false, ..prev.cities[i as int] },
                ));
            }
            i += 1;
        }
        proof {
            let before = old(self)@;
            let after = self@;
            assert(after.cities =~= before.with_chain_ended().cities);
            lemma_tally_same(before.cities, after.cities, station_weight());
            assert forall|color: Color| #[trigger]
                tally(after.cities, cube_weight(color)) == tally(
                    before.cities,
                    cube_weight(color),
                ) by {
                lemma_tally_same(before.cities, after.cities, cube_weight(color));
            }
            assert forall|k: int, color: Color| 0 <= k < after.cities.len() implies (
            #[trigger] after.cities[k].cubes(color)) <= MAX_INFECTION_PER_TYPE_PER_CITY by {
                assert(before.cities[k].cubes(color) <= MAX_INFECTION_PER_TYPE_PER_CITY);
            }
        }
    }

    /// Lets the disease of `color` break out in `city`: the city joins the
    /// running chain, the outbreak marker moves and the outbreak is told.
    fn break_out(&mut self, city: Cities, color: Color)
        requires
            old(self).wf(),
            old(self)@.outbreaks < u8::MAX,
        ensures
            final(self).wf(),
            final(self)@ == old(self)@.with_outbreak(city, color),
    {
        let slot = city.index();
        let ghost before = self@;
        let ghost cities = self.map@;
        self.map[slot].current_outbreak = true;
        self.outbreaks += 1;
        self.notices.push(Notice::Outbreak { city, color });
        proof {
            crate::map::lemma_slot_inverse(city);
            lemma_outbreak_keeps_sound(before, city, color);
            assert(self@.cities =~= before.with_outbreak(city, color).cities);
            assert forall|k: int| 0 <= k < CITY_COUNT implies (#[trigger] self.map[k]).matches_map(
                Cities::at(k),
            ) by {
                assert(cities[k].matches_map(Cities::at(k)));
            }
        }
    }

    /// Places one more cube of `color` in `city` and tells of it.
    fn place_cube(&mut self, city: Cities, color: Color)
        requires
            old(self).wf(),
            old(self)@.disease(color) != DiseaseState::Eradicated,
            old(self)@.total(color) < MAX_INFECTION_PER_TYPE,
            old(self)@.cubes(city, color) < MAX_INFECTION_PER_TYPE_PER_CITY,
        ensures
            final(self).wf(),
            final(self)@ == old(self)@.with_cube(city, color),
    {
        let slot = city.index();
        let ghost before = self@;
        let ghost cities = self.map@;
        proof {
            crate::map::lemma_slot_inverse(city);
        }
        let held = self.map[slot].infection_count(color);
        self.map[slot].set_infection_count(color, held + 1);
        self.notices.push(Notice::Infected { city, color });
        proof {
            lemma_cube_keeps_sound(before, city, color);
            assert(self@.cities =~= before.with_cube(city, color).cities);
            assert forall|k: int| 0 <= k < CITY_COUNT implies (#[trigger] self.map[k]).matches_map(
                Cities::at(k),
            ) by {
                assert(cities[k].matches_map(Cities::at(k)));
            }
        }
    }

    /// Lays the neighbours of `city` on `pending`, the first of them last.
    fn wait_for_neighbours(&self, city: Cities, pending: &mut Vec<Cities>)
        requires
            self.wf(),
        ensures
            final(pending)@ == old(pending)@ + neighbours(city).reverse(),
    {
        let slot = city.index();
        proof {
            crate::map::lemma_slot_inverse(city);
            assert(self.map[slot as int].matches_map(city));
        }
        let ghost rest = pending@;
        let count = self.map[slot].adjacent_cities.len();
        let mut j = count;
        assert(pending@ =~= rest + neighbours(city).subrange(j as int, count as int).reverse());
        while j > 0
            invariant
                slot < self.map.len(),
                count == self.map[slot as int].adjacent_cities.len(),
                self.map[slot as int].adjacent_cities@ == neighbours(city),
                j <= count,
                pending@ == rest + neighbours(city).subrange(j as int, count as int).reverse(),
            decreases j,
        {
            j -= 1;
            pending.push(self.map[slot].adjacent_cities[j]);
            assert(pending@ =~= rest + neighbours(city).subrange(j as int, count as int).reverse())
                by {
                let wider = neighbours(city).subrange(j as int, count as int);
                let narrower = neighbours(city).subrange(j as int + 1, count as int);
                assert(wider.reverse() =~= narrower.reverse().push(neighbours(city)[j as int]));
            }
        }
        assert(neighbours(city).subrange(0, count as int) =~= neighbours(city));
    }

    /// Works off the pending infections of a chain, the last of them first.
    fn run_cascade(&mut self, color: Color, pending: Vec<Cities>, ok: bool) -> (goes_on: bool)
        requires
            old(self).wf(),
            old(self)@.outbreaks + old(self)@.unvisited() <= MAX_OUTBREAKS + CITY_COUNT,
        ensures
            final(self).wf(),
            (final(self)@, goes_on) == cascade(old(self)@, color, pending@, ok),
    {
        let ghost goal = cascade(self@, color, pending@, ok);
        let mut pending = pending;
        let mut ok = ok;
        while pending.len() > 0
            invariant
                self.wf(),
                self@.outbreaks + self@.unvisited() <= MAX_OUTBREAKS + CITY_COUNT,
                cascade(self@, color, pending@, ok) == goal,
            decreases self@.unvisited(), pending.len(),
        {
            let ghost before = self@;
            let ghost waiting = pending@;
            let city = match pending.pop() {
                Some(city) => city,
                None => Cities::Atlanta,
            };
            assert(city == waiting.last() && pending@ =~= waiting.drop_last());
            if self.disease_state(color) == DiseaseState::Eradicated || self.is_in_chain(city) {
            } else if self.total_cubes(color) >= MAX_INFECTION_PER_TYPE {
                ok = false;
            } else if self.infection_count(city, color) < MAX_INFECTION_PER_TYPE_PER_CITY {
                proof {
                    lemma_cube_keeps_sound(before, city, color);
                }
                self.place_cube(city, color);
            } else {
                proof {
                    lemma_outbreak_keeps_sound(before, city, color);
                }
                self.break_out(city, color);
                if self.outbreaks > MAX_OUTBREAKS {
                    ok = false;
                } else {
                    self.wait_for_neighbours(city, &mut pending);
                }
            }
        }
        ok
    }

    /// Whether `city` has broken out in the running chain of outbreaks.
    pub fn is_in_chain(&self, city: Cities) -> (yes: bool)
        requires
            self.wf(),
        ensures
            yes == self@.visited(city),
    {
        self.map[city.index()].current_outbreak
    }

    /// Infects `city` with one cube of `color`, with all the outbreaks that
    /// follow from it, and says whether the game goes on.
    pub fn infect_city_color(&mut self, city: Cities, color: Color) -> (goes_on: bool)
        requires
            old(self).wf(),
            old(self)@.in_play(),
        ensures
            final(self).wf(),
            (final(self)@, goes_on) == infection(old(self)@, color, city),
            goes_on ==> final(self)@.in_play(),
    {
        proof {
            lemma_tally_bound(self@.cities, unvisited_weight(), 1);
            lemma_cascade_in_play(self@, color, seq![city], true);
        }
        let mut pending = Vec::new();
        pending.push(city);
        assert(pending@ =~= seq![city]);
        self.run_cascade(color, pending, true)
    }

    /// Infects `city` with one cube of its own colour.
    pub fn infect_city(&mut self, city: Cities) -> (goes_on: bool)
        requires
            old(self).wf(),
            old(self)@.in_play(),
        ensures
            final(self).wf(),
            (final(self)@, goes_on) == infection(old(self)@, city.native_color(), city),
            goes_on ==> final(self)@.in_play(),
    {
        self.infect_city_color(city, city.color())
    }

    /// Lets the disease of `color` break out in `city`, whatever the number
    /// of cubes there, and says whether the game goes on.
    pub fn outbreak_city_color(&mut self, city: Cities, color: Color) -> (goes_on: bool)
        requires
            old(self).wf(),
            old(self)@.in_play(),
        ensures
            final(self).wf(),
            (final(self)@, goes_on) == outbreak(old(self)@, color, city),
            goes_on ==> final(self)@.in_play(),
    {
        let ghost before = self@;
        proof {
            lemma_tally_bound(self@.cities, unvisited_weight(), 1);
            lemma_outbreak_keeps_sound(before, city, color);
        }
        if self.disease_state(color) == DiseaseState::Eradicated || self.is_in_chain(city) {
            return true;
        }
        self.break_out(city, color);
        if self.outbreaks > MAX_OUTBREAKS {
            return false;
        }
        let mut pending: Vec<Cities> = Vec::new();
        self.wait_for_neighbours(city, &mut pending);
        proof {
            assert(pending@ =~= neighbours(city).reverse());
            lemma_cascade_in_play(self@, color, pending@, true);
        }
        self.run_cascade(color, pending, true)
    }

    /// Lets the city's own disease break out in `city`.
    pub fn outbreak_city(&mut self, city: Cities) -> (goes_on: bool)
        requires
            old(self).wf(),
            old(self)@.in_play(),
        ensures
            final(self).wf(),
            (final(self)@, goes_on) == outbreak(old(self)@, city.native_color(), city),
            goes_on ==> final(self)@.in_play(),
    {
        self.outbreak_city_color(city, city.color())
    }

    fn set_disease_state(&mut self, color: Color, state: DiseaseState)
        ensures
            final(self)@ == old(self)@.with_disease(color, state),
            final(self).consistent() == old(self).consistent(),
    {
        match color {
            Color::Blue => {
                self.blue_disease = state;
            },
            Color::Yellow => {
                self.yellow_disease = state;
            },
            Color::Black => {
                self.black_disease = state;
            },
            Color::Red => {
                self.red_disease = state;
            },
        }
        assert(self@.cities =~= old(self)@.cities);
    }

    /// Takes `n` cubes of `color` from `city`. A cured disease that has no
    /// cube left on the board after that is eradicated. Where no cube is
    /// taken, nothing changes.
    pub fn remove_cubes(&mut self, city: Cities, color: Color, n: u8)
        requires
            old(self).wf(),
            n <= old(self)@.cubes(city, color),
        ensures
            final(self).wf(),
            final(self)@ == old(self)@.with_cubes_removed(city, color, n as nat),
    {
        if n == 0 {
            return ;
        }
        let slot = city.index();
        let ghost before = self@;
        let ghost cities = self.map@;
        let held = self.map[slot].infection_count(color);
        self.map[slot].set_infection_count(color, held - n);
        proof {
            crate::map::lemma_slot_inverse(city);
            lemma_removal_keeps_sound(before, city, color, n as nat);
            assert(self@.cities =~= before.with_fewer_cubes(city, color, n as nat).cities);
            assert forall|k: int| 0 <= k < CITY_COUNT implies (#[trigger] self.map[k]).matches_map(
                Cities::at(k),
            ) by {
                assert(cities[k].matches_map(Cities::at(k)));
            }
        }
        if self.disease_state(color) == DiseaseState::Cured && self.total_cubes(color) == 0 {
            self.set_disease_state(color, DiseaseState::Eradicated);
            let ghost gone = self@;
            self.notices.push(Notice::Eradicated { color });
            assert(self@.cities =~= gone.cities);
        }
    }

    /// Takes every cube of each cured disease from `city`, as a medic does
    /// who comes there.
    pub fn clear_cured(&mut self, city: Cities)
        requires
            old(self).wf(),
        ensures
            final(self).wf(),
            final(self)@ == old(self)@.with_medic_in(city),
    {
        self.clear_if_cured(city, Color::Yellow);
        self.clear_if_cured(city, Color::Black);
        self.clear_if_cured(city, Color::Blue);
        self.clear_if_cured(city, Color::Red);
    }

    fn clear_if_cured(&mut self, city: Cities, color: Color)
        requires
            old(self).wf(),
        ensures
            final(self).wf(),
            final(self)@ == old(self)@.with_cured_cleared(city, color),
    {
        if self.disease_state(color) == DiseaseState::Cured {
            let held = self.infection_count(city, color);
            if held > 0 {
                self.remove_cubes(city, color, held);
            }
        }
    }

    /// Builds a research station in `city`, or takes the one there away.
    pub fn set_research_station(&mut self, city: Cities, station: bool)
        requires
            old(self).wf(),
            station && !old(self)@.has_station(city) ==> old(self)@.stations()
                < MAX_RESEARCH_STATIONS,
        ensures
            final(self).wf(),
            final(self)@ == old(self)@.with_station(city, station),
    {
        let slot = city.index();
        let ghost before = self@;
        let ghost cities = self.map@;
        self.map[slot].has_research_station = station;
        proof {
            crate::map::lemma_slot_inverse(city);
            lemma_station_keeps_sound(before, city, station);
            assert(self@.cities =~= before.with_station(city, station).cities);
            assert forall|k: int| 0 <= k < CITY_COUNT implies (#[trigger] self.map[k]).matches_map(
                Cities::at(k),
            ) by {
                assert(cities[k].matches_map(Cities::at(k)));
            }
        }
    }

    /// Marks the disease of `color`, for which no cure was known, as cured,
    /// and tells of it. The disease is cured and not eradicated also where
    /// no cube of the colour is on the board: only a treatment that takes
    /// the last cube eradicates it.
    pub fn cure(&mut self, color: Color)
        requires
            old(self).wf(),
            old(self)@.disease(color) == DiseaseState::Default,
        ensures
            final(self).wf(),
            final(self)@ == old(self)@.with_cure(color),
            final(self)@.disease(color) == DiseaseState::Cured,
            final(self)@.cities == old(self)@.cities,
    {
        proof {
            lemma_state_keeps_sound(self@, color, DiseaseState::Cured);
        }
        self.set_disease_state(color, DiseaseState::Cured);
        let ghost cured = self@;
        self.notices.push(Notice::Cured { color });
        assert(self@.cities =~= cured.cities);
    }

    /// Tells `notice` to those who watch the game.
    pub fn note(&mut self, notice: Notice)
        requires
            old(self).wf(),
        ensures
            final(self).wf(),
            final(self)@ == old(self)@.noted(notice),
    {
        self.notices.push(notice);
        assert(self@.cities =~= old(self)@.cities);
    }

    /// Hands over what the board has told since this was last asked for, in
    /// the order in which it happened.
    pub fn take_notices(&mut self) -> (notices: Vec<Notice>)
        requires
            old(self).wf(),
        ensures
            final(self).wf(),
            notices@ == old(self)@.notices,
            final(self)@ == (BoardView { notices: Seq::empty(), ..old(self)@ }),
    {
        let mut notices: Vec<Notice> = Vec::new();
        std::mem::swap(&mut notices, &mut self.notices);
        assert(self@.cities =~= old(self)@.cities);
        notices
    }

    /// Lays `card` on top of the player discard pile.
    pub fn discard_player_card(&mut self, card: PlayerCard)
        requires
            old(self).wf(),
        ensures
            final(self).wf(),
            final(self)@ == (BoardView {
                player_discard: old(self)@.player_discard.push(card),
                ..old(self)@
            }),
    {
        self.player_discard.discard_to_top(card);
        assert(self@.cities =~= old(self)@.cities);
    }

    /// The board with the given piles as its decks, for a game that is played
    /// from decks in a known order.
    pub fn with_decks(player_deck: Deck<PlayerCard>, infection_deck: Deck<InfectionCard>) -> (board:
        Self)
        ensures
            board.wf(),
            board@ == (BoardView {
                player_deck: player_deck@,
                infection_deck: infection_deck@,
                ..BoardView::initial()
            }),
    {
        let mut board = Board::new();
        board.player_deck = player_deck;
        board.infection_deck = infection_deck;
        assert(board@.cities =~= BoardView::initial().cities);
        board
    }

    /// Sets the number of epidemic cards of the game and puts them into the
    /// player deck, one into each chunk of the deck, with dice of their own.
    /// Says whether there were dice: where the operating system gives no
    /// seed for them, the board stays as it is.
    pub fn add_epidemic_cards(&mut self, epidemics: u8) -> (done: bool)
        requires
            old(self).wf(),
        ensures
            final(self).wf(),
            done ==> final(self)@ == (BoardView {
                max_epidemics: epidemics as nat,
                player_deck: final(self)@.player_deck,
                ..old(self)@
            }) && seeded(old(self)@.player_deck, epidemics as nat, final(self)@.player_deck),
            !done ==> final(self)@ == old(self)@,
    {
        match Dice::from_entropy() {
            Some(mut dice) => {
                self.add_epidemic_cards_with(epidemics, &mut dice);
                true
            },
            None => false,
        }
    }

    /// Puts the epidemic cards into the player deck as `add_epidemic_cards`
    /// does, with `dice` to shuffle the chunks.
    pub fn add_epidemic_cards_with(&mut self, epidemics: u8, dice: &mut Dice)
        requires
            old(self).wf(),
        ensures
            final(self).wf(),
            final(self)@ == (BoardView {
                max_epidemics: epidemics as nat,
                player_deck: final(self)@.player_deck,
                ..old(self)@
            }),
            seeded(old(self)@.player_deck, epidemics as nat, final(self)@.player_deck),
    {
        self.max_epidemics = epidemics;
        self.player_deck.add_epidemic_cards_with(self.max_epidemics, dice);
        assert(self@.cities =~= old(self)@.cities);
    }

    /// Deals one card from the top of the player deck to each player, in the
    /// order of the players, until the deck runs out.
    pub fn deal(&mut self, players: &mut Vec<Player>)
        requires
            old(self).wf(),
        ensures
            final(self).wf(),
            final(self)@ == (BoardView {
                player_deck: crate::player_card::deck_dealt(
                    old(self)@.player_deck,
                    old(players).len() as nat,
                ),
                ..old(self)@
            }),
            views(final(players)@) == crate::player_card::hands_dealt(
                old(self)@.player_deck,
                views(old(players)@),
            ),
            final(players).len() == old(players).len(),
            final(self)@.player_deck.to_multiset().add(hands(views(final(players)@))) == old(
                self,
            )@.player_deck.to_multiset().add(hands(views(old(players)@))),
            final(self)@.player_deck.len() + crate::player_card::dealt(
                old(self)@.player_deck,
                old(players)@,
            ) == old(self)@.player_deck.len(),
            forall|i: int|
                0 <= i < old(players).len() ==> {
                    &&& (#[trigger] final(players)[i])@.name == old(players)[i]@.name
                    &&& final(players)[i]@.role == old(players)[i]@.role
                    &&& final(players)[i]@.location == old(players)[i]@.location
                    &&& final(players)[i]@.hand.len() == old(players)[i]@.hand.len() + if i
                        < old(self)@.player_deck.len() {
                        1int
                    } else {
                        0int
                    }
                    &&& crate::player::sorted(old(players)[i]@.hand) ==> crate::player::sorted(
                        final(players)[i]@.hand,
                    )
                },
    {
        let ghost seats = players@;
        let ghost deck = self@.player_deck;
        self.player_deck.deal(players);
        assert(self@.cities =~= old(self)@.cities);
        assert forall|i: int| 0 <= i < seats.len() implies {
            &&& (#[trigger] players[i])@.name == seats[i]@.name
            &&& players[i]@.role == seats[i]@.role
            &&& players[i]@.location == seats[i]@.location
            &&& players[i]@.hand.len() == seats[i]@.hand.len() + if i < deck.len() {
                1int
            } else {
                0int
            }
            &&& crate::player::sorted(seats[i]@.hand) ==> crate::player::sorted(players[i]@.hand)
        } by {
            if i < crate::player_card::dealt(deck, seats) {
                crate::player::lemma_inserted_holds(seats[i]@.hand, deck[deck.len() - 1 - i]);
                if crate::player::sorted(seats[i]@.hand) {
                    crate::player::lemma_inserted_sorted(
                        seats[i]@.hand,
                        deck[deck.len() - 1 - i],
                    );
                }
            }
        }
    }

    /// Shuffles the player deck and then the infection deck, each from the
    /// top down with picks of `dice`, and leaves the rest of the board as it
    /// is.
    pub fn shuffle_decks(&mut self, dice: &mut Dice)
        requires
            old(self).wf(),
        ensures
            final(self).wf(),
            final(self)@ == (BoardView {
                player_deck: final(self)@.player_deck,
                infection_deck: final(self)@.infection_deck,
                ..old(self)@
            }),
            shuffled(old(self)@.player_deck, final(self)@.player_deck),
            shuffled(old(self)@.infection_deck, final(self)@.infection_deck),
            final(self)@.player_deck.to_multiset() == old(self)@.player_deck.to_multiset(),
            final(self)@.infection_deck.to_multiset() == old(self)@.infection_deck.to_multiset(),
    {
        self.player_deck.shuffle_with(dice);
        self.infection_deck.shuffle_with(dice);
        assert(self@.cities =~= old(self)@.cities);
    }

    /// Draws the top card of the player deck, if there is one.
    pub fn draw_player_card(&mut self) -> (card: Option<PlayerCard>)
        requires
            old(self).wf(),
        ensures
            final(self).wf(),
            (card, final(self)@.player_deck) == crate::deck::take_from_top(old(self)@.player_deck),
            final(self)@ == (BoardView { player_deck: final(self)@.player_deck, ..old(self)@ }),
    {
        let card = self.player_deck.draw_from_top();
        assert(self@.cities =~= old(self)@.cities);
        card
    }

    /// Whether a cure is known for all four diseases: the players have won.
    pub fn all_cured(&self) -> (yes: bool)
        ensures
            yes == self@.all_cured(),
    {
        self.blue_disease != DiseaseState::Default && self.yellow_disease != DiseaseState::Default
            && self.black_disease != DiseaseState::Default && self.red_disease
            != DiseaseState::Default
    }

    /// The cities that have broken out in the running chain of outbreaks, in
    /// alphabetical order.
    pub fn outbreak_chain(&self) -> (cities: Vec<Cities>)
        requires
            self.wf(),
        ensures
            forall|city: Cities| cities@.contains(city) == self@.visited(city),
            forall|i: int, j: int|
                0 <= i < j < cities.len() ==> cities[i].slot() < cities[j].slot(),
    {
        let mut cities: Vec<Cities> = Vec::new();
        let mut i: usize = 0;
        while i < self.map.len()
            invariant
                self.wf(),
                i <= CITY_COUNT,
                forall|k: int| 0 <= k < cities.len() ==> (#[trigger] cities[k]).slot() < i,
                forall|k: int, j: int|
                    0 <= k < j < cities.len() ==> cities[k].slot() < cities[j].slot(),
                forall|k: int| 0 <= k < cities.len() ==> self@.visited(#[trigger] cities[k]),
                forall|k: int|
                    0 <= k < i && (#[trigger] self@.cities[k]).visited ==> cities@.contains(
                        Cities::at(k),
                    ),
            decreases CITY_COUNT - i,
        {
            let ghost listed = cities@;
            assert(self.map[i as int].matches_map(Cities::at(i as int)));
            if self.map[i].current_outbreak {
                proof {
                    crate::map::lemma_at_inverse(i as int);
                }
                cities.push(self.map[i].city);
                assert(cities[cities.len() - 1] == Cities::at(i as int));
                assert forall|k: int|
                    0 <= k < i + 1 && (#[trigger] self@.cities[k]).visited implies cities@.contains(
                    Cities::at(k),
                ) by {
                    if k < i {
                        let at = choose|at: int| 0 <= at < listed.len() && listed[at] == Cities::at(k);
                        assert(cities[at] == Cities::at(k));
                    }
                }
            }
            i += 1;
        }
        assert forall|city: Cities| cities@.contains(city) == self@.visited(city) by {
            crate::map::lemma_slot_inverse(city);
            if self@.visited(city) {
                assert(self@.cities[city.slot()].visited);
            }
        }
        cities
    }

    /// Infects `city` with its own colour up to `times` times in the running
    /// chain of outbreaks, and stops when an infection ends the game.
    fn strike(&mut self, city: Cities, times: u8) -> (goes_on: bool)
        requires
            old(self).wf(),
            old(self)@.in_play(),
        ensures
            final(self).wf(),
            (final(self)@, goes_on) == strike(old(self)@, city, times as nat),
            goes_on ==> final(self)@.in_play(),
    {
        let mut left = times;
        while left > 0
            invariant
                self.wf(),
                self@.in_play(),
                strike(self@, city, left as nat) == strike(old(self)@, city, times as nat),
            decreases left,
        {
            if !self.infect_city(city) {
                return false;
            }
            left -= 1;
        }
        true
    }

    /// Lets `card` strike `times` times in a new chain of outbreaks and lays
    /// it on the infection discard pile.
    fn card_strike(&mut self, card: InfectionCard, times: u8) -> (goes_on: bool)
        requires
            old(self).wf(),
            old(self)@.in_play(),
        ensures
            final(self).wf(),
            (final(self)@, goes_on) == card_strike(old(self)@, card, times as nat),
            goes_on ==> final(self)@.in_play(),
    {
        self.end_outbreak_chain();
        let goes_on = self.strike(card.city, times);
        let ghost hit = self@;
        self.infection_discard.discard_to_top(card);
        assert(self@.cities =~= hit.cities);
        goes_on
    }

    /// Resolves an epidemic: the infection rate moves, the bottom card of
    /// the infection deck strikes three times, and, if the game goes on, the
    /// infection discard pile is shuffled and laid on top of the infection
    /// deck. Says whether the game goes on.
    pub fn epidemic(&mut self, dice: &mut Dice) -> (goes_on: bool)
        requires
            old(self).wf(),
            old(self)@.in_play(),
            old(self)@.epidemics < u8::MAX,
        ensures
            final(self).wf(),
            epidemic_outcome(old(self)@, goes_on, final(self)@),
            goes_on ==> final(self)@.in_play(),
    {
        self.increase_infection_rate();
        let ghost moved = self@;
        self.epidemics += 1;
        assert(self@.cities =~= moved.cities);
        let ghost marked = self@;
        match self.infection_deck.draw_from_bottom() {
            Some(card) => {
                self.notices.push(Notice::EpidemicDrawn { city: card.city });
                assert(self@.cities =~= marked.cities);
                let ghost drawn = self@;
                proof {
                    lemma_strike_frame(
                        drawn.with_chain_ended(),
                        card.city,
                        MAX_INFECTION_PER_TYPE_PER_CITY as nat,
                    );
                }
                if !self.card_strike(card, MAX_INFECTION_PER_TYPE_PER_CITY) {
                    return false;
                }
                let ghost struck = self@;
                self.infection_discard.shuffle_with(dice);
                let ghost mixed = self@.infection_discard;
                self.infection_deck.append(&mut self.infection_discard);
                assert(self@.cities =~= struck.cities);
                assert(self@.infection_deck.take(drawn.infection_deck.len() as int)
                    =~= drawn.infection_deck);
                assert(self@.infection_deck.skip(drawn.infection_deck.len() as int) =~= mixed);
                assert(mixed.len() == struck.infection_discard.len()) by {
                    vstd::seq_lib::to_multiset_len(mixed);
                    vstd::seq_lib::to_multiset_len(struck.infection_discard);
                }
                true
            },
            None => {
                assert(self@.cities =~= marked.cities);
                true
            },
        }
    }

    /// Infects cities at the end of a turn: draws up to `cards` cards from
    /// the top of the infection deck and lets each strike once, until one
    /// ends the game. Says whether the game goes on.
    pub fn infect_cities(&mut self, cards: u8) -> (goes_on: bool)
        requires
            old(self).wf(),
            old(self)@.in_play(),
        ensures
            final(self).wf(),
            (final(self)@, goes_on) == infect_cities(old(self)@, cards as nat),
            goes_on ==> final(self)@.in_play(),
    {
        let mut left = cards;
        while left > 0
            invariant
                self.wf(),
                self@.in_play(),
                infect_cities(self@, left as nat) == infect_cities(old(self)@, cards as nat),
            decreases left,
        {
            let ghost before = self@;
            match self.infection_deck.draw_from_top() {
                Some(card) => {
                    assert(self@.cities =~= before.cities);
                    if !self.card_strike(card, 1) {
                        return false;
                    }
                },
                None => {
                    return true;
                },
            }
            left -= 1;
        }
        true
    }

    /// Lets up to `cards` cards from the top of the infection deck strike
    /// `times` times each, until one ends the game.
    fn infect_start(&mut self, times: u8, cards: u8) -> (goes_on: bool)
        requires
            old(self).wf(),
            old(self)@.in_play(),
        ensures
            final(self).wf(),
            (final(self)@, goes_on) == infect_start(old(self)@, times as nat, cards as nat),
            goes_on ==> final(self)@.in_play(),
    {
        let mut left = cards;
        while left > 0
            invariant
                self.wf(),
                self@.in_play(),
                infect_start(self@, times as nat, left as nat) == infect_start(
                    old(self)@,
                    times as nat,
                    cards as nat,
                ),
            decreases left,
        {
            let ghost before = self@;
            match self.infection_deck.draw_from_top() {
                Some(card) => {
                    assert(self@.cities =~= before.cities);
                    if !self.card_strike(card, times) {
                        return false;
                    }
                },
                None => {
                    return true;
                },
            }
            left -= 1;
        }
        true
    }

    /// Infects the first nine cities of the game: three with three cubes,
    /// three with two and three with one. Says whether the game goes on.
    pub fn first_infection(&mut self) -> (goes_on: bool)
        requires
            old(self).wf(),
            old(self)@.in_play(),
        ensures
            final(self).wf(),
            (final(self)@, goes_on) == first_infection(old(self)@),
            goes_on ==> final(self)@.in_play(),
    {
        if !self.infect_start(3, NUMBER_OF_CITIES_TO_INFECT_PER_ROUND_AT_START) {
            return false;
        }
        if !self.infect_start(2, NUMBER_OF_CITIES_TO_INFECT_PER_ROUND_AT_START) {
            return false;
        }
        self.infect_start(1, NUMBER_OF_CITIES_TO_INFECT_PER_ROUND_AT_START)
    }

    /// Moves the outbreak marker one step and says whether the game goes on:
    /// it is lost once the marker has passed its last position.
    pub fn increase_outbreaks(&mut self) -> (goes_on: bool)
        requires
            old(self).wf(),
            old(self)@.in_play(),
        ensures
            final(self).wf(),
            final(self)@ == (BoardView { outbreaks: old(self)@.outbreaks + 1, ..old(self)@ }),
            goes_on == final(self)@.in_play(),
    {
        self.outbreaks += 1;
        assert(self@.cities =~= old(self)@.cities);
        self.outbreaks <= MAX_OUTBREAKS
    }

    /// Moves the infection-rate marker one step, unless it stands at its last
    /// position, and says whether it moved.
    pub fn increase_infection_rate(&mut self) -> (moved: bool)
        requires
            old(self).wf(),
        ensures
            final(self).wf(),
            moved == (old(self)@.rate_index < MAX_INFECTION_RATE_INDEX),
            final(self)@ == (BoardView {
                rate_index: if moved {
                    old(self)@.rate_index + 1
                } else {
                    old(self)@.rate_index
                },
                ..old(self)@
            }),
    {
        if self.infection_rate < MAX_INFECTION_RATE_INDEX {
            self.infection_rate += 1;
            assert(self@.cities =~= old(self)@.cities);
            true
        } else {
            false
        }
    }

    /// Number of infection cards to draw at the end of a turn.
    pub fn infection_rate(&self) -> (rate: u8)
        requires
            self.wf(),
        ensures
            rate == INFECTION_RATE[self@.rate_index as int],
            2 <= rate <= 4,
    {
        INFECTION_RATE[self.infection_rate]
    }
}

/// Taking cubes from a city keeps the board sound and lowers the colour's
/// total by their number.
pub proof fn lemma_removal_keeps_sound(board: BoardView, city: Cities, color: Color, n: nat)
    requires
        board.sound(),
        n <= board.cubes(city, color),
    ensures
        board.with_fewer_cubes(city, color, n).sound(),
        board.with_fewer_cubes(city, color, n).total(color) + n == board.total(color),
        board.with_cubes_removed(city, color, n).sound(),
        board.with_cubes_removed(city, color, n).cities == board.with_fewer_cubes(
            city,
            color,
            n,
        ).cities,
{
    crate::map::lemma_slot_inverse(city);
    let after = board.with_fewer_cubes(city, color, n);
    let changed = board.city(city).with_cubes(color, (board.cubes(city, color) - n) as nat);
    lemma_tally_update(board.cities, city.slot(), changed, station_weight());
    assert forall|other: Color| #[trigger]
        tally(after.cities, cube_weight(other)) <= MAX_INFECTION_PER_TYPE && (after.disease(other)
            == DiseaseState::Eradicated ==> tally(after.cities, cube_weight(other)) == 0) by {
        lemma_tally_update(board.cities, city.slot(), changed, cube_weight(other));
        assert(tally(board.cities, cube_weight(other)) <= MAX_INFECTION_PER_TYPE);
    }
    lemma_tally_update(board.cities, city.slot(), changed, cube_weight(color));
    assert forall|i: int, other: Color| 0 <= i < after.cities.len() implies (
    #[trigger] after.cities[i].cubes(other)) <= MAX_INFECTION_PER_TYPE_PER_CITY by {
        assert(board.cities[i].cubes(other) <= MAX_INFECTION_PER_TYPE_PER_CITY);
    }
    lemma_state_keeps_sound(after, color, DiseaseState::Eradicated);
    if n == 0 {
        assert(after.cities =~= board.cities);
    }
}

/// A change of a disease's state keeps the board sound, unless it declares a
/// disease eradicated that still has cubes.
pub proof fn lemma_state_keeps_sound(board: BoardView, color: Color, state: DiseaseState)
    requires
        board.sound(),
    ensures
        state != DiseaseState::Eradicated || board.total(color) == 0 ==> board.with_disease(
            color,
            state,
        ).sound(),
        board.with_disease(color, state).cities == board.cities,
{
    let after = board.with_disease(color, state);
    if state != DiseaseState::Eradicated || board.total(color) == 0 {
        assert forall|other: Color| #[trigger]
            tally(after.cities, cube_weight(other)) <= MAX_INFECTION_PER_TYPE && (after.disease(
                other,
            ) == DiseaseState::Eradicated ==> tally(after.cities, cube_weight(other)) == 0) by {
            assert(tally(board.cities, cube_weight(other)) <= MAX_INFECTION_PER_TYPE);
        }
        assert forall|i: int, other: Color| 0 <= i < after.cities.len() implies (
        #[trigger] after.cities[i].cubes(other)) <= MAX_INFECTION_PER_TYPE_PER_CITY by {
            assert(board.cities[i].cubes(other) <= MAX_INFECTION_PER_TYPE_PER_CITY);
        }
    }
}

/// Building or removing a research station changes the number of stations
/// by one, or not at all, and keeps the board sound while that number is at
/// most six.
pub proof fn lemma_station_keeps_sound(board: BoardView, city: Cities, station: bool)
    requires
        board.sound(),
    ensures
        board.with_station(city, station).stations() + (if board.has_station(city) {
            1nat
        } else {
            0nat
        }) == board.stations() + (if station {
            1nat
        } else {
            0nat
        }),
        board.with_station(city, station).stations() <= MAX_RESEARCH_STATIONS
            ==> board.with_station(city, station).sound(),
{
    crate::map::lemma_slot_inverse(city);
    let after = board.with_station(city, station);
    let changed = CityView { station, ..board.city(city) };
    lemma_tally_update(board.cities, city.slot(), changed, station_weight());
    assert forall|other: Color| #[trigger]
        tally(after.cities, cube_weight(other)) <= MAX_INFECTION_PER_TYPE && (after.disease(other)
            == DiseaseState::Eradicated ==> tally(after.cities, cube_weight(other)) == 0) by {
        lemma_tally_update(board.cities, city.slot(), changed, cube_weight(other));
        assert(tally(board.cities, cube_weight(other)) <= MAX_INFECTION_PER_TYPE);
    }
    assert forall|i: int, other: Color| 0 <= i < after.cities.len() implies (
    #[trigger] after.cities[i].cubes(other)) <= MAX_INFECTION_PER_TYPE_PER_CITY by {
        assert(board.cities[i].cubes(other) <= MAX_INFECTION_PER_TYPE_PER_CITY);
    }
}

/// A chain of infections after which the game goes on began well and has
/// not moved the outbreak marker past its last position.
pub proof fn lemma_cascade_in_play(board: BoardView, color: Color, pending: Seq<Cities>, ok: bool)
    requires
        board.cities.len() == CITY_COUNT,
    ensures
        cascade(board, color, pending, ok).1 ==> ok,
        cascade(board, color, pending, ok).1 && board.in_play() ==> cascade(
            board,
            color,
            pending,
            ok,
        ).0.in_play(),
    decreases board.unvisited(), pending.len(),
{
    if pending.len() > 0 {
        let city = pending.last();
        let rest = pending.drop_last();
        if board.disease(color) == DiseaseState::Eradicated || board.visited(city) {
            lemma_cascade_in_play(board, color, rest, ok);
        } else if board.total(color) >= MAX_INFECTION_PER_TYPE {
            lemma_cascade_in_play(board, color, rest, false);
        } else if board.cubes(city, color) < MAX_INFECTION_PER_TYPE_PER_CITY {
            crate::map::lemma_slot_inverse(city);
            lemma_tally_update(
                board.cities,
                city.slot(),
                board.city(city).with_cubes(color, board.cubes(city, color) + 1),
                unvisited_weight(),
            );
            lemma_cascade_in_play(board.with_cube(city, color), color, rest, ok);
        } else {
            lemma_outbreak_keeps_sound(board, city, color);
            let spread = board.with_outbreak(city, color);
            if spread.outbreaks > MAX_OUTBREAKS {
                lemma_cascade_in_play(spread, color, rest, false);
            } else {
                lemma_cascade_in_play(spread, color, rest + neighbours(city).reverse(), ok);
            }
        }
    }
}

/// On a sound board no city holds more than three cubes of a colour, no
/// colour has more than 24 cubes on the board, there are at most six research
/// stations, and an eradicated disease has no cube anywhere.
pub proof fn lemma_sound_board(board: BoardView, city: Cities, color: Color)
    requires
        board.sound(),
    ensures
        board.cubes(city, color) <= MAX_INFECTION_PER_TYPE_PER_CITY,
        board.total(color) <= MAX_INFECTION_PER_TYPE,
        board.stations() <= MAX_RESEARCH_STATIONS,
        board.disease(color) == DiseaseState::Eradicated ==> board.total(color) == 0
            && board.cubes(city, color) == 0,
{
    crate::map::lemma_slot_inverse(city);
    assert(board.cities[city.slot()].cubes(color) <= MAX_INFECTION_PER_TYPE_PER_CITY);
    assert(tally(board.cities, cube_weight(color)) <= MAX_INFECTION_PER_TYPE);
    if board.disease(color) == DiseaseState::Eradicated {
        lemma_tally_zero(board.cities, cube_weight(color), city.slot());
    }
}

/// The simple cases of an infection. Nothing happens to a city of an
/// eradicated disease or to one that has broken out in the running chain.
/// Else, with all 24 cubes of the colour on the board, the infection fails
/// and changes nothing; and with fewer, a city with fewer than three cubes
/// gets one more.
pub proof fn lemma_infection_cases(board: BoardView, color: Color, city: Cities)
    requires
        board.cities.len() == CITY_COUNT,
    ensures
        board.disease(color) == DiseaseState::Eradicated || board.visited(city) ==> infection(
            board,
            color,
            city,
        ) == (board, true),
        board.disease(color) != DiseaseState::Eradicated && !board.visited(city) && board.total(
            color,
        ) >= MAX_INFECTION_PER_TYPE ==> infection(board, color, city) == (board, false),
        board.disease(color) != DiseaseState::Eradicated && !board.visited(city) && board.total(
            color,
        ) < MAX_INFECTION_PER_TYPE && board.cubes(city, color) < MAX_INFECTION_PER_TYPE_PER_CITY
            ==> infection(board, color, city) == (board.with_cube(city, color), true),
        board.disease(color) != DiseaseState::Eradicated && !board.visited(city) && board.total(
            color,
        ) < MAX_INFECTION_PER_TYPE && board.cubes(city, color) >= MAX_INFECTION_PER_TYPE_PER_CITY
            ==> infection(board, color, city) == outbreak(board, color, city),
{
    reveal_with_fuel(cascade, 2);
    let pending = seq![city];
    assert(pending.last() == city);
    assert(pending.drop_last() =~= Seq::<Cities>::empty());
    assert(Seq::<Cities>::empty() + neighbours(city).reverse() =~= neighbours(city).reverse());
    crate::map::lemma_slot_inverse(city);
    assert(board.with_cube(city, color).cities.len() == CITY_COUNT);
    assert(board.with_outbreak(city, color).cities.len() == CITY_COUNT);
}

/// A chain of infections keeps the board sound.
pub proof fn lemma_cascade_keeps_sound(
    board: BoardView,
    color: Color,
    pending: Seq<Cities>,
    ok: bool,
)
    requires
        board.sound(),
    ensures
        cascade(board, color, pending, ok).0.sound(),
    decreases board.unvisited(), pending.len(),
{
    if pending.len() > 0 {
        let city = pending.last();
        let rest = pending.drop_last();
        if board.disease(color) == DiseaseState::Eradicated || board.visited(city) {
            lemma_cascade_keeps_sound(board, color, rest, ok);
        } else if board.total(color) >= MAX_INFECTION_PER_TYPE {
            lemma_cascade_keeps_sound(board, color, rest, false);
        } else if board.cubes(city, color) < MAX_INFECTION_PER_TYPE_PER_CITY {
            lemma_cube_keeps_sound(board, city, color);
            lemma_cascade_keeps_sound(board.with_cube(city, color), color, rest, ok);
        } else {
            lemma_outbreak_keeps_sound(board, city, color);
            let spread = board.with_outbreak(city, color);
            if spread.outbreaks > MAX_OUTBREAKS {
                lemma_cascade_keeps_sound(spread, color, rest, false);
            } else {
                lemma_cascade_keeps_sound(spread, color, rest + neighbours(city).reverse(), ok);
            }
        }
    }
}

/// What a chain of infections does to the cities at position `i`: no city
/// breaks out twice. A city that had broken out before stays as it was; a
/// city that is part of the chain stays part of it; the outbreak marker
/// moves one step for each city that joins the chain; and only cubes of the
/// chain's colour come onto the board, none leaves it, and no research
/// station changes.
pub proof fn lemma_cascade_once(
    board: BoardView,
    color: Color,
    pending: Seq<Cities>,
    ok: bool,
    i: int,
    other: Color,
)
    requires
        board.cities.len() == CITY_COUNT,
        0 <= i < CITY_COUNT,
    ensures
        ({
            let after = cascade(board, color, pending, ok).0;
            &&& after.cities.len() == CITY_COUNT
            &&& after.outbreaks + after.unvisited() == board.outbreaks + board.unvisited()
            &&& board.cities[i].visited ==> after.cities[i] == board.cities[i]
            &&& after.cities[i].station == board.cities[i].station
            &&& after.cities[i].cubes(color) >= board.cities[i].cubes(color)
            &&& other != color ==> after.cities[i].cubes(other) == board.cities[i].cubes(other)
        }),
    decreases board.unvisited(), pending.len(),
{
    if pending.len() > 0 {
        let city = pending.last();
        let rest = pending.drop_last();
        crate::map::lemma_slot_inverse(city);
        if board.disease(color) == DiseaseState::Eradicated || board.visited(city) {
            lemma_cascade_once(board, color, rest, ok, i, other);
        } else if board.total(color) >= MAX_INFECTION_PER_TYPE {
            lemma_cascade_once(board, color, rest, false, i, other);
        } else if board.cubes(city, color) < MAX_INFECTION_PER_TYPE_PER_CITY {
            lemma_tally_update(
                board.cities,
                city.slot(),
                board.city(city).with_cubes(color, board.cubes(city, color) + 1),
                unvisited_weight(),
            );
            lemma_cascade_once(board.with_cube(city, color), color, rest, ok, i, other);
        } else {
            lemma_outbreak_keeps_sound(board, city, color);
            let spread = board.with_outbreak(city, color);
            if spread.outbreaks > MAX_OUTBREAKS {
                lemma_cascade_once(spread, color, rest, false, i, other);
            } else {
                lemma_cascade_once(
                    spread,
                    color,
                    rest + neighbours(city).reverse(),
                    ok,
                    i,
                    other,
                );
            }
        }
    }
}

/// A chain of infections touches only the cities and the outbreak marker,
/// and the marker does not move back.
pub proof fn lemma_cascade_frame(board: BoardView, color: Color, pending: Seq<Cities>, ok: bool)
    requires
        board.cities.len() == CITY_COUNT,
    ensures
        ({
            let after = cascade(board, color, pending, ok).0;
            &&& after == (BoardView {
                cities: after.cities,
                outbreaks: after.outbreaks,
                notices: after.notices,
                ..board
            })
            &&& after.cities.len() == CITY_COUNT
            &&& after.outbreaks >= board.outbreaks
        }),
    decreases board.unvisited(), pending.len(),
{
    if pending.len() > 0 {
        let city = pending.last();
        let rest = pending.drop_last();
        if board.disease(color) == DiseaseState::Eradicated || board.visited(city) {
            lemma_cascade_frame(board, color, rest, ok);
        } else if board.total(color) >= MAX_INFECTION_PER_TYPE {
            lemma_cascade_frame(board, color, rest, false);
        } else if board.cubes(city, color) < MAX_INFECTION_PER_TYPE_PER_CITY {
            crate::map::lemma_slot_inverse(city);
            lemma_tally_update(
                board.cities,
                city.slot(),
                board.city(city).with_cubes(color, board.cubes(city, color) + 1),
                unvisited_weight(),
            );
            lemma_cascade_frame(board.with_cube(city, color), color, rest, ok);
        } else {
            lemma_outbreak_keeps_sound(board, city, color);
            let spread = board.with_outbreak(city, color);
            if spread.outbreaks > MAX_OUTBREAKS {
                lemma_cascade_frame(spread, color, rest, false);
            } else {
                lemma_cascade_frame(spread, color, rest + neighbours(city).reverse(), ok);
            }
        }
    }
}

/// Infecting a city several times touches only the cities and the outbreak
/// marker, and the marker does not move back.
pub proof fn lemma_strike_frame(board: BoardView, city: Cities, times: nat)
    requires
        board.cities.len() == CITY_COUNT,
    ensures
        ({
            let after = strike(board, city, times).0;
            &&& after == (BoardView {
                cities: after.cities,
                outbreaks: after.outbreaks,
                notices: after.notices,
                ..board
            })
            &&& after.cities.len() == CITY_COUNT
            &&& after.outbreaks >= board.outbreaks
        }),
    decreases times,
{
    if times > 0 {
        lemma_cascade_frame(board, city.native_color(), seq![city], true);
        let hit = infection(board, city.native_color(), city);
        if hit.1 {
            lemma_strike_frame(hit.0, city, (times - 1) as nat);
        }
    }
}

/// What infecting the cities of `cities` with `color` does, one city after
/// the other, each with all that follows from it; and whether the game goes
/// on after that, if `ok` says that it went on before.
pub open spec fn infect_each(board: BoardView, color: Color, cities: Seq<Cities>, ok: bool) -> (
    BoardView,
    bool,
)
    decreases cities.len(),
{
    if cities.len() == 0 {
        (board, ok)
    } else {
        let first = infection(board, color, cities.first());
        infect_each(first.0, color, cities.drop_first(), ok && first.1)
    }
}

/// What came before a chain of infections does not change what the chain
/// does to the board: it only decides, together with the chain, whether the
/// game goes on.
pub proof fn lemma_cascade_carries_ok(
    board: BoardView,
    color: Color,
    pending: Seq<Cities>,
    ok: bool,
)
    requires
        board.cities.len() == CITY_COUNT,
    ensures
        cascade(board, color, pending, ok).0 == cascade(board, color, pending, true).0,
        cascade(board, color, pending, ok).1 == (ok && cascade(board, color, pending, true).1),
    decreases board.unvisited(), pending.len(),
{
    if pending.len() > 0 {
        let city = pending.last();
        let rest = pending.drop_last();
        if board.disease(color) == DiseaseState::Eradicated || board.visited(city) {
            lemma_cascade_carries_ok(board, color, rest, ok);
        } else if board.total(color) >= MAX_INFECTION_PER_TYPE {
            lemma_cascade_carries_ok(board, color, rest, false);
        } else if board.cubes(city, color) < MAX_INFECTION_PER_TYPE_PER_CITY {
            crate::map::lemma_slot_inverse(city);
            lemma_tally_update(
                board.cities,
                city.slot(),
                board.city(city).with_cubes(color, board.cubes(city, color) + 1),
                unvisited_weight(),
            );
            lemma_cascade_carries_ok(board.with_cube(city, color), color, rest, ok);
        } else {
            lemma_outbreak_keeps_sound(board, city, color);
            let spread = board.with_outbreak(city, color);
            if spread.outbreaks > MAX_OUTBREAKS {
                lemma_cascade_carries_ok(spread, color, rest, false);
            } else {
                lemma_cascade_carries_ok(spread, color, rest + neighbours(city).reverse(), ok);
                lemma_cascade_carries_ok(
                    spread,
                    color,
                    rest + neighbours(city).reverse(),
                    true,
                );
            }
        }
    }
}

/// A chain works off the infections that are next before it touches those
/// that wait behind them: the chain of `waiting + next` is the chain of
/// `next`, followed by the chain of `waiting`.
pub proof fn lemma_cascade_in_turn(
    board: BoardView,
    color: Color,
    waiting: Seq<Cities>,
    next: Seq<Cities>,
    ok: bool,
)
    requires
        board.cities.len() == CITY_COUNT,
    ensures
        cascade(board, color, waiting + next, ok) == cascade(
            cascade(board, color, next, ok).0,
            color,
            waiting,
            cascade(board, color, next, ok).1,
        ),
    decreases board.unvisited(), next.len(),
{
    if next.len() == 0 {
        assert(waiting + next =~= waiting);
    } else {
        let city = next.last();
        let rest = next.drop_last();
        let all = waiting + next;
        assert(all.last() == city);
        assert(all.drop_last() =~= waiting + rest);
        if board.disease(color) == DiseaseState::Eradicated || board.visited(city) {
            lemma_cascade_in_turn(board, color, waiting, rest, ok);
        } else if board.total(color) >= MAX_INFECTION_PER_TYPE {
            lemma_cascade_in_turn(board, color, waiting, rest, false);
        } else if board.cubes(city, color) < MAX_INFECTION_PER_TYPE_PER_CITY {
            crate::map::lemma_slot_inverse(city);
            lemma_tally_update(
                board.cities,
                city.slot(),
                board.city(city).with_cubes(color, board.cubes(city, color) + 1),
                unvisited_weight(),
            );
            lemma_cascade_in_turn(board.with_cube(city, color), color, waiting, rest, ok);
        } else {
            lemma_outbreak_keeps_sound(board, city, color);
            let spread = board.with_outbreak(city, color);
            if spread.outbreaks > MAX_OUTBREAKS {
                lemma_cascade_in_turn(spread, color, waiting, rest, false);
            } else {
                let near = neighbours(city).reverse();
                assert((waiting + rest) + near =~= waiting + (rest + near));
                lemma_cascade_in_turn(spread, color, waiting, rest + near, ok);
            }
        }
    }
}

/// A chain of infections infects the cities that are pending one after the
/// other, the last of them first.
pub proof fn lemma_cascade_is_infect_each(
    board: BoardView,
    color: Color,
    cities: Seq<Cities>,
    ok: bool,
)
    requires
        board.cities.len() == CITY_COUNT,
    ensures
        cascade(board, color, cities.reverse(), ok) == infect_each(board, color, cities, ok),
    decreases cities.len(),
{
    if cities.len() == 0 {
        assert(cities.reverse() =~= Seq::<Cities>::empty());
    } else {
        let first = cities.first();
        let rest = cities.drop_first();
        assert(cities.reverse() =~= rest.reverse() + seq![first]);
        lemma_cascade_in_turn(board, color, rest.reverse(), seq![first], ok);
        lemma_cascade_carries_ok(board, color, seq![first], ok);
        lemma_cascade_frame(board, color, seq![first], ok);
        let hit = infection(board, color, first);
        lemma_cascade_is_infect_each(hit.0, color, rest, ok && hit.1);
    }
}

/// An outbreak infects the neighbours of its city one after the other, in
/// alphabetical order, each with all that follows from it, and the game
/// goes on after it if it goes on after each of them; unless the disease is
/// eradicated, the city has broken out in the running chain, or the
/// outbreak marker has passed its last position.
pub proof fn lemma_outbreak_spreads(board: BoardView, color: Color, city: Cities)
    requires
        board.cities.len() == CITY_COUNT,
        board.disease(color) != DiseaseState::Eradicated,
        !board.visited(city),
        board.outbreaks < MAX_OUTBREAKS,
    ensures
        outbreak(board, color, city) == infect_each(
            board.with_outbreak(city, color),
            color,
            neighbours(city),
            true,
        ),
{
    lemma_outbreak_keeps_sound(board, city, color);
    lemma_cascade_is_infect_each(board.with_outbreak(city, color), color, neighbours(city), true);
}

/// No disease of `after` is less far than it is in `before`: a cure that was
/// found stays found, and a disease that was eradicated stays eradicated.
pub open spec fn advanced(before: BoardView, after: BoardView) -> bool {
    &&& after.blue_disease.rank() >= before.blue_disease.rank()
    &&& after.yellow_disease.rank() >= before.yellow_disease.rank()
    &&& after.black_disease.rank() >= before.black_disease.rank()
    &&& after.red_disease.rank() >= before.red_disease.rank()
}

/// Treating a disease, and a medic's coming to a city, set no disease back.
pub proof fn lemma_treatment_advances(board: BoardView, city: Cities, color: Color, n: nat)
    ensures
        advanced(board, board.with_cubes_removed(city, color, n)),
        advanced(board, board.with_cured_cleared(city, color)),
        advanced(board, board.with_medic_in(city)),
{
    let yellow = board.with_cured_cleared(city, Color::Yellow);
    let black = yellow.with_cured_cleared(city, Color::Black);
    let blue = black.with_cured_cleared(city, Color::Blue);
    let red = blue.with_cured_cleared(city, Color::Red);
    assert(advanced(board, yellow));
    assert(advanced(yellow, black));
    assert(advanced(black, blue));
    assert(advanced(blue, red));
}

/// A medic's coming to a city in which no cured disease has a cube leaves
/// the board as it is: no disease is eradicated without a cube being taken.
pub proof fn lemma_medic_in_clean_city(board: BoardView, city: Cities)
    requires
        forall|color: Color|
            board.disease(color) == DiseaseState::Cured ==> #[trigger] board.cubes(city, color)
                == 0,
    ensures
        board.with_medic_in(city) == board,
{
    assert(board.cubes(city, Color::Yellow) == 0 || board.disease(Color::Yellow)
        != DiseaseState::Cured);
    assert(board.cubes(city, Color::Black) == 0 || board.disease(Color::Black)
        != DiseaseState::Cured);
    assert(board.cubes(city, Color::Blue) == 0 || board.disease(Color::Blue)
        != DiseaseState::Cured);
    assert(board.cubes(city, Color::Red) == 0 || board.disease(Color::Red) != DiseaseState::Cured);
}

/// A disease is eradicated only by taking cubes: where no cube is taken, the
/// board stays as it is.
pub proof fn lemma_nothing_removed(board: BoardView, city: Cities, color: Color)
    ensures
        board.with_cubes_removed(city, color, 0) == board,
        board.cubes(city, color) == 0 ==> board.with_cured_cleared(city, color) == board,
{
}

/// What infections leave alone: the player deck and its discard pile, the
/// state of the diseases and the number of epidemic cards; and what they
/// keep: the cards of the infection deck and its discard pile are the same
/// cards before and after. The outbreak marker does not move back.
pub open spec fn infection_keeps(before: BoardView, after: BoardView) -> bool {
    &&& after.cities.len() == before.cities.len()
    &&& after.player_deck == before.player_deck
    &&& after.player_discard == before.player_discard
    &&& after.infection_deck.to_multiset().add(after.infection_discard.to_multiset())
        == before.infection_deck.to_multiset().add(before.infection_discard.to_multiset())
    &&& after.blue_disease == before.blue_disease
    &&& after.yellow_disease == before.yellow_disease
    &&& after.black_disease == before.black_disease
    &&& after.red_disease == before.red_disease
    &&& after.max_epidemics == before.max_epidemics
    &&& after.outbreaks >= before.outbreaks
}

/// A card that strikes touches only the cities and the outbreak marker, and
/// lies on the infection discard pile afterwards.
pub proof fn lemma_card_strike_frame(board: BoardView, card: InfectionCard, times: nat)
    requires
        board.cities.len() == CITY_COUNT,
    ensures
        ({
            let after = card_strike(board, card, times).0;
            &&& after == (BoardView {
                cities: after.cities,
                outbreaks: after.outbreaks,
                notices: after.notices,
                infection_discard: board.infection_discard.push(card),
                ..board
            })
            &&& after.cities.len() == CITY_COUNT
            &&& after.outbreaks >= board.outbreaks
        }),
{
    lemma_strike_frame(board.with_chain_ended(), card.city, times);
}

/// A card that goes from one end of the infection deck to the top of the
/// discard pile is kept.
pub proof fn lemma_drawn_card_kept(deck: Seq<InfectionCard>, discard: Seq<InfectionCard>)
    requires
        deck.len() > 0,
    ensures
        deck.drop_last().to_multiset().add(discard.push(deck.last()).to_multiset())
            == deck.to_multiset().add(discard.to_multiset()),
        deck.drop_first().to_multiset().add(discard.push(deck.first()).to_multiset())
            == deck.to_multiset().add(discard.to_multiset()),
{
    broadcast use vstd::seq_lib::group_to_multiset_ensures;

    assert(deck =~= deck.drop_last().push(deck.last()));
    assert(deck.drop_last().to_multiset().add(discard.push(deck.last()).to_multiset())
        =~= deck.to_multiset().add(discard.to_multiset()));
    assert(deck.drop_first() =~= deck.remove(0));
    assert(deck.drop_first().to_multiset().add(discard.push(deck.first()).to_multiset())
        =~= deck.to_multiset().add(discard.to_multiset()));
}

/// Cards that strike from the top of the infection deck keep the infection
/// cards and leave the rest of the board's piles and markers alone.
pub proof fn lemma_infect_start_keeps(board: BoardView, times: nat, cards: nat)
    requires
        board.cities.len() == CITY_COUNT,
    ensures
        infection_keeps(board, infect_start(board, times, cards).0),
        infect_start(board, times, cards).0.epidemics == board.epidemics,
        infect_start(board, times, cards).0.rate_index == board.rate_index,
    decreases cards,
{
    if cards > 0 && board.infection_deck.len() > 0 {
        let card = board.infection_deck.last();
        let drawn = BoardView { infection_deck: board.infection_deck.drop_last(), ..board };
        lemma_card_strike_frame(drawn, card, times);
        lemma_drawn_card_kept(board.infection_deck, board.infection_discard);
        let struck = card_strike(drawn, card, times);
        if struck.1 {
            lemma_infect_start_keeps(struck.0, times, (cards - 1) as nat);
        }
    }
}

/// The infection of cities at the end of a turn keeps the infection cards
/// and leaves the rest of the board's piles and markers alone.
pub proof fn lemma_infect_cities_keeps(board: BoardView, cards: nat)
    requires
        board.cities.len() == CITY_COUNT,
    ensures
        infection_keeps(board, infect_cities(board, cards).0),
        infect_cities(board, cards).0.epidemics == board.epidemics,
        infect_cities(board, cards).0.rate_index == board.rate_index,
    decreases cards,
{
    if cards > 0 && board.infection_deck.len() > 0 {
        let card = board.infection_deck.last();
        let drawn = BoardView { infection_deck: board.infection_deck.drop_last(), ..board };
        lemma_card_strike_frame(drawn, card, 1);
        lemma_drawn_card_kept(board.infection_deck, board.infection_discard);
        let struck = card_strike(drawn, card, 1);
        if struck.1 {
            lemma_infect_cities_keeps(struck.0, (cards - 1) as nat);
        }
    }
}

/// The first infection of the game keeps the infection cards and leaves the
/// rest of the board's piles and markers alone.
pub proof fn lemma_first_infection_keeps(board: BoardView)
    requires
        board.cities.len() == CITY_COUNT,
    ensures
        infection_keeps(board, first_infection(board).0),
        first_infection(board).0.epidemics == board.epidemics,
        first_infection(board).0.rate_index == board.rate_index,
{
    let heavy = infect_start(board, 3, 3);
    lemma_infect_start_keeps(board, 3, 3);
    if heavy.1 {
        let medium = infect_start(heavy.0, 2, 3);
        lemma_infect_start_keeps(heavy.0, 2, 3);
        if medium.1 {
            lemma_infect_start_keeps(medium.0, 1, 3);
        }
    }
}

/// An epidemic keeps the infection cards, counts itself, and leaves the
/// player deck, its discard pile and the state of the diseases alone.
pub proof fn lemma_epidemic_keeps(before: BoardView, goes_on: bool, after: BoardView)
    requires
        before.cities.len() == CITY_COUNT,
        epidemic_outcome(before, goes_on, after),
    ensures
        infection_keeps(before, after),
        after.epidemics == before.epidemics + 1,
{
    broadcast use vstd::seq_lib::group_to_multiset_ensures;

    if before.infection_deck.len() > 0 {
        let marked = BoardView {
            rate_index: if before.rate_index < MAX_INFECTION_RATE_INDEX {
                before.rate_index + 1
            } else {
                before.rate_index
            },
            epidemics: before.epidemics + 1,
            ..before
        };
        let card = before.infection_deck.first();
        let drawn = BoardView {
            infection_deck: before.infection_deck.drop_first(),
            notices: marked.notices.push(Notice::EpidemicDrawn { city: card.city }),
            ..marked
        };
        lemma_card_strike_frame(drawn, card, MAX_INFECTION_PER_TYPE_PER_CITY as nat);
        lemma_drawn_card_kept(before.infection_deck, before.infection_discard);
        let struck = card_strike(drawn, card, MAX_INFECTION_PER_TYPE_PER_CITY as nat);
        if goes_on {
            let n = drawn.infection_deck.len() as int;
            assert(after.infection_deck =~= after.infection_deck.take(n)
                + after.infection_deck.skip(n));
            vstd::seq_lib::lemma_multiset_commutative(
                after.infection_deck.take(n),
                after.infection_deck.skip(n),
            );
            assert(after.infection_deck.to_multiset().add(after.infection_discard.to_multiset())
                =~= before.infection_deck.to_multiset().add(
                before.infection_discard.to_multiset(),
            ));
        }
    }
}

/// The board at the start is sound: it has one research station and no cube.
pub proof fn lemma_initial_is_sound()
    ensures
        BoardView::initial().sound(),
        BoardView::initial().in_play(),
        BoardView::initial().stations() == 1,
        forall|color: Color| #[trigger] BoardView::initial().total(color) == 0,
{
    let v = BoardView::initial();
    let empty = Seq::new(CITY_COUNT as nat, |i: int| CityView::blank(false));
    lemma_tally_bound(empty, station_weight(), 0);
    lemma_tally_update(empty, Cities::Atlanta.slot(), CityView::blank(true), station_weight());
    assert(v.cities =~= empty.update(Cities::Atlanta.slot(), CityView::blank(true)));
    assert forall|color: Color| #[trigger] tally(v.cities, cube_weight(color)) == 0 by {
        lemma_tally_bound(v.cities, cube_weight(color), 0);
    }
    assert forall|color: Color| #[trigger] v.total(color) == 0 by {
        assert(tally(v.cities, cube_weight(color)) == 0);
    }
}

} // verus!

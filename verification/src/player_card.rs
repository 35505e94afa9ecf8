use vstd::multiset::Multiset;
use vstd::prelude::*;
use crate::chance::Dice;
use crate::common::Color;
use crate::deck::Deck;
use crate::map::{listed_cities, listing, Cities, CITY_COUNT};
use crate::player::{hands, inserted, lemma_hands_update, lemma_inserted_holds, views, Player, PlayerView};

verus! {

/// The country of each city, by the city's position.
pub const COUNTRY: [&'static str; 48] = [
    "Algeria",
    "United States",
    "Iraq",
    "Thailand",
    "People's Republic of China",
    "Colombia",
    "Argentina",
    "Egypt",
    "India",
    "United States",
    "India",
    "Germany",
    "Vietnam",
    "Special Administrative Region of the People's Republic of China",
    "Turkey",
    "Indonesia",
    "South Africa",
    "Pakistan",
    "Sudan",
    "Democratic Republic of the Congo",
    "India",
    "Nigeria",
    "Peru",
    "United Kingdom",
    "United States",
    "Spain",
    "Philippines",
    "Mexico",
    "United States",
    "Italy",
    "Canada",
    "Russia",
    "India",
    "United States",
    "Japan",
    "France",
    "Saudi Arabia",
    "Russia",
    "United States",
    "Chile",
    "Brazil",
    "South Korea",
    "People's Republic of China",
    "Australia",
    "Taiwan",
    "Iran",
    "Japan",
    "United States",
];

/// The flag of each city's country, by the city's position.
pub const FLAG: [&'static str; 48] = [
    "🇩🇿",
    "🇺🇸",
    "🇮🇶",
    "🇹🇭",
    "🇨🇳",
    "🇨🇴",
    "🇦🇷",
    "🇪🇬",
    "🇮🇳",
    "🇺🇸",
    "🇮🇳",
    "🇩🇪",
    "🇻🇳",
    "🇭🇰",
    "🇹🇷",
    "🇮🇩",
    "🇿🇦",
    "🇵🇰",
    "🇸🇩",
    "🇨🇩",
    "🇮🇳",
    "🇳🇬",
    "🇵🇪",
    "🇬🇧",
    "🇺🇸",
    "🇪🇸",
    "🇵🇭",
    "🇲🇽",
    "🇺🇸",
    "🇮🇹",
    "🇨🇦",
    "🇷🇺",
    "🇮🇳",
    "🇺🇸",
    "🇯🇵",
    "🇫🇷",
    "🇸🇦",
    "🇷🇺",
    "🇺🇸",
    "🇨🇱",
    "🇧🇷",
    "🇰🇷",
    "🇨🇳",
    "🇦🇺",
    "🇹🇼",
    "🇮🇷",
    "🇯🇵",
    "🇺🇸",
];

/// The population of each city, by the city's position.
pub const POPULATION: [u32; 48] = [
    2_946_000,
    4_715_000,
    6_204_000,
    7_151_000,
    17_311_000,
    8_702_000,
    13_639_000,
    14_718_000,
    8_865_000,
    9_121_000,
    22_242_000,
    575_000,
    8_314_000,
    7_106_000,
    13_576_000,
    26_063_000,
    3_888_000,
    20_711_000,
    4_887_000,
    9_046_000,
    14_374_000,
    11_547_000,
    9_121_000,
    8_586_000,
    14_900_000,
    5_427_000,
    20_767_000,
    19_463_000,
    5_582_000,
    5_232_000,
    3_429_000,
    15_512_000,
    16_910_000,
    20_464_000,
    2_871_000,
    10_755_000,
    5_037_000,
    4_879_000,
    5_864_000,
    6_015_000,
    20_186_000,
    22_547_000,
    13_482_000,
    3_785_000,
    13_482_000,
    7_419_000,
    13_189_000,
    4_679_000,
];

/// The inhabitants per square kilometre of each city, by the city's position.
pub const POPULATION_DENSITY: [u16; 48] = [
    6_500,
    700,
    10_400,
    3_200,
    5_000,
    21_000,
    5_200,
    8_900,
    14_600,
    1_300,
    11_500,
    2_800,
    9_900,
    25_900,
    9_700,
    9_400,
    2_400,
    25_800,
    4_500,
    15_500,
    11_900,
    12_700,
    14_100,
    5_300,
    2_400,
    5_700,
    14_400,
    9_500,
    1_700,
    2_800,
    2_200,
    3_500,
    30_900,
    1_800,
    13_000,
    3_800,
    3_400,
    4_100,
    2_100,
    6_500,
    6_400,
    10_400,
    2_200,
    2_100,
    2_200,
    9_500,
    6_030,
    2_100,
];
/// The names of the events, by the event's position.
pub const EVENT_NAMES: [&'static str; 5] = [
    "Airlift",
    "Forecast",
    "Government Grant",
    "One Quiet Night",
    "Resilient Population",
];

/// What each event does, by the event's position.
pub const EVENT_RULES: [&'static str; 5] = [
    "Move any 1 pawn to any city. Get permission before moving another player's pawn.",
    "Draw, look at, and rearrange the top 6 cards of the Infection Deck. Put them back on top.",
    "Add 1 research station to any city (no City card needed).",
    "Skip the next Infect Cities step (do not flip over any Infection cards).",
    "Remove any 1 card in the Infection Discard Pile from the game. You may play this between the Infect and Intensify steps of an epidemic.",
];

/// Number of event cards in the player deck.
pub const EVENT_COUNT: usize = 5;

/// A city card of the player deck: the city, its colour and what the card
/// tells of it.
#[derive(Clone, Copy, Debug, PartialEq, Eq, Structural)]
pub struct City {
    pub city: Cities,
    pub color: Color,
    pub population: u32,
    pub population_density: u16,
}

/// The card that the player deck holds for `city`.
pub open spec fn city_card(city: Cities) -> City {
    City {
        city,
        color: city.native_color(),
        population: POPULATION[city.slot()],
        population_density: POPULATION_DENSITY[city.slot()],
    }
}

impl City {
    /// The card that the player deck holds for `city`.
    pub fn of(city: Cities) -> (card: Self)
        ensures
            card == city_card(city),
    {
        let i = city.index();
        City {
            city,
            color: city.color(),
            population: POPULATION[i],
            population_density: POPULATION_DENSITY[i],
        }
    }

    /// The country in which the card's city lies.
    pub fn country(&self) -> (name: &'static str)
        ensures
            name@ == COUNTRY[self.city.slot()]@,
    {
        COUNTRY[self.city.index()]
    }

    /// The flag of the country in which the card's city lies.
    pub fn flag(&self) -> (sign: &'static str)
        ensures
            sign@ == FLAG[self.city.slot()]@,
    {
        FLAG[self.city.index()]
    }
}

/// The five events.
#[derive(Clone, Copy, Debug, PartialEq, Eq, Structural, Hash, PartialOrd, Ord)]
pub enum Events {
    Airlift,
    Forecast,
    GovernmentGrant,
    OneQuietNight,
    ResilientPopulation,
}

impl Events {
    /// Position of the event in the declaration order, from 0 to 4.
    pub open spec fn rank(self) -> int {
        match self {
            Events::Airlift => 0,
            Events::Forecast => 1,
            Events::GovernmentGrant => 2,
            Events::OneQuietNight => 3,
            Events::ResilientPopulation => 4,
        }
    }

    /// The event at position `i` of the declaration order.
    pub open spec fn at(i: int) -> Events {
        if i == 0 {
            Events::Airlift
        } else if i == 1 {
            Events::Forecast
        } else if i == 2 {
            Events::GovernmentGrant
        } else if i == 3 {
            Events::OneQuietNight
        } else {
            Events::ResilientPopulation
        }
    }

    /// Position of the event in the declaration order, from 0 to 4.
    pub fn index(self) -> (i: usize)
        ensures
            i == self.rank(),
    {
        match self {
            Events::Airlift => 0,
            Events::Forecast => 1,
            Events::GovernmentGrant => 2,
            Events::OneQuietNight => 3,
            Events::ResilientPopulation => 4,
        }
    }

    /// The characters of the event's name.
    pub open spec fn label(self) -> Seq<char> {
        EVENT_NAMES[self.rank()]@
    }

    /// The event's name.
    pub fn name(self) -> (s: &'static str)
        ensures
            s@ == self.label(),
    {
        EVENT_NAMES[self.index()]
    }

    /// The characters of the text that explains the event.
    pub open spec fn rule(self) -> Seq<char> {
        EVENT_RULES[self.rank()]@
    }
}

/// An event card of the player deck.
#[derive(Clone, Copy, Debug, PartialEq, Eq, Structural)]
pub struct Event {
    pub event: Events,
}

impl Event {
    /// The text that explains what the event does.
    pub fn description(&self) -> (text: &'static str)
        ensures
            text@ == self.event.rule(),
    {
        EVENT_RULES[self.event.index()]
    }
}

/// A card of the player deck.
#[derive(Clone, Copy, Debug, PartialEq, Eq, Structural)]
pub enum PlayerCard {
    CityCard(City),
    EpidemicCard,
    EventCard(Event),
}

/// The key by which the cards of a hand are sorted: city cards first, by
/// colour and then by city; then the epidemic card; then the events.
pub open spec fn sort_key(card: PlayerCard) -> int {
    match card {
        PlayerCard::CityCard(c) => c.color.rank() * CITY_COUNT as int + c.city.slot(),
        PlayerCard::EpidemicCard => 4 * CITY_COUNT as int,
        PlayerCard::EventCard(e) => 4 * CITY_COUNT as int + 1 + e.event.rank(),
    }
}

impl PlayerCard {
    /// The key by which the cards of a hand are sorted.
    pub fn key(&self) -> (k: usize)
        ensures
            k == sort_key(*self),
            k < 200,
    {
        match self {
            PlayerCard::CityCard(c) => c.color.index() * CITY_COUNT + c.city.index(),
            PlayerCard::EpidemicCard => 4 * CITY_COUNT,
            PlayerCard::EventCard(e) => 4 * CITY_COUNT + 1 + e.event.index(),
        }
    }

    /// Whether this is a city card.
    pub open spec fn is_city(self) -> bool {
        self is CityCard
    }

    /// Whether this is the card of `city`.
    pub open spec fn names(self, city: Cities) -> bool {
        self matches PlayerCard::CityCard(c) && c.city == city
    }

    /// Whether this is a city card of the colour `color`.
    pub open spec fn tinted(self, color: Color) -> bool {
        self matches PlayerCard::CityCard(c) && c.color == color
    }

    /// Whether this is the card of `city`.
    pub fn is_card_of(&self, city: Cities) -> (yes: bool)
        ensures
            yes == self.names(city),
    {
        match self {
            PlayerCard::CityCard(c) => c.city == city,
            _ => false,
        }
    }

    /// Whether this is a city card of the colour `color`.
    pub fn has_color(&self, color: Color) -> (yes: bool)
        ensures
            yes == self.tinted(color),
    {
        match self {
            PlayerCard::CityCard(c) => c.color == color,
            _ => false,
        }
    }
}

/// The player deck before the game: the city cards in the order of the map's
/// listing, then the five events on top.
pub open spec fn fresh_player_deck() -> Seq<PlayerCard> {
    Seq::new(
        (CITY_COUNT + EVENT_COUNT) as nat,
        |i: int|
            if i < CITY_COUNT {
                PlayerCard::CityCard(city_card(listing(i)))
            } else {
                PlayerCard::EventCard(Event { event: Events::at(i - CITY_COUNT) })
            },
    )
}

fn make_cities() -> (cards: Vec<PlayerCard>)
    ensures
        cards.len() == CITY_COUNT,
        forall|i: int| 0 <= i < CITY_COUNT ==> cards[i] == PlayerCard::CityCard(city_card(listing(i))),
{
    let cities = listed_cities();
    let mut cards: Vec<PlayerCard> = Vec::new();
    let mut i: usize = 0;
    while i < cities.len()
        invariant
            cities@ == crate::map::listed(),
            i <= CITY_COUNT,
            cards.len() == i,
            forall|k: int| 0 <= k < i ==> cards[k] == PlayerCard::CityCard(city_card(listing(k))),
        decreases CITY_COUNT - i,
    {
        cards.push(PlayerCard::CityCard(City::of(cities[i])));
        i += 1;
    }
    cards
}

fn make_events() -> (cards: Vec<PlayerCard>)
    ensures
        cards.len() == EVENT_COUNT,
        forall|i: int| 0 <= i < EVENT_COUNT ==> cards[i] == PlayerCard::EventCard(Event { event: Events::at(i) }),
{
    vec![
        PlayerCard::EventCard(Event { event: Events::Airlift }),
        PlayerCard::EventCard(Event { event: Events::Forecast }),
        PlayerCard::EventCard(Event { event: Events::GovernmentGrant }),
        PlayerCard::EventCard(Event { event: Events::OneQuietNight }),
        PlayerCard::EventCard(Event { event: Events::ResilientPopulation }),
    ]
}

fn make_deck() -> (cards: Vec<PlayerCard>)
    ensures
        cards@ == fresh_player_deck(),
{
    let mut deck = Vec::new();
    let mut cities = make_cities();
    let mut events = make_events();
    deck.append(&mut cities);
    deck.append(&mut events);
    assert(deck@ =~= fresh_player_deck());
    deck
}

/// Number of cards that leave `deck` when one is dealt to each of `players`.
pub open spec fn dealt(deck: Seq<PlayerCard>, players: Seq<Player>) -> int {
    if players.len() <= deck.len() {
        players.len() as int
    } else {
        deck.len() as int
    }
}

/// The pile `deck` after one card was dealt from its top to each of
/// `players` players, until it ran out.
pub open spec fn deck_dealt(deck: Seq<PlayerCard>, players: nat) -> Seq<PlayerCard> {
    if players <= deck.len() {
        deck.take(deck.len() - players)
    } else {
        Seq::empty()
    }
}

/// The players after one card was dealt to each of them from the top of
/// `deck`, in their order: the first player has taken the top card into the
/// hand, the next player the card below it, and so on until the deck ran
/// out.
pub open spec fn hands_dealt(deck: Seq<PlayerCard>, players: Seq<PlayerView>) -> Seq<PlayerView> {
    Seq::new(
        players.len(),
        |i: int|
            if i < deck.len() {
                PlayerView {
                    hand: inserted(players[i].hand, deck[deck.len() - 1 - i]),
                    ..players[i]
                }
            } else {
                players[i]
            },
    )
}

/// A heap of `n` epidemic cards.
pub open spec fn epidemic_cards(n: nat) -> Multiset<PlayerCard>
    decreases n,
{
    if n == 0 {
        Multiset::empty()
    } else {
        epidemic_cards((n - 1) as nat).insert(PlayerCard::EpidemicCard)
    }
}

/// The size of the chunks into which a deck of `len` cards is cut for
/// `epidemics` epidemic cards: the deck's length divided by the number of
/// chunks, rounded up.
pub open spec fn chunk_size(len: nat, epidemics: nat) -> nat {
    if epidemics == 0 {
        0
    } else if len % epidemics == 0 {
        len / epidemics
    } else {
        len / epidemics + 1
    }
}

/// The position in the deck at which chunk `k` begins: each chunk has the
/// full size until the deck runs out, and the chunks after that are empty.
pub open spec fn chunk_start(len: nat, epidemics: nat, k: nat) -> nat
    decreases k,
{
    if k == 0 {
        0
    } else {
        let next = chunk_start(len, epidemics, (k - 1) as nat) + chunk_size(len, epidemics);
        if next < len {
            next
        } else {
            len
        }
    }
}

/// Chunk `k` of `deck` as it was before the epidemic cards came in.
pub open spec fn chunk(deck: Seq<PlayerCard>, epidemics: nat, k: nat) -> Seq<PlayerCard> {
    deck.subrange(
        chunk_start(deck.len(), epidemics, k) as int,
        chunk_start(deck.len(), epidemics, k + 1) as int,
    )
}

/// The part of `deck` that chunk `k` has become, with its epidemic card:
/// each chunk before it has pushed it one card up.
pub open spec fn seeded_chunk(
    deck: Seq<PlayerCard>,
    len: nat,
    epidemics: nat,
    k: nat,
) -> Seq<PlayerCard> {
    deck.subrange(
        (chunk_start(len, epidemics, k) + k) as int,
        (chunk_start(len, epidemics, k + 1) + k + 1) as int,
    )
}

/// `after` is `before` with `epidemics` epidemic cards put in: one in each
/// chunk, each chunk shuffled by itself, the chunks in their old order.
pub open spec fn seeded(before: Seq<PlayerCard>, epidemics: nat, after: Seq<PlayerCard>) -> bool {
    &&& epidemics == 0 ==> after == before
    &&& after.len() == before.len() + epidemics
    &&& after.to_multiset() == before.to_multiset().add(epidemic_cards(epidemics))
    &&& forall|k: nat|
        k < epidemics ==> (#[trigger] seeded_chunk(
            after,
            before.len(),
            epidemics,
            k,
        )).to_multiset() == chunk(before, epidemics, k).to_multiset().insert(
            PlayerCard::EpidemicCard,
        )
}

/// A deck with epidemic cards put in holds exactly that many epidemic cards
/// more than before, and every other card as often as before.
pub proof fn lemma_seeded_counts(
    before: Seq<PlayerCard>,
    epidemics: nat,
    after: Seq<PlayerCard>,
    card: PlayerCard,
)
    requires
        seeded(before, epidemics, after),
    ensures
        after.to_multiset().count(PlayerCard::EpidemicCard) == before.to_multiset().count(
            PlayerCard::EpidemicCard,
        ) + epidemics,
        card != PlayerCard::EpidemicCard ==> after.to_multiset().count(card)
            == before.to_multiset().count(card),
{
    lemma_epidemic_pile(epidemics, card);
}

/// A heap of `n` epidemic cards holds `n` epidemic cards and no other card.
pub proof fn lemma_epidemic_pile(n: nat, card: PlayerCard)
    ensures
        epidemic_cards(n).count(PlayerCard::EpidemicCard) == n,
        card != PlayerCard::EpidemicCard ==> epidemic_cards(n).count(card) == 0,
        epidemic_cards(n).len() == n,
    decreases n,
{
    if n > 0 {
        lemma_epidemic_pile((n - 1) as nat, card);
    }
}

/// The chunks begin one after the other and stay within the deck.
pub proof fn lemma_chunk_starts_in_order(len: nat, epidemics: nat, i: nat, j: nat)
    requires
        i <= j,
    ensures
        chunk_start(len, epidemics, i) <= chunk_start(len, epidemics, j) <= len,
    decreases j,
{
    if j > 0 {
        if i < j {
            lemma_chunk_starts_in_order(len, epidemics, i, (j - 1) as nat);
        } else {
            lemma_chunk_starts_in_order(len, epidemics, (i - 1) as nat, (j - 1) as nat);
        }
    }
}

/// As many chunks as there are epidemic cards cover the whole deck.
pub proof fn lemma_chunks_cover(len: nat, epidemics: nat)
    requires
        epidemics > 0,
    ensures
        chunk_start(len, epidemics, epidemics) == len,
{
    let size = chunk_size(len, epidemics);
    assert(epidemics * size >= len) by (nonlinear_arith)
        requires
            epidemics > 0,
            size == if len % epidemics == 0 {
                len / epidemics
            } else {
                len / epidemics + 1
            },
    {
        assert(len == epidemics * (len / epidemics) + len % epidemics);
    }
    lemma_chunk_start_product(len, epidemics, epidemics);
}

/// Chunk `k` begins `k` chunk sizes into the deck, or at its end.
pub proof fn lemma_chunk_start_product(len: nat, epidemics: nat, k: nat)
    ensures
        chunk_start(len, epidemics, k) == if k * chunk_size(len, epidemics) < len {
            k * chunk_size(len, epidemics)
        } else {
            len
        },
    decreases k,
{
    let size = chunk_size(len, epidemics);
    if k > 0 {
        lemma_chunk_start_product(len, epidemics, (k - 1) as nat);
        assert(k * size == (k - 1) * size + size) by (nonlinear_arith);
        assert((k - 1) * size >= 0) by (nonlinear_arith)
            requires
                k >= 1,
                size >= 0,
        ;
    } else {
        assert(0 * size == 0) by (nonlinear_arith);
    }
}

impl Deck<PlayerCard> {
    /// The player deck before the game, not yet shuffled and without epidemic
    /// cards.
    pub fn new() -> (deck: Self)
        ensures
            deck@ == fresh_player_deck(),
    {
        Deck::from_vec(make_deck())
    }

    /// Cuts the deck into as many chunks as there are epidemic cards, puts
    /// one epidemic card into each chunk, shuffles each chunk by itself and
    /// lays the chunks on each other in their old order, with dice of their
    /// own. Without epidemic cards the deck stays as it is. Says whether
    /// there were dice: where the operating system gives no seed for them,
    /// the deck stays as it is.
    pub fn add_epidemic_cards(&mut self, epidemics: u8) -> (done: bool)
        ensures
            done ==> seeded(old(self)@, epidemics as nat, final(self)@),
            !done ==> final(self)@ == old(self)@,
    {
        match Dice::from_entropy() {
            Some(mut dice) => {
                self.add_epidemic_cards_with(epidemics, &mut dice);
                true
            },
            None => false,
        }
    }

    /// Puts the epidemic cards into the deck as `add_epidemic_cards` does,
    /// with `dice` to shuffle the chunks.
    pub fn add_epidemic_cards_with(&mut self, epidemics: u8, dice: &mut Dice)
        ensures
            seeded(old(self)@, epidemics as nat, final(self)@),
    {
        broadcast use vstd::seq_lib::group_to_multiset_ensures;

        if epidemics == 0 {
            assert(old(self)@.to_multiset().add(epidemic_cards(0)) =~= old(self)@.to_multiset());
            return ;
        }
        let ghost deck = self@;
        let ghost count = epidemics as nat;
        let len = self.len();
        let chunks = epidemics as usize;
        let size = if len % chunks == 0 {
            len / chunks
        } else {
            proof {
                vstd::arithmetic::div_mod::lemma_div_is_ordered_by_denominator(
                    len as int,
                    2,
                    chunks as int,
                );
            }
            len / chunks + 1
        };
        let mut seeded: Vec<PlayerCard> = Vec::new();
        let mut start: usize = 0;
        let mut k: usize = 0;
        assert(deck.take(0).to_multiset().add(epidemic_cards(0)) =~= seeded@.to_multiset());
        while k < chunks
            invariant
                deck == old(self)@,
                count == epidemics,
                len == deck.len(),
                chunks == epidemics,
                size == chunk_size(deck.len(), count),
                k <= chunks,
                start == chunk_start(deck.len(), count, k as nat),
                start <= len,
                self@ == deck.skip(start as int),
                seeded@.len() == start + k,
                seeded@.to_multiset() == deck.take(start as int).to_multiset().add(
                    epidemic_cards(k as nat),
                ),
                forall|j: nat|
                    j < k ==> (#[trigger] seeded_chunk(seeded@, deck.len(), count, j)).to_multiset()
                        == chunk(deck, count, j).to_multiset().insert(PlayerCard::EpidemicCard),
            decreases chunks - k,
        {
            let ghost before = seeded@;
            let mut part: Vec<PlayerCard> = Vec::new();
            let mut taken: usize = 0;
            while taken < size && self.len() > 0
                invariant
                    len == deck.len(),
                    start + taken <= len,
                    taken <= size,
                    self@ == deck.skip(start + taken),
                    part@ == deck.subrange(start as int, start + taken),
                decreases size - taken,
            {
                let ghost pile = self@;
                match self.draw_from_bottom() {
                    Some(card) => {
                        part.push(card);
                        assert(card == deck[start + taken]);
                        assert(self@ =~= deck.skip(start + taken + 1));
                        assert(part@ =~= deck.subrange(start as int, start + taken + 1));
                    },
                    None => {},
                }
                taken += 1;
            }
            let ghost end = (start + taken) as nat;
            assert(end == chunk_start(deck.len(), count, (k + 1) as nat));
            let ghost cut = part@;
            assert(cut == chunk(deck, count, k as nat));
            part.push(PlayerCard::EpidemicCard);
            dice.shuffle(&mut part);
            let ghost mixed = part@;
            proof {
                vstd::seq_lib::to_multiset_build(cut, PlayerCard::EpidemicCard);
                vstd::seq_lib::to_multiset_len(cut.push(PlayerCard::EpidemicCard));
                vstd::seq_lib::to_multiset_len(mixed);
            }
            seeded.append(&mut part);
            proof {
                assert(seeded@ == before + mixed);
                vstd::seq_lib::lemma_multiset_commutative(before, mixed);
                assert(deck.take(end as int) =~= deck.take(start as int) + cut);
                vstd::seq_lib::lemma_multiset_commutative(deck.take(start as int), cut);
                assert(seeded@.to_multiset() =~= deck.take(end as int).to_multiset().add(
                    epidemic_cards((k + 1) as nat),
                ));
                assert(seeded_chunk(seeded@, deck.len(), count, k as nat) =~= mixed);
                assert forall|j: nat| j < k implies (#[trigger] seeded_chunk(
                    seeded@,
                    deck.len(),
                    count,
                    j,
                )).to_multiset() == chunk(deck, count, j).to_multiset().insert(
                    PlayerCard::EpidemicCard,
                ) by {
                    lemma_chunk_starts_in_order(deck.len(), count, j + 1, k as nat);
                    lemma_chunk_starts_in_order(deck.len(), count, j, j + 1);
                    assert(seeded_chunk(seeded@, deck.len(), count, j) =~= seeded_chunk(
                        before,
                        deck.len(),
                        count,
                        j,
                    ));
                }
            }
            start = start + taken;
            k += 1;
        }
        proof {
            lemma_chunks_cover(deck.len(), count);
            assert(deck.take(deck.len() as int) =~= deck);
        }
        let mut pile = Deck::from_vec(seeded);
        self.append(&mut pile);
        assert(self@ =~= seeded@);
    }

    /// Deals one card from the top of the deck to each player, in the order
    /// of the players, until the deck runs out.
    pub fn deal(&mut self, players: &mut Vec<Player>)
        ensures
            final(players).len() == old(players).len(),
            final(self)@ == deck_dealt(old(self)@, old(players).len() as nat),
            views(final(players)@) == hands_dealt(old(self)@, views(old(players)@)),
            final(self)@ == old(self)@.take(old(self)@.len() - dealt(old(self)@, old(players)@)),
            forall|i: int|
                0 <= i < dealt(old(self)@, old(players)@) ==> (#[trigger] final(players)[i])@ == (
                PlayerView {
                    hand: inserted(old(players)[i]@.hand, old(self)@[old(self)@.len() - 1 - i]),
                    ..old(players)[i]@
                }),
            forall|i: int|
                dealt(old(self)@, old(players)@) <= i < old(players).len() ==> (
                #[trigger] final(players)[i]) == old(players)[i],
            final(self)@.to_multiset().add(hands(views(final(players)@))) == old(
                self,
            )@.to_multiset().add(hands(views(old(players)@))),
    {
        let ghost deck = self@;
        let ghost seats = players@;
        let mut i: usize = 0;
        assert(deck.take(deck.len() as int) =~= deck);
        while i < players.len()
            invariant
                deck == old(self)@,
                seats == old(players)@,
                players.len() == seats.len(),
                i <= players.len(),
                i <= deck.len() ==> self@ == deck.take(deck.len() - i),
                i > deck.len() ==> self@.len() == 0,
                forall|j: int|
                    0 <= j < i && j < deck.len() ==> (#[trigger] players[j])@ == (PlayerView {
                        hand: inserted(seats[j]@.hand, deck[deck.len() - 1 - j]),
                        ..seats[j]@
                    }),
                forall|j: int|
                    0 <= j < players.len() && (j >= i || j >= deck.len()) ==> (
                    #[trigger] players[j]) == seats[j],
                self@.to_multiset().add(hands(views(players@))) == deck.to_multiset().add(
                    hands(views(seats)),
                ),
            decreases players.len() - i,
        {
            let ghost sitting = players@;
            let ghost pile = self@;
            match self.draw_from_top() {
                Some(card) => {
                    players[i].add_to_hand(card);
                    assert(self@ =~= deck.take(deck.len() - i - 1));
                    assert(forall|j: int| 0 <= j < players.len() && j != i ==> players[j] == sitting[j]);
                    proof {
                        assert(views(players@) =~= views(sitting).update(i as int, players[i as int]@));
                        lemma_hands_update(views(sitting), i as int, players[i as int]@);
                        lemma_inserted_holds(sitting[i as int]@.hand, card);
                        assert(pile =~= self@.push(card));
                        vstd::seq_lib::to_multiset_build(self@, card);
                        let before = pile.to_multiset().add(hands(views(sitting)));
                        let after = self@.to_multiset().add(hands(views(players@)));
                        let seat = sitting[i as int]@.hand.to_multiset();
                        assert forall|c: PlayerCard| after.count(c) == before.count(c) by {
                            assert(hands(views(players@)).add(seat).count(c) == hands(
                                views(sitting),
                            ).add(seat.insert(card)).count(c));
                        }
                        assert(after =~= before);
                    }
                },
                None => {},
            }
            i += 1;
        }
        assert(self@ =~= deck.take(deck.len() - dealt(deck, seats)));
        assert(self@ =~= deck_dealt(deck, seats.len()));
        assert(views(players@) =~= hands_dealt(deck, views(seats)));
    }
}

} // verus!

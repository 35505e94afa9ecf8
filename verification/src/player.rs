use vstd::multiset::Multiset;
use vstd::prelude::*;
use crate::board::{Board, BoardView, DiseaseState, MAX_RESEARCH_STATIONS};
use crate::common::Color;
use crate::map::{linked, Cities};
use crate::notice::Notice;
use crate::player_card::{sort_key, Event, PlayerCard};
use crate::role::Role;

verus! {

/// The largest number of cards that a hand may have when cities are
/// infected.
pub const MAX_CARDS_IN_HAND: usize = 7;

/// Number of actions that a player can choose from, "do nothing" aside.
pub const ACTION_COUNT: usize = 8;

/// What the menu of actions shows for each action.
pub const ACTIONS: [&'static str; 8] = [
    "Drive / Ferry (Cost: 1 action)",
    "Direct Flight (Cost: 1 action)",
    "Charter Flight (Cost: 1 action)",
    "Shuttle Flight (Cost: 1 action)",
    "Build a Research Station (Cost: 1 action)",
    "Treat Disease (Cost: 1 action)",
    "Share Knowledge (Cost: 1 action)",
    "Discover a Cure (Cost: 1 action)",
];

/// Number of city cards of one colour that a cure takes.
pub const CARDS_TO_CURE: usize = 5;

/// Number of city cards of one colour that a cure takes from a scientist.
pub const CARDS_TO_CURE_FOR_SCIENTIST: usize = 4;

/// A player as plain values. The hand is listed in the order in which the
/// player holds it.
pub struct PlayerView {
    pub name: Seq<char>,
    pub hand: Seq<PlayerCard>,
    pub location: Cities,
    pub role: Role,
}

/// The hand is in order: no card stands before one with a smaller key.
pub open spec fn sorted(hand: Seq<PlayerCard>) -> bool {
    forall|i: int, j: int| 0 <= i <= j < hand.len() ==> sort_key(hand[i]) <= sort_key(hand[j])
}

/// The position at which `card` enters the hand: behind the last card whose
/// key is not above its own.
pub open spec fn slot_for(hand: Seq<PlayerCard>, card: PlayerCard) -> int
    decreases hand.len(),
{
    if hand.len() == 0 {
        0
    } else if sort_key(hand.last()) <= sort_key(card) {
        hand.len() as int
    } else {
        slot_for(hand.drop_last(), card)
    }
}

/// The hand with `card` taken into it.
pub open spec fn inserted(hand: Seq<PlayerCard>, card: PlayerCard) -> Seq<PlayerCard> {
    hand.insert(slot_for(hand, card), card)
}

/// The position of the first `card` in the hand, or the hand's length where
/// there is none.
pub open spec fn first_position(hand: Seq<PlayerCard>, card: PlayerCard) -> int
    decreases hand.len(),
{
    if hand.len() == 0 {
        0
    } else if hand.first() == card {
        0
    } else {
        1 + first_position(hand.drop_first(), card)
    }
}

/// The hand without the first `card` in it.
pub open spec fn without(hand: Seq<PlayerCard>, card: PlayerCard) -> Seq<PlayerCard> {
    if hand.contains(card) {
        hand.remove(first_position(hand, card))
    } else {
        hand
    }
}

/// The cards of the hand that name `city`.
pub open spec fn cards_of(hand: Seq<PlayerCard>, city: Cities) -> Seq<PlayerCard> {
    hand.filter(|card: PlayerCard| card.names(city))
}

/// The cards of the hand that do not name `city`.
pub open spec fn cards_beside(hand: Seq<PlayerCard>, city: Cities) -> Seq<PlayerCard> {
    hand.filter(|card: PlayerCard| !card.names(city))
}

/// The largest population on a city card of the hand, 0 where it has none.
pub open spec fn max_population(hand: Seq<PlayerCard>) -> nat
    decreases hand.len(),
{
    if hand.len() == 0 {
        0
    } else {
        let rest = max_population(hand.drop_last());
        match hand.last() {
            PlayerCard::CityCard(city) => if city.population > rest {
                city.population as nat
            } else {
                rest
            },
            _ => rest,
        }
    }
}

/// Number of city cards of `color` in the hand.
pub open spec fn count_tinted(hand: Seq<PlayerCard>, color: Color) -> nat
    decreases hand.len(),
{
    if hand.len() == 0 {
        0
    } else {
        count_tinted(hand.drop_last(), color) + if hand.last().tinted(color) {
            1nat
        } else {
            0nat
        }
    }
}

/// The first `n` city cards of `color` in the hand: the cards that pay for
/// a cure.
pub open spec fn paid(hand: Seq<PlayerCard>, color: Color, n: nat) -> Seq<PlayerCard>
    decreases hand.len(),
{
    if hand.len() == 0 {
        hand
    } else {
        let rest = hand.drop_last();
        if hand.last().tinted(color) && count_tinted(rest, color) < n {
            paid(rest, color, n).push(hand.last())
        } else {
            paid(rest, color, n)
        }
    }
}

/// The hand without the first `n` city cards of `color`.
pub open spec fn unpaid(hand: Seq<PlayerCard>, color: Color, n: nat) -> Seq<PlayerCard>
    decreases hand.len(),
{
    if hand.len() == 0 {
        hand
    } else {
        let rest = hand.drop_last();
        if hand.last().tinted(color) && count_tinted(rest, color) < n {
            unpaid(rest, color, n)
        } else {
            unpaid(rest, color, n).push(hand.last())
        }
    }
}

/// Number of city cards of one colour that a player of `role` discards to
/// find a cure.
pub open spec fn cards_to_cure(role: Role) -> nat {
    if role is Scientist {
        CARDS_TO_CURE_FOR_SCIENTIST as nat
    } else {
        CARDS_TO_CURE as nat
    }
}

/// The board as a player of `role` leaves it on coming to `city`: a medic
/// takes the cubes of every cured disease from the city.
pub open spec fn arrival(board: BoardView, role: Role, city: Cities) -> BoardView {
    if role is Medic {
        board.with_medic_in(city)
    } else {
        board
    }
}

/// The board with `cards` laid on the player discard pile.
pub open spec fn with_discards(board: BoardView, cards: Seq<PlayerCard>) -> BoardView {
    BoardView { player_discard: board.player_discard + cards, ..board }
}

/// Drive or ferry: the pawn moves to a city that the map links with its own.
pub open spec fn drive_ferry_outcome(
    player: PlayerView,
    board: BoardView,
    destination: Cities,
) -> (bool, PlayerView, BoardView) {
    if linked(player.location, destination) {
        (
            true,
            PlayerView { location: destination, ..player },
            arrival(board, player.role, destination),
        )
    } else {
        (false, player, board)
    }
}

/// Direct flight: the player discards the card of the destination and the
/// pawn moves there.
pub open spec fn direct_flight_outcome(
    player: PlayerView,
    board: BoardView,
    destination: Cities,
) -> (bool, PlayerView, BoardView) {
    if cards_of(player.hand, destination).len() > 0 {
        (
            true,
            PlayerView {
                hand: cards_beside(player.hand, destination),
                location: destination,
                ..player
            },
            arrival(
                with_discards(board, cards_of(player.hand, destination)),
                player.role,
                destination,
            ),
        )
    } else {
        (false, player, board)
    }
}

/// Charter flight: the player discards the card of the city where the pawn
/// stands and the pawn moves to any city.
pub open spec fn chartered_flight_outcome(
    player: PlayerView,
    board: BoardView,
    destination: Cities,
) -> (bool, PlayerView, BoardView) {
    if cards_of(player.hand, player.location).len() > 0 {
        (
            true,
            PlayerView {
                hand: cards_beside(player.hand, player.location),
                location: destination,
                ..player
            },
            arrival(
                with_discards(board, cards_of(player.hand, player.location)),
                player.role,
                destination,
            ),
        )
    } else {
        (false, player, board)
    }
}

/// Shuttle flight: the pawn moves from a city with a research station to
/// another one.
pub open spec fn shuttle_flight_outcome(
    player: PlayerView,
    board: BoardView,
    destination: Cities,
) -> (bool, PlayerView, BoardView) {
    if board.has_station(player.location) && board.has_station(destination) {
        (
            true,
            PlayerView { location: destination, ..player },
            arrival(board, player.role, destination),
        )
    } else {
        (false, player, board)
    }
}

/// Whether the player can build a research station: an operations expert
/// always, anyone else with the card of the city; and where all six stations
/// stand, only with one of them named to be taken away.
pub open spec fn can_build(player: PlayerView, board: BoardView, removed: Option<Cities>) -> bool {
    &&& player.role is OperationsExpert || cards_of(player.hand, player.location).len() > 0
    &&& board.stations() >= MAX_RESEARCH_STATIONS ==> removed is Some && board.has_station(
        removed.unwrap(),
    )
}

/// The board after the station that had to go was taken away.
pub open spec fn with_room_made(board: BoardView, removed: Option<Cities>) -> BoardView {
    if board.stations() >= MAX_RESEARCH_STATIONS && removed is Some {
        board.with_station(removed.unwrap(), false)
    } else {
        board
    }
}

/// What the board tells of a research station that was built in `city`:
/// that it was moved there, where one had to go to make room for it, and
/// else that it was built.
pub open spec fn station_notice(board: BoardView, removed: Option<Cities>, city: Cities) -> Notice {
    if board.stations() >= MAX_RESEARCH_STATIONS && removed is Some {
        Notice::StationMoved { from: removed.unwrap(), to: city }
    } else {
        Notice::StationBuilt { city }
    }
}

/// Build a research station in the city where the pawn stands. Anyone but
/// an operations expert discards the card of that city.
pub open spec fn build_outcome(player: PlayerView, board: BoardView, removed: Option<Cities>) -> (
    bool,
    PlayerView,
    BoardView,
) {
    if can_build(player, board, removed) {
        if player.role is OperationsExpert {
            (
                true,
                player,
                with_room_made(board, removed).with_station(player.location, true).noted(
                    station_notice(board, removed, player.location),
                ),
            )
        } else {
            (
                true,
                PlayerView { hand: cards_beside(player.hand, player.location), ..player },
                with_discards(
                    with_room_made(board, removed),
                    cards_of(player.hand, player.location),
                ).with_station(player.location, true).noted(
                    station_notice(board, removed, player.location),
                ),
            )
        }
    } else {
        (false, player, board)
    }
}

/// Number of cubes that one treatment takes: all of them for a medic or of
/// a cured disease, else one.
pub open spec fn treated(player: PlayerView, board: BoardView, color: Color) -> nat {
    if player.role is Medic || board.disease(color) == DiseaseState::Cured {
        board.cubes(player.location, color)
    } else {
        1
    }
}

/// Treat disease: cubes of `color` leave the city where the pawn stands, if
/// there are any.
pub open spec fn treat_outcome(player: PlayerView, board: BoardView, color: Color) -> (
    bool,
    PlayerView,
    BoardView,
) {
    if board.cubes(player.location, color) > 0 {
        (
            true,
            player,
            board.with_cubes_removed(player.location, color, treated(player, board, color)),
        )
    } else {
        (false, player, board)
    }
}

/// Whether the player can find the cure of `color`: in a city with a
/// research station, for a disease without a cure, with enough city cards
/// of the colour.
pub open spec fn can_cure(player: PlayerView, board: BoardView, color: Color) -> bool {
    &&& board.has_station(player.location)
    &&& board.disease(color) == DiseaseState::Default
    &&& count_tinted(player.hand, color) >= cards_to_cure(player.role)
}

/// Discover a cure: the player discards the first city cards of `color` in
/// the hand, as many as the role needs, and the disease is cured.
pub open spec fn cure_outcome(player: PlayerView, board: BoardView, color: Color) -> (
    bool,
    PlayerView,
    BoardView,
) {
    if can_cure(player, board, color) {
        (
            true,
            PlayerView { hand: unpaid(player.hand, color, cards_to_cure(player.role)), ..player },
            with_discards(board, paid(player.hand, color, cards_to_cure(player.role))).with_cure(
                color,
            ),
        )
    } else {
        (false, player, board)
    }
}

/// Play an event: the card leaves the hand for the player discard pile.
pub open spec fn event_outcome(player: PlayerView, board: BoardView, event: Event) -> (
    bool,
    PlayerView,
    BoardView,
) {
    if player.hand.contains(PlayerCard::EventCard(event)) {
        (
            true,
            PlayerView { hand: without(player.hand, PlayerCard::EventCard(event)), ..player },
            with_discards(board, seq![PlayerCard::EventCard(event)]),
        )
    } else {
        (false, player, board)
    }
}

/// Whether `giver` may hand `card` to `taker`: both stand in the same city,
/// and the card is a city card of the giver's hand that names that city, or
/// any city card of a researcher's hand.
pub open spec fn can_hand_over(giver: PlayerView, taker: PlayerView, card: PlayerCard) -> bool {
    &&& giver.location == taker.location
    &&& card is CityCard
    &&& giver.hand.contains(card)
    &&& giver.role is Researcher || card.names(giver.location)
}

/// Share knowledge: `card` goes from the giver's hand to the taker's.
pub open spec fn share_outcome(giver: PlayerView, taker: PlayerView, card: PlayerCard) -> (
    bool,
    PlayerView,
    PlayerView,
) {
    if can_hand_over(giver, taker, card) {
        (
            true,
            PlayerView { hand: without(giver.hand, card), ..giver },
            PlayerView { hand: inserted(taker.hand, card), ..taker },
        )
    } else {
        (false, giver, taker)
    }
}

/// The players of `players` as plain values.
pub open spec fn views(players: Seq<Player>) -> Seq<PlayerView> {
    players.map_values(|player: Player| player@)
}

/// How sharing knowledge with the player at position `partner` of `players`
/// ends: `card` goes to that player if `give` is set, and comes from that
/// player if not; nobody else is touched. Without such a player, or where
/// the card may not change hands, nothing changes.
pub open spec fn share_result(
    player: PlayerView,
    players: Seq<PlayerView>,
    partner: usize,
    give: bool,
    card: PlayerCard,
) -> (bool, PlayerView, Seq<PlayerView>) {
    if partner >= players.len() {
        (false, player, players)
    } else if give {
        let outcome = share_outcome(player, players[partner as int], card);
        (outcome.0, outcome.1, players.update(partner as int, outcome.2))
    } else {
        let outcome = share_outcome(players[partner as int], player, card);
        (outcome.0, outcome.2, players.update(partner as int, outcome.1))
    }
}

/// Sharing knowledge has ended as `share_result` says.
pub open spec fn shared(
    player: PlayerView,
    players: Seq<PlayerView>,
    partner: usize,
    give: bool,
    card: PlayerCard,
    consumed: bool,
    player_after: PlayerView,
    players_after: Seq<PlayerView>,
) -> bool {
    (consumed, player_after, players_after) == share_result(player, players, partner, give, card)
}

/// What a player can do with one action.
#[derive(Clone, Copy, Debug)]
pub enum Action {
    /// Do nothing.
    Pass,
    /// Drive or ferry to the city.
    DriveFerry(Cities),
    /// Fly to the city for its card.
    DirectFlight(Cities),
    /// Fly to the city for the card of the city where the pawn stands.
    CharterFlight(Cities),
    /// Fly to the city from one research station to another.
    ShuttleFlight(Cities),
    /// Build a research station, where needed in place of the one named.
    BuildResearchStation(Option<Cities>),
    /// Treat the disease of the colour.
    TreatDisease(Color),
    /// Give the card to the player at the position, or take it from there.
    ShareKnowledge { partner: usize, give: bool, card: PlayerCard },
    /// Find the cure of the colour.
    DiscoverCure(Color),
}

/// How `action` ends for the player who takes it, the board and the other
/// players: whether it was taken, and what the three are like afterwards. An
/// action that cannot be taken changes nothing.
pub open spec fn act_outcome(
    action: Action,
    player: PlayerView,
    board: BoardView,
    players: Seq<PlayerView>,
) -> (bool, PlayerView, BoardView, Seq<PlayerView>) {
    match action {
        Action::Pass => (true, player, board, players),
        Action::DriveFerry(destination) => {
            let outcome = drive_ferry_outcome(player, board, destination);
            (outcome.0, outcome.1, outcome.2, players)
        },
        Action::DirectFlight(destination) => {
            let outcome = direct_flight_outcome(player, board, destination);
            (outcome.0, outcome.1, outcome.2, players)
        },
        Action::CharterFlight(destination) => {
            let outcome = chartered_flight_outcome(player, board, destination);
            (outcome.0, outcome.1, outcome.2, players)
        },
        Action::ShuttleFlight(destination) => {
            let outcome = shuttle_flight_outcome(player, board, destination);
            (outcome.0, outcome.1, outcome.2, players)
        },
        Action::BuildResearchStation(removed) => {
            let outcome = build_outcome(player, board, removed);
            (outcome.0, outcome.1, outcome.2, players)
        },
        Action::TreatDisease(color) => {
            let outcome = treat_outcome(player, board, color);
            (outcome.0, outcome.1, outcome.2, players)
        },
        Action::ShareKnowledge { partner, give, card } => {
            let outcome = share_result(player, players, partner, give, card);
            (outcome.0, outcome.1, board, outcome.2)
        },
        Action::DiscoverCure(color) => {
            let outcome = cure_outcome(player, board, color);
            (outcome.0, outcome.1, outcome.2, players)
        },
    }
}

/// Whether `action` can be taken.
pub open spec fn usable(
    action: Action,
    player: PlayerView,
    board: BoardView,
    players: Seq<PlayerView>,
) -> bool {
    act_outcome(action, player, board, players).0
}

/// The cards in the hands of `players`.
pub open spec fn hands(players: Seq<PlayerView>) -> Multiset<PlayerCard>
    decreases players.len(),
{
    if players.len() == 0 {
        Multiset::empty()
    } else {
        hands(players.drop_last()).add(players.last().hand.to_multiset())
    }
}

/// The action has ended as `act_outcome` says.
pub open spec fn acted(
    action: Action,
    player: PlayerView,
    board: BoardView,
    players: Seq<PlayerView>,
    consumed: bool,
    player_after: PlayerView,
    board_after: BoardView,
    players_after: Seq<PlayerView>,
) -> bool {
    (consumed, player_after, board_after, players_after) == act_outcome(
        action,
        player,
        board,
        players,
    )
}

/// With one player's hand changed, the cards in all hands change by the
/// difference of the two hands.
pub proof fn lemma_hands_update(players: Seq<PlayerView>, i: int, player: PlayerView)
    requires
        0 <= i < players.len(),
    ensures
        hands(players.update(i, player)).add(players[i].hand.to_multiset()) == hands(players).add(
            player.hand.to_multiset(),
        ),
    decreases players.len(),
{
    let changed = players.update(i, player);
    if i == players.len() - 1 {
        assert(changed.drop_last() =~= players.drop_last());
    } else {
        assert(changed.drop_last() =~= players.drop_last().update(i, player));
        assert(players.drop_last()[i] == players[i]);
        lemma_hands_update(players.drop_last(), i, player);
        let inner = hands(changed.drop_last()).add(players[i].hand.to_multiset());
        assert(inner == hands(players.drop_last()).add(player.hand.to_multiset()));
        assert(hands(changed).add(players[i].hand.to_multiset()) =~= inner.add(
            players.last().hand.to_multiset(),
        ));
    }
    assert(hands(changed).add(players[i].hand.to_multiset()) =~= hands(players).add(
        player.hand.to_multiset(),
    ));
}

/// A player who joins brings the cards of the hand, and one who leaves
/// takes them along.
pub proof fn lemma_hands_insert(players: Seq<PlayerView>, i: int, player: PlayerView)
    requires
        0 <= i <= players.len(),
    ensures
        hands(players.insert(i, player)) == hands(players).add(player.hand.to_multiset()),
    decreases players.len(),
{
    let more = players.insert(i, player);
    if i == players.len() {
        assert(more.drop_last() =~= players);
    } else {
        assert(more.drop_last() =~= players.drop_last().insert(i, player));
        assert(more.last() == players.last());
        lemma_hands_insert(players.drop_last(), i, player);
    }
    assert(hands(more) =~= hands(players).add(player.hand.to_multiset()));
}

/// The cards that pay for a cure and the cards that stay are, together, the
/// hand; and there are as many paying cards as the cure takes, where the
/// hand has that many of the colour.
pub proof fn lemma_paid_split(hand: Seq<PlayerCard>, color: Color, n: nat)
    ensures
        paid(hand, color, n).to_multiset().add(unpaid(hand, color, n).to_multiset())
            == hand.to_multiset(),
        paid(hand, color, n).len() == if count_tinted(hand, color) < n {
            count_tinted(hand, color)
        } else {
            n
        },
        forall|i: int| 0 <= i < paid(hand, color, n).len() ==> paid(hand, color, n)[i].tinted(color),
    decreases hand.len(),
{
    broadcast use vstd::seq_lib::group_to_multiset_ensures;

    if hand.len() == 0 {
        assert(paid(hand, color, n).to_multiset().add(unpaid(hand, color, n).to_multiset())
            =~= hand.to_multiset());
    } else {
        let rest = hand.drop_last();
        lemma_paid_split(rest, color, n);
        assert(hand =~= rest.push(hand.last()));
        assert(paid(hand, color, n).to_multiset().add(unpaid(hand, color, n).to_multiset())
            =~= hand.to_multiset());
    }
}

/// The hand without a card that it holds is the hand less one such card.
pub proof fn lemma_without_holds(hand: Seq<PlayerCard>, card: PlayerCard)
    requires
        hand.contains(card),
    ensures
        without(hand, card).to_multiset() == hand.to_multiset().remove(card),
        0 <= first_position(hand, card) < hand.len(),
        hand[first_position(hand, card)] == card,
{
    lemma_first_position_found(hand, card);
    vstd::seq_lib::to_multiset_remove(hand, first_position(hand, card));
}

/// The first position of a card that the hand holds is a position of the
/// hand, and the card stands there.
pub proof fn lemma_first_position_found(hand: Seq<PlayerCard>, card: PlayerCard)
    requires
        hand.contains(card),
    ensures
        0 <= first_position(hand, card) < hand.len(),
        hand[first_position(hand, card)] == card,
    decreases hand.len(),
{
    if hand.first() != card {
        let rest = hand.drop_first();
        let at = choose|at: int| 0 <= at < hand.len() && hand[at] == card;
        assert(rest[at - 1] == card);
        lemma_first_position_found(rest, card);
        assert(rest[first_position(rest, card)] == hand[first_position(rest, card) + 1]);
    }
}

/// The part of a hand that is in order is in order.
pub proof fn lemma_sorted_without_last(hand: Seq<PlayerCard>)
    requires
        sorted(hand),
        hand.len() > 0,
    ensures
        sorted(hand.drop_last()),
        forall|i: int| 0 <= i < hand.len() ==> sort_key(hand[i]) <= sort_key(hand.last()),
{
    let rest = hand.drop_last();
    assert forall|i: int, j: int| 0 <= i <= j < rest.len() implies sort_key(rest[i]) <= sort_key(
        rest[j],
    ) by {
        assert(rest[i] == hand[i] && rest[j] == hand[j]);
    }
}

/// The cards of a hand that name a city, and those that do not, are in the
/// order of the hand.
pub proof fn lemma_cards_of_sorted(hand: Seq<PlayerCard>, city: Cities)
    requires
        sorted(hand),
    ensures
        sorted(cards_of(hand, city)),
        sorted(cards_beside(hand, city)),
{
    lemma_filter_sorted(hand, |card: PlayerCard| card.names(city));
    lemma_filter_sorted(hand, |card: PlayerCard| !card.names(city));
}

/// The cards that are picked from a hand that is in order are in order.
pub proof fn lemma_filter_sorted(hand: Seq<PlayerCard>, pick: spec_fn(PlayerCard) -> bool)
    requires
        sorted(hand),
    ensures
        sorted(hand.filter(pick)),
    decreases hand.len(),
{
    reveal(Seq::filter);
    if hand.len() > 0 {
        let rest = hand.drop_last();
        lemma_sorted_without_last(hand);
        lemma_filter_sorted(rest, pick);
        let picked = rest.filter(pick);
        assert forall|i: int| 0 <= i < picked.len() implies sort_key(picked[i]) <= sort_key(
            hand.last(),
        ) by {
            assert(picked.contains(picked[i]));
            rest.lemma_filter_contains_rev(pick, picked[i]);
            let at = choose|at: int| 0 <= at < rest.len() && rest[at] == picked[i];
            assert(rest[at] == hand[at]);
        }
    }
}

/// The cards that stay in a hand that is in order when a cure is paid for
/// are in order, and each of them is a card of the hand.
pub proof fn lemma_unpaid_sorted(hand: Seq<PlayerCard>, color: Color, n: nat)
    requires
        sorted(hand),
    ensures
        sorted(unpaid(hand, color, n)),
        forall|i: int|
            0 <= i < unpaid(hand, color, n).len() ==> hand.contains(
                #[trigger] unpaid(hand, color, n)[i],
            ),
    decreases hand.len(),
{
    if hand.len() > 0 {
        let rest = hand.drop_last();
        lemma_sorted_without_last(hand);
        lemma_unpaid_sorted(rest, color, n);
        let kept = unpaid(rest, color, n);
        assert forall|i: int| 0 <= i < kept.len() implies hand.contains(#[trigger] kept[i])
            && sort_key(kept[i]) <= sort_key(hand.last()) by {
            assert(rest.contains(kept[i]));
            let at = choose|at: int| 0 <= at < rest.len() && rest[at] == kept[i];
            assert(rest[at] == hand[at]);
        }
        let after = unpaid(hand, color, n);
        assert forall|i: int| 0 <= i < after.len() implies hand.contains(#[trigger] after[i]) by {
            if i < kept.len() {
                assert(after[i] == kept[i]);
            } else {
                assert(after[i] == hand[hand.len() - 1]);
            }
        }
    }
}

/// A hand that is in order stays in order when a card leaves it.
pub proof fn lemma_without_sorted(hand: Seq<PlayerCard>, card: PlayerCard)
    requires
        sorted(hand),
    ensures
        sorted(without(hand, card)),
{
    if hand.contains(card) {
        lemma_first_position_found(hand, card);
    }
}

/// Every hand is in order.
pub open spec fn hands_sorted(players: Seq<PlayerView>) -> bool {
    forall|i: int| 0 <= i < players.len() ==> sorted(#[trigger] players[i].hand)
}

/// Hands that are in order stay in order through an action.
pub proof fn lemma_acted_keeps_order(
    action: Action,
    player: PlayerView,
    board: BoardView,
    players: Seq<PlayerView>,
)
    requires
        sorted(player.hand),
        hands_sorted(players),
    ensures
        sorted(act_outcome(action, player, board, players).1.hand),
        hands_sorted(act_outcome(action, player, board, players).3),
{
    match action {
        Action::Pass => {},
        Action::DriveFerry(destination) => {},
        Action::DirectFlight(destination) => {
            lemma_cards_of_sorted(player.hand, destination);
        },
        Action::CharterFlight(destination) => {
            lemma_cards_of_sorted(player.hand, player.location);
        },
        Action::ShuttleFlight(destination) => {},
        Action::BuildResearchStation(removed) => {
            lemma_cards_of_sorted(player.hand, player.location);
        },
        Action::TreatDisease(color) => {},
        Action::ShareKnowledge { partner, give, card } => {
            if partner < players.len() {
                let other = players[partner as int];
                assert(sorted(other.hand));
                lemma_without_sorted(player.hand, card);
                lemma_without_sorted(other.hand, card);
                lemma_inserted_sorted(player.hand, card);
                lemma_inserted_sorted(other.hand, card);
                let after = share_result(player, players, partner, give, card).2;
                assert forall|i: int| 0 <= i < after.len() implies sorted(
                    #[trigger] after[i].hand,
                ) by {
                    if i != partner {
                        assert(after[i] == players[i]);
                    }
                }
            }
        },
        Action::DiscoverCure(color) => {
            lemma_unpaid_sorted(player.hand, color, cards_to_cure(player.role));
        },
    }
}

/// Driving and shuttle flights cost no card and leave the board as it is,
/// but for the cubes that a medic takes on arrival: for any other role, and
/// for a medic who comes to a city where no cured disease has a cube, the
/// hand, the discard pile and the whole board stay as they are.
pub proof fn lemma_move_leaves_board(player: PlayerView, board: BoardView, destination: Cities)
    requires
        !(player.role is Medic) || forall|color: Color|
            board.disease(color) == DiseaseState::Cured ==> #[trigger] board.cubes(
                destination,
                color,
            ) == 0,
    ensures
        drive_ferry_outcome(player, board, destination).2 == board,
        shuttle_flight_outcome(player, board, destination).2 == board,
        drive_ferry_outcome(player, board, destination).1.hand == player.hand,
        shuttle_flight_outcome(player, board, destination).1.hand == player.hand,
        arrival(board, player.role, destination) == board,
{
    if player.role is Medic {
        crate::board::lemma_medic_in_clean_city(board, destination);
    }
}

/// A player's coming to a city sets no disease back.
pub proof fn lemma_arrival_advances(board: BoardView, role: Role, city: Cities)
    ensures
        crate::board::advanced(board, arrival(board, role, city)),
{
    crate::board::lemma_treatment_advances(board, city, Color::Blue, 0);
}

/// Moving sets no disease back.
pub proof fn lemma_moves_advance(player: PlayerView, board: BoardView, destination: Cities)
    ensures
        crate::board::advanced(board, drive_ferry_outcome(player, board, destination).2),
        crate::board::advanced(board, shuttle_flight_outcome(player, board, destination).2),
        crate::board::advanced(board, direct_flight_outcome(player, board, destination).2),
        crate::board::advanced(board, chartered_flight_outcome(player, board, destination).2),
{
    lemma_arrival_advances(board, player.role, destination);
    lemma_arrival_advances(
        with_discards(board, cards_of(player.hand, destination)),
        player.role,
        destination,
    );
    lemma_arrival_advances(
        with_discards(board, cards_of(player.hand, player.location)),
        player.role,
        destination,
    );
}

/// Building, treating and curing set no disease back.
pub proof fn lemma_works_advance(
    player: PlayerView,
    board: BoardView,
    removed: Option<Cities>,
    color: Color,
)
    ensures
        crate::board::advanced(board, build_outcome(player, board, removed).2),
        crate::board::advanced(board, treat_outcome(player, board, color).2),
        crate::board::advanced(board, cure_outcome(player, board, color).2),
{
    crate::board::lemma_treatment_advances(
        board,
        player.location,
        color,
        treated(player, board, color),
    );
}

/// No action sets a disease back: a cure that was found stays found, and a
/// disease that was eradicated stays eradicated.
pub proof fn lemma_action_advances(
    action: Action,
    player: PlayerView,
    board: BoardView,
    players: Seq<PlayerView>,
)
    ensures
        crate::board::advanced(board, act_outcome(action, player, board, players).2),
{
    match action {
        Action::Pass => {},
        Action::DriveFerry(destination) => {
            lemma_moves_advance(player, board, destination);
        },
        Action::DirectFlight(destination) => {
            lemma_moves_advance(player, board, destination);
        },
        Action::CharterFlight(destination) => {
            lemma_moves_advance(player, board, destination);
        },
        Action::ShuttleFlight(destination) => {
            lemma_moves_advance(player, board, destination);
        },
        Action::BuildResearchStation(removed) => {
            lemma_works_advance(player, board, removed, Color::Blue);
        },
        Action::TreatDisease(color) => {
            lemma_works_advance(player, board, None, color);
        },
        Action::ShareKnowledge { partner, give, card } => {},
        Action::DiscoverCure(color) => {
            lemma_works_advance(player, board, None, color);
        },
    }
}

/// How many cards a cure takes. With three city cards of the colour nobody
/// finds the cure; with four of them only a scientist does; and with five,
/// in a city with a research station and for a disease without a cure,
/// everybody does.
pub proof fn lemma_cure_needs_cards(player: PlayerView, board: BoardView, color: Color)
    ensures
        count_tinted(player.hand, color) <= 3 ==> !cure_outcome(player, board, color).0,
        count_tinted(player.hand, color) == 4 && cure_outcome(player, board, color).0
            ==> player.role is Scientist,
        count_tinted(player.hand, color) == 4 && player.role is Scientist && board.has_station(
            player.location,
        ) && board.disease(color) == DiseaseState::Default ==> cure_outcome(player, board, color).0,
        count_tinted(player.hand, color) >= 5 && board.has_station(player.location)
            && board.disease(color) == DiseaseState::Default ==> cure_outcome(
            player,
            board,
            color,
        ).0,
        board.disease(color) != DiseaseState::Default ==> !cure_outcome(player, board, color).0,
{
}

/// Where all six research stations stand, nobody builds another without
/// naming one of them to be taken away; and building never leaves more than
/// six.
pub proof fn lemma_build_needs_room(player: PlayerView, board: BoardView, removed: Option<Cities>)
    requires
        board.sound(),
    ensures
        board.stations() >= MAX_RESEARCH_STATIONS && removed is None ==> !build_outcome(
            player,
            board,
            removed,
        ).0,
        board.stations() >= MAX_RESEARCH_STATIONS && removed is Some && !board.has_station(
            removed.unwrap(),
        ) ==> !build_outcome(player, board, removed).0,
        build_outcome(player, board, removed).2.stations() <= MAX_RESEARCH_STATIONS,
{
    if can_build(player, board, removed) {
        let room = with_room_made(board, removed);
        if board.stations() >= MAX_RESEARCH_STATIONS {
            crate::board::lemma_station_keeps_sound(board, removed.unwrap(), false);
        }
        if player.role is OperationsExpert {
            crate::board::lemma_station_keeps_sound(room, player.location, true);
            assert(build_outcome(player, board, removed).2.cities == room.with_station(
                player.location,
                true,
            ).cities);
        } else {
            let paid = with_discards(room, cards_of(player.hand, player.location));
            assert(paid.cities == room.cities);
            crate::board::lemma_station_keeps_sound(paid, player.location, true);
            assert(build_outcome(player, board, removed).2.cities == paid.with_station(
                player.location,
                true,
            ).cities);
        }
    }
}

/// What an action leaves alone: the decks, the infection discard pile and
/// the markers; and the cards that it keeps: those in the two hands and on
/// the player discard pile are the same cards before and after.
pub open spec fn kept_cards(
    player: PlayerView,
    board: BoardView,
    player_after: PlayerView,
    board_after: BoardView,
) -> bool {
    &&& player_after.hand.to_multiset().add(board_after.player_discard.to_multiset())
        == player.hand.to_multiset().add(board.player_discard.to_multiset())
    &&& board_after.player_deck == board.player_deck
    &&& board_after.infection_deck == board.infection_deck
    &&& board_after.infection_discard == board.infection_discard
    &&& board_after.outbreaks == board.outbreaks
    &&& board_after.epidemics == board.epidemics
    &&& board_after.max_epidemics == board.max_epidemics
    &&& board_after.rate_index == board.rate_index
    &&& player_after.name == player.name
    &&& player_after.role == player.role
}

/// A medic's arrival leaves the piles and the markers alone.
pub proof fn lemma_arrival_keeps_cards(board: BoardView, role: Role, city: Cities)
    ensures
        arrival(board, role, city) == (BoardView {
            cities: arrival(board, role, city).cities,
            blue_disease: arrival(board, role, city).blue_disease,
            yellow_disease: arrival(board, role, city).yellow_disease,
            black_disease: arrival(board, role, city).black_disease,
            red_disease: arrival(board, role, city).red_disease,
            notices: arrival(board, role, city).notices,
            ..board
        }),
{
}

/// A move by land or between research stations keeps the cards.
pub proof fn lemma_move_keeps_cards(player: PlayerView, board: BoardView, destination: Cities)
    ensures
        kept_cards(
            player,
            board,
            drive_ferry_outcome(player, board, destination).1,
            drive_ferry_outcome(player, board, destination).2,
        ),
        kept_cards(
            player,
            board,
            shuttle_flight_outcome(player, board, destination).1,
            shuttle_flight_outcome(player, board, destination).2,
        ),
{
    lemma_arrival_keeps_cards(board, player.role, destination);
}

/// The cards of a city go from the hand to the discard pile: the cards are
/// kept.
pub proof fn lemma_discard_keeps_cards(hand: Seq<PlayerCard>, pile: Seq<PlayerCard>, city: Cities)
    ensures
        cards_beside(hand, city).to_multiset().add((pile + cards_of(hand, city)).to_multiset())
            == hand.to_multiset().add(pile.to_multiset()),
{
    lemma_cards_split(hand, city);
    vstd::seq_lib::lemma_multiset_commutative(pile, cards_of(hand, city));
    assert(cards_beside(hand, city).to_multiset().add(
        pile.to_multiset().add(cards_of(hand, city).to_multiset()),
    ) =~= cards_of(hand, city).to_multiset().add(cards_beside(hand, city).to_multiset()).add(
        pile.to_multiset(),
    ));
}

/// A flight keeps the cards.
pub proof fn lemma_flight_keeps_cards(player: PlayerView, board: BoardView, destination: Cities)
    ensures
        kept_cards(
            player,
            board,
            direct_flight_outcome(player, board, destination).1,
            direct_flight_outcome(player, board, destination).2,
        ),
        kept_cards(
            player,
            board,
            chartered_flight_outcome(player, board, destination).1,
            chartered_flight_outcome(player, board, destination).2,
        ),
{
    lemma_discard_keeps_cards(player.hand, board.player_discard, destination);
    lemma_discard_keeps_cards(player.hand, board.player_discard, player.location);
    lemma_arrival_keeps_cards(
        with_discards(board, cards_of(player.hand, destination)),
        player.role,
        destination,
    );
    lemma_arrival_keeps_cards(
        with_discards(board, cards_of(player.hand, player.location)),
        player.role,
        destination,
    );
}

/// Building a research station and treating a disease keep the cards.
pub proof fn lemma_work_keeps_cards(
    player: PlayerView,
    board: BoardView,
    removed: Option<Cities>,
    color: Color,
)
    ensures
        kept_cards(
            player,
            board,
            build_outcome(player, board, removed).1,
            build_outcome(player, board, removed).2,
        ),
        kept_cards(
            player,
            board,
            treat_outcome(player, board, color).1,
            treat_outcome(player, board, color).2,
        ),
{
    lemma_discard_keeps_cards(player.hand, board.player_discard, player.location);
}

/// Finding a cure keeps the cards.
pub proof fn lemma_cure_keeps_cards(player: PlayerView, board: BoardView, color: Color)
    ensures
        kept_cards(
            player,
            board,
            cure_outcome(player, board, color).1,
            cure_outcome(player, board, color).2,
        ),
{
    let n = cards_to_cure(player.role);
    lemma_paid_split(player.hand, color, n);
    vstd::seq_lib::lemma_multiset_commutative(board.player_discard, paid(player.hand, color, n));
    assert(unpaid(player.hand, color, n).to_multiset().add(
        board.player_discard.to_multiset().add(paid(player.hand, color, n).to_multiset()),
    ) =~= paid(player.hand, color, n).to_multiset().add(
        unpaid(player.hand, color, n).to_multiset(),
    ).add(board.player_discard.to_multiset()));
}

/// Playing an event keeps the cards.
pub proof fn lemma_event_keeps_cards(player: PlayerView, board: BoardView, event: Event)
    ensures
        kept_cards(
            player,
            board,
            event_outcome(player, board, event).1,
            event_outcome(player, board, event).2,
        ),
{
    let card = PlayerCard::EventCard(event);
    if player.hand.contains(card) {
        lemma_without_holds(player.hand, card);
        vstd::seq_lib::lemma_multiset_commutative(board.player_discard, seq![card]);
        vstd::seq_lib::to_multiset_build(Seq::<PlayerCard>::empty(), card);
        vstd::seq_lib::to_multiset_contains(player.hand, card);
        assert(seq![card] =~= Seq::<PlayerCard>::empty().push(card));
        assert(Seq::<PlayerCard>::empty().to_multiset() =~= Multiset::empty()) by {
            vstd::seq_lib::to_multiset_len(Seq::<PlayerCard>::empty());
        }
        assert(without(player.hand, card).to_multiset().add(
            board.player_discard.to_multiset().add(seq![card].to_multiset()),
        ) =~= player.hand.to_multiset().add(board.player_discard.to_multiset()));
    }
}

/// Sharing knowledge keeps the cards of the two hands.
pub proof fn lemma_share_keeps_cards(giver: PlayerView, taker: PlayerView, card: PlayerCard)
    ensures
        share_outcome(giver, taker, card).1.hand.to_multiset().add(
            share_outcome(giver, taker, card).2.hand.to_multiset(),
        ) == giver.hand.to_multiset().add(taker.hand.to_multiset()),
{
    if can_hand_over(giver, taker, card) {
        lemma_without_holds(giver.hand, card);
        lemma_inserted_holds(taker.hand, card);
        vstd::seq_lib::to_multiset_contains(giver.hand, card);
        assert(without(giver.hand, card).to_multiset().add(
            inserted(taker.hand, card).to_multiset(),
        ) =~= giver.hand.to_multiset().add(taker.hand.to_multiset()));
    }
}

/// The cards in the hands of the player who shares knowledge and of the
/// other players are the same cards before and after.
pub proof fn lemma_shared_keeps_cards(
    player: PlayerView,
    players: Seq<PlayerView>,
    partner: usize,
    give: bool,
    card: PlayerCard,
    consumed: bool,
    player_after: PlayerView,
    players_after: Seq<PlayerView>,
)
    requires
        shared(player, players, partner, give, card, consumed, player_after, players_after),
    ensures
        player_after.hand.to_multiset().add(hands(players_after)) == player.hand.to_multiset().add(
            hands(players),
        ),
        player_after.name == player.name,
        player_after.role == player.role,
        !consumed ==> player_after == player && players_after == players,
{
    if partner < players.len() {
        let other = players[partner as int];
        let other_after = players_after[partner as int];
        assert(players_after =~= players.update(partner as int, other_after));
        lemma_hands_update(players, partner as int, other_after);
        if give {
            lemma_share_keeps_cards(player, other, card);
        } else {
            lemma_share_keeps_cards(other, player, card);
        }
        let pair_after = player_after.hand.to_multiset().add(other_after.hand.to_multiset());
        let pair = player.hand.to_multiset().add(other.hand.to_multiset());
        if !give {
            assert(pair_after =~= other_after.hand.to_multiset().add(
                player_after.hand.to_multiset(),
            ));
            assert(pair =~= other.hand.to_multiset().add(player.hand.to_multiset()));
        }
        assert(pair_after =~= pair);
        let seats_after = hands(players_after).add(other.hand.to_multiset());
        let seats = hands(players).add(other_after.hand.to_multiset());
        assert(seats_after == seats);
        let left = player_after.hand.to_multiset().add(hands(players_after));
        let right = player.hand.to_multiset().add(hands(players));
        assert forall|c: PlayerCard| left.count(c) == right.count(c) by {
            assert(pair_after.count(c) == pair.count(c));
            assert(seats_after.count(c) == seats.count(c));
        }
        assert(left =~= right);
    } else {
        assert(players_after =~= players);
    }
}

/// Cards that are kept between one hand and the discard pile are kept
/// among all hands and the discard pile.
pub proof fn lemma_kept_among_all(
    player: PlayerView,
    board: BoardView,
    player_after: PlayerView,
    board_after: BoardView,
    players: Seq<PlayerView>,
)
    requires
        kept_cards(player, board, player_after, board_after),
    ensures
        player_after.hand.to_multiset().add(hands(players)).add(
            board_after.player_discard.to_multiset(),
        ) == player.hand.to_multiset().add(hands(players)).add(board.player_discard.to_multiset()),
{
    let pair_after = player_after.hand.to_multiset().add(board_after.player_discard.to_multiset());
    let pair = player.hand.to_multiset().add(board.player_discard.to_multiset());
    let left = player_after.hand.to_multiset().add(hands(players)).add(
        board_after.player_discard.to_multiset(),
    );
    let right = player.hand.to_multiset().add(hands(players)).add(
        board.player_discard.to_multiset(),
    );
    assert forall|c: PlayerCard| left.count(c) == right.count(c) by {
        assert(pair_after.count(c) == pair.count(c));
    }
    assert(left =~= right);
}

/// What an action that is not the sharing of knowledge keeps and leaves
/// alone: the cards of the hand and of the player discard pile are the same
/// cards before and after it, and the decks, the infection discard pile and
/// the markers are untouched.
pub proof fn lemma_own_action_keeps_cards(action: Action, player: PlayerView, board: BoardView)
    requires
        !(action is ShareKnowledge),
    ensures
        kept_cards(
            player,
            board,
            act_outcome(action, player, board, Seq::empty()).1,
            act_outcome(action, player, board, Seq::empty()).2,
        ),
{
    match action {
        Action::Pass => {},
        Action::DriveFerry(destination) => {
            lemma_move_keeps_cards(player, board, destination);
        },
        Action::DirectFlight(destination) => {
            lemma_flight_keeps_cards(player, board, destination);
        },
        Action::CharterFlight(destination) => {
            lemma_flight_keeps_cards(player, board, destination);
        },
        Action::ShuttleFlight(destination) => {
            lemma_move_keeps_cards(player, board, destination);
        },
        Action::BuildResearchStation(removed) => {
            lemma_work_keeps_cards(player, board, removed, Color::Blue);
        },
        Action::TreatDisease(color) => {
            lemma_work_keeps_cards(player, board, None, color);
        },
        Action::ShareKnowledge { partner, give, card } => {},
        Action::DiscoverCure(color) => {
            lemma_cure_keeps_cards(player, board, color);
        },
    }
}

/// An action that is not the sharing of knowledge goes the same way
/// whoever the other players are, and leaves them alone; and an action that
/// was not taken has changed nothing.
pub proof fn lemma_own_action(
    action: Action,
    player: PlayerView,
    board: BoardView,
    players: Seq<PlayerView>,
)
    requires
        !(action is ShareKnowledge),
    ensures
        act_outcome(action, player, board, players).0 == act_outcome(
            action,
            player,
            board,
            Seq::empty(),
        ).0,
        act_outcome(action, player, board, players).1 == act_outcome(
            action,
            player,
            board,
            Seq::empty(),
        ).1,
        act_outcome(action, player, board, players).2 == act_outcome(
            action,
            player,
            board,
            Seq::empty(),
        ).2,
        act_outcome(action, player, board, players).3 == players,
        !act_outcome(action, player, board, players).0 ==> act_outcome(
            action,
            player,
            board,
            players,
        ).1 == player && act_outcome(action, player, board, players).2 == board,
{
}

/// What an action leaves alone, and what it keeps: the cards in the hands
/// and on the player discard pile are the same cards before and after it;
/// the decks, the infection discard pile and the markers are untouched; and
/// an action that was not taken has changed nothing.
pub proof fn lemma_acted_effects(
    action: Action,
    player: PlayerView,
    board: BoardView,
    players: Seq<PlayerView>,
    consumed: bool,
    player_after: PlayerView,
    board_after: BoardView,
    players_after: Seq<PlayerView>,
)
    requires
        acted(action, player, board, players, consumed, player_after, board_after, players_after),
    ensures
        kept_cards(player, board, player_after, board_after) || action is ShareKnowledge,
        board_after == board || !(action is ShareKnowledge),
        player_after.hand.to_multiset().add(hands(players_after)).add(
            board_after.player_discard.to_multiset(),
        ) == player.hand.to_multiset().add(hands(players)).add(board.player_discard.to_multiset()),
        players_after.len() == players.len(),
        player_after.name == player.name,
        player_after.role == player.role,
        !consumed ==> player_after == player && board_after == board && players_after == players,
{
    if let Action::ShareKnowledge { partner, give, card } = action {
        lemma_shared_keeps_cards(
            player,
            players,
            partner,
            give,
            card,
            consumed,
            player_after,
            players_after,
        );
    } else {
        lemma_own_action(action, player, board, players);
        lemma_own_action_keeps_cards(action, player, board);
        lemma_kept_among_all(player, board, player_after, board_after, players);
    }
}

/// The position at which `player` enters the order of play: behind the last
/// player whose largest city has more inhabitants.
pub open spec fn seat_for(order: Seq<PlayerView>, player: PlayerView) -> int
    decreases order.len(),
{
    if order.len() == 0 {
        0
    } else if max_population(order.last().hand) > max_population(player.hand) {
        order.len() as int
    } else {
        seat_for(order.drop_last(), player)
    }
}

/// The players in the order of play: one after the other they take their
/// seat, each behind those whose largest city has more inhabitants, so that
/// the player with the largest city begins.
pub open spec fn ranked(players: Seq<PlayerView>) -> Seq<PlayerView>
    decreases players.len(),
{
    if players.len() == 0 {
        players
    } else {
        let order = ranked(players.drop_last());
        order.insert(seat_for(order, players.last()), players.last())
    }
}

/// No player sits before one whose largest city has more inhabitants.
pub open spec fn by_population(order: Seq<PlayerView>) -> bool {
    forall|i: int, j: int|
        0 <= i <= j < order.len() ==> max_population(order[i].hand) >= max_population(
            order[j].hand,
        )
}

/// Where a player enters the order of play: nobody behind that position has
/// a larger city, and the player just before it has.
pub proof fn lemma_seat_for(order: Seq<PlayerView>, player: PlayerView)
    ensures
        0 <= seat_for(order, player) <= order.len(),
        seat_for(order, player) > 0 ==> max_population(order[seat_for(order, player) - 1].hand)
            > max_population(player.hand),
        forall|k: int|
            seat_for(order, player) <= k < order.len() ==> max_population(order[k].hand)
                <= max_population(player.hand),
    decreases order.len(),
{
    if order.len() > 0 && max_population(order.last().hand) <= max_population(player.hand) {
        lemma_seat_for(order.drop_last(), player);
        assert forall|k: int| seat_for(order, player) <= k < order.len() implies max_population(
            order[k].hand,
        ) <= max_population(player.hand) by {
            if k < order.len() - 1 {
                assert(order.drop_last()[k] == order[k]);
            }
        }
        if seat_for(order, player) > 0 {
            assert(order.drop_last()[seat_for(order, player) - 1] == order[seat_for(order, player)
                - 1]);
        }
    }
}

/// The order of play holds the same players with the same hands, and the
/// player with the largest city begins.
pub proof fn lemma_ranked(players: Seq<PlayerView>)
    ensures
        ranked(players).len() == players.len(),
        ranked(players).to_multiset() == players.to_multiset(),
        hands(ranked(players)) == hands(players),
        by_population(ranked(players)),
    decreases players.len(),
{
    if players.len() == 0 {
    } else {
        let rest = players.drop_last();
        let order = ranked(rest);
        let player = players.last();
        lemma_ranked(rest);
        lemma_seat_for(order, player);
        let p = seat_for(order, player);
        lemma_hands_insert(order, p, player);
        vstd::seq_lib::to_multiset_insert(order, p, player);
        vstd::seq_lib::to_multiset_build(rest, player);
        assert(players =~= rest.push(player));
        let after = ranked(players);
        assert forall|i: int, j: int| 0 <= i <= j < after.len() implies max_population(
            after[i].hand,
        ) >= max_population(after[j].hand) by {
            if i < p && j == p {
                assert(max_population(order[i].hand) >= max_population(order[p - 1].hand));
            }
        }
    }
}

/// The hand with `card` taken into it is the hand and the card.
pub proof fn lemma_inserted_holds(hand: Seq<PlayerCard>, card: PlayerCard)
    ensures
        0 <= slot_for(hand, card) <= hand.len(),
        inserted(hand, card).len() == hand.len() + 1,
        inserted(hand, card).to_multiset() == hand.to_multiset().insert(card),
{
    lemma_slot_for(hand, card);
    vstd::seq_lib::to_multiset_insert(hand, slot_for(hand, card), card);
}

/// Where `card` enters the hand: every card behind that position has a
/// larger key, and the card just before it has not.
pub proof fn lemma_slot_for(hand: Seq<PlayerCard>, card: PlayerCard)
    ensures
        0 <= slot_for(hand, card) <= hand.len(),
        slot_for(hand, card) > 0 ==> sort_key(hand[slot_for(hand, card) - 1]) <= sort_key(card),
        forall|k: int| slot_for(hand, card) <= k < hand.len() ==> sort_key(hand[k]) > sort_key(card),
    decreases hand.len(),
{
    if hand.len() > 0 && sort_key(hand.last()) > sort_key(card) {
        lemma_slot_for(hand.drop_last(), card);
        assert forall|k: int| slot_for(hand, card) <= k < hand.len() implies sort_key(hand[k])
            > sort_key(card) by {
            if k < hand.len() - 1 {
                assert(hand.drop_last()[k] == hand[k]);
            }
        }
        if slot_for(hand, card) > 0 {
            assert(hand.drop_last()[slot_for(hand, card) - 1] == hand[slot_for(hand, card) - 1]);
        }
    }
}

/// A hand that is in order stays in order when a card is taken into it.
pub proof fn lemma_inserted_sorted(hand: Seq<PlayerCard>, card: PlayerCard)
    requires
        sorted(hand),
    ensures
        sorted(inserted(hand, card)),
{
    lemma_slot_for(hand, card);
    let p = slot_for(hand, card);
    let after = inserted(hand, card);
    assert forall|i: int, j: int| 0 <= i <= j < after.len() implies sort_key(after[i])
        <= sort_key(after[j]) by {
        if i < p && j == p {
            assert(sort_key(hand[i]) <= sort_key(hand[p - 1]));
        }
    }
}

/// The first position of a card is where the card stands with no copy of
/// it before.
pub proof fn lemma_first_position(hand: Seq<PlayerCard>, card: PlayerCard, i: int)
    requires
        0 <= i <= hand.len(),
        forall|k: int| 0 <= k < i ==> hand[k] != card,
        i < hand.len() ==> hand[i] == card,
    ensures
        first_position(hand, card) == i,
        hand.contains(card) == (i < hand.len()),
    decreases i,
{
    if i > 0 {
        let rest = hand.drop_first();
        assert forall|k: int| 0 <= k < i - 1 implies rest[k] != card by {
            assert(rest[k] == hand[k + 1]);
        }
        lemma_first_position(rest, card, i - 1);
    }
    if i < hand.len() {
        assert(hand[i] == card);
    }
}

/// The cards that name a city and the cards that do not are, together, the
/// hand.
pub proof fn lemma_cards_split(hand: Seq<PlayerCard>, city: Cities)
    ensures
        cards_of(hand, city).to_multiset().add(cards_beside(hand, city).to_multiset())
            == hand.to_multiset(),
    decreases hand.len(),
{
    broadcast use vstd::seq_lib::group_to_multiset_ensures;

    reveal(Seq::filter);
    if hand.len() == 0 {
        assert(cards_of(hand, city).to_multiset().add(cards_beside(hand, city).to_multiset())
            =~= hand.to_multiset());
    } else {
        let rest = hand.drop_last();
        lemma_cards_split(rest, city);
        assert(hand =~= rest.push(hand.last()));
        assert(cards_of(hand, city).to_multiset().add(cards_beside(hand, city).to_multiset())
            =~= hand.to_multiset());
    }
}

/// A player: a name, a role, the city where the pawn stands, and a hand of
/// cards that is kept in order.
#[derive(Debug)]
pub struct Player {
    name: String,
    hand: Vec<PlayerCard>,
    location: Cities,
    role: Role,
}

impl View for Player {
    type V = PlayerView;

    closed spec fn view(&self) -> PlayerView {
        PlayerView {
            name: self.name@,
            hand: self.hand@,
            location: self.location,
            role: self.role,
        }
    }
}

impl Clone for Player {
    /// A player with the same name, role, city and hand.
    fn clone(&self) -> (copy: Self)
        ensures
            copy@ == self@,
    {
        proof {
            use_type_invariant(self);
        }
        Player {
            name: self.name.clone(),
            hand: self.hand.clone(),
            location: self.location,
            role: self.role,
        }
    }
}

impl Player {
    /// The hand is in order at any time.
    #[verifier::type_invariant]
    spec fn hand_in_order(self) -> bool {
        sorted(self.hand@)
    }

    /// Gives the player `hand`, which is in order.
    fn set_hand(&mut self, hand: Vec<PlayerCard>)
        requires
            sorted(hand@),
        ensures
            final(self)@ == (PlayerView { hand: hand@, ..old(self)@ }),
    {
        self.hand = hand;
    }

    /// A player with an empty hand, in Atlanta.
    pub fn new(name: &str, role: Role) -> (player: Self)
        ensures
            player@ == (PlayerView {
                name: name@,
                hand: Seq::empty(),
                location: Cities::Atlanta,
                role,
            }),
    {
        Self { name: name.to_owned(), hand: Vec::new(), location: Cities::Atlanta, role }
    }

    /// Takes `card` into the hand, at its place in the order of the hand.
    pub fn add_to_hand(&mut self, card: PlayerCard)
        ensures
            final(self)@ == (PlayerView { hand: inserted(old(self)@.hand, card), ..old(self)@ }),
            sorted(old(self)@.hand),
            sorted(final(self)@.hand),
    {
        proof {
            use_type_invariant(&*self);
        }
        let key = card.key();
        let mut i = self.hand.len();
        assert(self.hand@.take(i as int) =~= self.hand@);
        while i > 0 && self.hand[i - 1].key() > key
            invariant
                i <= self.hand.len(),
                *self == *old(self),
                key == sort_key(card),
                slot_for(self.hand@, card) == slot_for(self.hand@.take(i as int), card),
            decreases i,
        {
            assert(self.hand@.take(i as int).drop_last() =~= self.hand@.take(i as int - 1));
            i -= 1;
        }
        proof {
            assert(self.hand@.take(self.hand.len() as int) =~= self.hand@);
            lemma_inserted_sorted(self.hand@, card);
        }
        let mut hand = self.hand.clone();
        hand.insert(i, card);
        self.set_hand(hand);
    }

    /// The largest population on a city card of the hand, 0 where the hand
    /// has none.
    pub fn max_population_city(&self) -> (max: u32)
        ensures
            max == max_population(self@.hand),
    {
        let mut max: u32 = 0;
        let mut i: usize = 0;
        while i < self.hand.len()
            invariant
                i <= self.hand.len(),
                max == max_population(self.hand@.take(i as int)),
            decreases self.hand.len() - i,
        {
            assert(self.hand@.take(i as int + 1).drop_last() =~= self.hand@.take(i as int));
            match &self.hand[i] {
                PlayerCard::CityCard(card) => {
                    if card.population > max {
                        max = card.population;
                    }
                },
                _ => {},
            }
            i += 1;
        }
        assert(self.hand@.take(self.hand.len() as int) =~= self.hand@);
        max
    }

    /// The player's name.
    pub fn name(&self) -> (name: &str)
        ensures
            name@ == self@.name,
    {
        self.name.as_str()
    }

    /// The player's role.
    pub fn role(&self) -> (role: Role)
        ensures
            role == self@.role,
    {
        self.role
    }

    /// The city where the player's pawn stands.
    pub fn location(&self) -> (city: Cities)
        ensures
            city == self@.location,
    {
        self.location
    }

    /// The cards of the hand, in the order in which the player holds them.
    pub fn hand(&self) -> (cards: &Vec<PlayerCard>)
        ensures
            cards@ == self@.hand,
            sorted(cards@),
    {
        proof {
            use_type_invariant(self);
        }
        &self.hand
    }

    /// What the menu of actions shows, action by action.
    pub fn actions(&self) -> (actions: Vec<String>)
        ensures
            actions.len() == ACTION_COUNT,
            forall|i: int| 0 <= i < ACTION_COUNT ==> (#[trigger] actions[i])@ == ACTIONS[i]@,
    {
        let mut actions: Vec<String> = Vec::new();
        let mut i: usize = 0;
        while i < ACTION_COUNT
            invariant
                i <= ACTION_COUNT,
                actions.len() == i,
                forall|k: int| 0 <= k < i ==> (#[trigger] actions[k])@ == ACTIONS[k]@,
            decreases ACTION_COUNT - i,
        {
            actions.push(ACTIONS[i].to_owned());
            i += 1;
        }
        actions
    }

    /// Whether the hand holds the card of `city`.
    pub fn holds_card_of(&self, city: Cities) -> (yes: bool)
        ensures
            yes == (cards_of(self@.hand, city).len() > 0),
    {
        let mut i: usize = 0;
        proof {
            reveal(Seq::filter);
        }
        while i < self.hand.len()
            invariant
                i <= self.hand.len(),
                cards_of(self.hand@.take(i as int), city).len() == 0,
            decreases self.hand.len() - i,
        {
            proof {
                reveal(Seq::filter);
            }
            assert(self.hand@.take(i as int + 1).drop_last() =~= self.hand@.take(i as int));
            if self.hand[i].is_card_of(city) {
                proof {
                    let rest = self.hand@.skip(i as int + 1);
                    assert(self.hand@ =~= self.hand@.take(i as int + 1) + rest);
                    Seq::filter_distributes_over_add(
                        self.hand@.take(i as int + 1),
                        rest,
                        |card: PlayerCard| card.names(city),
                    );
                }
                return true;
            }
            i += 1;
        }
        assert(self.hand@.take(self.hand.len() as int) =~= self.hand@);
        false
    }

    /// Takes the first `card` out of the hand and says whether there was one.
    pub fn take_card(&mut self, card: PlayerCard) -> (found: bool)
        ensures
            found == old(self)@.hand.contains(card),
            final(self)@ == (PlayerView { hand: without(old(self)@.hand, card), ..old(self)@ }),
            sorted(old(self)@.hand),
            sorted(final(self)@.hand),
    {
        proof {
            use_type_invariant(&*self);
            lemma_without_sorted(self.hand@, card);
        }
        let mut i: usize = 0;
        while i < self.hand.len()
            invariant
                i <= self.hand.len(),
                *self == *old(self),
                sorted(self.hand@),
                sorted(without(self.hand@, card)),
                forall|k: int| 0 <= k < i ==> self.hand[k] != card,
            decreases self.hand.len() - i,
        {
            if self.hand[i] == card {
                proof {
                    lemma_first_position(self.hand@, card, i as int);
                }
                let mut hand = self.hand.clone();
                hand.remove(i);
                self.set_hand(hand);
                return true;
            }
            i += 1;
        }
        proof {
            lemma_first_position(self.hand@, card, i as int);
        }
        false
    }

    /// Moves every card of the hand that names `city` to the top of the
    /// player discard pile, in the order of the hand.
    pub fn discard_cards_of(&mut self, board: &mut Board, city: Cities)
        requires
            old(board).wf(),
        ensures
            final(board).wf(),
            final(self)@ == (PlayerView {
                hand: cards_beside(old(self)@.hand, city),
                ..old(self)@
            }),
            final(board)@ == (BoardView {
                player_discard: old(board)@.player_discard + cards_of(old(self)@.hand, city),
                ..old(board)@
            }),
    {
        let mut kept: Vec<PlayerCard> = Vec::new();
        let mut i: usize = 0;
        proof {
            use_type_invariant(&*self);
            lemma_cards_of_sorted(self.hand@, city);
            reveal(Seq::filter);
        }
        assert(old(board)@.player_discard + Seq::<PlayerCard>::empty() =~= old(
            board,
        )@.player_discard);
        while i < self.hand.len()
            invariant
                i <= self.hand.len(),
                self@ == old(self)@,
                board.wf(),
                kept@ == cards_beside(self.hand@.take(i as int), city),
                board@ == (BoardView {
                    player_discard: old(board)@.player_discard + cards_of(
                        self.hand@.take(i as int),
                        city,
                    ),
                    ..old(board)@
                }),
            decreases self.hand.len() - i,
        {
            proof {
                reveal(Seq::filter);
            }
            assert(self.hand@.take(i as int + 1).drop_last() =~= self.hand@.take(i as int));
            let card = self.hand[i];
            if card.is_card_of(city) {
                board.discard_player_card(card);
                assert(board@.player_discard =~= old(board)@.player_discard + cards_of(
                    self.hand@.take(i as int + 1),
                    city,
                ));
            } else {
                kept.push(card);
            }
            i += 1;
        }
        assert(self.hand@.take(self.hand.len() as int) =~= self.hand@);
        self.set_hand(kept);
    }

    /// Sets the pawn down in `city`. A medic takes the cubes of every cured
    /// disease from the city.
    fn move_to(&mut self, board: &mut Board, city: Cities)
        requires
            old(board).wf(),
        ensures
            final(board).wf(),
            final(self)@ == (PlayerView { location: city, ..old(self)@ }),
            final(board)@ == arrival(old(board)@, old(self)@.role, city),
    {
        proof {
            use_type_invariant(&*self);
        }
        self.location = city;
        if self.role.is_medic() {
            board.clear_cured(city);
        }
    }

    /// Drive or ferry to `destination`. The action is used if the map links
    /// the city with the one where the pawn stands; else nothing changes.
    pub fn drive_ferry(&mut self, board: &mut Board, destination: Cities) -> (consumed: bool)
        requires
            old(board).wf(),
        ensures
            final(board).wf(),
            (consumed, final(self)@, final(board)@) == drive_ferry_outcome(
                old(self)@,
                old(board)@,
                destination,
            ),
    {
        if board.is_adjacent(self.location, destination) {
            self.move_to(board, destination);
            true
        } else {
            false
        }
    }

    /// Fly to `destination` for the card of that city. The action is used if
    /// the hand holds the card; else nothing changes.
    pub fn direct_flight(&mut self, board: &mut Board, destination: Cities) -> (consumed: bool)
        requires
            old(board).wf(),
        ensures
            final(board).wf(),
            (consumed, final(self)@, final(board)@) == direct_flight_outcome(
                old(self)@,
                old(board)@,
                destination,
            ),
    {
        if self.holds_card_of(destination) {
            self.discard_cards_of(board, destination);
            self.move_to(board, destination);
            true
        } else {
            false
        }
    }

    /// Fly to `destination` for the card of the city where the pawn stands.
    /// The action is used if the hand holds that card; else nothing changes.
    pub fn chartered_flight(&mut self, board: &mut Board, destination: Cities) -> (consumed: bool)
        requires
            old(board).wf(),
        ensures
            final(board).wf(),
            (consumed, final(self)@, final(board)@) == chartered_flight_outcome(
                old(self)@,
                old(board)@,
                destination,
            ),
    {
        if self.holds_card_of(self.location) {
            self.discard_cards_of(board, self.location);
            self.move_to(board, destination);
            true
        } else {
            false
        }
    }

    /// Fly from one research station to another. The action is used if both
    /// cities have a station; else nothing changes.
    pub fn shuttle_flight(&mut self, board: &mut Board, destination: Cities) -> (consumed: bool)
        requires
            old(board).wf(),
        ensures
            final(board).wf(),
            (consumed, final(self)@, final(board)@) == shuttle_flight_outcome(
                old(self)@,
                old(board)@,
                destination,
            ),
    {
        if board.has_research_station(self.location) && board.has_research_station(destination) {
            self.move_to(board, destination);
            true
        } else {
            false
        }
    }

    /// Build a research station where the pawn stands. Where all six
    /// stations stand already, `removed` names the one to take away first.
    /// The action is used if the player can build; else nothing changes.
    pub fn build_research_station(&mut self, board: &mut Board, removed: Option<Cities>) -> (consumed:
        bool)
        requires
            old(board).wf(),
        ensures
            final(board).wf(),
            (consumed, final(self)@, final(board)@) == build_outcome(
                old(self)@,
                old(board)@,
                removed,
            ),
    {
        let expert = self.role.is_operations_expert();
        if !expert && !self.holds_card_of(self.location) {
            return false;
        }
        let ghost before = board@;
        let mut notice = Notice::StationBuilt { city: self.location };
        if board.total_research_stations() >= MAX_RESEARCH_STATIONS {
            match removed {
                Some(city) => {
                    if !board.has_research_station(city) {
                        return false;
                    }
                    proof {
                        crate::board::lemma_station_keeps_sound(before, city, false);
                    }
                    board.set_research_station(city, false);
                    notice = Notice::StationMoved { from: city, to: self.location };
                },
                None => {
                    return false;
                },
            }
        }
        if !expert {
            self.discard_cards_of(board, self.location);
        }
        proof {
            crate::board::lemma_station_keeps_sound(board@, self.location, true);
        }
        board.set_research_station(self.location, true);
        board.note(notice);
        true
    }

    /// Treat the disease of `color` where the pawn stands. The action is
    /// used if the city holds a cube of that colour; else nothing changes.
    pub fn treat_disease(&mut self, board: &mut Board, color: Color) -> (consumed: bool)
        requires
            old(board).wf(),
        ensures
            final(board).wf(),
            (consumed, final(self)@, final(board)@) == treat_outcome(
                old(self)@,
                old(board)@,
                color,
            ),
    {
        let held = board.infection_count(self.location, color);
        if held == 0 {
            return false;
        }
        let all = self.role.is_medic() || board.disease_state(color) == DiseaseState::Cured;
        let n = if all {
            held
        } else {
            1
        };
        board.remove_cubes(self.location, color, n);
        true
    }

    /// Number of city cards of `color` in the hand.
    pub fn count_cards_of_color(&self, color: Color) -> (n: usize)
        ensures
            n == count_tinted(self@.hand, color),
    {
        let mut n: usize = 0;
        let mut i: usize = 0;
        while i < self.hand.len()
            invariant
                i <= self.hand.len(),
                n <= i,
                n == count_tinted(self.hand@.take(i as int), color),
            decreases self.hand.len() - i,
        {
            assert(self.hand@.take(i as int + 1).drop_last() =~= self.hand@.take(i as int));
            if self.hand[i].has_color(color) {
                n += 1;
            }
            i += 1;
        }
        assert(self.hand@.take(self.hand.len() as int) =~= self.hand@);
        n
    }

    /// Find the cure of `color`. The action is used if the pawn stands in a
    /// city with a research station, no cure is known and the hand holds
    /// enough city cards of the colour; else nothing changes.
    pub fn discover_cure(&mut self, board: &mut Board, color: Color) -> (consumed: bool)
        requires
            old(board).wf(),
        ensures
            final(board).wf(),
            (consumed, final(self)@, final(board)@) == cure_outcome(
                old(self)@,
                old(board)@,
                color,
            ),
    {
        let needed = if self.role.is_scientist() {
            CARDS_TO_CURE_FOR_SCIENTIST
        } else {
            CARDS_TO_CURE
        };
        if !board.has_research_station(self.location) || board.disease_state(color)
            != DiseaseState::Default || self.count_cards_of_color(color) < needed {
            return false;
        }
        let mut kept: Vec<PlayerCard> = Vec::new();
        let mut seen: usize = 0;
        let mut i: usize = 0;
        proof {
            use_type_invariant(&*self);
            lemma_unpaid_sorted(self.hand@, color, needed as nat);
        }
        assert(old(board)@.player_discard + Seq::<PlayerCard>::empty() =~= old(
            board,
        )@.player_discard);
        while i < self.hand.len()
            invariant
                i <= self.hand.len(),
                *self == *old(self),
                board.wf(),
                seen <= i,
                seen == count_tinted(self.hand@.take(i as int), color),
                kept@ == unpaid(self.hand@.take(i as int), color, needed as nat),
                board@ == with_discards(
                    old(board)@,
                    paid(self.hand@.take(i as int), color, needed as nat),
                ),
            decreases self.hand.len() - i,
        {
            assert(self.hand@.take(i as int + 1).drop_last() =~= self.hand@.take(i as int));
            let card = self.hand[i];
            if card.has_color(color) {
                if seen < needed {
                    board.discard_player_card(card);
                    assert(board@.player_discard =~= old(board)@.player_discard + paid(
                        self.hand@.take(i as int + 1),
                        color,
                        needed as nat,
                    ));
                } else {
                    kept.push(card);
                }
                seen += 1;
            } else {
                kept.push(card);
            }
            i += 1;
        }
        assert(self.hand@.take(self.hand.len() as int) =~= self.hand@);
        self.set_hand(kept);
        board.cure(color);
        true
    }

    /// Takes `action` and says whether it used one of the turn's actions: an
    /// action that cannot be taken changes nothing and uses none.
    pub fn act(&mut self, board: &mut Board, players: &mut Vec<Player>, action: Action) -> (consumed:
        bool)
        requires
            old(board).wf(),
        ensures
            final(board).wf(),
            acted(
                action,
                old(self)@,
                old(board)@,
                views(old(players)@),
                consumed,
                final(self)@,
                final(board)@,
                views(final(players)@),
            ),
            final(self)@.hand.to_multiset().add(hands(views(final(players)@))).add(
                final(board)@.player_discard.to_multiset(),
            ) == old(self)@.hand.to_multiset().add(hands(views(old(players)@))).add(
                old(board)@.player_discard.to_multiset(),
            ),
            final(board)@.player_deck == old(board)@.player_deck,
            sorted(final(self)@.hand),
    {
        let consumed = match action {
            Action::Pass => true,
            Action::DriveFerry(destination) => self.drive_ferry(board, destination),
            Action::DirectFlight(destination) => self.direct_flight(board, destination),
            Action::CharterFlight(destination) => self.chartered_flight(board, destination),
            Action::ShuttleFlight(destination) => self.shuttle_flight(board, destination),
            Action::BuildResearchStation(removed) => self.build_research_station(board, removed),
            Action::TreatDisease(color) => self.treat_disease(board, color),
            Action::ShareKnowledge { partner, give, card } => self.share_knowledge(
                players,
                partner,
                give,
                card,
            ),
            Action::DiscoverCure(color) => self.discover_cure(board, color),
        };
        proof {
            use_type_invariant(&*self);
            lemma_acted_effects(
                action,
                old(self)@,
                old(board)@,
                views(old(players)@),
                consumed,
                self@,
                board@,
                views(players@),
            );
            if !(action is ShareKnowledge) {
                lemma_kept_among_all(
                    old(self)@,
                    old(board)@,
                    self@,
                    board@,
                    views(old(players)@),
                );
            }
        }
        consumed
    }

    /// Play the event card of `event`: it goes from the hand to the player
    /// discard pile. The card is played if the hand holds it; else nothing
    /// changes.
    pub fn play_event(&mut self, board: &mut Board, event: Event) -> (played: bool)
        requires
            old(board).wf(),
        ensures
            final(board).wf(),
            (played, final(self)@, final(board)@) == event_outcome(old(self)@, old(board)@, event),
    {
        let card = PlayerCard::EventCard(event);
        if self.take_card(card) {
            board.discard_player_card(card);
            assert(board@.player_discard =~= old(board)@.player_discard + seq![card]);
            true
        } else {
            false
        }
    }

    /// Whether the hand holds `card`.
    pub fn holds(&self, card: PlayerCard) -> (yes: bool)
        ensures
            yes == self@.hand.contains(card),
    {
        let mut i: usize = 0;
        while i < self.hand.len()
            invariant
                i <= self.hand.len(),
                forall|k: int| 0 <= k < i ==> self.hand[k] != card,
            decreases self.hand.len() - i,
        {
            if self.hand[i] == card {
                return true;
            }
            i += 1;
        }
        false
    }

    /// Whether the player may hand `card` to `taker`.
    pub fn may_hand_over(&self, taker: &Player, card: PlayerCard) -> (yes: bool)
        ensures
            yes == can_hand_over(self@, taker@, card),
            sorted(self@.hand),
            sorted(taker@.hand),
    {
        proof {
            use_type_invariant(self);
            use_type_invariant(taker);
        }
        let fits = match card {
            PlayerCard::CityCard(city) => self.role.is_researcher() || city.city == self.location,
            _ => false,
        };
        self.location == taker.location && fits && self.holds(card)
    }

    /// Share knowledge with the player at position `partner` of `players`:
    /// `card` goes to that player if `give` is set, and comes from that
    /// player if not. The action is used if there is such a player and the
    /// card may change hands; else nothing changes.
    pub fn share_knowledge(
        &mut self,
        players: &mut Vec<Player>,
        partner: usize,
        give: bool,
        card: PlayerCard,
    ) -> (consumed: bool)
        ensures
            shared(
                old(self)@,
                views(old(players)@),
                partner,
                give,
                card,
                consumed,
                final(self)@,
                views(final(players)@),
            ),
            final(self)@.hand.to_multiset().add(hands(views(final(players)@))) == old(
                self,
            )@.hand.to_multiset().add(hands(views(old(players)@))),
            sorted(final(self)@.hand),
            partner < old(players).len() ==> sorted(final(players)[partner as int]@.hand),
    {
        proof {
            use_type_invariant(&*self);
        }
        if partner >= players.len() {
            assert(views(players@) =~= views(old(players)@));
            return false;
        }
        let ghost seats = players@;
        assert(views(seats)[partner as int] == seats[partner as int]@);
        let consumed = if give {
            if self.may_hand_over(&players[partner], card) {
                transfer(card, self, &mut players[partner])
            } else {
                false
            }
        } else {
            if players[partner].may_hand_over(self, card) {
                transfer(card, &mut players[partner], self)
            } else {
                false
            }
        };
        assert(views(players@) =~= views(seats).update(partner as int, players[partner as int]@));
        proof {
            lemma_shared_keeps_cards(
                old(self)@,
                views(seats),
                partner,
                give,
                card,
                consumed,
                self@,
                views(players@),
            );
        }
        consumed
    }
}

/// Puts the players in the order of play: the player with the largest city
/// in hand begins.
pub fn order_players(players: Vec<Player>) -> (order: Vec<Player>)
    ensures
        views(order@) == ranked(views(players@)),
{
    let ghost all = views(players@);
    let mut waiting = players;
    let mut order: Vec<Player> = Vec::new();
    let ghost mut seated: int = 0;
    assert(views(order@) =~= ranked(all.take(0)));
    assert(views(waiting@) =~= all.skip(0));
    while waiting.len() > 0
        invariant
            0 <= seated <= all.len(),
            views(waiting@) == all.skip(seated),
            views(order@) == ranked(all.take(seated)),
        decreases waiting.len(),
    {
        let ghost before = order@;
        let ghost line = waiting@;
        proof {
            assert(views(line).len() == line.len());
            assert(views(line)[0] == line[0]@);
            assert(all.skip(seated)[0] == all[seated]);
        }
        let player = waiting.remove(0);
        let key = player.max_population_city();
        let mut i = order.len();
        assert(views(order@).take(i as int) =~= views(order@));
        while i > 0 && order[i - 1].max_population_city() <= key
            invariant
                i <= order.len(),
                key == max_population(player@.hand),
                seat_for(views(order@), player@) == seat_for(views(order@).take(i as int), player@),
            decreases i,
        {
            assert(views(order@).take(i as int).drop_last() =~= views(order@).take(i as int - 1));
            i -= 1;
        }
        order.insert(i, player);
        proof {
            assert(player@ == all[seated]);
            assert(all.take(seated + 1).drop_last() =~= all.take(seated));
            assert(views(order@) =~= views(before).insert(i as int, player@));
            assert(waiting@ =~= line.remove(0));
            assert forall|k: int| 0 <= k < waiting.len() implies views(waiting@)[k] == all.skip(
                seated + 1,
            )[k] by {
                assert(waiting@[k] == line[k + 1]);
                assert(views(line)[k + 1] == line[k + 1]@);
                assert(all.skip(seated)[k + 1] == all[seated + k + 1]);
            }
            assert(views(waiting@) =~= all.skip(seated + 1));
            seated = seated + 1;
        }
    }
    assert(all.take(all.len() as int) =~= all);
    order
}

/// Moves the first `card` of the hand of `from` to the hand of `to`, and says
/// whether there was one.
pub fn transfer(card: PlayerCard, from: &mut Player, to: &mut Player) -> (moved: bool)
    ensures
        moved == old(from)@.hand.contains(card),
        moved ==> final(from)@ == (PlayerView { hand: without(old(from)@.hand, card), ..old(from)@ })
            && final(to)@ == (PlayerView { hand: inserted(old(to)@.hand, card), ..old(to)@ }),
        !moved ==> final(from)@ == old(from)@ && final(to)@ == old(to)@,
        final(from)@.hand.to_multiset().add(final(to)@.hand.to_multiset()) == old(
            from,
        )@.hand.to_multiset().add(old(to)@.hand.to_multiset()),
        sorted(final(from)@.hand),
        sorted(final(to)@.hand),
{
    proof {
        use_type_invariant(&*to);
        if from@.hand.contains(card) {
            lemma_without_holds(from@.hand, card);
            lemma_inserted_holds(to@.hand, card);
            vstd::seq_lib::to_multiset_contains(from@.hand, card);
            assert(without(from@.hand, card).to_multiset().add(
                inserted(to@.hand, card).to_multiset(),
            ) =~= from@.hand.to_multiset().add(to@.hand.to_multiset()));
        }
    }
    if from.take_card(card) {
        to.add_to_hand(card);
        true
    } else {
        false
    }
}

} // verus!

use vstd::multiset::Multiset;
use vstd::prelude::*;
use crate::board::{
    epidemic_outcome, first_infection, infect_cities, lemma_epidemic_keeps,
    lemma_first_infection_keeps, lemma_infect_cities_keeps, lemma_initial_is_sound, Board,
    BoardView, INFECTION_RATE, MAX_OUTBREAKS,
};
use crate::chance::Dice;
use crate::deck::take_from_top;
use crate::infection_card::{fresh_infection_deck, infection_card, InfectionCard};
use crate::map::{
    lemma_listing_complete, lemma_listing_slot_inverse, listing_slot, Cities, CITY_COUNT,
};
use crate::notice::Notice;
use crate::player::{
    act_outcome, by_population, event_outcome, hands, hands_sorted, inserted,
    lemma_acted_effects, lemma_acted_keeps_order, lemma_event_keeps_cards, lemma_hands_insert,
    lemma_hands_update, lemma_inserted_holds, lemma_inserted_sorted, lemma_ranked,
    lemma_without_holds, lemma_without_sorted, order_players, ranked, sorted, usable, views,
    without, Action, Player, PlayerView, MAX_CARDS_IN_HAND,
};
use crate::player_card::{
    epidemic_cards, fresh_player_deck, lemma_epidemic_pile, seeded, Event, PlayerCard,
    EVENT_COUNT,
};
use crate::role::Role;

verus! {

/// Number of actions that a player takes in a turn.
pub const ACTIONS_PER_TURN: u8 = 4;

/// The smallest number of players.
pub const MIN_PLAYERS: usize = 2;

/// The largest number of players.
pub const MAX_PLAYERS: usize = 4;

/// The smallest number of epidemic cards: the introductory game.
pub const MIN_EPIDEMICS: u8 = 4;

/// The largest number of epidemic cards: the heroic game.
pub const MAX_EPIDEMICS: u8 = 6;

/// Number of cards that a player would get in a game of no players: each
/// player gets as many cards as there are players fewer than this.
pub const HAND_BASE: usize = 6;

/// Where a game stands.
#[derive(Clone, Copy, Debug, PartialEq, Eq, Structural)]
pub enum Phase {
    /// The players and the difficulty are being chosen.
    Setup,
    /// The player whose turn it is takes actions.
    Act,
    /// The player whose turn it is may play events and then draws two cards.
    Draw,
    /// Hands of more than seven cards are brought down.
    Discard,
    /// Cities are infected.
    Infect,
    /// The game has ended.
    Over,
}

/// How a game has ended.
#[derive(Clone, Copy, Debug, PartialEq, Eq, Structural)]
pub enum Ending {
    /// A cure is known for all four diseases.
    Won,
    /// The outbreak marker has passed its last position.
    Outbreaks,
    /// A cube was needed of a colour that has all its cubes on the board.
    Supply,
    /// A player card was needed and the player deck was empty.
    TimeOut,
}

/// Why a command was not carried out. A command that is refused changes
/// nothing.
#[derive(Clone, Copy, Debug, PartialEq, Eq, Structural)]
pub enum Refusal {
    /// The game is not in the phase for the command, or the rules do not
    /// allow what it asks for.
    PreconditionUnmet,
    /// The game has ended.
    GameOver,
}

/// A game as plain values.
pub struct GameView {
    pub board: BoardView,
    pub players: Seq<PlayerView>,
    pub removed: Seq<PlayerCard>,
    pub turn: nat,
    pub actions_used: nat,
    pub phase: Phase,
    pub ending: Option<Ending>,
    pub difficulty: nat,
}

/// How a game is lost on a board on which an infection has failed.
pub open spec fn loss(board: BoardView) -> Ending {
    if board.outbreaks > MAX_OUTBREAKS {
        Ending::Outbreaks
    } else {
        Ending::Supply
    }
}

/// Whether one of the players holds more cards than a hand may have.
pub open spec fn over_limit(players: Seq<PlayerView>) -> bool {
    exists|i: int| 0 <= i < players.len() && (#[trigger] players[i]).hand.len() > MAX_CARDS_IN_HAND
}

/// The phase after the cards were drawn or a hand was brought down.
pub open spec fn after_draw(players: Seq<PlayerView>) -> Phase {
    if over_limit(players) {
        Phase::Discard
    } else {
        Phase::Infect
    }
}

impl GameView {
    /// All the player cards of the game: those in the player deck, on its
    /// discard pile, out of the game and in the hands.
    pub open spec fn player_cards(self) -> Multiset<PlayerCard> {
        self.board.player_deck.to_multiset().add(self.board.player_discard.to_multiset()).add(
            self.removed.to_multiset(),
        ).add(hands(self.players))
    }

    /// All the infection cards of the game: those in the infection deck and
    /// on its discard pile.
    pub open spec fn infection_cards(self) -> Multiset<InfectionCard> {
        self.board.infection_deck.to_multiset().add(self.board.infection_discard.to_multiset())
    }

    /// No card has come into the game or left it: the player cards are those
    /// of the fresh deck and the epidemic cards of the chosen difficulty, the
    /// infection cards those of the fresh deck.
    pub open spec fn cards_conserved(self) -> bool {
        &&& self.player_cards() == fresh_player_deck().to_multiset().add(
            epidemic_cards(self.board.max_epidemics),
        )
        &&& self.infection_cards() == fresh_infection_deck().to_multiset()
    }

    /// The cards out of the game are the epidemic cards that were drawn.
    pub open spec fn epidemics_counted(self) -> bool {
        &&& self.removed.len() == self.board.epidemics
        &&& forall|i: int| 0 <= i < self.removed.len() ==> self.removed[i] == PlayerCard::EpidemicCard
    }

    /// While players take turns there are two to four of them, and one of
    /// them has the turn.
    pub open spec fn seated(self) -> bool {
        self.phase != Phase::Setup && self.phase != Phase::Over ==> MIN_PLAYERS <= self.players.len()
            && self.turn < self.players.len()
    }

    /// What holds of a game at any time.
    pub open spec fn sound(self) -> bool {
        &&& self.board.sound()
        &&& self.phase != Phase::Over ==> self.board.in_play()
        &&& (self.phase == Phase::Over) == (self.ending is Some)
        &&& self.players.len() <= MAX_PLAYERS
        &&& self.seated()
        &&& self.actions_used <= ACTIONS_PER_TURN
        &&& self.phase == Phase::Act ==> self.actions_used < ACTIONS_PER_TURN
        &&& self.phase == Phase::Infect ==> !over_limit(self.players)
        &&& hands_sorted(self.players)
        &&& self.cards_conserved()
        &&& self.epidemics_counted()
        &&& self.phase == Phase::Setup ==> {
            &&& hands(self.players) == Multiset::<PlayerCard>::empty()
            &&& self.board == BoardView::initial()
            &&& self.removed == Seq::<PlayerCard>::empty()
        }
    }

    /// A game before anything was chosen.
    pub open spec fn initial() -> GameView {
        GameView {
            board: BoardView::initial(),
            players: Seq::empty(),
            removed: Seq::empty(),
            turn: 0,
            actions_used: 0,
            phase: Phase::Setup,
            ending: None,
            difficulty: 0,
        }
    }

    /// The game after it has ended in `ending`.
    pub open spec fn ended(self, ending: Ending) -> GameView {
        GameView {
            board: self.board.noted(Notice::GameOver { reason: ending }),
            phase: Phase::Over,
            ending: Some(ending),
            ..self
        }
    }

    /// The player whose turn it is.
    pub open spec fn active(self) -> PlayerView {
        self.players[self.turn as int]
    }

    /// The players whose turn it is not, in their order.
    pub open spec fn others(self) -> Seq<PlayerView> {
        self.players.remove(self.turn as int)
    }

    /// The position of the player who has the next turn.
    pub open spec fn next_turn(self) -> nat {
        if self.turn + 1 < self.players.len() {
            self.turn + 1
        } else {
            0
        }
    }
}

/// What a command answers: that the game is over; or that it was carried
/// out, where the rules allow it; or that they do not.
pub open spec fn answer(game: GameView, allowed: bool) -> Result<(), Refusal> {
    if game.phase == Phase::Over {
        Err(Refusal::GameOver)
    } else if allowed {
        Ok(())
    } else {
        Err(Refusal::PreconditionUnmet)
    }
}

/// Whether `seats` players can be chosen: before the start, two to four.
pub open spec fn may_seat(game: GameView, seats: nat) -> bool {
    game.phase == Phase::Setup && MIN_PLAYERS <= seats <= MAX_PLAYERS
}

/// Whether `epidemics` epidemic cards can be chosen: before the start, four
/// to six.
pub open spec fn may_choose(game: GameView, epidemics: nat) -> bool {
    game.phase == Phase::Setup && MIN_EPIDEMICS <= epidemics <= MAX_EPIDEMICS
}

/// Whether the game can start: once, with players and a difficulty chosen.
pub open spec fn may_start(game: GameView) -> bool {
    game.phase == Phase::Setup && game.players.len() >= MIN_PLAYERS && game.difficulty != 0
}

/// Whether the player whose turn it is can take `action`: while actions are
/// taken, an action that the rules allow.
pub open spec fn may_act(game: GameView, action: Action) -> bool {
    game.phase == Phase::Act && usable(action, game.active(), game.board, game.others())
}

/// Whether the player whose turn it is can play `event`: before the cards
/// are drawn or while hands are brought down, with the card in hand.
pub open spec fn may_play(game: GameView, event: Event) -> bool {
    (game.phase == Phase::Draw || game.phase == Phase::Discard) && game.active().hand.contains(
        PlayerCard::EventCard(event),
    )
}

/// Whether the player at `seat` can discard `card`: while hands are brought
/// down, a card of a hand of more than seven cards.
pub open spec fn may_discard(game: GameView, seat: int, card: PlayerCard) -> bool {
    &&& game.phase == Phase::Discard
    &&& 0 <= seat < game.players.len()
    &&& game.players[seat].hand.len() > MAX_CARDS_IN_HAND
    &&& game.players[seat].hand.contains(card)
}

/// Number of cards in each hand.
pub open spec fn hand_sizes(players: Seq<PlayerView>) -> Seq<nat> {
    players.map_values(|player: PlayerView| player.hand.len())
}

/// What the game tells of the hands of the first `seats` players: that the
/// hand has changed, for each player whose hand does not have the size that
/// `sizes` gives, in the order of the players.
pub open spec fn hand_notices(sizes: Seq<nat>, players: Seq<PlayerView>, seats: nat) -> Seq<
    Notice,
>
    decreases seats,
{
    if seats == 0 {
        Seq::empty()
    } else {
        let rest = hand_notices(sizes, players, (seats - 1) as nat);
        if players[seats - 1].hand.len() != sizes[seats - 1] {
            rest.push(Notice::HandChanged { player: (seats - 1) as usize })
        } else {
            rest
        }
    }
}

/// The board after it has told `notices`.
pub open spec fn told(board: BoardView, notices: Seq<Notice>) -> BoardView {
    BoardView { notices: board.notices + notices, ..board }
}

/// The board after it has told which hands have changed their size between
/// `before` and `after`.
pub open spec fn hands_told(
    board: BoardView,
    before: Seq<PlayerView>,
    after: Seq<PlayerView>,
) -> BoardView {
    told(board, hand_notices(hand_sizes(before), after, after.len()))
}

/// The game after an action of the player whose turn it is: the action is
/// taken as the rules of the action say; it is counted; a cure that is the
/// fourth wins the game; and after the fourth action the player goes on to
/// draw.
pub open spec fn action_outcome(before: GameView, action: Action) -> GameView {
    let outcome = act_outcome(action, before.active(), before.board, before.others());
    let players = outcome.3.insert(before.turn as int, outcome.1);
    let board = hands_told(outcome.2, before.players, players);
    let played = GameView { board, players, ..before };
    if action is DiscoverCure && outcome.2.all_cured() {
        GameView { actions_used: before.actions_used + 1, ..played }.ended(Ending::Won)
    } else if before.actions_used + 1 == ACTIONS_PER_TURN {
        GameView { actions_used: 0, phase: Phase::Draw, ..played }
    } else {
        GameView { actions_used: before.actions_used + 1, ..played }
    }
}

/// The game after the player at `seat` has discarded `card`.
pub open spec fn discarded(before: GameView, seat: int, card: PlayerCard) -> GameView {
    let players = before.players.update(
        seat,
        PlayerView { hand: without(before.players[seat].hand, card), ..before.players[seat] },
    );
    GameView {
        board: BoardView {
            player_discard: before.board.player_discard.push(card),
            ..before.board
        }.noted(Notice::HandChanged { player: seat as usize }),
        players,
        phase: after_draw(players),
        ..before
    }
}

/// The game after the player whose turn it is has played `event`.
pub open spec fn event_played(before: GameView, event: Event) -> GameView {
    let outcome = event_outcome(before.active(), before.board, event);
    let players = before.players.update(before.turn as int, outcome.1);
    GameView {
        board: outcome.2.noted(Notice::HandChanged { player: before.turn as usize }),
        players,
        phase: if before.phase == Phase::Discard {
            after_draw(players)
        } else {
            before.phase
        },
        ..before
    }
}

/// The game after cities were infected at the end of a turn: the next
/// player has the turn, unless an infection has ended the game.
pub open spec fn cities_infected(before: GameView) -> GameView {
    let rate = INFECTION_RATE[before.board.rate_index as int] as nat;
    let struck = infect_cities(before.board, rate);
    if struck.1 {
        GameView {
            board: struck.0.noted(Notice::TurnAdvanced { next: before.next_turn() as usize }),
            turn: before.next_turn(),
            actions_used: 0,
            phase: Phase::Act,
            ..before
        }
    } else {
        GameView { board: struck.0, ..before }.ended(loss(struck.0))
    }
}

/// How drawing one player card ends. With an empty deck the game is lost.
/// An epidemic card goes out of the game and the epidemic is resolved, which
/// may lose the game. Any other card goes to the hand of the player whose
/// turn it is.
pub open spec fn card_drawn(before: GameView, after: GameView) -> bool {
    let drawn = take_from_top(before.board.player_deck);
    let taken = BoardView { player_deck: drawn.1, ..before.board };
    match drawn.0 {
        None => after == before.ended(Ending::TimeOut),
        Some(PlayerCard::EpidemicCard) => epidemic_drawn(before, taken, after),
        Some(card) => after == (GameView {
            board: taken.noted(Notice::HandChanged { player: before.turn as usize }),
            players: before.players.update(
                before.turn as int,
                PlayerView { hand: inserted(before.active().hand, card), ..before.active() },
            ),
            ..before
        }),
    }
}

/// How drawing an epidemic card ends, with `taken` the board without the
/// card: the card is out of the game and the epidemic is resolved; if that
/// ends the game, the game is lost.
pub open spec fn epidemic_drawn(before: GameView, taken: BoardView, after: GameView) -> bool {
    exists|goes_on: bool, struck: BoardView|
        {
            &&& #[trigger] epidemic_outcome(taken, goes_on, struck)
            &&& after == ({
                let spread = GameView {
                    board: struck,
                    removed: before.removed.push(PlayerCard::EpidemicCard),
                    ..before
                };
                if goes_on {
                    spread
                } else {
                    spread.ended(loss(struck))
                }
            })
        }
}

/// How drawing the two player cards of a turn ends: one card is drawn, and,
/// unless that has ended the game, a second one; the game then goes on to
/// bring hands down or, where no hand is over the limit, to infect cities.
pub open spec fn cards_drawn(before: GameView, after: GameView) -> bool {
    exists|first: GameView|
        {
            &&& #[trigger] card_drawn(before, first)
            &&& if first.phase == Phase::Over {
                after == first
            } else {
                second_card_drawn(first, after)
            }
        }
}

/// How drawing the second player card of a turn ends.
pub open spec fn second_card_drawn(first: GameView, after: GameView) -> bool {
    exists|second: GameView|
        {
            &&& #[trigger] card_drawn(first, second)
            &&& after == if second.phase == Phase::Over {
                second
            } else {
                GameView { phase: after_draw(second.players), ..second }
            }
        }
}

/// Number of player cards before the game: the city cards and the events.
pub open spec fn fresh_cards() -> nat {
    (CITY_COUNT + EVENT_COUNT) as nat
}

/// How the start of a game ends: both decks are shuffled; each player gets
/// as many cards as there are players fewer than six; the epidemic cards go
/// into what is left of the player deck, one into each chunk; the players
/// sit in the order of play; the hands are told; and nine cities are
/// infected. The first player then acts, unless the first infection has
/// ended the game.
pub open spec fn started(before: GameView, after: GameView) -> bool {
    let n = before.players.len();
    &&& after.players.len() == n
    &&& after.turn == 0
    &&& after.actions_used == 0
    &&& after.removed == before.removed
    &&& after.difficulty == before.difficulty
    &&& after.phase == Phase::Act || after.phase == Phase::Over
    &&& by_population(after.players)
    &&& forall|i: int| 0 <= i < n ==> (#[trigger] after.players[i]).hand.len() == HAND_BASE - n
    &&& after.board.player_deck.len() == fresh_cards() - n * (HAND_BASE - n) + before.difficulty
    &&& exists|dealt: Seq<PlayerView>, prepared: BoardView, left: Seq<PlayerCard>|
        {
            &&& dealt.len() == n
            &&& left.to_multiset().add(hands(dealt)) == before.board.player_deck.to_multiset()
            &&& #[trigger] seeded(left, before.difficulty, prepared.player_deck)
            &&& forall|i: int|
                0 <= i < n ==> {
                    &&& (#[trigger] dealt[i]).name == before.players[i].name
                    &&& dealt[i].role == before.players[i].role
                    &&& dealt[i].location == before.players[i].location
                }
            &&& after.players == #[trigger] ranked(dealt)
            &&& prepared == (BoardView {
                player_deck: prepared.player_deck,
                infection_deck: prepared.infection_deck,
                max_epidemics: before.difficulty,
                notices: hands_told(before.board, before.players, after.players).notices,
                ..before.board
            })
            &&& prepared.infection_deck.to_multiset() == before.board.infection_deck.to_multiset()
            &&& first_infected(#[trigger] first_infection(prepared), after)
        }
}

/// The game stands as the first infection, which ended in `outcome`, has
/// left it: the first player acts, or the game is lost.
pub open spec fn first_infected(outcome: (BoardView, bool), after: GameView) -> bool {
    if outcome.1 {
        &&& after.board == outcome.0
        &&& after.phase == Phase::Act
        &&& after.ending is None
    } else {
        &&& after.board == outcome.0.noted(Notice::GameOver { reason: loss(outcome.0) })
        &&& after.phase == Phase::Over
        &&& after.ending == Some(loss(outcome.0))
    }
}

/// The fresh decks hold no card twice, and the infection deck holds the card
/// of every city.
pub proof fn lemma_fresh_decks_are_sets()
    ensures
        fresh_player_deck().no_duplicates(),
        fresh_infection_deck().no_duplicates(),
        forall|city: Cities| #[trigger]
            fresh_infection_deck().contains(infection_card(city)),
{
    let players = fresh_player_deck();
    assert forall|i: int, j: int| 0 <= i < players.len() && 0 <= j < players.len() && i
        != j implies players[i] != players[j] by {
        if i < CITY_COUNT && j < CITY_COUNT {
            lemma_listing_slot_inverse(i);
            lemma_listing_slot_inverse(j);
        }
    }
    let infections = fresh_infection_deck();
    assert forall|i: int, j: int| 0 <= i < infections.len() && 0 <= j < infections.len() && i
        != j implies infections[i] != infections[j] by {
        lemma_listing_slot_inverse(i);
        lemma_listing_slot_inverse(j);
    }
    assert forall|city: Cities| #[trigger]
        infections.contains(infection_card(city)) by {
        lemma_listing_complete(city);
        assert(infections[listing_slot(city)]
            == infection_card(city));
    }
}

/// In a sound game no player card but the epidemic card is there twice,
/// wherever it is: in the deck, on the discard pile, in a hand or out of
/// the game.
pub proof fn lemma_player_card_once(game: GameView, card: PlayerCard)
    requires
        game.sound(),
        card != PlayerCard::EpidemicCard,
    ensures
        game.player_cards().count(card) <= 1,
{
    lemma_fresh_decks_are_sets();
    fresh_player_deck().lemma_multiset_has_no_duplicates();
    lemma_epidemic_pile(game.board.max_epidemics, card);
    vstd::seq_lib::to_multiset_contains(fresh_player_deck(), card);
}

/// In a sound game the infection card of each city is there once: in the
/// infection deck or on its discard pile.
pub proof fn lemma_infection_card_once(game: GameView, city: Cities)
    requires
        game.sound(),
    ensures
        game.infection_cards().count(infection_card(city)) == 1,
{
    lemma_fresh_decks_are_sets();
    fresh_infection_deck().lemma_multiset_has_no_duplicates();
    vstd::seq_lib::to_multiset_contains(
        fresh_infection_deck(),
        infection_card(city),
    );
    assert(fresh_infection_deck().contains(infection_card(city)));
}

/// The fresh player deck holds no epidemic card.
pub proof fn lemma_fresh_deck_has_no_epidemic()
    ensures
        fresh_player_deck().to_multiset().count(PlayerCard::EpidemicCard) == 0,
        fresh_player_deck().len() == fresh_cards(),
{
    vstd::seq_lib::to_multiset_contains(fresh_player_deck(), PlayerCard::EpidemicCard);
    if fresh_player_deck().contains(PlayerCard::EpidemicCard) {
        let i = choose|i: int|
            0 <= i < fresh_player_deck().len() && fresh_player_deck()[i]
                == PlayerCard::EpidemicCard;
        assert(fresh_player_deck()[i] != PlayerCard::EpidemicCard);
    }
}

/// A pile of epidemic cards holds as many epidemic cards as it has cards.
pub proof fn lemma_all_epidemic(pile: Seq<PlayerCard>)
    requires
        forall|i: int| 0 <= i < pile.len() ==> pile[i] == PlayerCard::EpidemicCard,
    ensures
        pile.to_multiset().count(PlayerCard::EpidemicCard) == pile.len(),
    decreases pile.len(),
{
    broadcast use vstd::seq_lib::group_to_multiset_ensures;

    if pile.len() > 0 {
        lemma_all_epidemic(pile.drop_last());
        assert(pile =~= pile.drop_last().push(pile.last()));
    }
}

/// While an epidemic card is in the player deck, fewer epidemics have been
/// drawn than the game has epidemic cards.
pub proof fn lemma_epidemics_left(game: GameView)
    requires
        game.cards_conserved(),
        game.epidemics_counted(),
        game.board.player_deck.contains(PlayerCard::EpidemicCard),
    ensures
        game.board.epidemics < game.board.max_epidemics,
{
    let card = PlayerCard::EpidemicCard;
    lemma_epidemic_pile(game.board.max_epidemics, PlayerCard::EpidemicCard);
    lemma_fresh_deck_has_no_epidemic();
    lemma_all_epidemic(game.removed);
    vstd::seq_lib::to_multiset_contains(game.board.player_deck, card);
    assert(game.player_cards().count(card) >= game.board.player_deck.to_multiset().count(card)
        + game.removed.to_multiset().count(card));
}

/// The hands hold no card where no player holds one.
pub proof fn lemma_no_hands(players: Seq<PlayerView>)
    requires
        forall|i: int| 0 <= i < players.len() ==> (#[trigger] players[i]).hand.len() == 0,
    ensures
        hands(players) == Multiset::<PlayerCard>::empty(),
    decreases players.len(),
{
    if players.len() > 0 {
        let rest = players.drop_last();
        assert forall|i: int| 0 <= i < rest.len() implies (#[trigger] rest[i]).hand.len() == 0 by {
            assert(rest[i] == players[i]);
        }
        lemma_no_hands(rest);
        assert(players.last() == players[players.len() - 1]);
        vstd::seq_lib::to_multiset_len(players.last().hand);
        assert(players.last().hand.to_multiset() =~= Multiset::<PlayerCard>::empty());
        assert(hands(players) =~= Multiset::<PlayerCard>::empty());
    }
}

/// The hands together hold as many cards as the players hold.
pub proof fn lemma_hands_len(players: Seq<PlayerView>)
    ensures
        players.len() == 0 ==> hands(players).len() == 0,
        forall|i: int| 0 <= i < players.len() ==> (#[trigger] players[i]).hand.len() <= hands(
            players,
        ).len(),
    decreases players.len(),
{
    if players.len() > 0 {
        let rest = players.drop_last();
        lemma_hands_len(rest);
        vstd::seq_lib::to_multiset_len(players.last().hand);
        assert forall|i: int| 0 <= i < players.len() implies (#[trigger] players[i]).hand.len()
            <= hands(players).len() by {
            if i < players.len() - 1 {
                assert(rest[i] == players[i]);
            }
        }
    }
}

/// The hands of all players are the hand of one of them and the hands of
/// the others.
pub proof fn lemma_hands_split(players: Seq<PlayerView>, i: int)
    requires
        0 <= i < players.len(),
    ensures
        hands(players) == hands(players.remove(i)).add(players[i].hand.to_multiset()),
{
    lemma_hands_insert(players.remove(i), i, players[i]);
    assert(players.remove(i).insert(i, players[i]) =~= players);
}

/// The player cards of a game are kept over a turn in which the cards of
/// the hands and of the player discard pile are kept, and the player deck
/// and the cards out of the game are left alone.
pub proof fn lemma_turn_keeps_cards(
    before: GameView,
    acting: PlayerView,
    others: Seq<PlayerView>,
    after: GameView,
)
    requires
        0 <= before.turn < before.players.len(),
        others.len() + 1 == before.players.len(),
        after.players == others.insert(before.turn as int, acting),
        after.board.player_deck == before.board.player_deck,
        after.removed == before.removed,
        acting.hand.to_multiset().add(hands(others)).add(after.board.player_discard.to_multiset())
            == before.active().hand.to_multiset().add(hands(before.others())).add(
            before.board.player_discard.to_multiset(),
        ),
    ensures
        after.player_cards() == before.player_cards(),
{
    lemma_hands_split(before.players, before.turn as int);
    lemma_hands_insert(others, before.turn as int, acting);
    let kept = acting.hand.to_multiset().add(hands(others)).add(
        after.board.player_discard.to_multiset(),
    );
    let had = before.active().hand.to_multiset().add(hands(before.others())).add(
        before.board.player_discard.to_multiset(),
    );
    assert forall|c: PlayerCard| after.player_cards().count(c) == before.player_cards().count(
        c,
    ) by {
        assert(kept.count(c) == had.count(c));
    }
    assert(after.player_cards() =~= before.player_cards());
}

/// A game: the board, the players in the order of play, the cards that are
/// out of the game, and where the turn stands.
pub struct Game {
    board: Board,
    players: Vec<Player>,
    removed: Vec<PlayerCard>,
    turn: usize,
    actions_used: u8,
    phase: Phase,
    ending: Option<Ending>,
    difficulty: u8,
    dice: Dice,
}

impl View for Game {
    type V = GameView;

    closed spec fn view(&self) -> GameView {
        GameView {
            board: self.board@,
            players: views(self.players@),
            removed: self.removed@,
            turn: self.turn as nat,
            actions_used: self.actions_used as nat,
            phase: self.phase,
            ending: self.ending,
            difficulty: self.difficulty as nat,
        }
    }
}

impl Game {
    /// The board of the game is consistent with the map.
    pub closed spec fn consistent(&self) -> bool {
        self.board.consistent()
    }

    /// The game is consistent with the map and sound.
    pub open spec fn wf(&self) -> bool {
        &&& self.consistent()
        &&& self@.sound()
    }

    /// A game in which nothing has been chosen yet, with dice that no one can
    /// foresee; or none, where the operating system gives no seed for them.
    pub fn new() -> (game: Option<Self>)
        ensures
            game matches Some(made) ==> made.wf() && made@ == GameView::initial(),
    {
        match Dice::from_entropy() {
            Some(dice) => Some(Game::with_dice(dice)),
            None => None,
        }
    }

    /// A game in which nothing has been chosen yet, with dice that repeat
    /// themselves: the same seed and the same commands give the same game.
    pub fn with_seed(seed: u64) -> (game: Self)
        ensures
            game.wf(),
            game@ == GameView::initial(),
    {
        Game::with_dice(Dice::from_seed(seed))
    }

    /// The dice that the game shuffles with.
    pub closed spec fn dice(&self) -> Dice {
        self.dice
    }

    /// A game in which nothing has been chosen yet, which shuffles with
    /// `dice`.
    pub fn with_dice(dice: Dice) -> (game: Self)
        ensures
            game.wf(),
            game@ == GameView::initial(),
            game.dice() == dice,
    {
        let game = Game {
            board: Board::new(),
            players: Vec::new(),
            removed: Vec::new(),
            turn: 0,
            actions_used: 0,
            phase: Phase::Setup,
            ending: None,
            difficulty: 0,
            dice,
        };
        proof {
            lemma_initial_is_sound();
            assert(game@.players =~= Seq::empty());
            let v = game@;
            assert(epidemic_cards(0) =~= Multiset::<PlayerCard>::empty());
            vstd::seq_lib::to_multiset_len(Seq::<PlayerCard>::empty());
            vstd::seq_lib::to_multiset_len(Seq::<InfectionCard>::empty());
            assert(Seq::<PlayerCard>::empty().to_multiset() =~= Multiset::<PlayerCard>::empty());
            assert(Seq::<InfectionCard>::empty().to_multiset() =~= Multiset::<
                InfectionCard,
            >::empty());
            assert(v.player_cards() =~= fresh_player_deck().to_multiset());
            assert(v.player_cards() =~= fresh_player_deck().to_multiset().add(epidemic_cards(0)));
            assert(v.infection_cards() =~= fresh_infection_deck().to_multiset());
        }
        game
    }

    /// The board.
    pub fn board(&self) -> (board: &Board)
        ensures
            board@ == self@.board,
            self.wf() ==> board.wf(),
    {
        &self.board
    }

    /// The players, in the order of play.
    pub fn players(&self) -> (players: &Vec<Player>)
        ensures
            views(players@) == self@.players,
    {
        &self.players
    }

    /// The cards that are out of the game: the epidemic cards that were
    /// drawn.
    pub fn removed(&self) -> (cards: &Vec<PlayerCard>)
        ensures
            cards@ == self@.removed,
    {
        &self.removed
    }

    /// The number of epidemic cards that was chosen, 0 before that.
    pub fn difficulty(&self) -> (epidemics: u8)
        ensures
            epidemics == self@.difficulty,
    {
        self.difficulty
    }

    /// The position of the player whose turn it is.
    pub fn turn(&self) -> (turn: usize)
        ensures
            turn == self@.turn,
    {
        self.turn
    }

    /// Number of actions that the player whose turn it is has used.
    pub fn actions_used(&self) -> (n: u8)
        ensures
            n == self@.actions_used,
    {
        self.actions_used
    }

    /// Where the game stands.
    pub fn phase(&self) -> (phase: Phase)
        ensures
            phase == self@.phase,
    {
        self.phase
    }

    /// How the game has ended, if it has.
    pub fn ending(&self) -> (ending: Option<Ending>)
        ensures
            ending == self@.ending,
    {
        self.ending
    }

    /// Whether one of the players holds more cards than a hand may have.
    fn over_limit(&self) -> (yes: bool)
        ensures
            yes == over_limit(self@.players),
    {
        let mut i: usize = 0;
        while i < self.players.len()
            invariant
                i <= self.players.len(),
                forall|k: int|
                    0 <= k < i ==> (#[trigger] views(self.players@)[k]).hand.len()
                        <= MAX_CARDS_IN_HAND,
            decreases self.players.len() - i,
        {
            if self.players[i].hand().len() > MAX_CARDS_IN_HAND {
                assert(views(self.players@)[i as int].hand.len() > MAX_CARDS_IN_HAND);
                return true;
            }
            i += 1;
        }
        false
    }

    /// How the game is lost after an infection has failed.
    fn loss(&self) -> (ending: Ending)
        ensures
            ending == loss(self@.board),
    {
        if self.board.outbreaks() > MAX_OUTBREAKS {
            Ending::Outbreaks
        } else {
            Ending::Supply
        }
    }

    /// Ends the game.
    fn end(&mut self, ending: Ending)
        requires
            old(self).consistent(),
            old(self)@.board.sound(),
        ensures
            final(self).consistent(),
            final(self)@ == old(self)@.ended(ending),
    {
        self.board.note(Notice::GameOver { reason: ending });
        self.ending = Some(ending);
        self.phase = Phase::Over;
    }

    /// Number of cards in each hand.
    fn hand_sizes(&self) -> (sizes: Vec<usize>)
        ensures
            sizes.len() == self@.players.len(),
            forall|i: int| 0 <= i < sizes.len() ==> sizes[i] == (#[trigger] self@.players[i]).hand.len(),
    {
        let mut sizes: Vec<usize> = Vec::new();
        let mut i: usize = 0;
        while i < self.players.len()
            invariant
                i <= self.players.len(),
                sizes.len() == i,
                forall|k: int|
                    0 <= k < i ==> sizes[k] == (#[trigger] views(self.players@)[k]).hand.len(),
            decreases self.players.len() - i,
        {
            sizes.push(self.players[i].hand().len());
            i += 1;
        }
        sizes
    }

    /// Tells which hands do not have the size that `sizes` gives.
    fn tell_hands(&mut self, sizes: &Vec<usize>, Ghost(before): Ghost<Seq<PlayerView>>)
        requires
            old(self).consistent(),
            old(self)@.board.sound(),
            sizes.len() == old(self)@.players.len(),
            before.len() == sizes.len(),
            forall|i: int| 0 <= i < sizes.len() ==> sizes[i] == (#[trigger] before[i]).hand.len(),
        ensures
            final(self).consistent(),
            final(self)@ == (GameView {
                board: hands_told(old(self)@.board, before, old(self)@.players),
                ..old(self)@
            }),
    {
        let ghost start = self@;
        let ghost lens = hand_sizes(before);
        let mut i: usize = 0;
        assert(start.board.notices + Seq::<Notice>::empty() =~= start.board.notices);
        while i < self.players.len()
            invariant
                self.consistent(),
                self@.board.sound(),
                i <= self.players.len(),
                sizes.len() == self.players.len(),
                lens.len() == sizes.len(),
                forall|k: int| 0 <= k < sizes.len() ==> sizes[k] == #[trigger] lens[k],
                self@ == (GameView {
                    board: told(start.board, hand_notices(lens, start.players, i as nat)),
                    ..start
                }),
            decreases self.players.len() - i,
        {
            let ghost so_far = hand_notices(lens, start.players, i as nat);
            assert(sizes[i as int] == lens[i as int]);
            assert(views(self.players@)[i as int] == self.players[i as int]@);
            if self.players[i].hand().len() != sizes[i] {
                self.board.note(Notice::HandChanged { player: i });
                assert(start.board.notices + so_far.push(Notice::HandChanged { player: i })
                    =~= (start.board.notices + so_far).push(Notice::HandChanged { player: i }));
            }
            i += 1;
        }
    }

    /// Chooses the players: two to four of them, each with a name and a
    /// role, all in Atlanta with empty hands. Only before the game starts.
    pub fn set_players(&mut self, seats: Vec<(String, Role)>) -> (done: Result<(), Refusal>)
        requires
            old(self).wf(),
        ensures
            final(self).wf(),
            done == answer(old(self)@, may_seat(old(self)@, seats.len() as nat)),
            done is Err ==> final(self)@ == old(self)@,
            done is Ok ==> final(self)@ == (GameView {
                players: Seq::new(
                    seats.len() as nat,
                    |i: int|
                        PlayerView {
                            name: seats[i].0@,
                            hand: Seq::empty(),
                            location: Cities::Atlanta,
                            role: seats[i].1,
                        },
                ),
                ..old(self)@
            }),
    {
        match self.phase {
            Phase::Over => {
                return Err(Refusal::GameOver);
            },
            Phase::Setup => {},
            _ => {
                return Err(Refusal::PreconditionUnmet);
            },
        }
        if seats.len() < MIN_PLAYERS || seats.len() > MAX_PLAYERS {
            return Err(Refusal::PreconditionUnmet);
        }
        let mut players: Vec<Player> = Vec::new();
        let mut i: usize = 0;
        while i < seats.len()
            invariant
                i <= seats.len(),
                players.len() == i,
                forall|k: int|
                    0 <= k < i ==> (#[trigger] players[k])@ == (PlayerView {
                        name: seats[k].0@,
                        hand: Seq::empty(),
                        location: Cities::Atlanta,
                        role: seats[k].1,
                    }),
            decreases seats.len() - i,
        {
            players.push(Player::new(seats[i].0.as_str(), seats[i].1));
            i += 1;
        }
        let ghost before = self@;
        self.players = players;
        proof {
            let after = self@;
            assert(after.players =~= Seq::new(
                seats.len() as nat,
                |i: int|
                    PlayerView {
                        name: seats[i].0@,
                        hand: Seq::empty(),
                        location: Cities::Atlanta,
                        role: seats[i].1,
                    },
            ));
            lemma_no_hands(after.players);
            assert(after.player_cards() =~= before.player_cards());
        }
        Ok(())
    }

    /// Chooses the difficulty: the number of epidemic cards, from four to
    /// six. Only before the game starts.
    pub fn set_difficulty(&mut self, epidemics: u8) -> (done: Result<(), Refusal>)
        requires
            old(self).wf(),
        ensures
            final(self).wf(),
            done == answer(old(self)@, may_choose(old(self)@, epidemics as nat)),
            done is Err ==> final(self)@ == old(self)@,
            done is Ok ==> final(self)@ == (GameView { difficulty: epidemics as nat, ..old(self)@ }),
    {
        match self.phase {
            Phase::Over => {
                return Err(Refusal::GameOver);
            },
            Phase::Setup => {},
            _ => {
                return Err(Refusal::PreconditionUnmet);
            },
        }
        if epidemics < MIN_EPIDEMICS || epidemics > MAX_EPIDEMICS {
            return Err(Refusal::PreconditionUnmet);
        }
        self.difficulty = epidemics;
        Ok(())
    }

    /// Lets the player whose turn it is take `action`. An action that the
    /// rules do not allow is refused.
    #[verifier::rlimit(40)]
    pub fn action(&mut self, action: Action) -> (done: Result<(), Refusal>)
        requires
            old(self).wf(),
        ensures
            final(self).wf(),
            done == answer(old(self)@, may_act(old(self)@, action)),
            done is Err ==> final(self)@ == old(self)@,
            done is Ok ==> final(self)@ == action_outcome(old(self)@, action),
    {
        match self.phase {
            Phase::Over => {
                return Err(Refusal::GameOver);
            },
            Phase::Act => {},
            _ => {
                return Err(Refusal::PreconditionUnmet);
            },
        }
        let ghost before = self@;
        let ghost seats = self.players@;
        let sizes = self.hand_sizes();
        let mut player = self.players.remove(self.turn);
        proof {
            assert(views(seats)[self.turn as int] == seats[self.turn as int]@);
            assert(views(self.players@) =~= before.others());
            assert(player@ == before.active());
        }
        let consumed = player.act(&mut self.board, &mut self.players, action);
        let ghost acting = player@;
        let ghost others_after = self.players@;
        self.players.insert(self.turn, player);
        proof {
            assert(views(self.players@) =~= views(others_after).insert(self.turn as int, acting));
            assert(views(self.players@).remove(self.turn as int) =~= views(others_after));
            lemma_acted_effects(
                action,
                before.active(),
                before.board,
                before.others(),
                consumed,
                acting,
                self.board@,
                views(others_after),
            );
            if !consumed {
                assert(self@.players =~= before.players);
            }
            lemma_turn_keeps_cards(before, acting, views(others_after), self@);
            assert(hands_sorted(before.others())) by {
                assert forall|i: int| 0 <= i < before.others().len() implies sorted(
                    #[trigger] before.others()[i].hand,
                ) by {
                    if i < before.turn {
                        assert(before.others()[i] == before.players[i]);
                    } else {
                        assert(before.others()[i] == before.players[i + 1]);
                    }
                }
            }
            lemma_acted_keeps_order(action, before.active(), before.board, before.others());
            assert(hands_sorted(self@.players)) by {
                let now = self@.players;
                assert forall|i: int| 0 <= i < now.len() implies sorted(#[trigger] now[i].hand) by {
                    if i < before.turn {
                        assert(now[i] == views(others_after)[i]);
                    } else if i > before.turn {
                        assert(now[i] == views(others_after)[i - 1]);
                    }
                }
            }
        }
        if !consumed {
            return Err(Refusal::PreconditionUnmet);
        }
        let cured = match action {
            Action::DiscoverCure(_) => self.board.all_cured(),
            _ => false,
        };
        self.tell_hands(&sizes, Ghost(before.players));
        self.actions_used += 1;
        if cured {
            self.end(Ending::Won);
        } else if self.actions_used == ACTIONS_PER_TURN {
            self.actions_used = 0;
            self.phase = Phase::Draw;
        }
        Ok(())
    }

    /// Lets the player whose turn it is play the event card of `event`,
    /// before the cards are drawn or while hands are brought down.
    pub fn play_event(&mut self, event: Event) -> (done: Result<(), Refusal>)
        requires
            old(self).wf(),
        ensures
            final(self).wf(),
            done == answer(old(self)@, may_play(old(self)@, event)),
            done is Err ==> final(self)@ == old(self)@,
            done is Ok ==> final(self)@ == event_played(old(self)@, event),
    {
        match self.phase {
            Phase::Over => {
                return Err(Refusal::GameOver);
            },
            Phase::Draw => {},
            Phase::Discard => {},
            _ => {
                return Err(Refusal::PreconditionUnmet);
            },
        }
        let ghost before = self@;
        let ghost seats = self.players@;
        assert(views(seats)[self.turn as int] == seats[self.turn as int]@);
        let played = self.players[self.turn].play_event(&mut self.board, event);
        proof {
            assert(views(self.players@) =~= before.players.update(
                before.turn as int,
                self.players[self.turn as int]@,
            ));
            lemma_event_keeps_cards(before.active(), before.board, event);
            lemma_without_sorted(before.active().hand, PlayerCard::EventCard(event));
            lemma_hands_update(before.players, before.turn as int, self.players[self.turn as int]@);
            let now = self@;
            let seat = before.active().hand.to_multiset();
            let seat_after = now.active().hand.to_multiset();
            assert forall|c: PlayerCard| now.player_cards().count(c) == before.player_cards().count(
                c,
            ) by {
                assert(hands(now.players).add(seat).count(c) == hands(before.players).add(
                    seat_after,
                ).count(c));
                assert(seat_after.add(now.board.player_discard.to_multiset()).count(c) == seat.add(
                    before.board.player_discard.to_multiset(),
                ).count(c));
            }
            assert(now.player_cards() =~= before.player_cards());
        }
        if !played {
            assert(self@.players =~= before.players);
            return Err(Refusal::PreconditionUnmet);
        }
        self.board.note(Notice::HandChanged { player: self.turn });
        if self.phase == Phase::Discard && !self.over_limit() {
            self.phase = Phase::Infect;
        }
        Ok(())
    }

    /// Lets the player at position `seat`, who holds more than seven cards,
    /// discard `card`. When no hand is over the limit any more, the game
    /// goes on to infect cities.
    pub fn discard(&mut self, seat: usize, card: PlayerCard) -> (done: Result<(), Refusal>)
        requires
            old(self).wf(),
        ensures
            final(self).wf(),
            done == answer(old(self)@, may_discard(old(self)@, seat as int, card)),
            done is Err ==> final(self)@ == old(self)@,
            done is Ok ==> final(self)@ == discarded(old(self)@, seat as int, card),
    {
        match self.phase {
            Phase::Over => {
                return Err(Refusal::GameOver);
            },
            Phase::Discard => {},
            _ => {
                return Err(Refusal::PreconditionUnmet);
            },
        }
        if seat >= self.players.len() {
            return Err(Refusal::PreconditionUnmet);
        }
        let ghost before = self@;
        let ghost seats = self.players@;
        assert(views(seats)[seat as int] == seats[seat as int]@);
        if self.players[seat].hand().len() <= MAX_CARDS_IN_HAND || !self.players[seat].holds(card) {
            return Err(Refusal::PreconditionUnmet);
        }
        self.players[seat].take_card(card);
        self.board.discard_player_card(card);
        self.board.note(Notice::HandChanged { player: seat });
        proof {
            let holder = self.players[seat as int]@;
            assert(views(self.players@) =~= before.players.update(seat as int, holder));
            lemma_without_holds(before.players[seat as int].hand, card);
            lemma_without_sorted(before.players[seat as int].hand, card);
            lemma_hands_update(before.players, seat as int, holder);
            vstd::seq_lib::to_multiset_build(before.board.player_discard, card);
            vstd::seq_lib::to_multiset_contains(before.players[seat as int].hand, card);
            let now = self@;
            let seat_before = before.players[seat as int].hand.to_multiset();
            let seat_after = holder.hand.to_multiset();
            assert forall|c: PlayerCard| now.player_cards().count(c) == before.player_cards().count(
                c,
            ) by {
                assert(hands(now.players).add(seat_before).count(c) == hands(before.players).add(
                    seat_after,
                ).count(c));
            }
            assert(now.player_cards() =~= before.player_cards());
        }
        if !self.over_limit() {
            self.phase = Phase::Infect;
        }
        Ok(())
    }

    /// Infects cities at the end of the turn, as many as the infection rate
    /// says, and gives the turn to the next player, unless an infection ends
    /// the game.
    pub fn infect_step(&mut self) -> (done: Result<(), Refusal>)
        requires
            old(self).wf(),
        ensures
            final(self).wf(),
            done == answer(old(self)@, old(self)@.phase == Phase::Infect),
            done is Err ==> final(self)@ == old(self)@,
            done is Ok ==> final(self)@ == cities_infected(old(self)@),
    {
        match self.phase {
            Phase::Over => {
                return Err(Refusal::GameOver);
            },
            Phase::Infect => {},
            _ => {
                return Err(Refusal::PreconditionUnmet);
            },
        }
        let ghost before = self@;
        let rate = self.board.infection_rate();
        proof {
            lemma_infect_cities_keeps(before.board, rate as nat);
        }
        let goes_on = self.board.infect_cities(rate);
        if goes_on {
            self.turn = if self.turn + 1 < self.players.len() {
                self.turn + 1
            } else {
                0
            };
            self.actions_used = 0;
            self.phase = Phase::Act;
            self.board.note(Notice::TurnAdvanced { next: self.turn });
        } else {
            let ending = self.loss();
            self.end(ending);
        }
        Ok(())
    }

    /// Draws one player card for the player whose turn it is.
    fn draw_card(&mut self)
        requires
            old(self).wf(),
            old(self)@.phase == Phase::Draw,
        ensures
            final(self).wf(),
            card_drawn(old(self)@, final(self)@),
            final(self)@.phase == Phase::Draw || final(self)@.phase == Phase::Over,
    {
        broadcast use vstd::seq_lib::group_to_multiset_ensures;

        let ghost before = self@;
        let ghost seats = self.players@;
        assert(views(seats)[self.turn as int] == seats[self.turn as int]@);
        match self.board.draw_player_card() {
            None => {
                self.end(Ending::TimeOut);
            },
            Some(PlayerCard::EpidemicCard) => {
                let card = PlayerCard::EpidemicCard;
                proof {
                    assert(before.board.player_deck.last() == card);
                    assert(before.board.player_deck.contains(card));
                    lemma_epidemics_left(before);
                    assert(before.board.player_deck =~= self.board@.player_deck.push(card));
                }
                self.removed.push(card);
                let ghost taken = self.board@;
                let cap = self.board.max_epidemics();
                assert(taken.epidemics < cap);
                let goes_on = self.board.epidemic(&mut self.dice);
                let ghost struck = self.board@;
                proof {
                    lemma_epidemic_keeps(taken, goes_on, struck);
                    let now = self@;
                    assert(now.player_cards() =~= before.player_cards());
                }
                if !goes_on {
                    let ending = self.loss();
                    self.end(ending);
                }
                assert(epidemic_outcome(taken, goes_on, struck));
            },
            Some(card) => {
                proof {
                    assert(before.board.player_deck =~= self.board@.player_deck.push(card));
                }
                self.players[self.turn].add_to_hand(card);
                self.board.note(Notice::HandChanged { player: self.turn });
                proof {
                    let holder = self.players[self.turn as int]@;
                    assert(views(self.players@) =~= before.players.update(
                        before.turn as int,
                        holder,
                    ));
                    lemma_inserted_holds(before.active().hand, card);
                    lemma_inserted_sorted(before.active().hand, card);
                    lemma_hands_update(before.players, before.turn as int, holder);
                    let now = self@;
                    let seat_before = before.active().hand.to_multiset();
                    let seat_after = holder.hand.to_multiset();
                    assert forall|c: PlayerCard| now.player_cards().count(c)
                        == before.player_cards().count(c) by {
                        assert(hands(now.players).add(seat_before).count(c) == hands(
                            before.players,
                        ).add(seat_after).count(c));
                    }
                    assert(now.player_cards() =~= before.player_cards());
                }
            },
        }
    }

    /// Draws the two player cards of the turn. An epidemic card is resolved
    /// at once; any other card goes to the hand of the player whose turn it
    /// is. The game is lost when the deck is empty or an epidemic ends it.
    pub fn draw_players(&mut self) -> (done: Result<(), Refusal>)
        requires
            old(self).wf(),
        ensures
            final(self).wf(),
            done == answer(old(self)@, old(self)@.phase == Phase::Draw),
            done is Err ==> final(self)@ == old(self)@,
            done is Ok ==> cards_drawn(old(self)@, final(self)@),
    {
        match self.phase {
            Phase::Over => {
                return Err(Refusal::GameOver);
            },
            Phase::Draw => {},
            _ => {
                return Err(Refusal::PreconditionUnmet);
            },
        }
        let ghost before = self@;
        self.draw_card();
        let ghost first = self@;
        if self.phase == Phase::Over {
            assert(card_drawn(before, first));
            return Ok(());
        }
        self.draw_card();
        let ghost second = self@;
        if self.phase != Phase::Over {
            self.phase = if self.over_limit() {
                Phase::Discard
            } else {
                Phase::Infect
            };
        }
        assert(card_drawn(first, second));
        assert(second_card_drawn(first, self@));
        assert(card_drawn(before, first));
        Ok(())
    }

    /// Starts the game: shuffles the decks, deals the hands, puts the
    /// epidemic cards into the player deck, seats the players in the order
    /// of play and infects the first nine cities. Only once, with two to
    /// four players and a difficulty chosen.
    pub fn start(&mut self) -> (done: Result<(), Refusal>)
        requires
            old(self).wf(),
        ensures
            final(self).wf(),
            done == answer(old(self)@, may_start(old(self)@)),
            done is Err ==> final(self)@ == old(self)@,
            done is Ok ==> started(old(self)@, final(self)@),
    {
        match self.phase {
            Phase::Over => {
                return Err(Refusal::GameOver);
            },
            Phase::Setup => {},
            _ => {
                return Err(Refusal::PreconditionUnmet);
            },
        }
        if self.players.len() < MIN_PLAYERS || self.difficulty == 0 {
            return Err(Refusal::PreconditionUnmet);
        }
        let ghost before = self@;
        let ghost seats = views(self.players@);
        let n = self.players.len();
        let sizes = self.hand_sizes();
        proof {
            lemma_hands_len(seats);
            assert forall|i: int| 0 <= i < n implies (#[trigger] self.players[i])@ == seats[i]
                && seats[i].hand.len() == 0 && sorted(seats[i].hand) by {}
            vstd::seq_lib::to_multiset_len(before.board.player_deck);
        }
        self.board.shuffle_decks(&mut self.dice);
        let ghost shuffled = self.board@;
        proof {
            vstd::seq_lib::to_multiset_len(shuffled.player_deck);
            assert(shuffled.player_deck.len() == fresh_cards());
            assert(hands(seats) =~= Multiset::<PlayerCard>::empty());
            assert(shuffled.player_deck.to_multiset().add(hands(seats))
                =~= shuffled.player_deck.to_multiset());
        }
        let rounds = HAND_BASE - n;
        let mut round: usize = 0;
        let ghost mut given: int = 0;
        while round < rounds
            invariant
                self.board.wf(),
                self.board@.in_play(),
                n == self.players.len(),
                MIN_PLAYERS <= n <= MAX_PLAYERS,
                rounds == HAND_BASE - n,
                round <= rounds,
                given == round * n,
                self.board@ == (BoardView { player_deck: self.board@.player_deck, ..shuffled }),
                shuffled.player_deck.len() == fresh_cards(),
                seats.len() == n,
                self.board@.player_deck.len() + given == shuffled.player_deck.len(),
                self.board@.player_deck.to_multiset().add(hands(views(self.players@)))
                    == shuffled.player_deck.to_multiset(),
                forall|i: int|
                    0 <= i < n ==> {
                        &&& (#[trigger] self.players[i])@.name == seats[i].name
                        &&& self.players[i]@.role == seats[i].role
                        &&& self.players[i]@.location == seats[i].location
                        &&& self.players[i]@.hand.len() == round
                        &&& sorted(self.players[i]@.hand)
                    },
                self.removed@ == before.removed,
                self.turn == before.turn,
                self.actions_used == before.actions_used,
                self.phase == Phase::Setup,
                self.ending == before.ending,
                self.difficulty == before.difficulty,
            decreases rounds - round,
        {
            proof {
                assert(round * n <= 3 * 4) by (nonlinear_arith)
                    requires
                        round <= 3,
                        n <= 4,
                ;
                assert(shuffled.player_deck.len() == fresh_cards());
            }
            self.board.deal(&mut self.players);
            proof {
                assert((round + 1) * n == round * n + n) by (nonlinear_arith);
                given = given + n;
            }
            round += 1;
        }
        let ghost handed = self.board@;
        self.board.add_epidemic_cards_with(self.difficulty, &mut self.dice);
        let ghost dealt = views(self.players@);
        assert forall|i: int| 0 <= i < n implies {
            &&& (#[trigger] dealt[i]).name == before.players[i].name
            &&& dealt[i].role == before.players[i].role
            &&& dealt[i].location == before.players[i].location
            &&& dealt[i].hand.len() == rounds
            &&& sorted(dealt[i].hand)
        } by {
            assert(dealt[i] == self.players[i]@);
        }
        let mut waiting: Vec<Player> = Vec::new();
        std::mem::swap(&mut waiting, &mut self.players);
        self.players = order_players(waiting);
        proof {
            lemma_ranked(dealt);
        }
        self.tell_hands(&sizes, Ghost(before.players));
        let ghost prepared = self.board@;
        proof {
            lemma_first_infection_keeps(prepared);
        }
        let goes_on = self.board.first_infection();
        let ghost infected = self.board@;
        self.turn = 0;
        self.actions_used = 0;
        if goes_on {
            self.phase = Phase::Act;
        } else {
            let ending = self.loss();
            self.end(ending);
        }
        proof {
            let now = self@;
            assert(now.players == ranked(dealt));
            assert forall|i: int| 0 <= i < n implies (#[trigger] now.players[i]).hand.len()
                == HAND_BASE - n by {
                vstd::seq_lib::to_multiset_contains(now.players, now.players[i]);
                vstd::seq_lib::to_multiset_contains(dealt, now.players[i]);
                let k = choose|k: int| 0 <= k < dealt.len() && dealt[k] == now.players[i];
                assert(dealt[k].hand.len() == rounds);
            }
            assert forall|i: int| 0 <= i < n implies sorted(#[trigger] now.players[i].hand) by {
                vstd::seq_lib::to_multiset_contains(now.players, now.players[i]);
                vstd::seq_lib::to_multiset_contains(dealt, now.players[i]);
                let k = choose|k: int| 0 <= k < dealt.len() && dealt[k] == now.players[i];
                assert(sorted(dealt[k].hand));
            }
            assert(n * (HAND_BASE - n) == given) by (nonlinear_arith)
                requires
                    given == rounds * n,
                    rounds == HAND_BASE - n,
            ;
            assert(handed.player_deck.to_multiset().add(hands(dealt))
                == shuffled.player_deck.to_multiset());
            assert(shuffled.player_deck.to_multiset() == fresh_player_deck().to_multiset());
            assert(prepared.player_deck.to_multiset() == handed.player_deck.to_multiset().add(
                epidemic_cards(before.difficulty),
            ));
            assert(hands(now.players) == hands(dealt));
            assert(now.board.player_deck == prepared.player_deck);
            assert(now.board.player_discard == Seq::<PlayerCard>::empty());
            assert(now.removed == Seq::<PlayerCard>::empty());
            vstd::seq_lib::to_multiset_len(Seq::<PlayerCard>::empty());
            assert(Seq::<PlayerCard>::empty().to_multiset() =~= Multiset::<PlayerCard>::empty());
            assert(now.player_cards() =~= fresh_player_deck().to_multiset().add(
                epidemic_cards(now.board.max_epidemics),
            ));
            vstd::seq_lib::to_multiset_len(prepared.player_deck);
            vstd::seq_lib::to_multiset_len(handed.player_deck);
            lemma_epidemic_pile(before.difficulty, PlayerCard::EpidemicCard);
            assert(first_infection(prepared) == (infected, goes_on));
            assert(first_infected(first_infection(prepared), now));
            assert(seeded(handed.player_deck, before.difficulty, prepared.player_deck));
            assert(handed.player_deck.to_multiset().add(hands(dealt))
                == before.board.player_deck.to_multiset());
        }
        Ok(())
    }

    /// Hands over what the game has told since this was last asked for, in
    /// the order in which it happened.
    pub fn take_notices(&mut self) -> (notices: Vec<Notice>)
        requires
            old(self).wf(),
        ensures
            final(self).wf(),
            notices@ == old(self)@.board.notices,
            final(self)@ == (GameView {
                board: BoardView { notices: Seq::empty(), ..old(self)@.board },
                ..old(self)@
            }),
    {
        self.board.take_notices()
    }
}

} // verus!

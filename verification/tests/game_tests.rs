use pandemic::board::DiseaseState;
use pandemic::common::Color;
use pandemic::game::{Ending, Game, Phase, Refusal};
use pandemic::map::{list_cities, Cities};
use pandemic::player::Action;
use pandemic::player_card::{Event, Events, PlayerCard};
use pandemic::role::Role;

const COLORS: [Color; 4] = [Color::Yellow, Color::Black, Color::Blue, Color::Red];

fn seats(n: usize) -> Vec<(String, Role)> {
    let all = [
        ("Ada", Role::Medic),
        ("Bob", Role::Scientist),
        ("Cleo", Role::Researcher),
        ("Dan", Role::OperationsExpert(None)),
        ("Eve", Role::Dispatcher),
    ];
    all[0..n].iter().map(|(name, role)| (name.to_string(), *role)).collect()
}

fn started(players: usize, epidemics: u8) -> Game {
    let mut game = Game::new().unwrap();
    assert_eq!(game.set_players(seats(players)), Ok(()));
    assert_eq!(game.set_difficulty(epidemics), Ok(()));
    assert_eq!(game.start(), Ok(()));
    game
}

fn check(game: &Game) {
    let board = game.board();
    for color in COLORS {
        let mut sum = 0;
        for city in list_cities() {
            let n = board.infection_count(city, color);
            assert!(n <= 3);
            sum += n;
        }
        assert_eq!(sum, board.total_cubes(color));
        assert!(sum <= 24);
        if board.disease_state(color) == DiseaseState::Eradicated {
            assert_eq!(sum, 0);
        }
    }
    assert!(board.total_research_stations() <= 6);
    for player in game.players() {
        for pair in player.hand().windows(2) {
            assert!(pair[0].key() <= pair[1].key());
        }
    }
    if game.phase() == Phase::Infect {
        assert!(game.players().iter().all(|p| p.hand().len() <= 7));
    }
    if game.phase() != Phase::Over {
        assert!(board.outbreaks() <= 8);
        assert_eq!(game.ending(), None);
    } else {
        assert!(game.ending().is_some());
    }
    let hands: usize = game.players().iter().map(|p| p.hand().len()).sum();
    let cards = board.player_deck().len() + board.player_discard().len() + game.removed().len() + hands;
    assert_eq!(cards, 53 + board.max_epidemics() as usize);
    assert_eq!(board.infection_deck().len() + board.infection_discard().len(), 48);
    assert_eq!(game.removed().len(), board.epidemics() as usize);
    assert!(game.removed().iter().all(|c| *c == PlayerCard::EpidemicCard));
    for city in list_cities() {
        let card = PlayerCard::CityCard(pandemic::player_card::City::of(city));
        let mut found = 0;
        for pile in [board.player_deck(), board.player_discard()] {
            let mut i = 0;
            while i < pile.len() {
                if *pile.get(i).unwrap() == card {
                    found += 1;
                }
                i += 1;
            }
        }
        for player in game.players() {
            found += player.hand().iter().filter(|c| **c == card).count();
        }
        assert_eq!(found, 1);
    }
    for city in list_cities() {
        let mut found = 0;
        for pile in [board.infection_deck(), board.infection_discard()] {
            let mut i = 0;
            while i < pile.len() {
                if pile.get(i).unwrap().city == city {
                    found += 1;
                }
                i += 1;
            }
        }
        assert_eq!(found, 1);
    }
}

#[test]
fn a_new_game_waits_for_its_setup() {
    let mut game = Game::new().unwrap();
    assert_eq!(game.phase(), Phase::Setup);
    assert_eq!(game.ending(), None);
    assert_eq!(game.turn(), 0);
    assert_eq!(game.actions_used(), 0);
    assert_eq!(game.difficulty(), 0);
    assert!(game.players().is_empty());
    assert!(game.removed().is_empty());
    assert_eq!(game.board().player_deck().len(), 53);
    assert_eq!(game.action(Action::Pass), Err(Refusal::PreconditionUnmet));
    assert_eq!(game.draw_players(), Err(Refusal::PreconditionUnmet));
    assert_eq!(game.infect_step(), Err(Refusal::PreconditionUnmet));
    assert_eq!(
        game.discard(0, PlayerCard::EpidemicCard),
        Err(Refusal::PreconditionUnmet)
    );
    assert_eq!(
        game.play_event(Event { event: Events::Airlift }),
        Err(Refusal::PreconditionUnmet)
    );
    assert_eq!(game.phase(), Phase::Setup);
    check(&game);
}

#[test]
fn two_to_four_players() {
    let mut game = Game::new().unwrap();
    assert_eq!(game.set_players(seats(0)), Err(Refusal::PreconditionUnmet));
    assert_eq!(game.set_players(seats(1)), Err(Refusal::PreconditionUnmet));
    assert_eq!(game.set_players(seats(5)), Err(Refusal::PreconditionUnmet));
    assert!(game.players().is_empty());
    for n in 2..=4 {
        assert_eq!(game.set_players(seats(n)), Ok(()));
        assert_eq!(game.players().len(), n);
    }
    assert_eq!(game.players()[0].name(), "Ada");
    assert_eq!(game.players()[0].role(), Role::Medic);
    assert_eq!(game.players()[3].role(), Role::OperationsExpert(None));
    for player in game.players() {
        assert_eq!(player.location(), Cities::Atlanta);
        assert!(player.hand().is_empty());
    }
}

#[test]
fn four_to_six_epidemic_cards() {
    let mut game = Game::new().unwrap();
    for epidemics in [0, 1, 3, 7, 255] {
        assert_eq!(game.set_difficulty(epidemics), Err(Refusal::PreconditionUnmet));
        assert_eq!(game.difficulty(), 0);
    }
    for epidemics in 4..=6 {
        assert_eq!(game.set_difficulty(epidemics), Ok(()));
        assert_eq!(game.difficulty(), epidemics);
    }
}

#[test]
fn a_game_starts_with_players_and_a_difficulty() {
    let mut game = Game::new().unwrap();
    assert_eq!(game.start(), Err(Refusal::PreconditionUnmet));
    assert_eq!(game.set_players(seats(2)), Ok(()));
    assert_eq!(game.start(), Err(Refusal::PreconditionUnmet));
    let mut game = Game::new().unwrap();
    assert_eq!(game.set_difficulty(4), Ok(()));
    assert_eq!(game.start(), Err(Refusal::PreconditionUnmet));
    assert_eq!(game.phase(), Phase::Setup);
    assert_eq!(game.set_players(seats(2)), Ok(()));
    assert_eq!(game.start(), Ok(()));
    assert_eq!(game.phase(), Phase::Act);
    assert_eq!(game.start(), Err(Refusal::PreconditionUnmet));
    assert_eq!(game.set_players(seats(3)), Err(Refusal::PreconditionUnmet));
    assert_eq!(game.set_difficulty(5), Err(Refusal::PreconditionUnmet));
    assert_eq!(game.players().len(), 2);
    assert_eq!(game.difficulty(), 4);
}

#[test]
fn the_setup_of_an_introductory_game_for_two() {
    let game = started(2, 4);
    assert_eq!(game.phase(), Phase::Act);
    assert_eq!(game.turn(), 0);
    assert_eq!(game.actions_used(), 0);
    for player in game.players() {
        assert_eq!(player.hand().len(), 4);
        assert_eq!(player.location(), Cities::Atlanta);
    }
    let board = game.board();
    assert_eq!(board.max_epidemics(), 4);
    assert_eq!(board.player_deck().len(), 53 - 8 + 4);
    let mut epidemics = 0;
    let mut i = 0;
    while i < board.player_deck().len() {
        if *board.player_deck().get(i).unwrap() == PlayerCard::EpidemicCard {
            epidemics += 1;
            let chunk = if i < 13 { 0 } else if i < 26 { 1 } else if i < 39 { 2 } else { 3 };
            assert_eq!(chunk + 1, epidemics);
        }
        i += 1;
    }
    assert_eq!(epidemics, 4);
    check(&game);
}

#[test]
fn the_setup_for_each_number_of_players() {
    for (players, cards) in [(2, 4), (3, 3), (4, 2)] {
        for epidemics in 4..=6u8 {
            let game = started(players, epidemics);
            assert_eq!(game.players().len(), players);
            for player in game.players() {
                assert_eq!(player.hand().len(), cards);
            }
            assert_eq!(
                game.board().player_deck().len(),
                53 - players * cards + epidemics as usize
            );
            let populations: Vec<u32> =
                game.players().iter().map(|p| p.max_population_city()).collect();
            for pair in populations.windows(2) {
                assert!(pair[0] >= pair[1]);
            }
            let mut names: Vec<&str> = game.players().iter().map(|p| p.name()).collect();
            names.sort();
            assert_eq!(names, ["Ada", "Bob", "Cleo", "Dan"][0..players].to_vec());
            check(&game);
        }
    }
}

#[test]
fn nine_cities_are_infected_at_the_start() {
    for _ in 0..20 {
        let game = started(3, 5);
        let board = game.board();
        assert_eq!(board.infection_discard().len(), 9);
        assert_eq!(board.infection_deck().len(), 39);
        assert_eq!(board.outbreaks(), 0);
        let total: u8 = COLORS.iter().map(|c| board.total_cubes(*c)).sum();
        assert_eq!(total, 18);
        for i in 0..9 {
            let card = board.infection_discard().get(i).unwrap();
            let expected = 3 - (i / 3) as u8;
            assert_eq!(board.infection_count(card.city, card.color), expected);
            assert_eq!(card.color, card.city.color());
        }
        let infected = list_cities()
            .iter()
            .filter(|c| COLORS.iter().any(|k| board.infection_count(**c, *k) > 0))
            .count();
        assert_eq!(infected, 9);
        check(&game);
    }
}

#[test]
fn two_starts_differ() {
    let first = started(4, 6);
    let mut same = 0;
    for _ in 0..5 {
        let second = started(4, 6);
        let a = first.board().infection_discard();
        let b = second.board().infection_discard();
        if (0..9).all(|i| a.get(i) == b.get(i)) {
            same += 1;
        }
    }
    assert!(same < 5);
}

#[test]
fn four_actions_and_then_the_draw() {
    let mut game = started(2, 4);
    assert_eq!(game.draw_players(), Err(Refusal::PreconditionUnmet));
    assert_eq!(game.infect_step(), Err(Refusal::PreconditionUnmet));
    for used in 1..=3 {
        assert_eq!(game.action(Action::Pass), Ok(()));
        assert_eq!(game.actions_used(), used);
        assert_eq!(game.phase(), Phase::Act);
    }
    assert_eq!(game.action(Action::DriveFerry(Cities::Tokyo)), Err(Refusal::PreconditionUnmet));
    assert_eq!(game.actions_used(), 3);
    assert_eq!(game.players()[0].location(), Cities::Atlanta);
    assert_eq!(game.action(Action::DriveFerry(Cities::Miami)), Ok(()));
    assert_eq!(game.players()[0].location(), Cities::Miami);
    assert_eq!(game.players()[1].location(), Cities::Atlanta);
    assert_eq!(game.phase(), Phase::Draw);
    assert_eq!(game.actions_used(), 0);
    assert_eq!(game.action(Action::Pass), Err(Refusal::PreconditionUnmet));
    check(&game);
}

#[test]
fn an_action_that_is_refused_changes_nothing() {
    let mut game = started(3, 4);
    let hand = game.players()[0].hand().clone();
    let discarded = game.board().player_discard().len();
    for action in [
        Action::DriveFerry(Cities::Sydney),
        Action::ShuttleFlight(Cities::Sydney),
        Action::TreatDisease(Color::Blue),
        Action::ShareKnowledge { partner: 7, give: true, card: PlayerCard::EpidemicCard },
        Action::ShareKnowledge { partner: 0, give: true, card: PlayerCard::EpidemicCard },
    ] {
        if game.board().infection_count(Cities::Atlanta, Color::Blue) > 0 {
            continue;
        }
        assert_eq!(game.action(action), Err(Refusal::PreconditionUnmet));
        assert_eq!(game.actions_used(), 0);
        assert_eq!(*game.players()[0].hand(), hand);
        assert_eq!(game.players()[0].location(), Cities::Atlanta);
        assert_eq!(game.board().player_discard().len(), discarded);
        assert_eq!(game.phase(), Phase::Act);
    }
    check(&game);
}

#[test]
fn the_active_player_acts_and_the_others_are_partners() {
    let mut game = started(3, 4);
    let mover = game.players()[0].name().to_string();
    let hand: Vec<PlayerCard> = game.players()[0].hand().clone();
    let city = hand.iter().find_map(|c| match c {
        PlayerCard::CityCard(city) => Some(city.city),
        _ => None,
    });
    if let Some(city) = city {
        assert_eq!(game.action(Action::DirectFlight(city)), Ok(()));
        assert_eq!(game.players()[0].name(), mover);
        assert_eq!(game.players()[0].location(), city);
        assert_eq!(game.players()[0].hand().len(), hand.len() - 1);
        assert_eq!(game.players()[1].location(), Cities::Atlanta);
        assert_eq!(game.players()[2].location(), Cities::Atlanta);
        assert_eq!(game.board().player_discard().len(), 1);
        assert_eq!(game.actions_used(), 1);
    }
    check(&game);
}

#[test]
fn a_turn_from_the_actions_to_the_next_player() {
    let mut game = started(2, 4);
    for _ in 0..4 {
        assert_eq!(game.action(Action::Pass), Ok(()));
    }
    let deck = game.board().player_deck().len();
    let hand = game.players()[0].hand().len();
    let top = *game.board().player_deck().get(deck - 1).unwrap();
    let next = *game.board().player_deck().get(deck - 2).unwrap();
    assert_eq!(game.draw_players(), Ok(()));
    check(&game);
    if game.phase() == Phase::Over {
        return;
    }
    assert_eq!(game.board().player_deck().len(), deck - 2);
    let drawn = [top, next].iter().filter(|c| **c != PlayerCard::EpidemicCard).count();
    assert_eq!(game.players()[0].hand().len(), hand + drawn);
    assert_eq!(game.removed().len(), 2 - drawn);
    assert_eq!(game.board().epidemics() as usize, 2 - drawn);
    assert_eq!(game.phase(), Phase::Infect);
    assert_eq!(game.discard(0, top), Err(Refusal::PreconditionUnmet));
    let rate = game.board().infection_rate() as usize;
    let waiting = game.board().infection_deck().len();
    assert_eq!(game.infect_step(), Ok(()));
    check(&game);
    if game.phase() == Phase::Over {
        return;
    }
    assert_eq!(game.board().infection_deck().len(), waiting - rate);
    assert_eq!(game.phase(), Phase::Act);
    assert_eq!(game.turn(), 1);
    assert_eq!(game.actions_used(), 0);
}

fn play_out(mut game: Game, clever: bool) -> Game {
    let mut turns = 0;
    while game.phase() != Phase::Over {
        assert_eq!(game.phase(), Phase::Act);
        let seat = game.turn();
        assert_eq!(seat, turns % game.players().len());
        for _ in 0..4 {
            let mut done = false;
            if clever {
                let here = game.players()[seat].location();
                for color in COLORS {
                    if !done && game.board().infection_count(here, color) > 0 {
                        assert_eq!(game.action(Action::TreatDisease(color)), Ok(()));
                        done = true;
                    }
                }
                if !done {
                    let to = game.board().adjacent_to(here).unwrap()[turns % 2];
                    assert_eq!(game.action(Action::DriveFerry(to)), Ok(()));
                    done = true;
                }
            }
            if !done {
                assert_eq!(game.action(Action::Pass), Ok(()));
            }
            check(&game);
        }
        assert_eq!(game.phase(), Phase::Draw);
        assert_eq!(game.draw_players(), Ok(()));
        check(&game);
        while game.phase() == Phase::Discard {
            let over = game.players().iter().position(|p| p.hand().len() > 7).unwrap();
            let card = game.players()[over].hand()[0];
            let held = game.players()[over].hand().len();
            let pile = game.board().player_discard().len();
            assert_eq!(game.discard(over, card), Ok(()));
            assert_eq!(game.players()[over].hand().len(), held - 1);
            assert_eq!(game.board().player_discard().len(), pile + 1);
            check(&game);
        }
        if game.phase() == Phase::Over {
            break;
        }
        assert_eq!(game.phase(), Phase::Infect);
        assert!(game.players().iter().all(|p| p.hand().len() <= 7));
        assert_eq!(game.infect_step(), Ok(()));
        check(&game);
        turns += 1;
        assert!(turns < 100);
    }
    game
}

#[test]
fn a_game_of_passes_is_lost() {
    for players in 2..=4 {
        let mut game = play_out(started(players, 4 + (players as u8 - 2)), false);
        let ending = game.ending().unwrap();
        assert_ne!(ending, Ending::Won);
        match ending {
            Ending::Outbreaks => assert!(game.board().outbreaks() > 8),
            Ending::Supply => {
                assert!(game.board().outbreaks() <= 8);
                assert!(COLORS.iter().any(|c| game.board().total_cubes(*c) == 24));
            }
            Ending::TimeOut => assert_eq!(game.board().player_deck().len(), 0),
            Ending::Won => unreachable!(),
        }
        assert_eq!(game.action(Action::Pass), Err(Refusal::GameOver));
        assert_eq!(game.draw_players(), Err(Refusal::GameOver));
        assert_eq!(game.infect_step(), Err(Refusal::GameOver));
        assert_eq!(game.discard(0, PlayerCard::EpidemicCard), Err(Refusal::GameOver));
        assert_eq!(game.play_event(Event { event: Events::Airlift }), Err(Refusal::GameOver));
        assert_eq!(game.start(), Err(Refusal::GameOver));
        assert_eq!(game.set_players(seats(2)), Err(Refusal::GameOver));
        assert_eq!(game.set_difficulty(4), Err(Refusal::GameOver));
        assert_eq!(game.phase(), Phase::Over);
        assert_eq!(game.ending(), Some(ending));
        check(&game);
    }
}

#[test]
fn a_game_with_players_who_treat_and_move() {
    for _ in 0..5 {
        let game = play_out(started(3, 5), true);
        assert!(game.ending().is_some());
        assert_ne!(game.ending(), Some(Ending::Won));
    }
}

#[test]
fn hands_come_down_to_seven_cards() {
    let mut seen = false;
    for _ in 0..20 {
        let mut game = started(2, 4);
        while game.phase() != Phase::Over {
            for _ in 0..4 {
                assert_eq!(game.action(Action::Pass), Ok(()));
            }
            assert_eq!(game.draw_players(), Ok(()));
            if game.phase() == Phase::Discard {
                seen = true;
                let seat = game.turn();
                let hand = game.players()[seat].hand().clone();
                assert!(hand.len() > 7);
                let other = 1 - seat;
                let theirs = game.players()[other].hand()[0];
                assert_eq!(game.discard(other, theirs), Err(Refusal::PreconditionUnmet));
                assert_eq!(game.discard(2, hand[0]), Err(Refusal::PreconditionUnmet));
                assert_eq!(
                    game.discard(seat, PlayerCard::EpidemicCard),
                    Err(Refusal::PreconditionUnmet)
                );
                assert_eq!(game.infect_step(), Err(Refusal::PreconditionUnmet));
                let mut left = hand.len();
                while left > 7 {
                    assert_eq!(game.phase(), Phase::Discard);
                    let card = game.players()[seat].hand()[left - 1];
                    let event = match card {
                        PlayerCard::EventCard(event) => Some(event),
                        _ => None,
                    };
                    match event {
                        Some(event) => assert_eq!(game.play_event(event), Ok(())),
                        None => assert_eq!(game.discard(seat, card), Ok(())),
                    }
                    left -= 1;
                    assert_eq!(game.players()[seat].hand().len(), left);
                }
                assert_eq!(game.phase(), Phase::Infect);
                check(&game);
                break;
            }
            if game.phase() == Phase::Over {
                break;
            }
            assert_eq!(game.infect_step(), Ok(()));
        }
        if seen {
            break;
        }
    }
    assert!(seen);
}

#[test]
fn an_event_is_played_before_the_draw() {
    let mut played = false;
    for _ in 0..200 {
        let mut game = started(2, 4);
        let event = game.players()[0].hand().iter().find_map(|c| match c {
            PlayerCard::EventCard(event) => Some(*event),
            _ => None,
        });
        let event = match event {
            Some(event) => event,
            None => continue,
        };
        assert_eq!(game.play_event(event), Err(Refusal::PreconditionUnmet));
        for _ in 0..4 {
            assert_eq!(game.action(Action::Pass), Ok(()));
        }
        assert_eq!(game.phase(), Phase::Draw);
        let held = game.players()[0].hand().len();
        assert_eq!(game.play_event(event), Ok(()));
        assert_eq!(game.play_event(event), Err(Refusal::PreconditionUnmet));
        assert_eq!(game.phase(), Phase::Draw);
        assert_eq!(game.players()[0].hand().len(), held - 1);
        let pile = game.board().player_discard();
        assert_eq!(*pile.get(pile.len() - 1).unwrap(), PlayerCard::EventCard(event));
        check(&game);
        played = true;
        break;
    }
    assert!(played);
}

fn snapshot(game: &Game) -> (Vec<Vec<PlayerCard>>, Vec<PlayerCard>, Vec<Cities>, Vec<u8>, u8, Phase) {
    let board = game.board();
    let hands = game.players().iter().map(|p| p.hand().clone()).collect();
    let deck = (0..board.player_deck().len()).map(|i| *board.player_deck().get(i).unwrap()).collect();
    let infection = (0..board.infection_deck().len())
        .map(|i| board.infection_deck().get(i).unwrap().city)
        .collect();
    let cubes = list_cities()
        .iter()
        .flat_map(|c| COLORS.iter().map(|k| board.infection_count(*c, *k)).collect::<Vec<u8>>())
        .collect();
    (hands, deck, infection, cubes, board.outbreaks(), game.phase())
}

fn seeded_game(seed: u64) -> Game {
    let mut game = Game::with_seed(seed);
    assert_eq!(game.set_players(seats(3)), Ok(()));
    assert_eq!(game.set_difficulty(5), Ok(()));
    assert_eq!(game.start(), Ok(()));
    game
}

#[test]
fn the_same_seed_gives_the_same_game() {
    let first = seeded_game(2024);
    let second = seeded_game(2024);
    let third = seeded_game(2025);
    assert_eq!(snapshot(&first), snapshot(&second));
    assert_ne!(snapshot(&first), snapshot(&third));
    let first = play_out(first, true);
    let second = play_out(second, true);
    assert_eq!(snapshot(&first), snapshot(&second));
    assert_eq!(first.ending(), second.ending());
    assert_eq!(first.turn(), second.turn());
    check(&first);
}

#[test]
fn a_game_shuffles_with_the_dice_that_it_was_given() {
    let mut given = Game::with_dice(pandemic::chance::Dice::from_seed(77));
    let mut seeded = Game::with_seed(77);
    let mut other = Game::with_dice(pandemic::chance::Dice::from_seed(78));
    for game in [&mut given, &mut seeded, &mut other] {
        assert_eq!(game.phase(), Phase::Setup);
        assert_eq!(game.set_players(seats(2)), Ok(()));
        assert_eq!(game.set_difficulty(4), Ok(()));
        assert_eq!(game.start(), Ok(()));
    }
    assert_eq!(snapshot(&given), snapshot(&seeded));
    assert_ne!(snapshot(&given), snapshot(&other));
}

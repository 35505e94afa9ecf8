use pandemic::board::Board;
use pandemic::chance::Dice;
use pandemic::common::Color;
use pandemic::deck::Deck;
use pandemic::game::{Ending, Game, Phase};
use pandemic::infection_card::InfectionCard;
use pandemic::map::Cities;
use pandemic::notice::Notice;
use pandemic::player::{Action, Player};
use pandemic::player_card::{City, PlayerCard};
use pandemic::role::Role;

fn infected(city: Cities, color: Color) -> Notice {
    Notice::Infected { city, color }
}

#[test]
fn a_new_board_has_told_nothing() {
    let mut board = Board::new();
    assert!(board.take_notices().is_empty());
    board.note(Notice::TurnAdvanced { next: 1 });
    assert_eq!(board.take_notices(), vec![Notice::TurnAdvanced { next: 1 }]);
    assert!(board.take_notices().is_empty());
}

#[test]
fn an_outbreak_is_told_in_the_order_of_the_chain() {
    let mut board = Board::new();
    for _ in 0..3 {
        assert!(board.infect_city(Cities::Miami));
    }
    assert_eq!(board.take_notices(), vec![infected(Cities::Miami, Color::Yellow); 3]);
    assert!(board.infect_city(Cities::Miami));
    assert_eq!(
        board.take_notices(),
        vec![
            Notice::Outbreak { city: Cities::Miami, color: Color::Yellow },
            infected(Cities::Atlanta, Color::Yellow),
            infected(Cities::Bogota, Color::Yellow),
            infected(Cities::MexicoCity, Color::Yellow),
            infected(Cities::Washington, Color::Yellow),
        ]
    );
    assert!(board.infect_city(Cities::Miami));
    assert!(board.take_notices().is_empty());
}

#[test]
fn a_chain_finishes_a_neighbour_before_the_next() {
    let mut board = Board::new();
    for city in [Cities::Santiago, Cities::Lima] {
        for _ in 0..3 {
            assert!(board.infect_city(city));
        }
    }
    for _ in 0..3 {
        assert!(board.infect_city(Cities::Bogota));
    }
    board.take_notices();
    assert!(board.infect_city(Cities::Santiago));
    let yellow = Color::Yellow;
    assert_eq!(
        board.take_notices(),
        vec![
            Notice::Outbreak { city: Cities::Santiago, color: yellow },
            Notice::Outbreak { city: Cities::Lima, color: yellow },
            Notice::Outbreak { city: Cities::Bogota, color: yellow },
            infected(Cities::BuenosAires, yellow),
            infected(Cities::MexicoCity, yellow),
            infected(Cities::Miami, yellow),
            infected(Cities::SaoPaulo, yellow),
            infected(Cities::MexicoCity, yellow),
        ]
    );
    assert_eq!(board.outbreaks(), 3);
    assert_eq!(board.infection_count(Cities::MexicoCity, yellow), 2);
}

#[test]
fn a_failed_infection_tells_nothing() {
    let mut board = Board::new();
    for city in [
        Cities::Bogota,
        Cities::BuenosAires,
        Cities::Johannesburg,
        Cities::Kinshasa,
        Cities::Khartoum,
        Cities::Lagos,
        Cities::Lima,
        Cities::Tokyo,
    ] {
        for _ in 0..3 {
            assert!(board.infect_city_color(city, Color::Yellow));
        }
    }
    assert_eq!(board.take_notices().len(), 24);
    assert!(!board.infect_city_color(Cities::Osaka, Color::Yellow));
    assert!(board.take_notices().is_empty());
}

#[test]
fn cures_and_eradications_are_told() {
    let mut board = Board::new();
    assert!(board.infect_city(Cities::Paris));
    board.take_notices();
    board.cure(Color::Blue);
    assert_eq!(board.take_notices(), vec![Notice::Cured { color: Color::Blue }]);
    board.remove_cubes(Cities::Paris, Color::Blue, 1);
    assert_eq!(board.take_notices(), vec![Notice::Eradicated { color: Color::Blue }]);
    board.remove_cubes(Cities::Paris, Color::Blue, 0);
    assert!(board.infect_city(Cities::Paris));
    assert!(board.take_notices().is_empty());
    let mut medic = Player::new("Ada", Role::Medic);
    assert!(board.infect_city(Cities::Chicago));
    assert!(board.infect_city_color(Cities::Chicago, Color::Red));
    board.cure(Color::Red);
    board.take_notices();
    assert!(medic.drive_ferry(&mut board, Cities::Chicago));
    assert_eq!(board.take_notices(), vec![Notice::Eradicated { color: Color::Red }]);
}

#[test]
fn stations_are_built_or_moved() {
    let mut board = Board::new();
    let mut expert = Player::new("Dan", Role::OperationsExpert(None));
    for city in [Cities::Chicago, Cities::Montreal, Cities::NewYork, Cities::London, Cities::Paris]
    {
        assert!(expert.drive_ferry(&mut board, city));
        assert!(expert.build_research_station(&mut board, Some(Cities::Atlanta)));
        assert_eq!(board.take_notices(), vec![Notice::StationBuilt { city }]);
    }
    assert_eq!(board.total_research_stations(), 6);
    assert!(expert.drive_ferry(&mut board, Cities::Madrid));
    assert!(!expert.build_research_station(&mut board, None));
    assert!(board.take_notices().is_empty());
    assert!(expert.build_research_station(&mut board, Some(Cities::Atlanta)));
    assert_eq!(
        board.take_notices(),
        vec![Notice::StationMoved { from: Cities::Atlanta, to: Cities::Madrid }]
    );
}

#[test]
fn an_epidemic_tells_its_city() {
    let mut infection = Deck::new_empty();
    infection.discard_to_top(InfectionCard::of(Cities::Cairo));
    infection.discard_to_top(InfectionCard::of(Cities::Lima));
    let mut board = Board::with_decks(Deck::<PlayerCard>::new(), infection);
    assert!(board.epidemic(&mut Dice::from_seed(1)));
    assert_eq!(
        board.take_notices(),
        vec![
            Notice::EpidemicDrawn { city: Cities::Cairo },
            infected(Cities::Cairo, Color::Black),
            infected(Cities::Cairo, Color::Black),
            infected(Cities::Cairo, Color::Black),
        ]
    );
}

#[test]
fn finding_a_cure_is_told() {
    let mut board = Board::new();
    let mut player = Player::new("Bob", Role::Scientist);
    for city in [Cities::Lima, Cities::Lagos, Cities::Miami, Cities::Bogota] {
        player.add_to_hand(PlayerCard::CityCard(City::of(city)));
    }
    assert!(player.discover_cure(&mut board, Color::Yellow));
    assert_eq!(board.take_notices(), vec![Notice::Cured { color: Color::Yellow }]);
}

fn new_game(seed: u64) -> Game {
    let mut game = Game::with_seed(seed);
    assert!(game.take_notices().is_empty());
    let seats = vec![("Ada".to_string(), Role::Medic), ("Bob".to_string(), Role::Scientist)];
    assert_eq!(game.set_players(seats), Ok(()));
    assert_eq!(game.set_difficulty(4), Ok(()));
    assert!(game.take_notices().is_empty());
    assert_eq!(game.start(), Ok(()));
    game
}

#[test]
fn the_start_tells_the_hands_and_the_first_infection() {
    let mut game = new_game(5);
    let notices = game.take_notices();
    assert_eq!(notices.len(), 2 + 18);
    assert_eq!(notices[0], Notice::HandChanged { player: 0 });
    assert_eq!(notices[1], Notice::HandChanged { player: 1 });
    let discard = game.board().infection_discard();
    let mut at = 2;
    for i in 0..9 {
        let card = discard.get(i).unwrap();
        for _ in 0..3 - i / 3 {
            assert_eq!(notices[at], infected(card.city, card.color));
            at += 1;
        }
    }
    assert!(game.take_notices().is_empty());
}

#[test]
fn a_turn_is_told() {
    let mut game = new_game(6);
    game.take_notices();
    for _ in 0..3 {
        assert_eq!(game.action(Action::Pass), Ok(()));
    }
    assert!(game.action(Action::DriveFerry(Cities::Paris)).is_err());
    assert!(game.take_notices().is_empty());
    let card = game.players()[0].hand().iter().find_map(|c| match c {
        PlayerCard::CityCard(city) => Some(city.city),
        _ => None,
    });
    match card {
        Some(city) => {
            assert_eq!(game.action(Action::DirectFlight(city)), Ok(()));
            let notices = game.take_notices();
            assert_eq!(notices.last(), Some(&Notice::HandChanged { player: 0 }));
        }
        None => assert_eq!(game.action(Action::Pass), Ok(())),
    }
    assert_eq!(game.draw_players(), Ok(()));
    let notices = game.take_notices();
    if game.phase() == Phase::Over {
        assert!(matches!(notices.last(), Some(Notice::GameOver { .. })));
        return;
    }
    let drawn = notices.iter().filter(|n| **n == Notice::HandChanged { player: 0 }).count();
    let epidemics = notices.iter().filter(|n| matches!(n, Notice::EpidemicDrawn { .. })).count();
    assert_eq!(drawn + epidemics, 2);
    assert_eq!(game.infect_step(), Ok(()));
    let notices = game.take_notices();
    if game.phase() != Phase::Over {
        assert_eq!(notices.last(), Some(&Notice::TurnAdvanced { next: 1 }));
        let rate = game.board().infection_rate() as usize;
        let cities = notices
            .iter()
            .filter(|n| matches!(n, Notice::Infected { .. } | Notice::Outbreak { .. }))
            .count();
        assert!(cities >= rate);
    }
}

#[test]
fn the_end_of_a_game_is_told_last() {
    let mut game = new_game(8);
    while game.phase() != Phase::Over {
        for _ in 0..4 {
            assert_eq!(game.action(Action::Pass), Ok(()));
        }
        assert_eq!(game.draw_players(), Ok(()));
        while game.phase() == Phase::Discard {
            let seat = game.turn();
            let card = game.players()[seat].hand()[0];
            assert_eq!(game.discard(seat, card), Ok(()));
            assert_eq!(game.take_notices().last(), Some(&Notice::HandChanged { player: seat }));
        }
        if game.phase() == Phase::Infect {
            assert_eq!(game.infect_step(), Ok(()));
        }
    }
    let reason = game.ending().unwrap();
    assert_ne!(reason, Ending::Won);
    let notices = game.take_notices();
    assert_eq!(notices.last(), Some(&Notice::GameOver { reason }));
    assert_eq!(notices.iter().filter(|n| matches!(n, Notice::GameOver { .. })).count(), 1);
}

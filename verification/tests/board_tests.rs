use pandemic::board::{
    Board, Cities, City, DiseaseState, DRAW_CARDS_PER_ROUND, INFECTION_RATE, MAX_INFECTION_PER_TYPE,
    MAX_INFECTION_PER_TYPE_PER_CITY, MAX_OUTBREAKS, MAX_RESEARCH_STATIONS,
    NUMBER_OF_CITIES_TO_INFECT_PER_ROUND_AT_START,
};
use pandemic::chance::Dice;
use pandemic::common::Color;
use pandemic::deck::Deck;
use pandemic::infection_card::InfectionCard;
use pandemic::map::list_cities;
use pandemic::player_card::PlayerCard;

const COLORS: [Color; 4] = [Color::Yellow, Color::Black, Color::Blue, Color::Red];

fn fill(board: &mut Board, city: Cities, color: Color, cubes: u8) {
    while board.infection_count(city, color) < cubes {
        assert!(board.infect_city_color(city, color));
    }
    assert_eq!(board.infection_count(city, color), cubes);
}

fn check_bounds(board: &Board) {
    for color in COLORS {
        let mut sum = 0;
        for city in list_cities() {
            let n = board.infection_count(city, color);
            assert!(n <= 3);
            sum += n;
        }
        assert_eq!(sum, board.total_cubes(color));
        assert!(sum <= 24);
        if board.disease_state(color) == DiseaseState::Eradicated {
            assert_eq!(sum, 0);
        }
    }
    let stations = list_cities().iter().filter(|c| board.has_research_station(**c)).count();
    assert_eq!(stations, board.total_research_stations() as usize);
    assert!(stations <= 6);
}

fn infection_pile(top_first: &[Cities]) -> Deck<InfectionCard> {
    let mut deck = Deck::new_empty();
    for city in top_first.iter().rev() {
        deck.discard_to_top(InfectionCard::of(*city));
    }
    deck
}

#[test]
fn the_constants_of_the_game() {
    assert_eq!(DRAW_CARDS_PER_ROUND, 2);
    assert_eq!(NUMBER_OF_CITIES_TO_INFECT_PER_ROUND_AT_START, 3);
    assert_eq!(MAX_RESEARCH_STATIONS, 6);
    assert_eq!(MAX_INFECTION_PER_TYPE, 24);
    assert_eq!(MAX_INFECTION_PER_TYPE_PER_CITY, 3);
    assert_eq!(MAX_OUTBREAKS, 8);
    assert_eq!(INFECTION_RATE, [2, 2, 2, 3, 3, 4, 4]);
}

#[test]
fn a_new_city_is_empty() {
    let city = City::new(Cities::Lima, Color::Yellow, vec![Cities::Bogota]);
    for color in COLORS {
        assert_eq!(city.infection_count(color), 0);
    }
    let with_station =
        City::new_with_research_station(Cities::Atlanta, Color::Blue, vec![Cities::Miami]);
    for color in COLORS {
        assert_eq!(with_station.infection_count(color), 0);
    }
}

#[test]
fn a_new_board_has_one_station_and_no_cubes() {
    let board = Board::new();
    assert_eq!(board.total_research_stations(), 1);
    for city in list_cities() {
        assert_eq!(board.has_research_station(city), city == Cities::Atlanta);
        for color in COLORS {
            assert_eq!(board.infection_count(city, color), 0);
        }
    }
    for color in COLORS {
        assert_eq!(board.total_cubes(color), 0);
        assert_eq!(board.disease_state(color), DiseaseState::Default);
    }
    assert_eq!(board.outbreaks(), 0);
    assert_eq!(board.epidemics(), 0);
    assert_eq!(board.max_epidemics(), 0);
    assert_eq!(board.infection_rate(), 2);
    assert_eq!(board.player_deck().len(), 53);
    assert_eq!(board.player_discard().len(), 0);
    assert_eq!(board.infection_deck().len(), 48);
    assert_eq!(board.infection_discard().len(), 0);
    assert!(!board.all_cured());
    assert!(board.outbreak_chain().is_empty());
    check_bounds(&board);
}

#[test]
fn infecting_a_city_places_one_cube_of_its_color() {
    let mut board = Board::new();
    assert!(board.infect_city(Cities::Paris));
    assert_eq!(board.infection_count(Cities::Paris, Color::Blue), 1);
    assert_eq!(board.total_cubes(Color::Blue), 1);
    assert!(board.infect_city(Cities::Lagos));
    assert_eq!(board.infection_count(Cities::Lagos, Color::Yellow), 1);
    assert_eq!(board.infection_count(Cities::Lagos, Color::Blue), 0);
    assert_eq!(board.outbreaks(), 0);
    check_bounds(&board);
}

#[test]
fn infecting_with_another_color_counts_for_that_color() {
    let mut board = Board::new();
    assert!(board.infect_city_color(Cities::Paris, Color::Red));
    assert!(board.infect_city_color(Cities::Paris, Color::Red));
    assert_eq!(board.infection_count(Cities::Paris, Color::Red), 2);
    assert_eq!(board.infection_count(Cities::Paris, Color::Blue), 0);
    assert_eq!(board.total_cubes(Color::Red), 2);
    assert_eq!(board.total_cubes(Color::Blue), 0);
}

#[test]
fn the_fourth_cube_is_an_outbreak() {
    let mut board = Board::new();
    fill(&mut board, Cities::Miami, Color::Yellow, 3);
    assert_eq!(board.outbreaks(), 0);
    assert!(board.infect_city_color(Cities::Miami, Color::Yellow));
    assert_eq!(board.outbreaks(), 1);
    assert_eq!(board.infection_count(Cities::Miami, Color::Yellow), 3);
    for city in [Cities::Bogota, Cities::Atlanta, Cities::MexicoCity, Cities::Washington] {
        assert_eq!(board.infection_count(city, Color::Yellow), 1);
    }
    assert_eq!(board.total_cubes(Color::Yellow), 7);
    assert_eq!(board.outbreak_chain(), vec![Cities::Miami]);
    for city in list_cities() {
        if ![Cities::Miami, Cities::Bogota, Cities::Atlanta, Cities::MexicoCity, Cities::Washington]
            .contains(&city)
        {
            assert_eq!(board.infection_count(city, Color::Yellow), 0);
        }
    }
    check_bounds(&board);
}

#[test]
fn an_outbreak_spreads_the_color_of_the_chain() {
    let mut board = Board::new();
    fill(&mut board, Cities::Miami, Color::Black, 3);
    assert!(board.infect_city_color(Cities::Miami, Color::Black));
    for city in [Cities::Bogota, Cities::Atlanta, Cities::MexicoCity, Cities::Washington] {
        assert_eq!(board.infection_count(city, Color::Black), 1);
        assert_eq!(board.infection_count(city, Color::Yellow), 0);
    }
}

#[test]
fn a_city_breaks_out_once_in_a_chain() {
    let mut board = Board::new();
    fill(&mut board, Cities::Atlanta, Color::Blue, 3);
    fill(&mut board, Cities::Chicago, Color::Blue, 3);
    fill(&mut board, Cities::Washington, Color::Blue, 3);
    assert!(board.infect_city_color(Cities::Atlanta, Color::Blue));
    assert_eq!(board.outbreaks(), 3);
    assert_eq!(
        board.outbreak_chain(),
        vec![Cities::Atlanta, Cities::Chicago, Cities::Washington]
    );
    for city in [Cities::Atlanta, Cities::Chicago, Cities::Washington] {
        assert_eq!(board.infection_count(city, Color::Blue), 3);
    }
    for city in [Cities::LosAngeles, Cities::MexicoCity, Cities::SanFrancisco, Cities::NewYork] {
        assert_eq!(board.infection_count(city, Color::Blue), 1);
    }
    // Miami and Montréal lie next to two of the three cities.
    assert_eq!(board.infection_count(Cities::Miami, Color::Blue), 2);
    assert_eq!(board.infection_count(Cities::Montreal, Color::Blue), 2);
    assert_eq!(board.total_cubes(Color::Blue), 9 + 4 + 4);
    check_bounds(&board);
}

#[test]
fn two_cities_next_to_each_other_break_out_once_each() {
    let mut board = Board::new();
    fill(&mut board, Cities::Santiago, Color::Yellow, 3);
    fill(&mut board, Cities::Lima, Color::Yellow, 3);
    assert!(board.infect_city(Cities::Santiago));
    assert_eq!(board.outbreaks(), 2);
    assert_eq!(board.infection_count(Cities::Santiago, Color::Yellow), 3);
    assert_eq!(board.infection_count(Cities::Lima, Color::Yellow), 3);
    assert_eq!(board.infection_count(Cities::Bogota, Color::Yellow), 1);
    assert_eq!(board.infection_count(Cities::MexicoCity, Color::Yellow), 1);
    assert_eq!(board.total_cubes(Color::Yellow), 8);
}

#[test]
fn a_city_of_the_running_chain_is_passed_over() {
    let mut board = Board::new();
    fill(&mut board, Cities::Santiago, Color::Yellow, 3);
    assert!(!board.is_in_chain(Cities::Santiago));
    assert!(board.infect_city(Cities::Santiago));
    assert_eq!(board.outbreaks(), 1);
    assert!(board.is_in_chain(Cities::Santiago));
    assert!(!board.is_in_chain(Cities::Lima));
    assert!(board.infect_city(Cities::Santiago));
    assert!(board.infect_city(Cities::Santiago));
    assert_eq!(board.outbreaks(), 1);
    assert_eq!(board.infection_count(Cities::Lima, Color::Yellow), 1);
    board.end_outbreak_chain();
    assert!(board.outbreak_chain().is_empty());
    assert!(board.infect_city(Cities::Santiago));
    assert_eq!(board.outbreaks(), 2);
    assert_eq!(board.infection_count(Cities::Lima, Color::Yellow), 2);
}

#[test]
fn ending_the_chain_keeps_cubes_and_stations() {
    let mut board = Board::new();
    fill(&mut board, Cities::Miami, Color::Yellow, 3);
    assert!(board.infect_city(Cities::Miami));
    board.end_outbreak_chain();
    assert_eq!(board.outbreaks(), 1);
    assert_eq!(board.total_cubes(Color::Yellow), 7);
    assert_eq!(board.infection_count(Cities::Miami, Color::Yellow), 3);
    assert!(board.has_research_station(Cities::Atlanta));
    assert_eq!(board.total_research_stations(), 1);
}

#[test]
fn the_twenty_fourth_cube_is_placed_and_the_next_is_not() {
    let mut board = Board::new();
    let cities = [
        Cities::Bogota,
        Cities::BuenosAires,
        Cities::Johannesburg,
        Cities::Kinshasa,
        Cities::Khartoum,
        Cities::Lagos,
        Cities::Lima,
    ];
    for city in cities {
        fill(&mut board, city, Color::Yellow, 3);
    }
    fill(&mut board, Cities::Tokyo, Color::Yellow, 2);
    assert_eq!(board.total_cubes(Color::Yellow), 23);
    assert!(board.infect_city_color(Cities::Tokyo, Color::Yellow));
    assert_eq!(board.total_cubes(Color::Yellow), 24);
    assert_eq!(board.infection_count(Cities::Tokyo, Color::Yellow), 3);
    assert!(!board.infect_city_color(Cities::Osaka, Color::Yellow));
    assert_eq!(board.total_cubes(Color::Yellow), 24);
    assert_eq!(board.infection_count(Cities::Osaka, Color::Yellow), 0);
    // A full city does not break out either while the supply is empty.
    assert!(!board.infect_city_color(Cities::Tokyo, Color::Yellow));
    assert_eq!(board.outbreaks(), 0);
    // The other colours have their own supply.
    assert!(board.infect_city_color(Cities::Osaka, Color::Red));
    check_bounds(&board);
}

#[test]
fn the_ninth_outbreak_loses_the_game() {
    let mut board = Board::new();
    let far = [
        (Cities::Santiago, Color::Yellow),
        (Cities::Sydney, Color::Red),
        (Cities::Johannesburg, Color::Yellow),
        (Cities::Essen, Color::Blue),
        (Cities::Riyadh, Color::Black),
        (Cities::Beijing, Color::Red),
        (Cities::BuenosAires, Color::Yellow),
        (Cities::Montreal, Color::Blue),
    ];
    for (i, (city, color)) in far.iter().enumerate() {
        fill(&mut board, *city, *color, 3);
        board.end_outbreak_chain();
        assert!(board.infect_city(*city));
        assert_eq!(board.outbreaks() as usize, i + 1);
    }
    assert_eq!(board.outbreaks(), 8);
    board.end_outbreak_chain();
    fill(&mut board, Cities::Osaka, Color::Red, 3);
    assert!(!board.infect_city(Cities::Osaka));
    assert_eq!(board.outbreaks(), 9);
    // The outbreak that lost the game has not spread.
    assert_eq!(board.infection_count(Cities::Taipei, Color::Red), 0);
    check_bounds(&board);
}

#[test]
fn a_forced_outbreak() {
    let mut board = Board::new();
    assert!(board.outbreak_city(Cities::Santiago));
    assert_eq!(board.outbreaks(), 1);
    assert_eq!(board.infection_count(Cities::Santiago, Color::Yellow), 0);
    assert_eq!(board.infection_count(Cities::Lima, Color::Yellow), 1);
    // Not twice in one chain.
    assert!(board.outbreak_city(Cities::Santiago));
    assert_eq!(board.outbreaks(), 1);
    board.end_outbreak_chain();
    assert!(board.outbreak_city_color(Cities::Santiago, Color::Red));
    assert_eq!(board.outbreaks(), 2);
    assert_eq!(board.infection_count(Cities::Lima, Color::Red), 1);
    assert_eq!(board.infection_count(Cities::Lima, Color::Yellow), 1);
}

#[test]
fn the_outbreak_marker() {
    let mut board = Board::new();
    for n in 1..=8u8 {
        assert!(board.increase_outbreaks());
        assert_eq!(board.outbreaks(), n);
    }
    assert!(!board.increase_outbreaks());
    assert_eq!(board.outbreaks(), 9);
}

#[test]
fn the_infection_rate_stops_at_its_last_position() {
    let mut board = Board::new();
    let mut rates = vec![board.infection_rate()];
    for _ in 0..6 {
        assert!(board.increase_infection_rate());
        rates.push(board.infection_rate());
    }
    assert_eq!(rates, vec![2, 2, 2, 3, 3, 4, 4]);
    assert!(!board.increase_infection_rate());
    assert_eq!(board.infection_rate(), 4);
    assert!(!board.increase_infection_rate());
    assert_eq!(board.infection_rate(), 4);
}

#[test]
fn removing_cubes_of_a_disease_without_cure() {
    let mut board = Board::new();
    fill(&mut board, Cities::Essen, Color::Blue, 3);
    board.remove_cubes(Cities::Essen, Color::Blue, 1);
    assert_eq!(board.infection_count(Cities::Essen, Color::Blue), 2);
    board.remove_cubes(Cities::Essen, Color::Blue, 2);
    assert_eq!(board.infection_count(Cities::Essen, Color::Blue), 0);
    assert_eq!(board.total_cubes(Color::Blue), 0);
    assert_eq!(board.disease_state(Color::Blue), DiseaseState::Default);
}

#[test]
fn a_cured_disease_without_cubes_is_eradicated() {
    let mut board = Board::new();
    fill(&mut board, Cities::Essen, Color::Blue, 1);
    fill(&mut board, Cities::Paris, Color::Blue, 1);
    board.cure(Color::Blue);
    assert_eq!(board.disease_state(Color::Blue), DiseaseState::Cured);
    board.remove_cubes(Cities::Essen, Color::Blue, 1);
    assert_eq!(board.disease_state(Color::Blue), DiseaseState::Cured);
    board.remove_cubes(Cities::Paris, Color::Blue, 1);
    assert_eq!(board.disease_state(Color::Blue), DiseaseState::Eradicated);
    assert!(board.infect_city(Cities::Essen));
    assert!(board.infect_city_color(Cities::Tokyo, Color::Blue));
    assert!(board.outbreak_city_color(Cities::Tokyo, Color::Blue));
    assert_eq!(board.total_cubes(Color::Blue), 0);
    assert_eq!(board.outbreaks(), 0);
    check_bounds(&board);
}

#[test]
fn a_medic_clears_only_cured_diseases() {
    let mut board = Board::new();
    fill(&mut board, Cities::Cairo, Color::Black, 2);
    fill(&mut board, Cities::Cairo, Color::Yellow, 3);
    fill(&mut board, Cities::Lagos, Color::Yellow, 1);
    board.cure(Color::Yellow);
    board.clear_cured(Cities::Cairo);
    assert_eq!(board.infection_count(Cities::Cairo, Color::Yellow), 0);
    assert_eq!(board.infection_count(Cities::Cairo, Color::Black), 2);
    assert_eq!(board.infection_count(Cities::Lagos, Color::Yellow), 1);
    assert_eq!(board.disease_state(Color::Yellow), DiseaseState::Cured);
    board.clear_cured(Cities::Lagos);
    assert_eq!(board.disease_state(Color::Yellow), DiseaseState::Eradicated);
}

#[test]
fn research_stations_come_and_go() {
    let mut board = Board::new();
    board.set_research_station(Cities::Paris, true);
    board.set_research_station(Cities::Paris, true);
    assert_eq!(board.total_research_stations(), 2);
    board.set_research_station(Cities::Atlanta, false);
    assert_eq!(board.total_research_stations(), 1);
    assert!(!board.has_research_station(Cities::Atlanta));
    board.set_research_station(Cities::Lima, false);
    assert_eq!(board.total_research_stations(), 1);
}

#[test]
fn four_cures_win() {
    let mut board = Board::new();
    for color in [Color::Blue, Color::Red, Color::Black] {
        board.cure(color);
        assert!(!board.all_cured());
    }
    board.cure(Color::Yellow);
    assert!(board.all_cured());
}

#[test]
fn the_first_infection_of_the_game() {
    let infection = infection_pile(&[
        Cities::Paris,
        Cities::Mumbai,
        Cities::Sydney,
        Cities::Lima,
        Cities::Cairo,
        Cities::Tokyo,
        Cities::Essen,
        Cities::Baghdad,
        Cities::Manila,
        Cities::Osaka,
    ]);
    let mut board = Board::with_decks(Deck::<PlayerCard>::new(), infection);
    assert!(board.first_infection());
    let expected = [
        (Cities::Paris, 3),
        (Cities::Mumbai, 3),
        (Cities::Sydney, 3),
        (Cities::Lima, 2),
        (Cities::Cairo, 2),
        (Cities::Tokyo, 2),
        (Cities::Essen, 1),
        (Cities::Baghdad, 1),
        (Cities::Manila, 1),
    ];
    for (city, cubes) in expected {
        assert_eq!(board.infection_count(city, city.color()), cubes);
    }
    assert_eq!(board.infection_count(Cities::Osaka, Color::Red), 0);
    assert_eq!(board.total_cubes(Color::Blue), 4);
    assert_eq!(board.total_cubes(Color::Black), 6);
    assert_eq!(board.total_cubes(Color::Red), 6);
    assert_eq!(board.total_cubes(Color::Yellow), 2);
    assert_eq!(board.outbreaks(), 0);
    assert_eq!(board.infection_deck().len(), 1);
    assert_eq!(board.infection_discard().len(), 9);
    assert_eq!(*board.infection_discard().get(0).unwrap(), InfectionCard::of(Cities::Paris));
    assert_eq!(*board.infection_discard().get(8).unwrap(), InfectionCard::of(Cities::Manila));
    check_bounds(&board);
}

#[test]
fn the_first_infection_of_a_short_deck() {
    let infection = infection_pile(&[Cities::Paris, Cities::Lima]);
    let mut board = Board::with_decks(Deck::<PlayerCard>::new(), infection);
    assert!(board.first_infection());
    assert_eq!(board.infection_count(Cities::Paris, Color::Blue), 3);
    assert_eq!(board.infection_count(Cities::Lima, Color::Yellow), 3);
    assert_eq!(board.infection_discard().len(), 2);
}

#[test]
fn infecting_cities_at_the_end_of_a_turn() {
    let infection = infection_pile(&[Cities::Paris, Cities::Lima, Cities::Cairo]);
    let mut board = Board::with_decks(Deck::<PlayerCard>::new(), infection);
    assert!(board.infect_cities(2));
    assert_eq!(board.infection_count(Cities::Paris, Color::Blue), 1);
    assert_eq!(board.infection_count(Cities::Lima, Color::Yellow), 1);
    assert_eq!(board.infection_count(Cities::Cairo, Color::Black), 0);
    assert_eq!(board.infection_deck().len(), 1);
    assert_eq!(board.infection_discard().len(), 2);
    assert_eq!(*board.infection_discard().get(1).unwrap(), InfectionCard::of(Cities::Lima));
    assert!(board.infect_cities(4));
    assert_eq!(board.infection_count(Cities::Cairo, Color::Black), 1);
    assert_eq!(board.infection_deck().len(), 0);
    assert_eq!(board.infection_discard().len(), 3);
}

#[test]
fn each_card_begins_a_new_chain() {
    let infection = infection_pile(&[Cities::Santiago, Cities::Santiago]);
    let mut board = Board::with_decks(Deck::<PlayerCard>::new(), infection);
    fill(&mut board, Cities::Santiago, Color::Yellow, 3);
    assert!(board.infect_cities(2));
    assert_eq!(board.outbreaks(), 2);
    assert_eq!(board.infection_count(Cities::Lima, Color::Yellow), 2);
}

#[test]
fn an_epidemic_strikes_the_bottom_card() {
    let infection = infection_pile(&[Cities::Paris, Cities::Lima, Cities::Cairo]);
    let mut board = Board::with_decks(Deck::<PlayerCard>::new(), infection);
    assert!(board.infect_cities(2));
    assert!(board.epidemic(&mut Dice::from_seed(7)));
    assert_eq!(board.epidemics(), 1);
    assert_eq!(board.infection_count(Cities::Cairo, Color::Black), 3);
    assert_eq!(board.outbreaks(), 0);
    assert_eq!(board.infection_discard().len(), 0);
    assert_eq!(board.infection_deck().len(), 3);
    let mut cities: Vec<Cities> =
        (0..3).map(|i| board.infection_deck().get(i).unwrap().city).collect();
    cities.sort_by_key(|c| c.index());
    assert_eq!(cities, vec![Cities::Cairo, Cities::Lima, Cities::Paris]);
    let mut board = Board::new();
    for _ in 0..7 {
        assert!(board.epidemic(&mut Dice::from_seed(7)));
    }
    assert_eq!(board.infection_rate(), 4);
    assert_eq!(board.epidemics(), 7);
    assert_eq!(board.total_cubes(Color::Blue), 21);
    assert_eq!(board.infection_deck().len(), 48);
    check_bounds(&board);
}

#[test]
fn an_epidemic_in_a_city_with_cubes_is_one_outbreak() {
    let infection = infection_pile(&[Cities::Lima, Cities::Santiago]);
    let mut board = Board::with_decks(Deck::<PlayerCard>::new(), infection);
    fill(&mut board, Cities::Santiago, Color::Yellow, 2);
    assert!(board.epidemic(&mut Dice::from_seed(7)));
    assert_eq!(board.infection_count(Cities::Santiago, Color::Yellow), 3);
    assert_eq!(board.outbreaks(), 1);
    assert_eq!(board.infection_count(Cities::Lima, Color::Yellow), 1);
    assert_eq!(board.infection_deck().len(), 2);
    assert_eq!(*board.infection_deck().get(0).unwrap(), InfectionCard::of(Cities::Lima));
    assert_eq!(*board.infection_deck().get(1).unwrap(), InfectionCard::of(Cities::Santiago));
}

#[test]
fn an_epidemic_on_an_empty_infection_deck() {
    let mut board = Board::with_decks(Deck::<PlayerCard>::new(), Deck::new_empty());
    assert!(board.epidemic(&mut Dice::from_seed(7)));
    assert_eq!(board.epidemics(), 1);
    assert_eq!(board.infection_rate(), 2);
    assert!(board.increase_infection_rate());
    assert_eq!(board.infection_rate(), 2);
    assert!(board.increase_infection_rate());
    assert_eq!(board.infection_rate(), 3);
    assert_eq!(board.infection_deck().len(), 0);
}

#[test]
fn an_epidemic_that_loses_the_game_leaves_the_discard_pile() {
    let infection = infection_pile(&[Cities::Osaka]);
    let mut board = Board::with_decks(Deck::<PlayerCard>::new(), infection);
    for _ in 0..8 {
        assert!(board.increase_outbreaks());
    }
    fill(&mut board, Cities::Osaka, Color::Red, 1);
    assert!(!board.epidemic(&mut Dice::from_seed(7)));
    assert_eq!(board.outbreaks(), 9);
    assert_eq!(board.infection_deck().len(), 0);
    assert_eq!(board.infection_discard().len(), 1);
}

#[test]
fn the_decks_of_the_board() {
    let mut board = Board::new();
    board.shuffle_decks(&mut Dice::from_entropy().unwrap());
    assert_eq!(board.player_deck().len(), 53);
    assert_eq!(board.infection_deck().len(), 48);
    let top = *board.player_deck().get(52).unwrap();
    assert_eq!(board.draw_player_card(), Some(top));
    assert_eq!(board.player_deck().len(), 52);
    board.discard_player_card(top);
    assert_eq!(board.player_discard().len(), 1);
    assert_eq!(*board.player_discard().get(0).unwrap(), top);
    assert!(board.add_epidemic_cards(5));
    assert_eq!(board.max_epidemics(), 5);
    assert_eq!(board.player_deck().len(), 57);
    let mut empty = Board::with_decks(Deck::new_empty(), Deck::new_empty());
    assert_eq!(empty.draw_player_card(), None);
}

#[test]
fn the_same_seed_shuffles_the_same_way() {
    let mut first = Board::new();
    let mut second = Board::new();
    let mut third = Board::new();
    first.shuffle_decks(&mut Dice::from_seed(42));
    second.shuffle_decks(&mut Dice::from_seed(42));
    third.shuffle_decks(&mut Dice::from_seed(43));
    let cities = |board: &Board| -> Vec<Cities> {
        (0..48).map(|i| board.infection_deck().get(i).unwrap().city).collect()
    };
    assert_eq!(cities(&first), cities(&second));
    assert_ne!(cities(&first), cities(&third));
    assert_ne!(cities(&first), cities(&Board::new()));
    first.add_epidemic_cards_with(6, &mut Dice::from_seed(1));
    second.add_epidemic_cards_with(6, &mut Dice::from_seed(1));
    for i in 0..59 {
        assert_eq!(first.player_deck().get(i), second.player_deck().get(i));
    }
}

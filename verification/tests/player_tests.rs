use pandemic::board::{Board, DiseaseState};
use pandemic::common::Color;
use pandemic::map::{list_cities, Cities};
use pandemic::player::{order_players, transfer, Action, Player, ACTIONS, MAX_CARDS_IN_HAND};
use pandemic::player_card::{City, Event, Events, PlayerCard};
use pandemic::role::Role;

fn card(city: Cities) -> PlayerCard {
    PlayerCard::CityCard(City::of(city))
}

fn event(event: Events) -> PlayerCard {
    PlayerCard::EventCard(Event { event })
}

fn player_with(role: Role, cities: &[Cities]) -> Player {
    let mut player = Player::new("Ada", role);
    for city in cities {
        player.add_to_hand(card(*city));
    }
    player
}

fn cubes(board: &mut Board, city: Cities, color: Color, n: u8) {
    while board.infection_count(city, color) < n {
        assert!(board.infect_city_color(city, color));
    }
}

const BLUE: [Cities; 6] = [
    Cities::Atlanta,
    Cities::Chicago,
    Cities::Essen,
    Cities::London,
    Cities::Madrid,
    Cities::Milan,
];

#[test]
fn a_new_player_stands_in_atlanta() {
    let player = Player::new("Grace", Role::Dispatcher);
    assert_eq!(player.name(), "Grace");
    assert_eq!(player.role(), Role::Dispatcher);
    assert_eq!(player.location(), Cities::Atlanta);
    assert!(player.hand().is_empty());
    assert_eq!(player.max_population_city(), 0);
    assert_eq!(MAX_CARDS_IN_HAND, 7);
}

#[test]
fn the_menu_of_actions() {
    let player = Player::new("Grace", Role::Dispatcher);
    let actions = player.actions();
    assert_eq!(actions.len(), 8);
    assert_eq!(actions[0], "Drive / Ferry (Cost: 1 action)");
    assert_eq!(actions[4], "Build a Research Station (Cost: 1 action)");
    assert_eq!(actions[7], "Discover a Cure (Cost: 1 action)");
    for (i, action) in actions.iter().enumerate() {
        assert_eq!(action, ACTIONS[i]);
    }
}

#[test]
fn the_hand_is_kept_in_order() {
    let mut player = Player::new("Ada", Role::Medic);
    for c in [
        event(Events::Forecast),
        card(Cities::Tokyo),
        card(Cities::Atlanta),
        PlayerCard::EpidemicCard,
        card(Cities::Miami),
        event(Events::Airlift),
        card(Cities::Algiers),
        card(Cities::Bogota),
        card(Cities::Washington),
    ] {
        player.add_to_hand(c);
    }
    assert_eq!(
        *player.hand(),
        vec![
            card(Cities::Bogota),
            card(Cities::Miami),
            card(Cities::Algiers),
            card(Cities::Atlanta),
            card(Cities::Washington),
            card(Cities::Tokyo),
            PlayerCard::EpidemicCard,
            event(Events::Airlift),
            event(Events::Forecast),
        ]
    );
    let keys: Vec<usize> = player.hand().iter().map(|c| c.key()).collect();
    assert_eq!(keys, vec![5, 28, 48, 97, 143, 190, 192, 193, 194]);
}

#[test]
fn a_second_copy_of_a_card_goes_behind_the_first() {
    let mut player = player_with(Role::Medic, &[Cities::Lima, Cities::Cairo]);
    let odd = PlayerCard::CityCard(City { population: 1, ..City::of(Cities::Lima) });
    player.add_to_hand(odd);
    assert_eq!(*player.hand(), vec![card(Cities::Lima), odd, card(Cities::Cairo)]);
    assert!(player.take_card(card(Cities::Lima)));
    assert_eq!(*player.hand(), vec![odd, card(Cities::Cairo)]);
    assert!(!player.take_card(card(Cities::Lima)));
    assert_eq!(player.hand().len(), 2);
}

#[test]
fn the_largest_city_of_the_hand() {
    let mut player = Player::new("Ada", Role::Medic);
    player.add_to_hand(event(Events::Airlift));
    assert_eq!(player.max_population_city(), 0);
    player.add_to_hand(card(Cities::Essen));
    assert_eq!(player.max_population_city(), 575_000);
    player.add_to_hand(card(Cities::Jakarta));
    player.add_to_hand(card(Cities::Atlanta));
    assert_eq!(player.max_population_city(), 26_063_000);
}

#[test]
fn what_a_city_card_tells() {
    let hong_kong = City::of(Cities::HongKong);
    assert_eq!(hong_kong.city, Cities::HongKong);
    assert_eq!(hong_kong.color, Color::Red);
    assert_eq!(hong_kong.population, 7_106_000);
    assert_eq!(hong_kong.population_density, 25_900);
    assert_eq!(
        hong_kong.country(),
        "Special Administrative Region of the People's Republic of China"
    );
    assert_eq!(hong_kong.flag(), "🇭🇰");
    let tokyo = City::of(Cities::Tokyo);
    assert_eq!(tokyo.population, 13_189_000);
    assert_eq!(tokyo.population_density, 6_030);
    assert_eq!(tokyo.country(), "Japan");
    for city in list_cities() {
        assert_eq!(City::of(city).color, city.color());
        assert!(City::of(city).population > 0);
    }
    let airlift = Event { event: Events::Airlift };
    assert_eq!(Events::Airlift.name(), "Airlift");
    assert_eq!(Events::OneQuietNight.name(), "One Quiet Night");
    assert_eq!(
        airlift.description(),
        "Move any 1 pawn to any city. Get permission before moving another player's pawn."
    );
    assert!(card(Cities::Lima).is_card_of(Cities::Lima));
    assert!(!card(Cities::Lima).is_card_of(Cities::Cairo));
    assert!(card(Cities::Lima).has_color(Color::Yellow));
    assert!(!PlayerCard::EpidemicCard.has_color(Color::Yellow));
    assert!(!event(Events::Airlift).is_card_of(Cities::Lima));
}

#[test]
fn roles_have_names() {
    assert_eq!(Role::Medic.name(), "Medic");
    assert_eq!(Role::OperationsExpert(None).name(), "Operations Expert");
    assert_eq!(Role::OperationsExpert(Some(card(Cities::Lima))).name(), "Operations Expert");
    assert_eq!(Role::QuarantineSpecialist.description().len(), 1);
    assert_eq!(Role::Dispatcher.description().len(), 3);
    assert!(Role::Medic.is_medic());
    assert!(!Role::Scientist.is_medic());
    assert!(Role::Scientist.is_scientist());
    assert!(Role::Researcher.is_researcher());
    assert!(Role::OperationsExpert(None).is_operations_expert());
    assert!(!Role::Medic.is_operations_expert());
}

#[test]
fn drive_to_a_city_next_door() {
    let mut board = Board::new();
    let mut player = Player::new("Ada", Role::Scientist);
    assert!(player.drive_ferry(&mut board, Cities::Chicago));
    assert_eq!(player.location(), Cities::Chicago);
    assert!(!player.drive_ferry(&mut board, Cities::Paris));
    assert_eq!(player.location(), Cities::Chicago);
    assert!(!player.drive_ferry(&mut board, Cities::Chicago));
    assert!(player.drive_ferry(&mut board, Cities::SanFrancisco));
    assert!(player.drive_ferry(&mut board, Cities::Tokyo));
    assert_eq!(player.location(), Cities::Tokyo);
}

#[test]
fn a_direct_flight_costs_the_card_of_the_destination() {
    let mut board = Board::new();
    let mut player = player_with(Role::Scientist, &[Cities::Lima, Cities::Cairo]);
    assert!(!player.direct_flight(&mut board, Cities::Tokyo));
    assert_eq!(player.location(), Cities::Atlanta);
    assert_eq!(player.hand().len(), 2);
    assert_eq!(board.player_discard().len(), 0);
    assert!(player.direct_flight(&mut board, Cities::Cairo));
    assert_eq!(player.location(), Cities::Cairo);
    assert_eq!(*player.hand(), vec![card(Cities::Lima)]);
    assert_eq!(board.player_discard().len(), 1);
    assert_eq!(*board.player_discard().get(0).unwrap(), card(Cities::Cairo));
    assert!(!player.direct_flight(&mut board, Cities::Cairo));
}

#[test]
fn a_charter_flight_costs_the_card_of_the_city_of_departure() {
    let mut board = Board::new();
    let mut player = player_with(Role::Scientist, &[Cities::Lima, Cities::Cairo]);
    assert!(!player.chartered_flight(&mut board, Cities::Tokyo));
    assert_eq!(player.location(), Cities::Atlanta);
    assert!(player.direct_flight(&mut board, Cities::Lima));
    assert!(!player.chartered_flight(&mut board, Cities::Tokyo));
    player.add_to_hand(card(Cities::Lima));
    assert!(player.chartered_flight(&mut board, Cities::Tokyo));
    assert_eq!(player.location(), Cities::Tokyo);
    assert_eq!(*player.hand(), vec![card(Cities::Cairo)]);
    assert_eq!(board.player_discard().len(), 2);
    assert!(player.holds_card_of(Cities::Cairo));
    assert!(!player.holds_card_of(Cities::Lima));
}

#[test]
fn a_shuttle_flight_goes_between_research_stations() {
    let mut board = Board::new();
    let mut player = Player::new("Ada", Role::Scientist);
    assert!(!player.shuttle_flight(&mut board, Cities::Paris));
    board.set_research_station(Cities::Paris, true);
    assert!(player.shuttle_flight(&mut board, Cities::Paris));
    assert_eq!(player.location(), Cities::Paris);
    assert!(player.drive_ferry(&mut board, Cities::Madrid));
    assert!(!player.shuttle_flight(&mut board, Cities::Atlanta));
    assert_eq!(player.location(), Cities::Madrid);
}

#[test]
fn building_a_research_station_costs_the_card_of_the_city() {
    let mut board = Board::new();
    let mut player = player_with(Role::Scientist, &[Cities::Chicago, Cities::Cairo]);
    assert!(!player.build_research_station(&mut board, None));
    assert!(player.drive_ferry(&mut board, Cities::Chicago));
    assert!(player.build_research_station(&mut board, None));
    assert!(board.has_research_station(Cities::Chicago));
    assert_eq!(board.total_research_stations(), 2);
    assert_eq!(*player.hand(), vec![card(Cities::Cairo)]);
    assert_eq!(*board.player_discard().get(0).unwrap(), card(Cities::Chicago));
    assert!(!player.build_research_station(&mut board, None));
}

#[test]
fn an_operations_expert_builds_without_a_card() {
    let mut board = Board::new();
    let mut player = player_with(Role::OperationsExpert(None), &[Cities::Chicago]);
    assert!(player.drive_ferry(&mut board, Cities::Chicago));
    assert!(player.build_research_station(&mut board, None));
    assert!(board.has_research_station(Cities::Chicago));
    assert_eq!(*player.hand(), vec![card(Cities::Chicago)]);
    assert_eq!(board.player_discard().len(), 0);
    assert!(player.drive_ferry(&mut board, Cities::Montreal));
    assert!(player.build_research_station(&mut board, None));
    assert_eq!(board.total_research_stations(), 3);
}

#[test]
fn the_seventh_station_takes_the_place_of_another() {
    let mut board = Board::new();
    for city in [Cities::Paris, Cities::Lima, Cities::Cairo, Cities::Tokyo, Cities::Delhi] {
        board.set_research_station(city, true);
    }
    assert_eq!(board.total_research_stations(), 6);
    let mut player = player_with(Role::Scientist, &[Cities::Chicago]);
    assert!(player.drive_ferry(&mut board, Cities::Chicago));
    assert!(!player.build_research_station(&mut board, None));
    assert!(!player.build_research_station(&mut board, Some(Cities::Osaka)));
    assert_eq!(board.total_research_stations(), 6);
    assert!(!board.has_research_station(Cities::Chicago));
    assert_eq!(player.hand().len(), 1);
    assert_eq!(board.player_discard().len(), 0);
    assert!(player.build_research_station(&mut board, Some(Cities::Lima)));
    assert_eq!(board.total_research_stations(), 6);
    assert!(board.has_research_station(Cities::Chicago));
    assert!(!board.has_research_station(Cities::Lima));
    assert!(player.hand().is_empty());
}

#[test]
fn a_station_that_is_not_needed_is_not_taken_away() {
    let mut board = Board::new();
    let mut player = player_with(Role::Scientist, &[Cities::Chicago]);
    assert!(player.drive_ferry(&mut board, Cities::Chicago));
    assert!(player.build_research_station(&mut board, Some(Cities::Atlanta)));
    assert!(board.has_research_station(Cities::Atlanta));
    assert_eq!(board.total_research_stations(), 2);
}

#[test]
fn treating_a_disease_takes_one_cube() {
    let mut board = Board::new();
    cubes(&mut board, Cities::Atlanta, Color::Blue, 3);
    cubes(&mut board, Cities::Atlanta, Color::Red, 1);
    let mut player = Player::new("Ada", Role::Scientist);
    assert!(player.treat_disease(&mut board, Color::Blue));
    assert_eq!(board.infection_count(Cities::Atlanta, Color::Blue), 2);
    assert_eq!(board.infection_count(Cities::Atlanta, Color::Red), 1);
    assert!(!player.treat_disease(&mut board, Color::Yellow));
    assert!(player.treat_disease(&mut board, Color::Red));
    assert!(!player.treat_disease(&mut board, Color::Red));
    assert_eq!(board.total_cubes(Color::Red), 0);
    assert_eq!(board.disease_state(Color::Red), DiseaseState::Default);
}

#[test]
fn treating_a_cured_disease_takes_all_cubes() {
    let mut board = Board::new();
    cubes(&mut board, Cities::Atlanta, Color::Blue, 3);
    cubes(&mut board, Cities::Paris, Color::Blue, 1);
    board.cure(Color::Blue);
    let mut player = Player::new("Ada", Role::Scientist);
    assert!(player.treat_disease(&mut board, Color::Blue));
    assert_eq!(board.infection_count(Cities::Atlanta, Color::Blue), 0);
    assert_eq!(board.infection_count(Cities::Paris, Color::Blue), 1);
    assert_eq!(board.disease_state(Color::Blue), DiseaseState::Cured);
}

#[test]
fn a_medic_treats_all_cubes_at_once() {
    let mut board = Board::new();
    cubes(&mut board, Cities::Atlanta, Color::Blue, 3);
    let mut player = Player::new("Ada", Role::Medic);
    assert!(player.treat_disease(&mut board, Color::Blue));
    assert_eq!(board.infection_count(Cities::Atlanta, Color::Blue), 0);
    assert_eq!(board.disease_state(Color::Blue), DiseaseState::Default);
}

#[test]
fn a_medic_eradicates_a_cured_disease() {
    let mut board = Board::new();
    cubes(&mut board, Cities::Essen, Color::Blue, 1);
    board.cure(Color::Blue);
    board.set_research_station(Cities::Essen, true);
    let mut player = Player::new("Ada", Role::Medic);
    assert!(player.shuttle_flight(&mut board, Cities::Essen));
    assert_eq!(board.infection_count(Cities::Essen, Color::Blue), 0);
    assert_eq!(board.disease_state(Color::Blue), DiseaseState::Eradicated);
    assert!(board.infect_city_color(Cities::Essen, Color::Blue));
    assert_eq!(board.infection_count(Cities::Essen, Color::Blue), 0);
    assert_eq!(board.total_cubes(Color::Blue), 0);
}

#[test]
fn a_medic_who_treats_the_last_cube_of_a_cured_disease_eradicates_it() {
    let mut board = Board::new();
    cubes(&mut board, Cities::Atlanta, Color::Blue, 1);
    board.cure(Color::Blue);
    let mut player = Player::new("Ada", Role::Medic);
    assert!(player.treat_disease(&mut board, Color::Blue));
    assert_eq!(board.disease_state(Color::Blue), DiseaseState::Eradicated);
    assert!(board.infect_city(Cities::Atlanta));
    assert_eq!(board.infection_count(Cities::Atlanta, Color::Blue), 0);
}

#[test]
fn a_medic_on_the_move_leaves_other_diseases_alone() {
    let mut board = Board::new();
    cubes(&mut board, Cities::Chicago, Color::Blue, 2);
    cubes(&mut board, Cities::Chicago, Color::Red, 2);
    cubes(&mut board, Cities::Tokyo, Color::Red, 1);
    board.cure(Color::Red);
    let mut medic = Player::new("Ada", Role::Medic);
    assert!(medic.drive_ferry(&mut board, Cities::Chicago));
    assert_eq!(board.infection_count(Cities::Chicago, Color::Red), 0);
    assert_eq!(board.infection_count(Cities::Chicago, Color::Blue), 2);
    assert_eq!(board.disease_state(Color::Red), DiseaseState::Cured);
    let mut board = Board::new();
    cubes(&mut board, Cities::Chicago, Color::Red, 2);
    board.cure(Color::Red);
    let mut other = Player::new("Bob", Role::Scientist);
    assert!(other.drive_ferry(&mut board, Cities::Chicago));
    assert_eq!(board.infection_count(Cities::Chicago, Color::Red), 2);
}

#[test]
fn a_cure_takes_five_cards_of_one_color() {
    let mut board = Board::new();
    let mut player = player_with(Role::Medic, &BLUE[0..4]);
    player.add_to_hand(card(Cities::Lima));
    player.add_to_hand(event(Events::Airlift));
    assert_eq!(player.count_cards_of_color(Color::Blue), 4);
    assert!(!player.discover_cure(&mut board, Color::Blue));
    assert_eq!(player.hand().len(), 6);
    assert_eq!(board.disease_state(Color::Blue), DiseaseState::Default);
    player.add_to_hand(card(BLUE[4]));
    player.add_to_hand(card(BLUE[5]));
    assert!(!player.discover_cure(&mut board, Color::Yellow));
    assert!(player.discover_cure(&mut board, Color::Blue));
    assert_eq!(board.disease_state(Color::Blue), DiseaseState::Cured);
    assert_eq!(
        *player.hand(),
        vec![card(Cities::Lima), card(Cities::Milan), event(Events::Airlift)]
    );
    assert_eq!(board.player_discard().len(), 5);
    for (i, city) in BLUE[0..5].iter().enumerate() {
        assert_eq!(*board.player_discard().get(i).unwrap(), card(*city));
    }
}

#[test]
fn a_scientist_finds_a_cure_with_four_cards() {
    for (role, cards, found) in [
        (Role::Scientist, 3, false),
        (Role::Scientist, 4, true),
        (Role::Scientist, 5, true),
        (Role::Medic, 3, false),
        (Role::Medic, 4, false),
        (Role::Medic, 5, true),
        (Role::Researcher, 4, false),
        (Role::Researcher, 5, true),
        (Role::OperationsExpert(None), 3, false),
    ] {
        let mut board = Board::new();
        let mut player = player_with(role, &BLUE[0..cards]);
        assert_eq!(player.discover_cure(&mut board, Color::Blue), found);
        let paid = if !found { 0 } else if role == Role::Scientist { 4 } else { 5 };
        assert_eq!(player.hand().len(), cards - paid);
        assert_eq!(board.player_discard().len(), paid);
        assert_eq!(
            board.disease_state(Color::Blue),
            if found { DiseaseState::Cured } else { DiseaseState::Default }
        );
    }
}

#[test]
fn a_cure_needs_a_research_station_and_a_disease_without_cure() {
    let mut board = Board::new();
    let mut player = player_with(Role::Medic, &BLUE[0..5]);
    assert!(player.drive_ferry(&mut board, Cities::Chicago));
    assert!(!player.discover_cure(&mut board, Color::Blue));
    assert!(player.drive_ferry(&mut board, Cities::Atlanta));
    board.cure(Color::Blue);
    assert!(!player.discover_cure(&mut board, Color::Blue));
    assert_eq!(player.hand().len(), 5);
    let mut board = Board::new();
    cubes(&mut board, Cities::Paris, Color::Blue, 1);
    board.cure(Color::Blue);
    board.remove_cubes(Cities::Paris, Color::Blue, 1);
    assert_eq!(board.disease_state(Color::Blue), DiseaseState::Eradicated);
    assert!(!player.discover_cure(&mut board, Color::Blue));
}

#[test]
fn curing_all_four_diseases_wins() {
    let mut board = Board::new();
    let mut player = Player::new("Ada", Role::Medic);
    for color in [Color::Blue, Color::Yellow, Color::Black, Color::Red] {
        assert!(!board.all_cured());
        for city in list_cities().into_iter().filter(|c| c.color() == color).take(5) {
            player.add_to_hand(card(city));
        }
        assert!(player.discover_cure(&mut board, color));
    }
    assert!(board.all_cured());
    assert!(player.hand().is_empty());
    assert_eq!(board.player_discard().len(), 20);
}

#[test]
fn playing_an_event_discards_its_card() {
    let mut board = Board::new();
    let mut player = player_with(Role::Medic, &[Cities::Lima]);
    player.add_to_hand(event(Events::Forecast));
    assert!(!player.play_event(&mut board, Event { event: Events::Airlift }));
    assert_eq!(player.hand().len(), 2);
    assert!(player.play_event(&mut board, Event { event: Events::Forecast }));
    assert_eq!(*player.hand(), vec![card(Cities::Lima)]);
    assert_eq!(*board.player_discard().get(0).unwrap(), event(Events::Forecast));
    assert!(player.holds(card(Cities::Lima)));
    assert!(!player.holds(event(Events::Forecast)));
}

#[test]
fn sharing_the_card_of_the_city() {
    let mut ada = player_with(Role::Medic, &[Cities::Atlanta, Cities::Lima]);
    let mut others = vec![player_with(Role::Scientist, &[Cities::Cairo])];
    assert!(!ada.share_knowledge(&mut others, 0, true, card(Cities::Lima)));
    assert!(!ada.share_knowledge(&mut others, 0, false, card(Cities::Cairo)));
    assert!(!ada.share_knowledge(&mut others, 1, true, card(Cities::Atlanta)));
    assert!(!ada.share_knowledge(&mut others, 0, true, card(Cities::Chicago)));
    assert!(!ada.share_knowledge(&mut others, 0, true, PlayerCard::EpidemicCard));
    assert_eq!(ada.hand().len(), 2);
    assert_eq!(others[0].hand().len(), 1);
    assert!(ada.share_knowledge(&mut others, 0, true, card(Cities::Atlanta)));
    assert_eq!(*ada.hand(), vec![card(Cities::Lima)]);
    assert_eq!(*others[0].hand(), vec![card(Cities::Cairo), card(Cities::Atlanta)]);
    assert!(ada.share_knowledge(&mut others, 0, false, card(Cities::Atlanta)));
    assert_eq!(*ada.hand(), vec![card(Cities::Lima), card(Cities::Atlanta)]);
    assert_eq!(*others[0].hand(), vec![card(Cities::Cairo)]);
}

#[test]
fn sharing_needs_the_same_city() {
    let mut board = Board::new();
    let mut ada = player_with(Role::Medic, &[Cities::Atlanta, Cities::Chicago]);
    let mut others = vec![Player::new("Bob", Role::Scientist)];
    assert!(ada.drive_ferry(&mut board, Cities::Chicago));
    assert!(!ada.share_knowledge(&mut others, 0, true, card(Cities::Chicago)));
    assert!(!ada.share_knowledge(&mut others, 0, true, card(Cities::Atlanta)));
    assert!(others[0].drive_ferry(&mut board, Cities::Chicago));
    assert!(!ada.share_knowledge(&mut others, 0, true, card(Cities::Atlanta)));
    assert!(ada.share_knowledge(&mut others, 0, true, card(Cities::Chicago)));
}

#[test]
fn a_researcher_gives_any_city_card() {
    let mut ada = player_with(Role::Researcher, &[Cities::Lima]);
    ada.add_to_hand(event(Events::Airlift));
    let mut others = vec![
        player_with(Role::Scientist, &[Cities::Cairo]),
        player_with(Role::Medic, &[Cities::Tokyo]),
    ];
    assert!(!ada.share_knowledge(&mut others, 1, false, card(Cities::Tokyo)));
    assert!(!ada.share_knowledge(&mut others, 1, true, event(Events::Airlift)));
    assert!(ada.share_knowledge(&mut others, 1, true, card(Cities::Lima)));
    assert_eq!(*ada.hand(), vec![event(Events::Airlift)]);
    assert_eq!(*others[1].hand(), vec![card(Cities::Lima), card(Cities::Tokyo)]);
    assert_eq!(*others[0].hand(), vec![card(Cities::Cairo)]);
    let mut bob = player_with(Role::Medic, &[]);
    let mut others = vec![player_with(Role::Researcher, &[Cities::Paris])];
    assert!(bob.share_knowledge(&mut others, 0, false, card(Cities::Paris)));
    assert_eq!(*bob.hand(), vec![card(Cities::Paris)]);
    assert!(others[0].hand().is_empty());
}

#[test]
fn a_card_goes_from_hand_to_hand() {
    let mut from = player_with(Role::Medic, &[Cities::Lima, Cities::Cairo]);
    let mut to = player_with(Role::Medic, &[Cities::Tokyo]);
    assert!(!transfer(card(Cities::Paris), &mut from, &mut to));
    assert_eq!(from.hand().len(), 2);
    assert_eq!(to.hand().len(), 1);
    assert!(transfer(card(Cities::Lima), &mut from, &mut to));
    assert_eq!(*from.hand(), vec![card(Cities::Cairo)]);
    assert_eq!(*to.hand(), vec![card(Cities::Lima), card(Cities::Tokyo)]);
    assert!(from.may_hand_over(&to, card(Cities::Cairo)) == false);
}

#[test]
fn an_action_by_its_kind() {
    let mut board = Board::new();
    cubes(&mut board, Cities::Chicago, Color::Blue, 1);
    let mut ada = player_with(Role::Medic, &[Cities::Chicago, Cities::Lima, Cities::Tokyo]);
    let mut others = vec![Player::new("Bob", Role::Scientist)];
    assert!(ada.act(&mut board, &mut others, Action::Pass));
    assert!(!ada.act(&mut board, &mut others, Action::DriveFerry(Cities::Paris)));
    assert!(ada.act(&mut board, &mut others, Action::DriveFerry(Cities::Chicago)));
    assert!(ada.act(&mut board, &mut others, Action::TreatDisease(Color::Blue)));
    assert!(!ada.act(&mut board, &mut others, Action::TreatDisease(Color::Blue)));
    assert!(ada.act(&mut board, &mut others, Action::BuildResearchStation(None)));
    assert!(ada.act(&mut board, &mut others, Action::ShuttleFlight(Cities::Atlanta)));
    assert!(!ada.act(&mut board, &mut others, Action::CharterFlight(Cities::Paris)));
    assert!(ada.act(&mut board, &mut others, Action::DirectFlight(Cities::Lima)));
    assert!(!ada.act(&mut board, &mut others, Action::DiscoverCure(Color::Red)));
    assert!(ada.act(&mut board, &mut others, Action::DirectFlight(Cities::Tokyo)));
    assert_eq!(ada.location(), Cities::Tokyo);
    assert!(ada.hand().is_empty());
    assert!(!ada.act(
        &mut board,
        &mut others,
        Action::ShareKnowledge { partner: 0, give: true, card: card(Cities::Tokyo) }
    ));
    assert_eq!(board.player_discard().len(), 3);
    assert_eq!(others[0].location(), Cities::Atlanta);
}

#[test]
fn the_player_with_the_largest_city_begins() {
    let players = vec![
        player_with(Role::Medic, &[Cities::Essen]),
        player_with(Role::Scientist, &[Cities::Jakarta, Cities::Lima]),
        player_with(Role::Researcher, &[]),
        player_with(Role::Dispatcher, &[Cities::Delhi]),
    ];
    let order = order_players(players);
    let roles: Vec<Role> = order.iter().map(|p| p.role()).collect();
    assert_eq!(roles, vec![Role::Scientist, Role::Dispatcher, Role::Medic, Role::Researcher]);
    let mut first = Player::new("A", Role::Medic);
    first.add_to_hand(card(Cities::Lima));
    let mut second = Player::new("B", Role::Scientist);
    second.add_to_hand(card(Cities::Chicago));
    assert_eq!(first.max_population_city(), second.max_population_city());
    let order = order_players(vec![first, second]);
    assert_eq!(order[0].name(), "B");
    assert_eq!(order[1].name(), "A");
    assert!(order_players(Vec::new()).is_empty());
}

#[test]
fn dealing_goes_from_the_top_in_the_order_of_the_players() {
    let mut deck = pandemic::deck::Deck::<PlayerCard>::new();
    let mut players = vec![Player::new("A", Role::Medic), Player::new("B", Role::Scientist)];
    deck.deal(&mut players);
    assert_eq!(*players[0].hand(), vec![event(Events::ResilientPopulation)]);
    assert_eq!(*players[1].hand(), vec![event(Events::OneQuietNight)]);
    assert_eq!(deck.len(), 51);
    let mut short = pandemic::deck::Deck::<PlayerCard>::new_empty();
    short.discard_to_top(card(Cities::Lima));
    short.deal(&mut players);
    assert_eq!(players[0].hand().len(), 2);
    assert_eq!(players[1].hand().len(), 1);
    assert_eq!(short.len(), 0);
    short.deal(&mut players);
    assert_eq!(players[0].hand().len(), 2);
}

#[test]
fn a_player_can_be_copied() {
    let player = player_with(Role::Researcher, &[Cities::Lima, Cities::Cairo]);
    let copy = player.clone();
    assert_eq!(copy.name(), player.name());
    assert_eq!(copy.role(), player.role());
    assert_eq!(copy.location(), player.location());
    assert_eq!(copy.hand(), player.hand());
}

#[test]
fn sharing_keeps_the_cards_and_the_order_of_the_hands() {
    let mut ada = player_with(Role::Researcher, &[Cities::Tokyo, Cities::Lima, Cities::Paris]);
    let mut others = vec![
        player_with(Role::Medic, &[Cities::Washington, Cities::Bogota, Cities::Osaka]),
        player_with(Role::Scientist, &[Cities::Cairo]),
    ];
    assert!(ada.share_knowledge(&mut others, 0, true, card(Cities::Paris)));
    assert_eq!(*ada.hand(), vec![card(Cities::Lima), card(Cities::Tokyo)]);
    assert_eq!(
        *others[0].hand(),
        vec![
            card(Cities::Bogota),
            card(Cities::Paris),
            card(Cities::Washington),
            card(Cities::Osaka)
        ]
    );
    assert_eq!(*others[1].hand(), vec![card(Cities::Cairo)]);
    let keys: Vec<usize> = others[0].hand().iter().map(|c| c.key()).collect();
    let mut in_order = keys.clone();
    in_order.sort();
    assert_eq!(keys, in_order);
}

#[test]
fn the_board_deals_from_the_top() {
    let mut board = Board::new();
    let mut players = vec![
        player_with(Role::Medic, &[Cities::Tokyo]),
        Player::new("B", Role::Scientist),
        Player::new("C", Role::Researcher),
    ];
    board.deal(&mut players);
    assert_eq!(board.player_deck().len(), 50);
    assert_eq!(*players[0].hand(), vec![card(Cities::Tokyo), event(Events::ResilientPopulation)]);
    assert_eq!(*players[1].hand(), vec![event(Events::OneQuietNight)]);
    assert_eq!(*players[2].hand(), vec![event(Events::GovernmentGrant)]);
    assert_eq!(*board.player_deck().get(49).unwrap(), event(Events::Forecast));
    assert_eq!(*board.player_deck().get(0).unwrap(), card(Cities::Atlanta));
    let mut short = pandemic::deck::Deck::<PlayerCard>::new_empty();
    short.discard_to_top(card(Cities::Lima));
    short.discard_to_top(card(Cities::Cairo));
    let mut board = Board::with_decks(short, pandemic::deck::Deck::new_empty());
    board.deal(&mut players);
    assert_eq!(board.player_deck().len(), 0);
    assert!(players[0].holds(card(Cities::Cairo)));
    assert!(players[1].holds(card(Cities::Lima)));
    assert_eq!(players[2].hand().len(), 1);
}

#[test]
fn a_medic_who_takes_no_cube_eradicates_nothing() {
    let mut board = Board::new();
    board.cure(Color::Blue);
    board.set_research_station(Cities::Chicago, true);
    board.take_notices();
    let mut medic = Player::new("Ada", Role::Medic);
    assert!(medic.drive_ferry(&mut board, Cities::Chicago));
    assert_eq!(board.disease_state(Color::Blue), DiseaseState::Cured);
    assert!(medic.shuttle_flight(&mut board, Cities::Atlanta));
    assert_eq!(board.disease_state(Color::Blue), DiseaseState::Cured);
    medic.add_to_hand(card(Cities::Lima));
    medic.add_to_hand(card(Cities::Lima));
    assert!(medic.direct_flight(&mut board, Cities::Lima));
    medic.add_to_hand(card(Cities::Lima));
    assert!(medic.chartered_flight(&mut board, Cities::Tokyo));
    assert_eq!(board.disease_state(Color::Blue), DiseaseState::Cured);
    assert!(board.take_notices().is_empty());
    assert_eq!(board.total_cubes(Color::Blue), 0);
    // Cubes elsewhere do not matter either: only those of the city are taken.
    cubes(&mut board, Cities::Paris, Color::Blue, 2);
    assert!(medic.drive_ferry(&mut board, Cities::Osaka));
    assert_eq!(board.disease_state(Color::Blue), DiseaseState::Cured);
    assert_eq!(board.infection_count(Cities::Paris, Color::Blue), 2);
}

#[test]
fn a_cure_without_cubes_on_the_board_is_a_cure() {
    let mut board = Board::new();
    let mut player = player_with(Role::Scientist, &BLUE[0..4]);
    assert!(player.discover_cure(&mut board, Color::Blue));
    assert_eq!(board.disease_state(Color::Blue), DiseaseState::Cured);
    board.remove_cubes(Cities::Atlanta, Color::Blue, 0);
    board.clear_cured(Cities::Atlanta);
    assert_eq!(board.disease_state(Color::Blue), DiseaseState::Cured);
    assert!(!player.treat_disease(&mut board, Color::Blue));
    assert_eq!(board.disease_state(Color::Blue), DiseaseState::Cured);
    assert!(board.infect_city(Cities::Atlanta));
    assert_eq!(board.infection_count(Cities::Atlanta, Color::Blue), 1);
    assert!(player.treat_disease(&mut board, Color::Blue));
    assert_eq!(board.disease_state(Color::Blue), DiseaseState::Eradicated);
}

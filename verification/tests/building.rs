use fpl_checker::builders::{
    build_clubs_by_id, build_players_by_id, build_team_from_data, get_current_gameweek, BuildError,
};
use fpl_checker::models::{
    BootstrapData, BootstrapElement, BootstrapEvent, BootstrapTeam, Club, GameweekData,
    PickElement, PicksData, Player, Team,
};

fn element(id: i64, web_name: &str, now_cost: u64, team: i64) -> BootstrapElement {
    BootstrapElement { id, web_name: web_name.to_string(), now_cost, team }
}

fn club_record(id: i64, name: &str) -> BootstrapTeam {
    BootstrapTeam { id, name: name.to_string() }
}

fn bootstrap() -> BootstrapData {
    BootstrapData {
        elements: vec![
            element(249, "João Pedro", 75, 7),
            element(250, "Saka", 99, 1),
            element(251, "Haaland", 140, 13),
        ],
        events: vec![
            BootstrapEvent { id: 1, is_current: false },
            BootstrapEvent { id: 2, is_current: true },
        ],
        teams: vec![
            club_record(1, "Arsenal"),
            club_record(3, "Burnley"),
            club_record(6, "Brighton"),
            club_record(7, "Chelsea"),
            club_record(13, "Man City"),
        ],
    }
}

fn gameweek() -> GameweekData {
    GameweekData {
        current_event: 2,
        name: "Test FC".to_string(),
        player_first_name: "Dave".to_string(),
    }
}

#[test]
fn should_build_clubs_by_club_id_from_bootstrap_data() {
    let actual = build_clubs_by_id(&bootstrap());

    assert_eq!("Arsenal".to_string(), actual.get(&1).expect("Club not found").name);
    assert_eq!("Burnley".to_string(), actual.get(&3).expect("Club not found").name);
    assert_eq!("Brighton".to_string(), actual.get(&6).expect("Club not found").name);
    assert_eq!("Man City".to_string(), actual.get(&13).expect("Club not found").name);
}

#[test]
fn should_build_players_by_id_from_bootstrap_data() {
    let partial_expected = Player {
        id: 249,
        name: "João Pedro".to_string(),
        price_in_tenths: 75,
        club: Club { id: 7, name: "Chelsea".to_string() },
    };

    let bootstrap_data = bootstrap();
    let clubs_by_club_id = build_clubs_by_id(&bootstrap_data);
    let actual = build_players_by_id(&clubs_by_club_id, &bootstrap_data)
        .expect("Something went wrong building the player index");

    assert_eq!(actual.get(&partial_expected.id), Some(&partial_expected));
}

#[test]
fn should_build_team_from_data() {
    let bootstrap_data = bootstrap();
    let clubs_by_club_id = build_clubs_by_id(&bootstrap_data);
    let players_by_player_id = build_players_by_id(&clubs_by_club_id, &bootstrap_data)
        .expect("Something went wrong building the player index");
    let picks_data = PicksData {
        picks: vec![
            PickElement { is_captain: false, element: 249 },
            PickElement { is_captain: true, element: 250 },
        ],
    };

    let actual = build_team_from_data(2239760, &players_by_player_id, &gameweek(), &picks_data)
        .expect("Something went wrong building the team");

    let expected = Team {
        id: 2239760,
        name: "Test FC".to_string(),
        owner: "Dave".to_string(),
        captain: Player {
            id: 250,
            name: "Saka".to_string(),
            price_in_tenths: 99,
            club: Club { id: 1, name: "Arsenal".to_string() },
        },
        players: vec![
            Player {
                id: 249,
                name: "João Pedro".to_string(),
                price_in_tenths: 75,
                club: Club { id: 7, name: "Chelsea".to_string() },
            },
            Player {
                id: 250,
                name: "Saka".to_string(),
                price_in_tenths: 99,
                club: Club { id: 1, name: "Arsenal".to_string() },
            },
        ],
    };
    assert_eq!(actual, expected);
}

#[test]
fn building_players_fails_on_an_unknown_club() {
    let bootstrap_data = BootstrapData {
        elements: vec![element(300, "Nobody", 40, 99)],
        events: vec![],
        teams: vec![club_record(1, "Arsenal")],
    };
    let clubs_by_club_id = build_clubs_by_id(&bootstrap_data);

    let actual = build_players_by_id(&clubs_by_club_id, &bootstrap_data);

    assert_eq!(actual, Err(BuildError::ClubNotFound(99)));
}

#[test]
fn building_a_team_fails_on_an_unknown_player() {
    let bootstrap_data = bootstrap();
    let clubs_by_club_id = build_clubs_by_id(&bootstrap_data);
    let players_by_player_id = build_players_by_id(&clubs_by_club_id, &bootstrap_data)
        .expect("Something went wrong building the player index");
    let picks_data = PicksData { picks: vec![PickElement { is_captain: false, element: 9999 }] };

    let actual = build_team_from_data(1, &players_by_player_id, &gameweek(), &picks_data);

    assert_eq!(actual, Err(BuildError::PlayerNotFound(9999)));
}

#[test]
fn current_gameweek_is_the_first_event_flagged_current() {
    assert_eq!(get_current_gameweek(&bootstrap()), Ok(2));

    let two_current = BootstrapData {
        elements: vec![],
        events: vec![
            BootstrapEvent { id: 1, is_current: false },
            BootstrapEvent { id: 2, is_current: true },
            BootstrapEvent { id: 3, is_current: true },
        ],
        teams: vec![],
    };
    assert_eq!(get_current_gameweek(&two_current), Ok(2));
}

#[test]
fn no_current_gameweek_is_an_error() {
    let none_current = BootstrapData {
        elements: vec![],
        events: vec![BootstrapEvent { id: 1, is_current: false }],
        teams: vec![],
    };
    assert_eq!(get_current_gameweek(&none_current), Err(BuildError::NoCurrentGameweek));
}

#[test]
fn captain_is_the_player_whose_pick_is_flagged() {
    let bootstrap_data = bootstrap();
    let clubs_by_club_id = build_clubs_by_id(&bootstrap_data);
    let players_by_player_id = build_players_by_id(&clubs_by_club_id, &bootstrap_data)
        .expect("Something went wrong building the player index");
    let picks_data = PicksData {
        picks: vec![
            PickElement { is_captain: false, element: 250 },
            PickElement { is_captain: true, element: 249 },
            PickElement { is_captain: false, element: 251 },
        ],
    };

    let team = build_team_from_data(1, &players_by_player_id, &gameweek(), &picks_data)
        .expect("Something went wrong building the team");

    assert_eq!(team.captain, team.players[1]);
    assert_eq!(team.captain.id, 249);
}

#[test]
fn captain_defaults_to_the_placeholder_when_no_pick_is_flagged() {
    let bootstrap_data = bootstrap();
    let clubs_by_club_id = build_clubs_by_id(&bootstrap_data);
    let players_by_player_id = build_players_by_id(&clubs_by_club_id, &bootstrap_data)
        .expect("Something went wrong building the player index");
    let picks_data = PicksData { picks: vec![PickElement { is_captain: false, element: 249 }] };

    let team = build_team_from_data(1, &players_by_player_id, &gameweek(), &picks_data)
        .expect("Something went wrong building the team");

    assert_eq!(team.captain, Player::default());
}

#[test]
fn the_last_flagged_captain_wins() {
    let bootstrap_data = bootstrap();
    let clubs_by_club_id = build_clubs_by_id(&bootstrap_data);
    let players_by_player_id = build_players_by_id(&clubs_by_club_id, &bootstrap_data)
        .expect("Something went wrong building the player index");
    let picks_data = PicksData {
        picks: vec![
            PickElement { is_captain: true, element: 249 },
            PickElement { is_captain: true, element: 250 },
        ],
    };

    let team = build_team_from_data(1, &players_by_player_id, &gameweek(), &picks_data)
        .expect("Something went wrong building the team");

    assert_eq!(team.captain.id, 250);
}

#[test]
fn a_later_club_record_with_the_same_id_wins() {
    let bootstrap_data = BootstrapData {
        elements: vec![],
        events: vec![],
        teams: vec![club_record(1, "Arsenal"), club_record(1, "Woolwich Arsenal")],
    };
    let actual = build_clubs_by_id(&bootstrap_data);

    assert_eq!("Woolwich Arsenal".to_string(), actual.get(&1).expect("Club not found").name);
    assert_eq!(actual.len(), 1);
}

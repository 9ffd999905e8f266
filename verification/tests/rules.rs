use std::collections::HashMap;

use fpl_checker::builders::build_clubs_by_id;
use fpl_checker::models::{
    BootstrapData, BootstrapElement, BootstrapEvent, BootstrapTeam, Club, Player, Team,
    ValidationResult,
};
use fpl_checker::validators::{
    run_validators_and_retain_violations, team_contains_at_most_one_player_per_club,
    team_contains_players_from_newly_promoted_clubs, team_contains_players_under_10_m,
};

fn player(id: i64, name: &str, price_in_tenths: u64, club_id: i64, club_name: &str) -> Player {
    Player {
        id,
        name: name.to_string(),
        price_in_tenths,
        club: Club { id: club_id, name: club_name.to_string() },
    }
}

fn team_of(players: Vec<Player>) -> Team {
    Team {
        id: 1,
        name: "Test FC".to_string(),
        owner: "Dave".to_string(),
        captain: players[0].clone(),
        players,
    }
}

fn bootstrap() -> BootstrapData {
    BootstrapData {
        elements: vec![BootstrapElement {
            id: 249,
            web_name: "João Pedro".to_string(),
            now_cost: 75,
            team: 7,
        }],
        events: vec![
            BootstrapEvent { id: 1, is_current: false },
            BootstrapEvent { id: 2, is_current: true },
        ],
        teams: vec![
            BootstrapTeam { id: 1, name: "Arsenal".to_string() },
            BootstrapTeam { id: 3, name: "Burnley".to_string() },
            BootstrapTeam { id: 6, name: "Brighton".to_string() },
            BootstrapTeam { id: 7, name: "Chelsea".to_string() },
            BootstrapTeam { id: 11, name: "Leeds".to_string() },
            BootstrapTeam { id: 13, name: "Man City".to_string() },
            BootstrapTeam { id: 14, name: "Man Utd".to_string() },
            BootstrapTeam { id: 17, name: "Sunderland".to_string() },
        ],
    }
}

/// A team that passes all three rules: distinct clubs, every price under
/// ten million, and the newly promoted clubs 3, 11 and 17 all represented.
fn valid_team() -> Team {
    team_of(vec![
        player(101, "Foster", 45, 3, "Burnley"),
        player(102, "Gruev", 50, 11, "Leeds"),
        player(103, "Mayenda", 55, 17, "Sunderland"),
        player(104, "Saka", 99, 1, "Arsenal"),
        player(105, "Caicedo", 70, 7, "Chelsea"),
    ])
}

#[test]
fn should_fail_if_team_has_more_than_one_player_from_a_club() {
    let team = team_of(vec![
        player(1, "Gabriel", 62, 1, "Arsenal"),
        player(2, "Gyökeres", 90, 1, "Arsenal"),
    ]);
    let actual = team_contains_at_most_one_player_per_club(&team);

    assert!(!actual.is_valid);
    assert!(actual
        .reason
        .ends_with("Dave has shat the bed. Test FC contains more than 1 player from Arsenal (Gabriel and Gyökeres)"));
}

#[test]
fn should_fail_if_team_has_more_than_a_few_players_from_multiple_clubs() {
    let team = team_of(vec![
        player(1, "Sánchez", 50, 7, "Chelsea"),
        player(2, "João Pedro", 75, 7, "Chelsea"),
        player(3, "Gabriel", 62, 1, "Arsenal"),
        player(4, "Saliba", 60, 1, "Arsenal"),
        player(5, "Gyökeres", 90, 1, "Arsenal"),
        player(6, "Yoro", 45, 14, "Man Utd"),
        player(7, "Mbeumo", 80, 14, "Man Utd"),
    ]);
    let actual = team_contains_at_most_one_player_per_club(&team);

    assert!(!actual.is_valid);
    assert!(actual
        .reason
        .contains("more than 1 player from Chelsea (Sánchez and João Pedro) more than 1 player from Arsenal (Gabriel, Saliba and Gyökeres) more than 1 player from Man Utd (Yoro and Mbeumo)"));
}

#[test]
fn should_pass_if_team_does_not_have_more_than_one_player_from_a_club() {
    let team = valid_team();
    let actual = team_contains_at_most_one_player_per_club(&team);
    let expected = ValidationResult::valid();

    assert_eq!(actual, expected);
}

#[test]
fn should_fail_if_team_has_player_above_price_limit() {
    let team = team_of(vec![
        player(1, "Saka", 99, 1, "Arsenal"),
        player(2, "Haaland", 140, 13, "Man City"),
    ]);
    let actual = team_contains_players_under_10_m(&team);

    assert!(!actual.is_valid);
    assert!(actual.reason.ends_with("Dave has gone overbudget with Haaland (14m)"));
}

#[test]
fn should_produce_multiple_failures_if_team_has_more_than_1_player_above_price_limit() {
    let team = team_of(vec![
        player(1, "Palmer", 105, 7, "Chelsea"),
        player(2, "Haaland", 140, 13, "Man City"),
    ]);
    let actual = team_contains_players_under_10_m(&team);

    assert!(!actual.is_valid);
    assert!(actual.reason.contains("has gone overbudget with Palmer (10.5m) and Haaland (14m)"));
}

#[test]
fn should_pass_if_team_has_players_under_price_limit() {
    let team = valid_team();
    let actual = team_contains_players_under_10_m(&team);
    let expected = ValidationResult::valid();

    assert_eq!(actual, expected);
}

#[test]
fn should_fail_if_team_does_not_have_players_from_newly_promoted_clubs() {
    let team = team_of(vec![
        player(102, "Gruev", 50, 11, "Leeds"),
        player(103, "Mayenda", 55, 17, "Sunderland"),
        player(104, "Saka", 99, 1, "Arsenal"),
    ]);
    let clubs_by_club_id = build_clubs_by_id(&bootstrap());
    let actual = team_contains_players_from_newly_promoted_clubs(&clubs_by_club_id, &team);

    assert!(!actual.is_valid);
    assert!(actual.reason.ends_with("Dave has not included players from Burnley"));
}

#[test]
fn should_pass_if_team_has_players_from_newly_promoted_clubs() {
    let team = valid_team();
    let clubs_by_club_id = build_clubs_by_id(&bootstrap());
    let actual = team_contains_players_from_newly_promoted_clubs(&clubs_by_club_id, &team);
    let expected = ValidationResult::valid();

    assert_eq!(actual, expected);
}

#[test]
fn should_pass_all_validation_rules_if_valid() {
    let clubs_by_club_id = build_clubs_by_id(&bootstrap());
    let team = valid_team();
    let mut validation_results: Vec<ValidationResult> = Vec::new();

    let violations =
        run_validators_and_retain_violations(&clubs_by_club_id, &mut validation_results, &team);

    assert!(violations.is_empty());
}

#[test]
fn aggregator_returns_only_the_failing_rules() {
    // Fails the price ceiling (Haaland) and the promoted-clubs rule (no
    // Burnley player), passes the one-player-per-club rule.
    let clubs_by_club_id = build_clubs_by_id(&bootstrap());
    let team = team_of(vec![
        player(1, "Haaland", 140, 13, "Man City"),
        player(102, "Gruev", 50, 11, "Leeds"),
        player(103, "Mayenda", 55, 17, "Sunderland"),
    ]);
    let mut validation_results: Vec<ValidationResult> = Vec::new();

    let violations =
        run_validators_and_retain_violations(&clubs_by_club_id, &mut validation_results, &team);

    assert_eq!(violations.len(), 2);
    assert!(violations.iter().all(|v| !v.is_valid));
    assert!(violations[0].reason.contains("has gone overbudget with Haaland (14m)"));
    assert!(violations[1].reason.contains("has not included players from Burnley"));
    assert_eq!(validation_results, violations);
}

#[test]
fn aggregator_does_not_return_earlier_teams_violations() {
    // A prior failing entry sits in the accumulator; a fully valid team
    // must come back with no violations of its own.
    let clubs_by_club_id = build_clubs_by_id(&bootstrap());
    let team = valid_team();
    let mut validation_results = vec![ValidationResult::invalid("an earlier team's violation")];

    let violations =
        run_validators_and_retain_violations(&clubs_by_club_id, &mut validation_results, &team);

    assert!(violations.is_empty());
    assert_eq!(validation_results, vec![ValidationResult::invalid("an earlier team's violation")]);
}

#[test]
fn promoted_club_represented_in_team_needs_no_index_entry() {
    // Club 3 is missing from the club index, but the team fields a player
    // from it, so the rule never needs to name it.
    let bootstrap_data = BootstrapData {
        elements: vec![],
        events: vec![],
        teams: vec![
            BootstrapTeam { id: 11, name: "Leeds".to_string() },
            BootstrapTeam { id: 17, name: "Sunderland".to_string() },
        ],
    };
    let clubs_by_club_id = build_clubs_by_id(&bootstrap_data);
    let team = valid_team();
    let actual = team_contains_players_from_newly_promoted_clubs(&clubs_by_club_id, &team);

    assert_eq!(actual, ValidationResult::valid());
}

#[test]
fn violation_reasons_open_with_a_configured_prefix() {
    let team = team_of(vec![player(1, "Haaland", 140, 13, "Man City")]);
    let actual = team_contains_players_under_10_m(&team);

    assert!(
        actual.reason.starts_with("Big wompers! ") || actual.reason.starts_with("Yikes! "),
        "unexpected prefix in: {}",
        actual.reason
    );
}

#[test]
fn overbudget_players_are_reported_once_per_name() {
    let team = team_of(vec![
        player(1, "Haaland", 140, 13, "Man City"),
        player(2, "Haaland", 140, 13, "Man City"),
    ]);
    let actual = team_contains_players_under_10_m(&team);

    assert!(!actual.is_valid);
    assert!(actual.reason.contains("has gone overbudget with Haaland (14m)"));
    assert_eq!(actual.reason.matches("Haaland").count(), 1);
}

#[test]
fn repeated_overbudget_name_keeps_first_position_and_latest_price() {
    let team = team_of(vec![
        player(1, "Palmer", 105, 7, "Chelsea"),
        player(2, "Haaland", 140, 13, "Man City"),
        player(3, "Palmer", 120, 1, "Arsenal"),
    ]);
    let actual = team_contains_players_under_10_m(&team);

    assert!(!actual.is_valid);
    assert!(actual.reason.contains("has gone overbudget with Palmer (12m) and Haaland (14m)"));
}

#[test]
fn promoted_club_check_requires_the_club_index() {
    // The rule's message resolves the missing club's name in the club
    // index, so the index must hold every mandated id; a map built from the
    // full bootstrap does.
    let clubs_by_club_id: HashMap<i64, Club> = build_clubs_by_id(&bootstrap());
    assert!(clubs_by_club_id.contains_key(&3));
    assert!(clubs_by_club_id.contains_key(&11));
    assert!(clubs_by_club_id.contains_key(&17));
}

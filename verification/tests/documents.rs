use fpl_checker::api::{
    bootstrap_from_document, gameweek_from_document, picks_from_document, FetchError,
    JsonDocument, JsonMember, JsonRecord, JsonScalar,
};

fn scalar(key: &str, value: JsonScalar) -> (String, JsonMember) {
    (key.to_string(), JsonMember::Scalar(value))
}

fn records(key: &str, records: Vec<JsonRecord>) -> (String, JsonMember) {
    (key.to_string(), JsonMember::Records(records))
}

fn record(fields: Vec<(&str, JsonScalar)>) -> JsonRecord {
    JsonRecord { fields: fields.into_iter().map(|(k, v)| (k.to_string(), v)).collect() }
}

#[test]
fn gameweek_document_extracts_all_members() {
    let doc = JsonDocument {
        members: vec![
            scalar("current_event", JsonScalar::Int(7)),
            scalar("name", JsonScalar::Str("Test FC".to_string())),
            scalar("player_first_name", JsonScalar::Str("Dave".to_string())),
        ],
    };
    let g = gameweek_from_document(&doc).expect("expected a gameweek");
    assert_eq!(g.current_event, 7);
    assert_eq!(g.name, "Test FC");
    assert_eq!(g.player_first_name, "Dave");
}

#[test]
fn gameweek_document_missing_member_is_malformed() {
    let doc = JsonDocument {
        members: vec![
            scalar("current_event", JsonScalar::Int(7)),
            scalar("name", JsonScalar::Str("Test FC".to_string())),
        ],
    };
    assert_eq!(gameweek_from_document(&doc), Err(FetchError::Malformed));
}

#[test]
fn gameweek_document_wrong_member_kind_is_malformed() {
    let doc = JsonDocument {
        members: vec![
            scalar("current_event", JsonScalar::Str("seven".to_string())),
            scalar("name", JsonScalar::Str("Test FC".to_string())),
            scalar("player_first_name", JsonScalar::Str("Dave".to_string())),
        ],
    };
    assert_eq!(gameweek_from_document(&doc), Err(FetchError::Malformed));
}

#[test]
fn picks_document_preserves_pick_order() {
    let doc = JsonDocument {
        members: vec![records(
            "picks",
            vec![
                record(vec![
                    ("element", JsonScalar::Int(249)),
                    ("is_captain", JsonScalar::Bool(false)),
                ]),
                record(vec![
                    ("element", JsonScalar::Int(250)),
                    ("is_captain", JsonScalar::Bool(true)),
                ]),
            ],
        )],
    };
    let p = picks_from_document(&doc).expect("expected picks");
    assert_eq!(p.picks.len(), 2);
    assert_eq!(p.picks[0].element, 249);
    assert!(!p.picks[0].is_captain);
    assert_eq!(p.picks[1].element, 250);
    assert!(p.picks[1].is_captain);
}

#[test]
fn picks_document_with_a_bad_record_is_malformed() {
    let doc = JsonDocument {
        members: vec![records(
            "picks",
            vec![record(vec![("element", JsonScalar::Int(249))])],
        )],
    };
    assert_eq!(picks_from_document(&doc), Err(FetchError::Malformed));
}

#[test]
fn bootstrap_document_extracts_all_record_lists() {
    let doc = JsonDocument {
        members: vec![
            records(
                "elements",
                vec![record(vec![
                    ("id", JsonScalar::Int(249)),
                    ("web_name", JsonScalar::Str("João Pedro".to_string())),
                    ("now_cost", JsonScalar::Int(75)),
                    ("team", JsonScalar::Int(7)),
                ])],
            ),
            records(
                "events",
                vec![record(vec![
                    ("id", JsonScalar::Int(2)),
                    ("is_current", JsonScalar::Bool(true)),
                ])],
            ),
            records(
                "teams",
                vec![record(vec![
                    ("id", JsonScalar::Int(7)),
                    ("name", JsonScalar::Str("Chelsea".to_string())),
                ])],
            ),
        ],
    };
    let b = bootstrap_from_document(&doc).expect("expected bootstrap data");
    assert_eq!(b.elements.len(), 1);
    assert_eq!(b.elements[0].id, 249);
    assert_eq!(b.elements[0].web_name, "João Pedro");
    assert_eq!(b.elements[0].now_cost, 75);
    assert_eq!(b.elements[0].team, 7);
    assert_eq!(b.events.len(), 1);
    assert!(b.events[0].is_current);
    assert_eq!(b.teams.len(), 1);
    assert_eq!(b.teams[0].name, "Chelsea");
}

#[test]
fn bootstrap_document_negative_cost_is_malformed() {
    let doc = JsonDocument {
        members: vec![
            records(
                "elements",
                vec![record(vec![
                    ("id", JsonScalar::Int(249)),
                    ("web_name", JsonScalar::Str("João Pedro".to_string())),
                    ("now_cost", JsonScalar::Int(-75)),
                    ("team", JsonScalar::Int(7)),
                ])],
            ),
            records("events", vec![]),
            records("teams", vec![]),
        ],
    };
    assert_eq!(bootstrap_from_document(&doc), Err(FetchError::Malformed));
}

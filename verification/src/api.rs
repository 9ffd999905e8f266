//! Fetching the upstream documents.
//!
//! The HTTP fetch itself and the JSON parse are outside collaborators: the
//! fetch goes through `ureq` and hands back a `serde_json::Value`, which is
//! opaque here. That value is converted — one trusted, promise-free step —
//! into the crate's own document model: a flat object of members, each a
//! scalar or a list of flat records. Everything downstream of the
//! conversion is verified: the request URLs are pinned digit by digit, and
//! the walk from a document to the crate's data types carries exact
//! contracts over the document's members.

use vstd::prelude::*;

use crate::models::{
    BootstrapData, BootstrapElement, BootstrapEvent, BootstrapTeam, GameweekData, PickElement,
    PicksData,
};
use crate::text::{i64_to_string, int_str};

verus! {

/// Why a fetch produced no document.
#[derive(Debug, PartialEq, Eq, Structural, Clone, Copy)]
pub enum FetchError {
    /// The request failed: transport error or an error status.
    Http,
    /// The response was not the JSON shape this document must have.
    Malformed,
}

// ---------------------------------------------------------------------------
// Request URLs
// ---------------------------------------------------------------------------

/// The URL of the bootstrap snapshot.
pub open spec fn bootstrap_url() -> Seq<char> {
    "https://fantasy.premierleague.com/api/bootstrap-static/"@
}

/// The URL of a team's gameweek metadata document.
pub open spec fn entry_url(team_id: int) -> Seq<char> {
    "https://fantasy.premierleague.com/api/entry/"@ + int_str(team_id) + "/"@
}

/// The URL of a team's picks document for one event.
pub open spec fn picks_url(team_id: int, event: int) -> Seq<char> {
    "https://fantasy.premierleague.com/api/entry/"@ + int_str(team_id) + "/event/"@ + int_str(
        event,
    ) + "/picks/"@
}

/// Renders the bootstrap-snapshot URL.
pub fn bootstrap_url_string() -> (r: String)
    ensures
        r@ == bootstrap_url(),
{
    String::from_str("https://fantasy.premierleague.com/api/bootstrap-static/")
}

/// Renders a team's gameweek-metadata URL.
pub fn entry_url_string(team_id: i64) -> (r: String)
    ensures
        r@ == entry_url(team_id as int),
{
    let mut url = String::from_str("https://fantasy.premierleague.com/api/entry/");
    url.append(i64_to_string(team_id).as_str());
    url.append("/");
    url
}

/// Renders a team's picks URL for one event.
pub fn picks_url_string(team_id: i64, event: i64) -> (r: String)
    ensures
        r@ == picks_url(team_id as int, event as int),
{
    let mut url = String::from_str("https://fantasy.premierleague.com/api/entry/");
    url.append(i64_to_string(team_id).as_str());
    url.append("/event/");
    url.append(i64_to_string(event).as_str());
    url.append("/picks/");
    url
}

// ---------------------------------------------------------------------------
// The document model
// ---------------------------------------------------------------------------

/// One JSON scalar as the fetched documents carry them. `Other` stands for
/// anything that is none of these: a fractional number, a nested array or
/// object where a scalar was found.
#[derive(Debug, PartialEq, Eq)]
pub enum JsonScalar {
    Null,
    Bool(bool),
    /// An integer representable as `i64`.
    Int(i64),
    /// A non-negative integer too large for `i64`.
    UInt(u64),
    Str(String),
    Other,
}

/// Mathematical model of a [`JsonScalar`].
pub ghost enum JsonScalarView {
    Null,
    Bool(bool),
    Int(int),
    UInt(int),
    Str(Seq<char>),
    Other,
}

impl View for JsonScalar {
    type V = JsonScalarView;

    open spec fn view(&self) -> JsonScalarView {
        match self {
            JsonScalar::Null => JsonScalarView::Null,
            JsonScalar::Bool(b) => JsonScalarView::Bool(*b),
            JsonScalar::Int(n) => JsonScalarView::Int(*n as int),
            JsonScalar::UInt(n) => JsonScalarView::UInt(*n as int),
            JsonScalar::Str(s) => JsonScalarView::Str(s@),
            JsonScalar::Other => JsonScalarView::Other,
        }
    }
}

impl DeepView for JsonScalar {
    type V = JsonScalarView;

    open spec fn deep_view(&self) -> JsonScalarView {
        self.view()
    }
}

/// One flat record of a fetched document: named scalar fields, in document
/// order.
#[derive(Debug, PartialEq, Eq)]
pub struct JsonRecord {
    pub fields: Vec<(String, JsonScalar)>,
}

impl View for JsonRecord {
    type V = Seq<(Seq<char>, JsonScalarView)>;

    open spec fn view(&self) -> Seq<(Seq<char>, JsonScalarView)> {
        self.fields.deep_view()
    }
}

impl DeepView for JsonRecord {
    type V = Seq<(Seq<char>, JsonScalarView)>;

    open spec fn deep_view(&self) -> Seq<(Seq<char>, JsonScalarView)> {
        self.view()
    }
}

/// One top-level member of a fetched document: a scalar, a list of flat
/// records, or anything else.
#[derive(Debug, PartialEq, Eq)]
pub enum JsonMember {
    Scalar(JsonScalar),
    Records(Vec<JsonRecord>),
    Other,
}

/// Mathematical model of a [`JsonMember`].
pub ghost enum JsonMemberView {
    Scalar(JsonScalarView),
    Records(Seq<Seq<(Seq<char>, JsonScalarView)>>),
    Other,
}

impl View for JsonMember {
    type V = JsonMemberView;

    open spec fn view(&self) -> JsonMemberView {
        match self {
            JsonMember::Scalar(s) => JsonMemberView::Scalar(s@),
            JsonMember::Records(rs) => JsonMemberView::Records(rs.deep_view()),
            JsonMember::Other => JsonMemberView::Other,
        }
    }
}

impl DeepView for JsonMember {
    type V = JsonMemberView;

    open spec fn deep_view(&self) -> JsonMemberView {
        self.view()
    }
}

/// A fetched document: a flat object of named members, in document order.
#[derive(Debug, PartialEq, Eq)]
pub struct JsonDocument {
    pub members: Vec<(String, JsonMember)>,
}

impl View for JsonDocument {
    type V = Seq<(Seq<char>, JsonMemberView)>;

    open spec fn view(&self) -> Seq<(Seq<char>, JsonMemberView)> {
        self.members.deep_view()
    }
}

// ---------------------------------------------------------------------------
// Reading a document's members
// ---------------------------------------------------------------------------

/// The first member under this key, scanning from position `i`.
pub open spec fn member_lookup_from(
    members: Seq<(Seq<char>, JsonMemberView)>,
    key: Seq<char>,
    i: int,
) -> Option<JsonMemberView>
    decreases members.len() - i,
{
    if i < 0 || i >= members.len() {
        None
    } else if members[i].0 == key {
        Some(members[i].1)
    } else {
        member_lookup_from(members, key, i + 1)
    }
}

/// The first member under this key.
pub open spec fn member_lookup(
    members: Seq<(Seq<char>, JsonMemberView)>,
    key: Seq<char>,
) -> Option<JsonMemberView> {
    member_lookup_from(members, key, 0)
}

/// The first field under this key, scanning from position `i`.
pub open spec fn field_lookup_from(
    fields: Seq<(Seq<char>, JsonScalarView)>,
    key: Seq<char>,
    i: int,
) -> Option<JsonScalarView>
    decreases fields.len() - i,
{
    if i < 0 || i >= fields.len() {
        None
    } else if fields[i].0 == key {
        Some(fields[i].1)
    } else {
        field_lookup_from(fields, key, i + 1)
    }
}

/// The first field under this key.
pub open spec fn field_lookup(
    fields: Seq<(Seq<char>, JsonScalarView)>,
    key: Seq<char>,
) -> Option<JsonScalarView> {
    field_lookup_from(fields, key, 0)
}

/// A record field read as a signed integer, as `as_i64` reads it.
pub open spec fn i64_field(fields: Seq<(Seq<char>, JsonScalarView)>, key: Seq<char>) -> Option<
    int,
> {
    match field_lookup(fields, key) {
        Some(JsonScalarView::Int(n)) => Some(n),
        _ => None,
    }
}

/// A record field read as a non-negative integer, as `as_u64` reads it.
pub open spec fn u64_field(fields: Seq<(Seq<char>, JsonScalarView)>, key: Seq<char>) -> Option<
    int,
> {
    match field_lookup(fields, key) {
        Some(JsonScalarView::Int(n)) => if n >= 0 {
            Some(n)
        } else {
            None
        },
        Some(JsonScalarView::UInt(n)) => Some(n),
        _ => None,
    }
}

/// A record field read as a boolean.
pub open spec fn bool_field(fields: Seq<(Seq<char>, JsonScalarView)>, key: Seq<char>) -> Option<
    bool,
> {
    match field_lookup(fields, key) {
        Some(JsonScalarView::Bool(b)) => Some(b),
        _ => None,
    }
}

/// A record field read as a string.
pub open spec fn str_field(fields: Seq<(Seq<char>, JsonScalarView)>, key: Seq<char>) -> Option<
    Seq<char>,
> {
    match field_lookup(fields, key) {
        Some(JsonScalarView::Str(s)) => Some(s),
        _ => None,
    }
}

/// A top-level member read as a signed integer.
pub open spec fn i64_member(doc: Seq<(Seq<char>, JsonMemberView)>, key: Seq<char>) -> Option<int> {
    match member_lookup(doc, key) {
        Some(JsonMemberView::Scalar(JsonScalarView::Int(n))) => Some(n),
        _ => None,
    }
}

/// A top-level member read as a string.
pub open spec fn str_member(doc: Seq<(Seq<char>, JsonMemberView)>, key: Seq<char>) -> Option<
    Seq<char>,
> {
    match member_lookup(doc, key) {
        Some(JsonMemberView::Scalar(JsonScalarView::Str(s))) => Some(s),
        _ => None,
    }
}

/// A top-level member read as a list of records.
pub open spec fn records_member(doc: Seq<(Seq<char>, JsonMemberView)>, key: Seq<char>) -> Option<
    Seq<Seq<(Seq<char>, JsonScalarView)>>,
> {
    match member_lookup(doc, key) {
        Some(JsonMemberView::Records(rs)) => Some(rs),
        _ => None,
    }
}

/// Finds the first member under this key.
#[verifier::loop_isolation(false)]
fn lookup_member<'a>(members: &'a Vec<(String, JsonMember)>, key: &String) -> (r: Option<
    &'a JsonMember,
>)
    ensures
        match r {
            Some(m) => member_lookup(members.deep_view(), key@) == Some(m.deep_view()),
            None => member_lookup(members.deep_view(), key@) is None,
        },
{
    for i in 0..members.len()
        invariant
            member_lookup(members.deep_view(), key@) == member_lookup_from(
                members.deep_view(),
                key@,
                i as int,
            ),
    {
        if members[i].0 == *key {
            return Some(&members[i].1);
        }
    }
    None
}

/// Finds the first field under this key.
#[verifier::loop_isolation(false)]
fn lookup_field<'a>(fields: &'a Vec<(String, JsonScalar)>, key: &String) -> (r: Option<
    &'a JsonScalar,
>)
    ensures
        match r {
            Some(s) => field_lookup(fields.deep_view(), key@) == Some(s.deep_view()),
            None => field_lookup(fields.deep_view(), key@) is None,
        },
{
    for i in 0..fields.len()
        invariant
            field_lookup(fields.deep_view(), key@) == field_lookup_from(
                fields.deep_view(),
                key@,
                i as int,
            ),
    {
        if fields[i].0 == *key {
            return Some(&fields[i].1);
        }
    }
    None
}

/// Reads a record field as a signed integer.
fn record_i64(fields: &Vec<(String, JsonScalar)>, key: &String) -> (r: Option<i64>)
    ensures
        match r {
            Some(n) => i64_field(fields.deep_view(), key@) == Some(n as int),
            None => i64_field(fields.deep_view(), key@) is None,
        },
{
    match lookup_field(fields, key) {
        Some(JsonScalar::Int(n)) => Some(*n),
        _ => None,
    }
}

/// Reads a record field as a non-negative integer.
fn record_u64(fields: &Vec<(String, JsonScalar)>, key: &String) -> (r: Option<u64>)
    ensures
        match r {
            Some(n) => u64_field(fields.deep_view(), key@) == Some(n as int),
            None => u64_field(fields.deep_view(), key@) is None,
        },
{
    match lookup_field(fields, key) {
        Some(JsonScalar::Int(n)) => if *n >= 0 {
            Some(*n as u64)
        } else {
            None
        },
        Some(JsonScalar::UInt(n)) => Some(*n),
        _ => None,
    }
}

/// Reads a record field as a boolean.
fn record_bool(fields: &Vec<(String, JsonScalar)>, key: &String) -> (r: Option<bool>)
    ensures
        match r {
            Some(b) => bool_field(fields.deep_view(), key@) == Some(b),
            None => bool_field(fields.deep_view(), key@) is None,
        },
{
    match lookup_field(fields, key) {
        Some(JsonScalar::Bool(b)) => Some(*b),
        _ => None,
    }
}

/// Reads a record field as a string.
fn record_str(fields: &Vec<(String, JsonScalar)>, key: &String) -> (r: Option<String>)
    ensures
        match r {
            Some(s) => str_field(fields.deep_view(), key@) == Some(s@),
            None => str_field(fields.deep_view(), key@) is None,
        },
{
    match lookup_field(fields, key) {
        Some(JsonScalar::Str(s)) => Some(s.clone()),
        _ => None,
    }
}

/// Reads a top-level member as a signed integer.
fn document_i64(doc: &JsonDocument, key: &String) -> (r: Option<i64>)
    ensures
        match r {
            Some(n) => i64_member(doc@, key@) == Some(n as int),
            None => i64_member(doc@, key@) is None,
        },
{
    match lookup_member(&doc.members, key) {
        Some(JsonMember::Scalar(JsonScalar::Int(n))) => Some(*n),
        _ => None,
    }
}

/// Reads a top-level member as a string.
fn document_str(doc: &JsonDocument, key: &String) -> (r: Option<String>)
    ensures
        match r {
            Some(s) => str_member(doc@, key@) == Some(s@),
            None => str_member(doc@, key@) is None,
        },
{
    match lookup_member(&doc.members, key) {
        Some(JsonMember::Scalar(JsonScalar::Str(s))) => Some(s.clone()),
        _ => None,
    }
}

/// Reads a top-level member as a list of records.
fn document_records<'a>(doc: &'a JsonDocument, key: &String) -> (r: Option<&'a Vec<JsonRecord>>)
    ensures
        match r {
            Some(rs) => records_member(doc@, key@) == Some(rs.deep_view()),
            None => records_member(doc@, key@) is None,
        },
{
    match lookup_member(&doc.members, key) {
        Some(JsonMember::Records(rs)) => Some(rs),
        _ => None,
    }
}

// ---------------------------------------------------------------------------
// Extracting the crate's data types from a document
// ---------------------------------------------------------------------------

/// The pick one record describes: its `element` id and captain flag.
pub open spec fn pick_of_record(fields: Seq<(Seq<char>, JsonScalarView)>) -> Option<(int, bool)> {
    match (i64_field(fields, "element"@), bool_field(fields, "is_captain"@)) {
        (Some(e), Some(c)) => Some((e, c)),
        _ => None,
    }
}

/// The player one bootstrap record describes: id, web name, price in
/// tenths, and team id.
pub open spec fn element_of_record(fields: Seq<(Seq<char>, JsonScalarView)>) -> Option<
    (int, Seq<char>, int, int),
> {
    match (
        i64_field(fields, "id"@),
        str_field(fields, "web_name"@),
        u64_field(fields, "now_cost"@),
        i64_field(fields, "team"@),
    ) {
        (Some(id), Some(w), Some(nc), Some(t)) => Some((id, w, nc, t)),
        _ => None,
    }
}

/// The gameweek event one bootstrap record describes: id and current flag.
pub open spec fn event_of_record(fields: Seq<(Seq<char>, JsonScalarView)>) -> Option<(int, bool)> {
    match (i64_field(fields, "id"@), bool_field(fields, "is_current"@)) {
        (Some(id), Some(c)) => Some((id, c)),
        _ => None,
    }
}

/// The club one bootstrap record describes: id and name.
pub open spec fn club_of_record(fields: Seq<(Seq<char>, JsonScalarView)>) -> Option<
    (int, Seq<char>),
> {
    match (i64_field(fields, "id"@), str_field(fields, "name"@)) {
        (Some(id), Some(n)) => Some((id, n)),
        _ => None,
    }
}

/// Turns a gameweek-metadata document into [`GameweekData`]: succeeds
/// exactly when the document has an integer `current_event` and string
/// `name` and `player_first_name` members, and copies them.
pub fn gameweek_from_document(doc: &JsonDocument) -> (r: Result<GameweekData, FetchError>)
    ensures
        match r {
            Ok(g) => {
                &&& i64_member(doc@, "current_event"@) == Some(g.current_event as int)
                &&& str_member(doc@, "name"@) == Some(g.name@)
                &&& str_member(doc@, "player_first_name"@) == Some(g.player_first_name@)
            },
            Err(FetchError::Malformed) => {
                ||| i64_member(doc@, "current_event"@) is None
                ||| str_member(doc@, "name"@) is None
                ||| str_member(doc@, "player_first_name"@) is None
            },
            Err(_) => false,
        },
{
    let current_event = match document_i64(doc, &String::from_str("current_event")) {
        Some(n) => n,
        None => {
            return Err(FetchError::Malformed);
        },
    };
    let name = match document_str(doc, &String::from_str("name")) {
        Some(s) => s,
        None => {
            return Err(FetchError::Malformed);
        },
    };
    let player_first_name = match document_str(doc, &String::from_str("player_first_name")) {
        Some(s) => s,
        None => {
            return Err(FetchError::Malformed);
        },
    };
    Ok(GameweekData { current_event, name, player_first_name })
}

/// Turns a picks document into [`PicksData`]: succeeds exactly when the
/// document has a `picks` record list whose every record carries an
/// `element` id and an `is_captain` flag, and copies the picks in order.
#[verifier::loop_isolation(false)]
pub fn picks_from_document(doc: &JsonDocument) -> (r: Result<PicksData, FetchError>)
    ensures
        match r {
            Ok(p) => match records_member(doc@, "picks"@) {
                Some(recs) => {
                    &&& p.picks@.len() == recs.len()
                    &&& forall|i: int|
                        0 <= i < recs.len() ==> pick_of_record(#[trigger] recs[i]) == Some(
                            (p.picks@[i].element as int, p.picks@[i].is_captain),
                        )
                },
                None => false,
            },
            Err(FetchError::Malformed) => match records_member(doc@, "picks"@) {
                Some(recs) => exists|i: int|
                    0 <= i < recs.len() && pick_of_record(#[trigger] recs[i]) is None,
                None => true,
            },
            Err(_) => false,
        },
{
    let raw_picks = match document_records(doc, &String::from_str("picks")) {
        Some(rs) => rs,
        None => {
            return Err(FetchError::Malformed);
        },
    };
    let element_key = String::from_str("element");
    let captain_key = String::from_str("is_captain");
    let mut picks: Vec<PickElement> = Vec::new();
    for i in 0..raw_picks.len()
        invariant
            picks@.len() == i,
            forall|k: int|
                0 <= k < i ==> pick_of_record(#[trigger] raw_picks.deep_view()[k]) == Some(
                    (picks@[k].element as int, picks@[k].is_captain),
                ),
    {
        let element = match record_i64(&raw_picks[i].fields, &element_key) {
            Some(n) => n,
            None => {
                proof {
                    assert(pick_of_record(raw_picks.deep_view()[i as int]) is None);
                }
                return Err(FetchError::Malformed);
            },
        };
        let is_captain = match record_bool(&raw_picks[i].fields, &captain_key) {
            Some(b) => b,
            None => {
                proof {
                    assert(pick_of_record(raw_picks.deep_view()[i as int]) is None);
                }
                return Err(FetchError::Malformed);
            },
        };
        picks.push(PickElement { is_captain, element });
        proof {
            assert(pick_of_record(raw_picks.deep_view()[i as int]) == Some(
                (element as int, is_captain),
            ));
        }
    }
    Ok(PicksData { picks })
}

/// Turns a bootstrap document into [`BootstrapData`]: succeeds exactly
/// when the document has `elements`, `events` and `teams` record lists
/// whose records carry the expected fields, and copies them in order.
#[verifier::loop_isolation(false)]
pub fn bootstrap_from_document(doc: &JsonDocument) -> (r: Result<BootstrapData, FetchError>)
    ensures
        match r {
            Ok(b) => {
                &&& match records_member(doc@, "elements"@) {
                    Some(recs) => {
                        &&& b.elements@.len() == recs.len()
                        &&& forall|i: int|
                            0 <= i < recs.len() ==> element_of_record(#[trigger] recs[i]) == Some(
                                (
                                    b.elements@[i].id as int,
                                    b.elements@[i].web_name@,
                                    b.elements@[i].now_cost as int,
                                    b.elements@[i].team as int,
                                ),
                            )
                    },
                    None => false,
                }
                &&& match records_member(doc@, "events"@) {
                    Some(recs) => {
                        &&& b.events@.len() == recs.len()
                        &&& forall|i: int|
                            0 <= i < recs.len() ==> event_of_record(#[trigger] recs[i]) == Some(
                                (b.events@[i].id as int, b.events@[i].is_current),
                            )
                    },
                    None => false,
                }
                &&& match records_member(doc@, "teams"@) {
                    Some(recs) => {
                        &&& b.teams@.len() == recs.len()
                        &&& forall|i: int|
                            0 <= i < recs.len() ==> club_of_record(#[trigger] recs[i]) == Some(
                                (b.teams@[i].id as int, b.teams@[i].name@),
                            )
                    },
                    None => false,
                }
            },
            Err(FetchError::Malformed) => {
                ||| match records_member(doc@, "elements"@) {
                    Some(recs) => exists|i: int|
                        0 <= i < recs.len() && element_of_record(#[trigger] recs[i]) is None,
                    None => true,
                }
                ||| match records_member(doc@, "events"@) {
                    Some(recs) => exists|i: int|
                        0 <= i < recs.len() && event_of_record(#[trigger] recs[i]) is None,
                    None => true,
                }
                ||| match records_member(doc@, "teams"@) {
                    Some(recs) => exists|i: int|
                        0 <= i < recs.len() && club_of_record(#[trigger] recs[i]) is None,
                    None => true,
                }
            },
            Err(_) => false,
        },
{
    let id_key = String::from_str("id");
    let raw_elements = match document_records(doc, &String::from_str("elements")) {
        Some(rs) => rs,
        None => {
            return Err(FetchError::Malformed);
        },
    };
    let web_name_key = String::from_str("web_name");
    let now_cost_key = String::from_str("now_cost");
    let team_key = String::from_str("team");
    let mut elements: Vec<BootstrapElement> = Vec::new();
    for i in 0..raw_elements.len()
        invariant
            elements@.len() == i,
            forall|k: int|
                0 <= k < i ==> element_of_record(#[trigger] raw_elements.deep_view()[k]) == Some(
                    (
                        elements@[k].id as int,
                        elements@[k].web_name@,
                        elements@[k].now_cost as int,
                        elements@[k].team as int,
                    ),
                ),
    {
        let fields = &raw_elements[i].fields;
        let parts = (
            record_i64(fields, &id_key),
            record_str(fields, &web_name_key),
            record_u64(fields, &now_cost_key),
            record_i64(fields, &team_key),
        );
        match parts {
            (Some(id), Some(web_name), Some(now_cost), Some(team)) => {
                elements.push(BootstrapElement { id, web_name, now_cost, team });
            },
            _ => {
                proof {
                    assert(element_of_record(raw_elements.deep_view()[i as int]) is None);
                }
                return Err(FetchError::Malformed);
            },
        }
        proof {
            assert(element_of_record(raw_elements.deep_view()[i as int]) == Some(
                (
                    elements@.last().id as int,
                    elements@.last().web_name@,
                    elements@.last().now_cost as int,
                    elements@.last().team as int,
                ),
            ));
        }
    }
    let raw_events = match document_records(doc, &String::from_str("events")) {
        Some(rs) => rs,
        None => {
            return Err(FetchError::Malformed);
        },
    };
    let is_current_key = String::from_str("is_current");
    let mut events: Vec<BootstrapEvent> = Vec::new();
    for i in 0..raw_events.len()
        invariant
            events@.len() == i,
            forall|k: int|
                0 <= k < i ==> event_of_record(#[trigger] raw_events.deep_view()[k]) == Some(
                    (events@[k].id as int, events@[k].is_current),
                ),
    {
        let fields = &raw_events[i].fields;
        match (record_i64(fields, &id_key), record_bool(fields, &is_current_key)) {
            (Some(id), Some(is_current)) => {
                events.push(BootstrapEvent { id, is_current });
            },
            _ => {
                proof {
                    assert(event_of_record(raw_events.deep_view()[i as int]) is None);
                }
                return Err(FetchError::Malformed);
            },
        }
    }
    let raw_teams = match document_records(doc, &String::from_str("teams")) {
        Some(rs) => rs,
        None => {
            return Err(FetchError::Malformed);
        },
    };
    let name_key = String::from_str("name");
    let mut teams: Vec<BootstrapTeam> = Vec::new();
    for i in 0..raw_teams.len()
        invariant
            teams@.len() == i,
            forall|k: int|
                0 <= k < i ==> club_of_record(#[trigger] raw_teams.deep_view()[k]) == Some(
                    (teams@[k].id as int, teams@[k].name@),
                ),
    {
        let fields = &raw_teams[i].fields;
        match (record_i64(fields, &id_key), record_str(fields, &name_key)) {
            (Some(id), Some(name)) => {
                teams.push(BootstrapTeam { id, name });
            },
            _ => {
                proof {
                    assert(club_of_record(raw_teams.deep_view()[i as int]) is None);
                }
                return Err(FetchError::Malformed);
            },
        }
    }
    Ok(BootstrapData { elements, events, teams })
}

// ---------------------------------------------------------------------------
// Fetching, and converting the fetched value into the document model
// ---------------------------------------------------------------------------

#[verifier::external_type_specification]
#[verifier::external_body]
pub struct ExJsonValue(serde_json::Value);

/// Relies on `ureq::get`, `RequestBuilder::call` and `Body::read_json`:
/// fetches the document at `uri` and parses it as JSON. The outcome depends
/// on the network, so nothing is promised of the value; a transport or
/// status error maps to `Http`, an unparsable body to `Malformed`.
#[verifier::external_body]
pub fn fetch_data_as_json(uri: &str) -> (r: Result<serde_json::Value, FetchError>) {
    match ureq::get(uri).call() {
        Ok(response) => match response.into_body().read_json::<serde_json::Value>() {
            Ok(value) => Ok(value),
            Err(_) => Err(FetchError::Malformed),
        },
        Err(_) => Err(FetchError::Http),
    }
}

/// Relies on `serde_json::Value::as_object` and `Map::iter`: an object's
/// members, cloned, in the map's order; `None` for a non-object.
#[verifier::external_body]
fn json_top_members(value: &serde_json::Value) -> (r: Option<Vec<(String, serde_json::Value)>>) {
    match value.as_object() {
        Some(members) => Some(members.iter().map(|(k, v)| (k.clone(), v.clone())).collect()),
        None => None,
    }
}

/// Relies on `serde_json::Value::as_array`: an array's elements, cloned;
/// `None` for a non-array.
#[verifier::external_body]
fn json_elements(value: &serde_json::Value) -> (r: Option<Vec<serde_json::Value>>) {
    match value.as_array() {
        Some(elements) => Some(elements.to_vec()),
        None => None,
    }
}

/// Relies on `serde_json::Value`'s accessors `is_null`, `as_bool`,
/// `as_i64`, `as_u64` and `as_str`: the value's scalar reading, one arm per
/// kind; anything else — a fractional number, an array, an object — is
/// `Other`.
#[verifier::external_body]
fn json_scalar(value: &serde_json::Value) -> (r: JsonScalar) {
    if value.is_null() {
        JsonScalar::Null
    } else if let Some(b) = value.as_bool() {
        JsonScalar::Bool(b)
    } else if let Some(n) = value.as_i64() {
        JsonScalar::Int(n)
    } else if let Some(n) = value.as_u64() {
        JsonScalar::UInt(n)
    } else if let Some(s) = value.as_str() {
        JsonScalar::Str(s.to_owned())
    } else {
        JsonScalar::Other
    }
}

/// Converts a fetched JSON value into the document model: the top-level
/// members, each a scalar, a list of flat records, or `Other`. `None` when
/// the top level is not an object. Which document comes back depends on the
/// fetched value, which is opaque here; everything downstream of this
/// conversion is verified against the document model.
fn document_from_json(value: &serde_json::Value) -> (r: Option<JsonDocument>) {
    let raw_members = match json_top_members(value) {
        Some(ms) => ms,
        None => {
            return None;
        },
    };
    let mut members: Vec<(String, JsonMember)> = Vec::new();
    for i in 0..raw_members.len() {
        let key = raw_members[i].0.clone();
        let member = match json_elements(&raw_members[i].1) {
            Some(elements) => {
                let mut records: Vec<JsonRecord> = Vec::new();
                let mut all_objects = true;
                for j in 0..elements.len() {
                    match json_top_members(&elements[j]) {
                        Some(raw_fields) => {
                            let mut fields: Vec<(String, JsonScalar)> = Vec::new();
                            for k in 0..raw_fields.len() {
                                fields.push(
                                    (raw_fields[k].0.clone(), json_scalar(&raw_fields[k].1)),
                                );
                            }
                            records.push(JsonRecord { fields });
                        },
                        None => {
                            all_objects = false;
                        },
                    }
                }
                if all_objects {
                    JsonMember::Records(records)
                } else {
                    JsonMember::Other
                }
            },
            None => JsonMember::Scalar(json_scalar(&raw_members[i].1)),
        };
        members.push((key, member));
    }
    Some(JsonDocument { members })
}

/// Fetches a team's gameweek metadata: display name, owner first name and
/// the current event number. Which document the network hands back is open;
/// whatever it is, the result is exactly what [`gameweek_from_document`]
/// states for it, with a non-object or unparsable response malformed.
pub fn fetch_gameweek_data(team_id: &i64) -> (r: Result<GameweekData, FetchError>) {
    let url = entry_url_string(*team_id);
    let value = match fetch_data_as_json(url.as_str()) {
        Ok(v) => v,
        Err(e) => {
            return Err(e);
        },
    };
    match document_from_json(&value) {
        Some(doc) => gameweek_from_document(&doc),
        None => Err(FetchError::Malformed),
    }
}

/// Fetches a team's picks for the gameweek the metadata names. Which
/// document the network hands back is open; whatever it is, the result is
/// exactly what [`picks_from_document`] states for it, with a non-object
/// or unparsable response malformed.
pub fn fetch_picks(team_id: &i64, gameweek_data: &GameweekData) -> (r: Result<
    PicksData,
    FetchError,
>) {
    let url = picks_url_string(*team_id, gameweek_data.current_event);
    let value = match fetch_data_as_json(url.as_str()) {
        Ok(v) => v,
        Err(e) => {
            return Err(e);
        },
    };
    match document_from_json(&value) {
        Some(doc) => picks_from_document(&doc),
        None => Err(FetchError::Malformed),
    }
}

/// Fetches the bootstrap snapshot: all player records, gameweek events and
/// clubs. Which document the network hands back is open; whatever it is,
/// the result is exactly what [`bootstrap_from_document`] states for it,
/// with a non-object or unparsable response malformed.
pub fn fetch_bootstrap_data() -> (r: Result<BootstrapData, FetchError>) {
    let url = bootstrap_url_string();
    let value = match fetch_data_as_json(url.as_str()) {
        Ok(v) => v,
        Err(e) => {
            return Err(e);
        },
    };
    match document_from_json(&value) {
        Some(doc) => bootstrap_from_document(&doc),
        None => Err(FetchError::Malformed),
    }
}

} // verus!

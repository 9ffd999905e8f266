//! Data model: raw bootstrap records, pick documents, and the joined
//! `Club` / `Player` / `Team` entities that the rules are evaluated on.
//!
//! Prices are kept as integers throughout: a player's price is stored in
//! tenths of a million, exactly as the upstream `now_cost` field carries it.

use vstd::prelude::*;

verus! {

/// A raw club record from the bootstrap document.
#[derive(Debug, PartialEq, Eq)]
pub struct BootstrapTeam {
    pub id: i64,
    pub name: String,
}

/// A raw gameweek-event record from the bootstrap document.
#[derive(Debug, PartialEq, Eq, Clone, Copy)]
pub struct BootstrapEvent {
    pub id: i64,
    pub is_current: bool,
}

/// A raw player record from the bootstrap document. `now_cost` is the
/// player's price in tenths of a million; `team` is a club id.
#[derive(Debug, PartialEq, Eq)]
pub struct BootstrapElement {
    pub id: i64,
    pub web_name: String,
    pub now_cost: u64,
    pub team: i64,
}

/// The full bootstrap snapshot: all players, events and clubs.
#[derive(Debug, PartialEq, Eq)]
pub struct BootstrapData {
    pub elements: Vec<BootstrapElement>,
    pub events: Vec<BootstrapEvent>,
    pub teams: Vec<BootstrapTeam>,
}

/// A team's picks document for one gameweek.
#[derive(Debug, PartialEq, Eq)]
pub struct PicksData {
    pub picks: Vec<PickElement>,
}

/// One selected player slot: a player id, optionally flagged as captain.
#[derive(Debug, PartialEq, Eq, Clone, Copy)]
pub struct PickElement {
    pub is_captain: bool,
    pub element: i64,
}

/// Per-team gameweek metadata: the current event number, the team's display
/// name and the owner's first name.
#[derive(Debug, PartialEq, Eq)]
pub struct GameweekData {
    pub current_event: i64,
    pub name: String,
    pub player_first_name: String,
}

/// The outcome of one validation rule. `reason` is empty when valid.
#[derive(Debug, PartialEq, Eq)]
pub struct ValidationResult {
    pub is_valid: bool,
    pub reason: String,
}

/// A club, joined from the bootstrap club list.
#[derive(Debug, PartialEq, Eq)]
pub struct Club {
    pub id: i64,
    pub name: String,
}

/// A player, joined with the club it belongs to. `price_in_tenths` is the
/// price in tenths of a million.
#[derive(Debug, PartialEq, Eq)]
pub struct Player {
    pub id: i64,
    pub name: String,
    pub price_in_tenths: u64,
    pub club: Club,
}

/// A fantasy team: the picked players in pick order, and the captain
/// (a placeholder player when no pick is flagged as captain).
#[derive(Debug, PartialEq, Eq)]
pub struct Team {
    pub id: i64,
    pub name: String,
    pub owner: String,
    pub captain: Player,
    pub players: Vec<Player>,
}

/// A request body naming the team ids to validate.
#[derive(Debug, PartialEq, Eq)]
pub struct TeamsRequest {
    pub teams: Vec<i64>,
}

/// Mathematical model of a `Club`.
pub ghost struct ClubView {
    pub id: int,
    pub name: Seq<char>,
}

/// Mathematical model of a `Player`.
pub ghost struct PlayerView {
    pub id: int,
    pub name: Seq<char>,
    pub price_in_tenths: int,
    pub club: ClubView,
}

/// Mathematical model of a `Team`.
pub ghost struct TeamView {
    pub id: int,
    pub name: Seq<char>,
    pub owner: Seq<char>,
    pub captain: PlayerView,
    pub players: Seq<PlayerView>,
}

/// Mathematical model of a `ValidationResult`.
pub ghost struct ValidationResultView {
    pub is_valid: bool,
    pub reason: Seq<char>,
}

impl View for Club {
    type V = ClubView;

    open spec fn view(&self) -> ClubView {
        ClubView { id: self.id as int, name: self.name@ }
    }
}

impl DeepView for Club {
    type V = ClubView;

    open spec fn deep_view(&self) -> ClubView {
        self.view()
    }
}

impl View for Player {
    type V = PlayerView;

    open spec fn view(&self) -> PlayerView {
        PlayerView {
            id: self.id as int,
            name: self.name@,
            price_in_tenths: self.price_in_tenths as int,
            club: self.club@,
        }
    }
}

impl DeepView for Player {
    type V = PlayerView;

    open spec fn deep_view(&self) -> PlayerView {
        self.view()
    }
}

impl View for Team {
    type V = TeamView;

    open spec fn view(&self) -> TeamView {
        TeamView {
            id: self.id as int,
            name: self.name@,
            owner: self.owner@,
            captain: self.captain@,
            players: self.players.deep_view(),
        }
    }
}

impl DeepView for Team {
    type V = TeamView;

    open spec fn deep_view(&self) -> TeamView {
        self.view()
    }
}

impl View for ValidationResult {
    type V = ValidationResultView;

    open spec fn view(&self) -> ValidationResultView {
        ValidationResultView { is_valid: self.is_valid, reason: self.reason@ }
    }
}

impl DeepView for ValidationResult {
    type V = ValidationResultView;

    open spec fn deep_view(&self) -> ValidationResultView {
        self.view()
    }
}

impl ClubView {
    /// The club a placeholder player belongs to.
    pub open spec fn placeholder() -> ClubView {
        ClubView { id: 0, name: Seq::empty() }
    }
}

impl PlayerView {
    /// The placeholder player used as captain when no pick is flagged.
    pub open spec fn placeholder() -> PlayerView {
        PlayerView { id: 0, name: Seq::empty(), price_in_tenths: 0, club: ClubView::placeholder() }
    }
}

impl Clone for Club {
    fn clone(&self) -> (r: Self)
        ensures
            r@ == self@,
    {
        Club { id: self.id, name: self.name.clone() }
    }
}

impl Clone for Player {
    fn clone(&self) -> (r: Self)
        ensures
            r@ == self@,
    {
        Player {
            id: self.id,
            name: self.name.clone(),
            price_in_tenths: self.price_in_tenths,
            club: self.club.clone(),
        }
    }
}

impl Clone for ValidationResult {
    fn clone(&self) -> (r: Self)
        ensures
            r@ == self@,
    {
        ValidationResult { is_valid: self.is_valid, reason: self.reason.clone() }
    }
}

impl Default for Club {
    /// The placeholder club: id zero, empty name.
    fn default() -> (r: Self)
        ensures
            r@ == ClubView::placeholder(),
    {
        Club { id: 0, name: String::new() }
    }
}

impl Default for Player {
    /// The placeholder player: id zero, empty name, price zero.
    fn default() -> (r: Self)
        ensures
            r@ == PlayerView::placeholder(),
    {
        Player { id: 0, name: String::new(), price_in_tenths: 0, club: Club::default() }
    }
}

impl ValidationResult {
    /// A passing outcome with an empty reason.
    pub fn valid() -> (r: Self)
        ensures
            r@.is_valid,
            r@.reason == Seq::<char>::empty(),
    {
        Self { is_valid: true, reason: String::new() }
    }

    /// A failing outcome carrying the given reason.
    pub fn invalid(reason: &str) -> (r: Self)
        ensures
            !r@.is_valid,
            r@.reason == reason@,
    {
        Self { is_valid: false, reason: String::from_str(reason) }
    }
}

} // verus!

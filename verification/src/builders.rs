//! Reference index builder and team assembler.
//!
//! The bootstrap snapshot is turned into two lookup tables — clubs by id and
//! players by id, each player joined with its club — and a team is assembled
//! from its picks document against the player index. A pick or player that
//! references an id absent from its index is a referential-integrity fault
//! and surfaces as a [`BuildError`]; no partial result is produced.

use std::collections::HashMap;
use vstd::assert_seqs_equal;
use vstd::prelude::*;

use crate::models::{
    BootstrapData, BootstrapElement, BootstrapTeam, Club, ClubView, GameweekData, PicksData,
    PickElement, Player, PlayerView, Team,
};

verus! {

broadcast use vstd::std_specs::hash::group_hash_axioms;

/// A referential-integrity fault in the upstream data: an id was referenced
/// that its index does not hold, or no gameweek is marked current.
#[derive(Debug, PartialEq, Eq, Structural, Clone, Copy)]
pub enum BuildError {
    /// A player record references this club id, absent from the club index.
    ClubNotFound(i64),
    /// A pick references this player id, absent from the player index.
    PlayerNotFound(i64),
    /// No event in the bootstrap data is flagged as current.
    NoCurrentGameweek,
}

/// The club index that a sequence of bootstrap club records describes:
/// one entry per id, a later record with the same id winning.
pub open spec fn clubs_index_of(teams: Seq<BootstrapTeam>) -> Map<i64, ClubView>
    decreases teams.len(),
{
    if teams.len() == 0 {
        Map::empty()
    } else {
        clubs_index_of(teams.drop_last()).insert(
            teams.last().id,
            ClubView { id: teams.last().id as int, name: teams.last().name@ },
        )
    }
}

/// The executable club map agrees with the mathematical index: same keys,
/// and each club equal to the index entry.
pub open spec fn club_map_matches(m: Map<i64, Club>, index: Map<i64, ClubView>) -> bool {
    &&& forall|id: i64| #[trigger] m.contains_key(id) <==> index.contains_key(id)
    &&& forall|id: i64| #[trigger] m.contains_key(id) ==> m[id]@ == index[id]
}

/// The mathematical content of an executable club map.
pub open spec fn club_views(m: Map<i64, Club>) -> Map<i64, ClubView> {
    Map::new(|id: i64| m.contains_key(id), |id: i64| m[id]@)
}

/// Builds the club-by-id lookup table from the bootstrap club list.
#[verifier::loop_isolation(false)]
pub fn build_clubs_by_id(bootstrap_data: &BootstrapData) -> (r: HashMap<i64, Club>)
    ensures
        club_map_matches(r@, clubs_index_of(bootstrap_data.teams@)),
{
    let teams = &bootstrap_data.teams;
    let mut clubs_by_id: HashMap<i64, Club> = HashMap::new();
    for i in 0..teams.len()
        invariant
            club_map_matches(clubs_by_id@, clubs_index_of(teams@.take(i as int))),
    {
        let club = Club { name: teams[i].name.clone(), id: teams[i].id };
        clubs_by_id.insert(teams[i].id, club);
        proof {
            assert(teams@.take(i + 1).drop_last() =~= teams@.take(i as int));
            assert(teams@.take(i + 1).last() == teams@[i as int]);
        }
    }
    proof {
        assert(teams@.take(teams@.len() as int) =~= teams@);
    }
    clubs_by_id
}

/// Every player record's club id resolves in the club index.
pub open spec fn resolves(clubs: Map<i64, ClubView>, elements: Seq<BootstrapElement>) -> bool {
    forall|i: int| 0 <= i < elements.len() ==> clubs.contains_key(#[trigger] elements[i].team)
}

/// The player that one bootstrap record describes, joined with its club:
/// the club id is the record's team field, the club name is looked up in
/// the club index under that id.
pub open spec fn player_of(clubs: Map<i64, ClubView>, e: BootstrapElement) -> PlayerView {
    PlayerView {
        id: e.id as int,
        name: e.web_name@,
        price_in_tenths: e.now_cost as int,
        club: ClubView { id: e.team as int, name: clubs[e.team].name },
    }
}

/// The player index that a sequence of bootstrap player records describes:
/// one entry per id, a later record with the same id winning.
pub open spec fn players_index_of(clubs: Map<i64, ClubView>, elements: Seq<BootstrapElement>) -> Map<
    i64,
    PlayerView,
>
    decreases elements.len(),
{
    if elements.len() == 0 {
        Map::empty()
    } else {
        players_index_of(clubs, elements.drop_last()).insert(
            elements.last().id,
            player_of(clubs, elements.last()),
        )
    }
}

/// The executable player map agrees with the mathematical index.
pub open spec fn player_map_matches(m: Map<i64, Player>, index: Map<i64, PlayerView>) -> bool {
    &&& forall|id: i64| #[trigger] m.contains_key(id) <==> index.contains_key(id)
    &&& forall|id: i64| #[trigger] m.contains_key(id) ==> m[id]@ == index[id]
}

/// The mathematical content of an executable player map.
pub open spec fn player_views(m: Map<i64, Player>) -> Map<i64, PlayerView> {
    Map::new(|id: i64| m.contains_key(id), |id: i64| m[id]@)
}

/// Builds the player-by-id lookup table from the bootstrap player list, each
/// player joined with the club its team field references. Fails with
/// `ClubNotFound` on the first record whose club id is absent from the club
/// index; succeeds exactly when every record resolves.
#[verifier::loop_isolation(false)]
pub fn build_players_by_id(
    clubs_by_club_id: &HashMap<i64, Club>,
    bootstrap_data: &BootstrapData,
) -> (r: Result<HashMap<i64, Player>, BuildError>)
    ensures
        match r {
            Ok(m) => {
                &&& resolves(club_views(clubs_by_club_id@), bootstrap_data.elements@)
                &&& player_map_matches(
                    m@,
                    players_index_of(club_views(clubs_by_club_id@), bootstrap_data.elements@),
                )
            },
            Err(BuildError::ClubNotFound(id)) => exists|i: int|
                {
                    &&& 0 <= i < bootstrap_data.elements@.len()
                    &&& !club_views(clubs_by_club_id@).contains_key(
                        #[trigger] bootstrap_data.elements@[i].team,
                    )
                    &&& id == bootstrap_data.elements@[i].team
                    &&& forall|j: int|
                        0 <= j < i ==> club_views(clubs_by_club_id@).contains_key(
                            #[trigger] bootstrap_data.elements@[j].team,
                        )
                },
            Err(_) => false,
        },
{
    let elements = &bootstrap_data.elements;
    let mut players_by_id: HashMap<i64, Player> = HashMap::new();
    for i in 0..elements.len()
        invariant
            resolves(club_views(clubs_by_club_id@), elements@.take(i as int)),
            player_map_matches(
                players_by_id@,
                players_index_of(club_views(clubs_by_club_id@), elements@.take(i as int)),
            ),
    {
        let element = &elements[i];
        let club_name = match clubs_by_club_id.get(&element.team) {
            Some(club) => club.name.clone(),
            None => {
                proof {
                    assert(!club_views(clubs_by_club_id@).contains_key(
                        elements@[i as int].team,
                    ));
                    assert(forall|j: int|
                        0 <= j < i as int ==> club_views(clubs_by_club_id@).contains_key(
                            #[trigger] elements@[j].team,
                        )) by {
                        assert(forall|j: int|
                            0 <= j < i as int ==> elements@.take(i as int)[j]
                                == #[trigger] elements@[j]);
                    }
                }
                return Err(BuildError::ClubNotFound(element.team));
            },
        };
        let player = Player {
            id: element.id,
            name: element.web_name.clone(),
            price_in_tenths: element.now_cost,
            club: Club { id: element.team, name: club_name },
        };
        proof {
            assert(club_views(clubs_by_club_id@).contains_key(elements@[i as int].team));
            assert(player@ == player_of(club_views(clubs_by_club_id@), elements@[i as int]));
        }
        players_by_id.insert(element.id, player);
        proof {
            assert(elements@.take(i + 1).drop_last() =~= elements@.take(i as int));
            assert(elements@.take(i + 1).last() == elements@[i as int]);
            assert(forall|k: int|
                0 <= k < i + 1 ==> elements@.take(i + 1)[k] == #[trigger] elements@[k]);
        }
    }
    proof {
        assert(elements@.take(elements@.len() as int) =~= elements@);
    }
    Ok(players_by_id)
}

/// The id of the first bootstrap event flagged as current; fails with
/// `NoCurrentGameweek` exactly when none is.
#[verifier::loop_isolation(false)]
pub fn get_current_gameweek(bootstrap_data: &BootstrapData) -> (r: Result<i64, BuildError>)
    ensures
        match r {
            Ok(id) => exists|i: int|
                {
                    &&& 0 <= i < bootstrap_data.events@.len()
                    &&& (#[trigger] bootstrap_data.events@[i]).is_current
                    &&& id == bootstrap_data.events@[i].id
                    &&& forall|j: int| 0 <= j < i ==> !(#[trigger] bootstrap_data.events@[j]).is_current
                },
            Err(BuildError::NoCurrentGameweek) => forall|i: int|
                0 <= i < bootstrap_data.events@.len() ==> !(#[trigger] bootstrap_data.events@[i]).is_current,
            Err(_) => false,
        },
{
    let events = &bootstrap_data.events;
    for i in 0..events.len()
        invariant
            forall|j: int| 0 <= j < i ==> !(#[trigger] events@[j]).is_current,
    {
        if events[i].is_current {
            proof {
                let witness = i as int;
                assert({
                    &&& 0 <= witness < bootstrap_data.events@.len()
                    &&& bootstrap_data.events@[witness].is_current
                    &&& forall|j: int|
                        0 <= j < witness ==> !(#[trigger] bootstrap_data.events@[j]).is_current
                });
            }
            return Ok(events[i].id);
        }
    }
    Err(BuildError::NoCurrentGameweek)
}

/// The player a pick names, as it is copied onto the team: the player from
/// the index, carrying the pick's id.
pub open spec fn resolved_pick(players: Map<i64, PlayerView>, p: PickElement) -> PlayerView {
    PlayerView {
        id: p.element as int,
        name: players[p.element].name,
        price_in_tenths: players[p.element].price_in_tenths,
        club: players[p.element].club,
    }
}

/// The team's player sequence: each pick resolved, in pick order.
pub open spec fn resolved_players(players: Map<i64, PlayerView>, picks: Seq<PickElement>) -> Seq<
    PlayerView,
> {
    Seq::new(picks.len(), |i: int| resolved_pick(players, picks[i]))
}

/// The captain the picks describe: the resolved player of the last pick
/// flagged as captain, or the placeholder player when none is flagged.
pub open spec fn captain_of(players: Map<i64, PlayerView>, picks: Seq<PickElement>) -> PlayerView
    decreases picks.len(),
{
    if picks.len() == 0 {
        PlayerView::placeholder()
    } else if picks.last().is_captain {
        resolved_pick(players, picks.last())
    } else {
        captain_of(players, picks.drop_last())
    }
}

/// Every pick's player id resolves in the player index.
pub open spec fn picks_resolve(players: Map<i64, PlayerView>, picks: Seq<PickElement>) -> bool {
    forall|i: int| 0 <= i < picks.len() ==> players.contains_key(#[trigger] picks[i].element)
}

/// Assembles a team from its picks document: resolves each pick against the
/// player index in pick order, tracks the captain, and takes the team name
/// and owner from the gameweek metadata. Fails with `PlayerNotFound` on the
/// first pick whose player id is absent; succeeds exactly when every pick
/// resolves.
#[verifier::loop_isolation(false)]
pub fn build_team_from_data(
    team_id: i64,
    players_by_player_id: &HashMap<i64, Player>,
    gameweek_data: &GameweekData,
    picks_data: &PicksData,
) -> (r: Result<Team, BuildError>)
    ensures
        match r {
            Ok(t) => {
                &&& picks_resolve(player_views(players_by_player_id@), picks_data.picks@)
                &&& t@.id == team_id as int
                &&& t@.name == gameweek_data.name@
                &&& t@.owner == gameweek_data.player_first_name@
                &&& t@.players == resolved_players(
                    player_views(players_by_player_id@),
                    picks_data.picks@,
                )
                &&& t@.captain == captain_of(player_views(players_by_player_id@), picks_data.picks@)
            },
            Err(BuildError::PlayerNotFound(id)) => exists|i: int|
                {
                    &&& 0 <= i < picks_data.picks@.len()
                    &&& !player_views(players_by_player_id@).contains_key(
                        #[trigger] picks_data.picks@[i].element,
                    )
                    &&& id == picks_data.picks@[i].element
                    &&& forall|j: int|
                        0 <= j < i ==> player_views(players_by_player_id@).contains_key(
                            #[trigger] picks_data.picks@[j].element,
                        )
                },
            Err(_) => false,
        },
{
    let picks = &picks_data.picks;
    let mut players: Vec<Player> = Vec::new();
    let mut captain = Player::default();
    for i in 0..picks.len()
        invariant
            picks_resolve(player_views(players_by_player_id@), picks@.take(i as int)),
            players.deep_view() == resolved_players(
                player_views(players_by_player_id@),
                picks@.take(i as int),
            ),
            captain@ == captain_of(player_views(players_by_player_id@), picks@.take(i as int)),
    {
        let pick = picks[i];
        let id = pick.element;
        let found = match players_by_player_id.get(&id) {
            Some(p) => p,
            None => {
                proof {
                    assert(!player_views(players_by_player_id@).contains_key(
                        picks@[i as int].element,
                    ));
                    assert(forall|j: int|
                        0 <= j < i as int ==> player_views(players_by_player_id@).contains_key(
                            #[trigger] picks@[j].element,
                        )) by {
                        assert(forall|j: int|
                            0 <= j < i as int ==> picks@.take(i as int)[j] == #[trigger] picks@[j]);
                    }
                }
                return Err(BuildError::PlayerNotFound(id));
            },
        };
        let player = Player {
            id,
            name: found.name.clone(),
            price_in_tenths: found.price_in_tenths,
            club: found.club.clone(),
        };
        proof {
            assert(player_views(players_by_player_id@).contains_key(picks@[i as int].element));
            assert(player@ == resolved_pick(player_views(players_by_player_id@), picks@[i as int]));
        }
        if pick.is_captain {
            captain = player.clone();
        }
        let ghost prev_deep = players.deep_view();
        players.push(player);
        proof {
            let pv = player_views(players_by_player_id@);
            assert(picks@.take(i + 1).drop_last() =~= picks@.take(i as int));
            assert(picks@.take(i + 1).last() == picks@[i as int]);
            assert(players.deep_view().len() == prev_deep.len() + 1);
            assert(forall|j: int|
                0 <= j < prev_deep.len() ==> players.deep_view()[j] == #[trigger] prev_deep[j]);
            assert(players.deep_view()[prev_deep.len() as int] == player@);
            assert_seqs_equal!(
                players.deep_view() == resolved_players(pv, picks@.take(i + 1)),
                k => {
                    assert(resolved_players(pv, picks@.take(i + 1))[k] == resolved_pick(
                        pv,
                        picks@.take(i + 1)[k],
                    ));
                    assert(picks@.take(i + 1)[k] == picks@[k]);
                    if k < i as int {
                        assert(players.deep_view()[k] == prev_deep[k]);
                        assert(prev_deep[k] == resolved_pick(pv, picks@.take(i as int)[k]));
                        assert(picks@.take(i as int)[k] == picks@[k]);
                    } else {
                        assert(players.deep_view()[k] == player@);
                    }
                }
            );
        }
    }
    proof {
        assert(picks@.take(picks@.len() as int) =~= picks@);
    }
    Ok(Team {
        id: team_id,
        name: gameweek_data.name.clone(),
        owner: gameweek_data.player_first_name.clone(),
        captain,
        players,
    })
}

/// Every player in the built index carries the club its record's team field
/// names: for each id in the index there is a bootstrap record with that id,
/// the player's club id is that record's team field, and the player's club
/// name is the club index's name under that team field.
pub proof fn lemma_player_club_resolution(
    clubs: Map<i64, ClubView>,
    elements: Seq<BootstrapElement>,
    id: i64,
)
    requires
        resolves(clubs, elements),
        players_index_of(clubs, elements).contains_key(id),
    ensures
        exists|i: int|
            {
                &&& 0 <= i < elements.len()
                &&& (#[trigger] elements[i]).id == id
                &&& clubs.contains_key(elements[i].team)
                &&& players_index_of(clubs, elements)[id].club.id == elements[i].team as int
                &&& players_index_of(clubs, elements)[id].club.name == clubs[elements[i].team].name
            },
    decreases elements.len(),
{
    let index = players_index_of(clubs, elements);
    if elements.last().id == id {
        assert(elements[elements.len() - 1].id == id);
        assert(index[id] == player_of(clubs, elements.last()));
        assert({
            &&& 0 <= elements.len() - 1 < elements.len()
            &&& elements[elements.len() - 1].id == id
            &&& clubs.contains_key(elements[elements.len() - 1].team)
            &&& index[id].club.id == elements[elements.len() - 1].team as int
            &&& index[id].club.name == clubs[elements[elements.len() - 1].team].name
        });
    } else {
        let front = elements.drop_last();
        assert(resolves(clubs, front)) by {
            assert(forall|i: int| 0 <= i < front.len() ==> front[i] == #[trigger] elements[i]);
        }
        assert(players_index_of(clubs, front).contains_key(id));
        lemma_player_club_resolution(clubs, front, id);
        let i = choose|i: int|
            {
                &&& 0 <= i < front.len()
                &&& (#[trigger] front[i]).id == id
                &&& clubs.contains_key(front[i].team)
                &&& players_index_of(clubs, front)[id].club.id == front[i].team as int
                &&& players_index_of(clubs, front)[id].club.name == clubs[front[i].team].name
            };
        assert(elements[i] == front[i]);
        assert(index[id] == players_index_of(clubs, front)[id]);
        assert({
            &&& 0 <= i < elements.len()
            &&& elements[i].id == id
            &&& clubs.contains_key(elements[i].team)
            &&& index[id].club.id == elements[i].team as int
            &&& index[id].club.name == clubs[elements[i].team].name
        });
    }
}

/// Round trip of captain derivation: when pick `i` is flagged as captain
/// and no later pick is, the assembled team's captain is exactly the
/// resolved player of pick `i`.
pub proof fn lemma_captain_round_trip(
    players: Map<i64, PlayerView>,
    picks: Seq<PickElement>,
    i: int,
)
    requires
        0 <= i < picks.len(),
        picks[i].is_captain,
        forall|j: int| i < j < picks.len() ==> !(#[trigger] picks[j]).is_captain,
    ensures
        captain_of(players, picks) == resolved_players(players, picks)[i],
    decreases picks.len(),
{
    if i == picks.len() - 1 {
        assert(picks.last() == picks[i]);
    } else {
        assert(!picks.last().is_captain);
        let front = picks.drop_last();
        assert(front[i] == picks[i]);
        assert(forall|j: int| i < j < front.len() ==> !(#[trigger] front[j]).is_captain) by {
            assert(forall|j: int| 0 <= j < front.len() ==> front[j] == #[trigger] picks[j]);
        }
        lemma_captain_round_trip(players, front, i);
        assert(resolved_players(players, front)[i] == resolved_players(players, picks)[i]);
    }
}

} // verus!

//! The rule engine: three independent, pure validators and the aggregator
//! that runs them and keeps the violations.
//!
//! Each validator returns a [`ValidationResult`] whose reason, when the rule
//! fails, is a message assembled from a randomly chosen flavour prefix and
//! the offending players or clubs. The exact message for each choice of
//! prefix is pinned down by the spec functions in this module; only the
//! prefix choice is left open, as one element of the configured prefix set.
//!
//! The insertion-ordered maps that collect offenders come from the
//! `indexmap` crate and are used through trusted wrappers; their contents
//! are named by uninterpreted spec functions, and each wrapper states, over
//! those names, what the crate's documentation promises of the call.

use std::collections::HashMap;
use vstd::prelude::*;

use crate::builders::club_views;
use crate::models::{
    Club, ClubView, PlayerView, Team, TeamView, ValidationResult, ValidationResultView,
};
use crate::text::{price_str, price_to_string};

verus! {

broadcast use vstd::std_specs::hash::group_hash_axioms;

// ---------------------------------------------------------------------------
// Flavour prefixes
// ---------------------------------------------------------------------------

/// The configured set of interchangeable flavour phrases that violation
/// messages open with.
pub open spec fn is_violation_prefix(s: Seq<char>) -> bool {
    ||| s == "Big wompers!"@
    ||| s == "Yikes!"@
}

/// The configured flavour phrases, in a fixed order.
fn violation_prefixes() -> (r: Vec<String>)
    ensures
        r@.len() > 0,
        forall|i: int| 0 <= i < r@.len() ==> is_violation_prefix(#[trigger] r@[i]@),
{
    let mut prefixes: Vec<String> = Vec::new();
    prefixes.push(String::from_str("Big wompers!"));
    prefixes.push(String::from_str("Yikes!"));
    prefixes
}

/// Relies on `rand::rng` and `rand::Rng::random_range`: the result of
/// sampling `0..len` is below `len` (the range is non-empty, so the call
/// does not panic).
#[verifier::external_body]
fn random_index(len: usize) -> (r: usize)
    requires
        len > 0,
    ensures
        r < len,
{
    rand::Rng::random_range(&mut rand::rng(), 0..len)
}

/// Draws one of the configured flavour prefixes at random.
fn random_prefix() -> (r: String)
    ensures
        is_violation_prefix(r@),
{
    let prefixes = violation_prefixes();
    let i = random_index(prefixes.len());
    prefixes[i].clone()
}

// ---------------------------------------------------------------------------
// Insertion-ordered maps, through trusted wrappers
// ---------------------------------------------------------------------------

#[verifier::external_type_specification]
#[verifier::external_body]
#[verifier::reject_recursive_types(K)]
#[verifier::reject_recursive_types(V)]
#[verifier::reject_recursive_types(S)]
pub struct ExIndexMap<K, V, S>(indexmap::IndexMap<K, V, S>);

/// The entries a price map holds: pairs of player name and price in tenths
/// of a million, in the map's order.
pub uninterp spec fn price_map_entries(m: indexmap::IndexMap<String, u64>) -> Seq<(Seq<char>, int)>;

/// The entries a grouping map holds: pairs of club name and the names of
/// that club's players, in the map's order.
pub uninterp spec fn group_map_entries(m: indexmap::IndexMap<String, Vec<String>>) -> Seq<
    (Seq<char>, Seq<Seq<char>>),
>;

/// What `indexmap::IndexMap::insert` does to the entries: an existing key
/// keeps its place in the order and has its value updated; a new key is
/// inserted last.
pub open spec fn imap_insert(
    entries: Seq<(Seq<char>, int)>,
    key: Seq<char>,
    value: int,
) -> Seq<(Seq<char>, int)>
    decreases entries.len(),
{
    if entries.len() == 0 {
        seq![(key, value)]
    } else if entries[0].0 == key {
        seq![(key, value)] + entries.drop_first()
    } else {
        seq![entries[0]] + imap_insert(entries.drop_first(), key, value)
    }
}

/// What appending one player name under a club key does to the grouping
/// entries: a present key keeps its place and its name list grows at the
/// end; an absent key is inserted last with the one name.
pub open spec fn gmap_push(
    entries: Seq<(Seq<char>, Seq<Seq<char>>)>,
    key: Seq<char>,
    name: Seq<char>,
) -> Seq<(Seq<char>, Seq<Seq<char>>)>
    decreases entries.len(),
{
    if entries.len() == 0 {
        seq![(key, seq![name])]
    } else if entries[0].0 == key {
        seq![(entries[0].0, entries[0].1.push(name))] + entries.drop_first()
    } else {
        seq![entries[0]] + gmap_push(entries.drop_first(), key, name)
    }
}

/// Relies on `indexmap::IndexMap::new`: the new map is empty.
#[verifier::external_body]
fn price_map_new() -> (m: indexmap::IndexMap<String, u64>)
    ensures
        price_map_entries(m) == Seq::<(Seq<char>, int)>::empty(),
{
    indexmap::IndexMap::new()
}

/// Relies on `indexmap::IndexMap::insert`: an equivalent key remains in its
/// place in the order with its value updated; a new key is inserted last.
#[verifier::external_body]
fn price_map_insert(m: &mut indexmap::IndexMap<String, u64>, key: String, value: u64)
    ensures
        price_map_entries(*final(m)) == imap_insert(
            price_map_entries(*old(m)),
            key@,
            value as int,
        ),
{
    m.insert(key, value);
}

/// Relies on `indexmap::IndexMap::iter`: the entries come out in the map's
/// order, one pair per entry.
#[verifier::external_body]
fn price_map_to_vec(m: &indexmap::IndexMap<String, u64>) -> (r: Vec<(String, u64)>)
    ensures
        r@.len() == price_map_entries(*m).len(),
        forall|i: int|
            0 <= i < r@.len() ==> (#[trigger] r@[i]).0@ == price_map_entries(*m)[i].0 && r@[i].1
                as int == price_map_entries(*m)[i].1,
{
    m.iter().map(|(k, v)| (k.clone(), *v)).collect()
}

/// Relies on `indexmap::IndexMap::new`: the new map is empty.
#[verifier::external_body]
fn group_map_new() -> (m: indexmap::IndexMap<String, Vec<String>>)
    ensures
        group_map_entries(m) == Seq::<(Seq<char>, Seq<Seq<char>>)>::empty(),
{
    indexmap::IndexMap::new()
}

/// Relies on `indexmap::IndexMap::entry` and `Entry::or_default`: a present
/// key keeps its place in the order, an absent key is inserted last with a
/// default (empty) value; plus `Vec::push` on the entry's value.
#[verifier::external_body]
fn group_map_push(m: &mut indexmap::IndexMap<String, Vec<String>>, key: String, name: String)
    ensures
        group_map_entries(*final(m)) == gmap_push(group_map_entries(*old(m)), key@, name@),
{
    m.entry(key).or_default().push(name);
}

/// A name list with more than one entry.
fn has_multiple(names: &Vec<String>) -> (r: bool)
    ensures
        r == (names.deep_view().len() > 1),
{
    names.len() > 1
}

/// Relies on `indexmap::IndexMap::retain`: the entries the predicate
/// accepts are kept, in their order; the rest are dropped.
#[verifier::external_body]
fn group_map_retain_multiple(m: &mut indexmap::IndexMap<String, Vec<String>>)
    ensures
        group_map_entries(*final(m)) == group_map_entries(*old(m)).filter(multi_member()),
{
    m.retain(|_, names| has_multiple(names));
}

/// Relies on `indexmap::IndexMap::iter`: the entries come out in the map's
/// order, one pair per entry.
#[verifier::external_body]
fn group_map_to_vec(m: &indexmap::IndexMap<String, Vec<String>>) -> (r: Vec<(String, Vec<String>)>)
    ensures
        r@.len() == group_map_entries(*m).len(),
        forall|i: int|
            0 <= i < r@.len() ==> (#[trigger] r@[i]).0@ == group_map_entries(*m)[i].0
                && r@[i].1.deep_view() == group_map_entries(*m)[i].1,
{
    m.iter().map(|(k, v)| (k.clone(), v.clone())).collect()
}

// ---------------------------------------------------------------------------
// What the rules collect
// ---------------------------------------------------------------------------

/// The price threshold, in tenths of a million: ten million and above is a
/// violation of the price ceiling.
pub const PRICE_CEILING_TENTHS: u64 = 100;

/// The overbudget entries a team's players produce: name and price of every
/// player priced at the ceiling or above, in first-seen order, one entry
/// per name with a later price winning.
pub open spec fn overpriced_of(players: Seq<PlayerView>) -> Seq<(Seq<char>, int)>
    decreases players.len(),
{
    if players.len() == 0 {
        Seq::empty()
    } else {
        let front = overpriced_of(players.drop_last());
        if players.last().price_in_tenths >= PRICE_CEILING_TENTHS {
            imap_insert(front, players.last().name, players.last().price_in_tenths)
        } else {
            front
        }
    }
}

/// The club groups a team's players form: for each club name in first-seen
/// order, the names of the team's players in that club, in team order.
pub open spec fn groups_of(players: Seq<PlayerView>) -> Seq<(Seq<char>, Seq<Seq<char>>)>
    decreases players.len(),
{
    if players.len() == 0 {
        Seq::empty()
    } else {
        gmap_push(groups_of(players.drop_last()), players.last().club.name, players.last().name)
    }
}

/// The predicate that keeps a club group only when it has more than one
/// member. Named once so that every mention is the same function value.
pub open spec fn multi_member() -> spec_fn((Seq<char>, Seq<Seq<char>>)) -> bool {
    |e: (Seq<char>, Seq<Seq<char>>)| e.1.len() > 1
}

/// The club groups with more than one player, in first-seen order.
pub open spec fn offending_groups(players: Seq<PlayerView>) -> Seq<(Seq<char>, Seq<Seq<char>>)> {
    groups_of(players).filter(multi_member())
}

// ---------------------------------------------------------------------------
// Message texts
// ---------------------------------------------------------------------------

/// The separator that precedes item `i` of a list of `len` items: nothing
/// before the first, `" and "` before the last, `", "` in between.
pub open spec fn list_sep(i: int, len: int) -> Seq<char> {
    if i == 0 {
        Seq::empty()
    } else if i == len - 1 {
        " and "@
    } else {
        ", "@
    }
}

/// One overbudget item: the player's name and bracketed price.
pub open spec fn price_item(e: (Seq<char>, int)) -> Seq<char> {
    e.0 + " ("@ + price_str(e.1 as nat) + "m)"@
}

/// The first `n` overbudget items joined with their separators.
pub open spec fn joined_price_items_upto(entries: Seq<(Seq<char>, int)>, n: int) -> Seq<char>
    decreases n,
{
    if n <= 0 {
        Seq::empty()
    } else {
        joined_price_items_upto(entries, n - 1) + list_sep(n - 1, entries.len() as int)
            + price_item(entries[n - 1])
    }
}

/// All overbudget items joined with their separators.
pub open spec fn joined_price_items(entries: Seq<(Seq<char>, int)>) -> Seq<char> {
    joined_price_items_upto(entries, entries.len() as int)
}

/// The first `n` player names joined with their separators.
pub open spec fn joined_names_upto(names: Seq<Seq<char>>, n: int) -> Seq<char>
    decreases n,
{
    if n <= 0 {
        Seq::empty()
    } else {
        joined_names_upto(names, n - 1) + list_sep(n - 1, names.len() as int) + names[n - 1]
    }
}

/// All player names joined with their separators.
pub open spec fn joined_names(names: Seq<Seq<char>>) -> Seq<char> {
    joined_names_upto(names, names.len() as int)
}

/// One offending club's segment of the grouping message.
pub open spec fn club_segment(e: (Seq<char>, Seq<Seq<char>>)) -> Seq<char> {
    " more than 1 player from "@ + e.0 + " ("@ + joined_names(e.1) + ")"@
}

/// The first `n` offending clubs' segments, concatenated directly.
pub open spec fn club_segments_upto(groups: Seq<(Seq<char>, Seq<Seq<char>>)>, n: int) -> Seq<char>
    decreases n,
{
    if n <= 0 {
        Seq::empty()
    } else {
        club_segments_upto(groups, n - 1) + club_segment(groups[n - 1])
    }
}

/// All offending clubs' segments, concatenated directly.
pub open spec fn club_segments(groups: Seq<(Seq<char>, Seq<Seq<char>>)>) -> Seq<char> {
    club_segments_upto(groups, groups.len() as int)
}

/// The price-ceiling violation message.
pub open spec fn overbudget_message(
    prefix: Seq<char>,
    owner: Seq<char>,
    entries: Seq<(Seq<char>, int)>,
) -> Seq<char> {
    prefix + " "@ + owner + " has gone overbudget with "@ + joined_price_items(entries)
}

/// The one-player-per-club violation message.
pub open spec fn grouping_message(
    prefix: Seq<char>,
    owner: Seq<char>,
    team_name: Seq<char>,
    groups: Seq<(Seq<char>, Seq<Seq<char>>)>,
) -> Seq<char> {
    prefix + " "@ + owner + " has shat the bed. "@ + team_name + " contains"@ + club_segments(
        groups,
    )
}

/// The newly-promoted-club violation message.
pub open spec fn promotion_message(
    prefix: Seq<char>,
    owner: Seq<char>,
    club_name: Seq<char>,
) -> Seq<char> {
    prefix + " "@ + owner + " has not included players from "@ + club_name
}

// ---------------------------------------------------------------------------
// Executable joining of message parts
// ---------------------------------------------------------------------------

/// The mathematical entries of an executable price-entry list.
pub open spec fn price_entries_view(entries: Seq<(String, u64)>) -> Seq<(Seq<char>, int)> {
    Seq::new(entries.len(), |i: int| (entries[i].0@, entries[i].1 as int))
}

/// The mathematical entries of an executable grouping-entry list.
pub open spec fn group_entries_view(entries: Seq<(String, Vec<String>)>) -> Seq<
    (Seq<char>, Seq<Seq<char>>),
> {
    Seq::new(entries.len(), |i: int| (entries[i].0@, entries[i].1.deep_view()))
}

/// Joins the overbudget items with their separators.
#[verifier::loop_isolation(false)]
fn join_price_items(entries: &Vec<(String, u64)>) -> (s: String)
    ensures
        s@ == joined_price_items(price_entries_view(entries@)),
{
    let mut s = String::new();
    for i in 0..entries.len()
        invariant
            s@ == joined_price_items_upto(price_entries_view(entries@), i as int),
    {
        if i == 0 {
        } else if i == entries.len() - 1 {
            s.append(" and ");
        } else {
            s.append(", ");
        }
        s.append(entries[i].0.as_str());
        s.append(" (");
        s.append(price_to_string(entries[i].1).as_str());
        s.append("m)");
    }
    s
}

/// Joins the player names with their separators.
#[verifier::loop_isolation(false)]
fn join_names(names: &Vec<String>) -> (s: String)
    ensures
        s@ == joined_names(names.deep_view()),
{
    let mut s = String::new();
    for i in 0..names.len()
        invariant
            s@ == joined_names_upto(names.deep_view(), i as int),
    {
        if i == 0 {
        } else if i == names.len() - 1 {
            s.append(" and ");
        } else {
            s.append(", ");
        }
        s.append(names[i].as_str());
    }
    s
}

/// Renders the offending clubs' segments, concatenated directly.
#[verifier::loop_isolation(false)]
fn render_club_segments(groups: &Vec<(String, Vec<String>)>) -> (s: String)
    ensures
        s@ == club_segments(group_entries_view(groups@)),
{
    let mut s = String::new();
    for i in 0..groups.len()
        invariant
            s@ == club_segments_upto(group_entries_view(groups@), i as int),
    {
        s.append(" more than 1 player from ");
        s.append(groups[i].0.as_str());
        s.append(" (");
        s.append(join_names(&groups[i].1).as_str());
        s.append(")");
    }
    s
}


// ---------------------------------------------------------------------------
// The three rules
// ---------------------------------------------------------------------------

/// What the price-ceiling rule returns for a team: valid with an empty
/// reason when no player is at the ceiling or above, else invalid with the
/// overbudget message for some configured prefix.
pub open spec fn price_rule_matches(team: TeamView, v: ValidationResultView) -> bool {
    let entries = overpriced_of(team.players);
    if entries.len() == 0 {
        v.is_valid && v.reason == Seq::<char>::empty()
    } else {
        !v.is_valid && exists|p: Seq<char>|
            is_violation_prefix(p) && v.reason == overbudget_message(p, team.owner, entries)
    }
}

/// Checks the price ceiling: collects every player priced at ten million or
/// above, one entry per name in first-seen order, and reports them all.
#[verifier::loop_isolation(false)]
pub fn team_contains_players_under_10_m(team: &Team) -> (r: ValidationResult)
    ensures
        price_rule_matches(team@, r@),
{
    let players = &team.players;
    let mut over = price_map_new();
    for i in 0..players.len()
        invariant
            price_map_entries(over) == overpriced_of(team@.players.take(i as int)),
    {
        if players[i].price_in_tenths >= PRICE_CEILING_TENTHS {
            price_map_insert(&mut over, players[i].name.clone(), players[i].price_in_tenths);
        }
        proof {
            assert(team@.players.take(i + 1).drop_last() =~= team@.players.take(i as int));
            assert(team@.players.take(i + 1).last() == team@.players[i as int]);
        }
    }
    proof {
        assert(team@.players.take(team@.players.len() as int) =~= team@.players);
    }
    let entries = price_map_to_vec(&over);
    proof {
        assert(price_entries_view(entries@) =~= overpriced_of(team@.players));
    }
    if entries.len() == 0 {
        ValidationResult::valid()
    } else {
        let prefix = random_prefix();
        let ghost p = prefix@;
        let mut reason = prefix;
        reason.append(" ");
        reason.append(team.owner.as_str());
        reason.append(" has gone overbudget with ");
        let items = join_price_items(&entries);
        reason.append(items.as_str());
        let r = ValidationResult::invalid(reason.as_str());
        proof {
            assert(r@.reason == overbudget_message(p, team@.owner, overpriced_of(team@.players)));
        }
        r
    }
}

/// What the one-player-per-club rule returns for a team: valid with an
/// empty reason when every club name appears at most once among the team's
/// players, else invalid with the grouping message for some configured
/// prefix.
pub open spec fn grouping_rule_matches(team: TeamView, v: ValidationResultView) -> bool {
    let groups = offending_groups(team.players);
    if groups.len() == 0 {
        v.is_valid && v.reason == Seq::<char>::empty()
    } else {
        !v.is_valid && exists|p: Seq<char>|
            is_violation_prefix(p) && v.reason == grouping_message(
                p,
                team.owner,
                team.name,
                groups,
            )
    }
}

/// Checks that no club name appears more than once: groups the players by
/// club name in first-seen order and reports every group with more than one
/// member.
#[verifier::loop_isolation(false)]
pub fn team_contains_at_most_one_player_per_club(team: &Team) -> (r: ValidationResult)
    ensures
        grouping_rule_matches(team@, r@),
{
    let players = &team.players;
    let mut seen = group_map_new();
    for i in 0..players.len()
        invariant
            group_map_entries(seen) == groups_of(team@.players.take(i as int)),
    {
        group_map_push(&mut seen, players[i].club.name.clone(), players[i].name.clone());
        proof {
            assert(team@.players.take(i + 1).drop_last() =~= team@.players.take(i as int));
            assert(team@.players.take(i + 1).last() == team@.players[i as int]);
        }
    }
    proof {
        assert(team@.players.take(team@.players.len() as int) =~= team@.players);
    }
    group_map_retain_multiple(&mut seen);
    let groups = group_map_to_vec(&seen);
    proof {
        assert(group_entries_view(groups@) =~= offending_groups(team@.players));
    }
    if groups.len() == 0 {
        ValidationResult::valid()
    } else {
        let prefix = random_prefix();
        let ghost p = prefix@;
        let mut reason = prefix;
        reason.append(" ");
        reason.append(team.owner.as_str());
        reason.append(" has shat the bed. ");
        reason.append(team.name.as_str());
        reason.append(" contains");
        let segments = render_club_segments(&groups);
        reason.append(segments.as_str());
        let r = ValidationResult::invalid(reason.as_str());
        proof {
            assert(r@.reason == grouping_message(
                p,
                team@.owner,
                team@.name,
                offending_groups(team@.players),
            ));
        }
        r
    }
}

/// The club ids whose presence on a roster the house rules mandate, in the
/// order they are checked.
pub open spec fn newly_promoted_ids() -> Seq<i64> {
    seq![3i64, 11i64, 17i64]
}

/// Some player of the team belongs to the club with this id.
pub open spec fn has_player_from(players: Seq<PlayerView>, club_id: i64) -> bool {
    exists|k: int| 0 <= k < players.len() && (#[trigger] players[k]).club.id == club_id as int
}

/// What the newly-promoted-clubs rule returns for a team: valid with an
/// empty reason when every mandated club is represented, else invalid,
/// naming the first mandated club in check order with no player, with the
/// promotion message for some configured prefix.
pub open spec fn promotion_rule_matches(
    clubs: Map<i64, ClubView>,
    team: TeamView,
    v: ValidationResultView,
) -> bool {
    if forall|i: int|
        0 <= i < newly_promoted_ids().len() ==> has_player_from(
            team.players,
            #[trigger] newly_promoted_ids()[i],
        ) {
        v.is_valid && v.reason == Seq::<char>::empty()
    } else {
        exists|i: int|
            {
                &&& 0 <= i < newly_promoted_ids().len()
                &&& !has_player_from(team.players, #[trigger] newly_promoted_ids()[i])
                &&& forall|j: int|
                    0 <= j < i ==> has_player_from(team.players, #[trigger] newly_promoted_ids()[j])
                &&& !v.is_valid
                &&& exists|p: Seq<char>|
                    is_violation_prefix(p) && v.reason == promotion_message(
                        p,
                        team.owner,
                        clubs[newly_promoted_ids()[i]].name,
                    )
            }
    }
}

/// The mandated club ids, in check order.
pub fn newly_promoted_clubs() -> (r: Vec<i64>)
    ensures
        r@ == newly_promoted_ids(),
{
    let mut ids: Vec<i64> = Vec::new();
    ids.push(3);
    ids.push(11);
    ids.push(17);
    proof {
        assert(ids@ =~= newly_promoted_ids());
    }
    ids
}

/// Whether some player of the team belongs to the club with this id.
#[verifier::loop_isolation(false)]
fn team_has_player_from(team: &Team, club_id: i64) -> (r: bool)
    ensures
        r == has_player_from(team@.players, club_id),
{
    let players = &team.players;
    for j in 0..players.len()
        invariant
            forall|k: int| 0 <= k < j ==> (#[trigger] team@.players[k]).club.id != club_id as int,
    {
        if players[j].club.id == club_id {
            proof {
                assert(team@.players[j as int].club.id == club_id as int);
            }
            return true;
        }
    }
    false
}

/// Checks that every newly promoted club is represented, in a fixed order,
/// reporting only the first missing one. A mandated id is looked up in the
/// club index only when the team has no player from it — the message names
/// that club — so only such ids must resolve.
#[verifier::loop_isolation(false)]
pub fn team_contains_players_from_newly_promoted_clubs(
    clubs_by_club_id: &HashMap<i64, Club>,
    team: &Team,
) -> (r: ValidationResult)
    requires
        forall|i: int|
            0 <= i < newly_promoted_ids().len() && !has_player_from(
                team@.players,
                #[trigger] newly_promoted_ids()[i],
            ) ==> club_views(clubs_by_club_id@).contains_key(newly_promoted_ids()[i]),
    ensures
        promotion_rule_matches(club_views(clubs_by_club_id@), team@, r@),
{
    let ids = newly_promoted_clubs();
    for i in 0..ids.len()
        invariant
            forall|j: int|
                0 <= j < i ==> has_player_from(team@.players, #[trigger] newly_promoted_ids()[j]),
    {
        if !team_has_player_from(team, ids[i]) {
            let club = match clubs_by_club_id.get(&ids[i]) {
                Some(c) => c,
                None => {
                    proof {
                        assert(false);
                    }
                    unreached()
                },
            };
            let prefix = random_prefix();
            let ghost p = prefix@;
            let mut reason = prefix;
            reason.append(" ");
            reason.append(team.owner.as_str());
            reason.append(" has not included players from ");
            reason.append(club.name.as_str());
            let r = ValidationResult::invalid(reason.as_str());
            proof {
                assert(club@ == club_views(clubs_by_club_id@)[newly_promoted_ids()[i as int]]);
                assert(r@.reason == promotion_message(
                    p,
                    team@.owner,
                    club_views(clubs_by_club_id@)[newly_promoted_ids()[i as int]].name,
                ));
                assert({
                    &&& 0 <= (i as int) < newly_promoted_ids().len()
                    &&& !has_player_from(team@.players, newly_promoted_ids()[i as int])
                    &&& forall|j: int|
                        0 <= j < i as int ==> has_player_from(
                            team@.players,
                            #[trigger] newly_promoted_ids()[j],
                        )
                    &&& !r@.is_valid
                });
            }
            return r;
        }
    }
    ValidationResult::valid()
}

// ---------------------------------------------------------------------------
// The aggregator
// ---------------------------------------------------------------------------

/// The predicate that keeps a validation result only when it is a
/// violation. Named once so that every mention is the same function value.
pub open spec fn violation_filter() -> spec_fn(ValidationResultView) -> bool {
    |v: ValidationResultView| !v.is_valid
}

/// The three rules' results for one team, in the order they are run:
/// price ceiling, newly promoted clubs, one player per club.
pub open spec fn rule_results(
    clubs: Map<i64, ClubView>,
    team: TeamView,
    rs: Seq<ValidationResultView>,
) -> bool {
    &&& rs.len() == 3
    &&& price_rule_matches(team, rs[0])
    &&& promotion_rule_matches(clubs, team, rs[1])
    &&& grouping_rule_matches(team, rs[2])
}

/// Keeps only the violations, in order.
#[verifier::loop_isolation(false)]
fn retain_invalid(results: &mut Vec<ValidationResult>)
    ensures
        final(results).deep_view() == old(results).deep_view().filter(violation_filter()),
{
    let mut kept: Vec<ValidationResult> = Vec::new();
    let n = results.len();
    for i in 0..n
        invariant
            n == results@.len(),
            results@ == old(results)@,
            kept.deep_view() == results.deep_view().take(i as int).filter(violation_filter()),
    {
        let ghost prev_kept = kept.deep_view();
        if !results[i].is_valid {
            kept.push(results[i].clone());
        }
        proof {
            reveal(Seq::<_>::filter);
            assert(results.deep_view().take(i + 1).drop_last() =~= results.deep_view().take(
                i as int,
            ));
            assert(results.deep_view().take(i + 1).last() == results.deep_view()[i as int]);
            if !results.deep_view()[i as int].is_valid {
                assert(kept.deep_view() =~= prev_kept.push(results.deep_view()[i as int]));
            } else {
                assert(kept.deep_view() =~= prev_kept);
            }
        }
    }
    proof {
        assert(results.deep_view().take(results@.len() as int) =~= results.deep_view());
    }
    *results = kept;
}

/// Copies a list of validation results.
#[verifier::loop_isolation(false)]
fn clone_results(results: &Vec<ValidationResult>) -> (r: Vec<ValidationResult>)
    ensures
        r.deep_view() == results.deep_view(),
{
    let mut out: Vec<ValidationResult> = Vec::new();
    for i in 0..results.len()
        invariant
            out.deep_view() == results.deep_view().take(i as int),
    {
        out.push(results[i].clone());
        proof {
            assert(out.deep_view() =~= results.deep_view().take(i + 1));
        }
    }
    proof {
        assert(results.deep_view().take(results@.len() as int) =~= results.deep_view());
    }
    out
}

/// Runs the three rules on a team — price ceiling, newly promoted clubs,
/// one player per club, in that order — and returns this team's failing
/// results, in that order; the caller concatenates the returned lists
/// across teams. The accumulator receives a copy of the three results and
/// keeps only the failing results ever pushed into it.
pub fn run_validators_and_retain_violations(
    clubs_by_club_id: &HashMap<i64, Club>,
    validation_results: &mut Vec<ValidationResult>,
    team: &Team,
) -> (violations: Vec<ValidationResult>)
    requires
        forall|i: int|
            0 <= i < newly_promoted_ids().len() && !has_player_from(
                team@.players,
                #[trigger] newly_promoted_ids()[i],
            ) ==> club_views(clubs_by_club_id@).contains_key(newly_promoted_ids()[i]),
    ensures
        exists|rs: Seq<ValidationResultView>|
            {
                &&& #[trigger] rule_results(club_views(clubs_by_club_id@), team@, rs)
                &&& violations.deep_view() == rs.filter(violation_filter())
                &&& final(validation_results).deep_view() == (old(
                    validation_results,
                ).deep_view() + rs).filter(violation_filter())
            },
{
    let r1 = team_contains_players_under_10_m(team);
    let r3 = team_contains_players_from_newly_promoted_clubs(clubs_by_club_id, team);
    let r2 = team_contains_at_most_one_player_per_club(team);
    let ghost rs = seq![r1@, r3@, r2@];
    validation_results.push(r1.clone());
    validation_results.push(r3.clone());
    validation_results.push(r2.clone());
    proof {
        assert(validation_results.deep_view() =~= old(validation_results).deep_view() + rs);
        assert(rule_results(club_views(clubs_by_club_id@), team@, rs));
    }
    retain_invalid(validation_results);
    let mut violations: Vec<ValidationResult> = Vec::new();
    violations.push(r1);
    violations.push(r3);
    violations.push(r2);
    proof {
        assert(violations.deep_view() =~= rs);
    }
    retain_invalid(&mut violations);
    violations
}

// ---------------------------------------------------------------------------
// Turning violations into output text
// ---------------------------------------------------------------------------

/// The text reported when no rule was broken.
pub open spec fn no_violations_text() -> Seq<char> {
    "No rules have been broken... boring!"@
}

/// The report for a list of results: each violation's reason followed by a
/// blank line, valid results skipped.
pub open spec fn report_of(results: Seq<ValidationResultView>) -> Seq<char>
    decreases results.len(),
{
    if results.len() == 0 {
        Seq::empty()
    } else {
        report_of(results.drop_last()) + (if !results.last().is_valid {
            results.last().reason + "\n\n"@
        } else {
            Seq::empty()
        })
    }
}

/// Joins the violations into the printed report, or the fixed no-violation
/// text when the list is empty.
#[verifier::loop_isolation(false)]
pub fn process_validation_results(violations: Vec<ValidationResult>) -> (r: String)
    ensures
        r@ == if violations.deep_view().len() == 0 {
            no_violations_text()
        } else {
            report_of(violations.deep_view())
        },
{
    if violations.len() == 0 {
        return String::from_str("No rules have been broken... boring!");
    }
    let mut output = String::new();
    for i in 0..violations.len()
        invariant
            output@ == report_of(violations.deep_view().take(i as int)),
    {
        if !violations[i].is_valid {
            output.append(violations[i].reason.as_str());
            output.append("\n\n");
        }
        proof {
            assert(violations.deep_view().take(i + 1).drop_last() =~= violations.deep_view().take(
                i as int,
            ));
            assert(violations.deep_view().take(i + 1).last() == violations.deep_view()[i as int]);
        }
    }
    proof {
        assert(violations.deep_view().take(violations@.len() as int) =~= violations.deep_view());
    }
    output
}


// ---------------------------------------------------------------------------
// Laws of the rules
// ---------------------------------------------------------------------------

/// No player at or above the ceiling means no overbudget entries.
proof fn lemma_overpriced_empty(players: Seq<PlayerView>)
    requires
        forall|j: int|
            0 <= j < players.len() ==> (#[trigger] players[j]).price_in_tenths
                < PRICE_CEILING_TENTHS,
    ensures
        overpriced_of(players).len() == 0,
    decreases players.len(),
{
    if players.len() > 0 {
        assert(forall|j: int|
            0 <= j < players.drop_last().len() ==> players.drop_last()[j]
                == #[trigger] players[j]);
        lemma_overpriced_empty(players.drop_last());
    }
}

/// Exactly one player at or above the ceiling means exactly that player's
/// name and price as the one overbudget entry.
proof fn lemma_overpriced_single(players: Seq<PlayerView>, i: int)
    requires
        0 <= i < players.len(),
        players[i].price_in_tenths >= PRICE_CEILING_TENTHS,
        forall|j: int|
            0 <= j < players.len() && j != i ==> (#[trigger] players[j]).price_in_tenths
                < PRICE_CEILING_TENTHS,
    ensures
        overpriced_of(players) == seq![(players[i].name, players[i].price_in_tenths)],
    decreases players.len(),
{
    assert(forall|j: int|
        0 <= j < players.drop_last().len() ==> players.drop_last()[j] == #[trigger] players[j]);
    if i == players.len() - 1 {
        lemma_overpriced_empty(players.drop_last());
        assert(overpriced_of(players.drop_last()) =~= Seq::<(Seq<char>, int)>::empty());
        assert(overpriced_of(players) =~= seq![(players[i].name, players[i].price_in_tenths)]);
    } else {
        lemma_overpriced_single(players.drop_last(), i);
    }
}

/// Price rule, passing direction: a team whose players are all priced
/// under ten million passes, with an empty reason.
pub proof fn lemma_price_rule_all_under_ceiling(team: TeamView, v: ValidationResultView)
    requires
        forall|j: int|
            0 <= j < team.players.len() ==> (#[trigger] team.players[j]).price_in_tenths
                < PRICE_CEILING_TENTHS,
        price_rule_matches(team, v),
    ensures
        v.is_valid,
        v.reason == Seq::<char>::empty(),
{
    lemma_overpriced_empty(team.players);
}

/// Price rule, single offender: a team with exactly one player at or above
/// the ceiling fails, and the reason is the overbudget message for that
/// player's name and price alone.
pub proof fn lemma_price_rule_single_offender(team: TeamView, v: ValidationResultView, i: int)
    requires
        0 <= i < team.players.len(),
        team.players[i].price_in_tenths >= PRICE_CEILING_TENTHS,
        forall|j: int|
            0 <= j < team.players.len() && j != i ==> (#[trigger] team.players[j]).price_in_tenths
                < PRICE_CEILING_TENTHS,
        price_rule_matches(team, v),
    ensures
        !v.is_valid,
        exists|p: Seq<char>|
            is_violation_prefix(p) && v.reason == overbudget_message(
                p,
                team.owner,
                seq![(team.players[i].name, team.players[i].price_in_tenths)],
            ),
{
    lemma_overpriced_single(team.players, i);
}

/// Two overbudget items are joined with `" and "` and nothing else.
pub proof fn lemma_two_items_join_with_and(e0: (Seq<char>, int), e1: (Seq<char>, int))
    ensures
        joined_price_items(seq![e0, e1]) == price_item(e0) + " and "@ + price_item(e1),
{
    let s = seq![e0, e1];
    assert(joined_price_items_upto(s, 0) == Seq::<char>::empty());
    assert(joined_price_items_upto(s, 1) == Seq::<char>::empty() + list_sep(0, 2) + price_item(
        e0,
    ));
    assert(joined_price_items(s) =~= price_item(e0) + " and "@ + price_item(e1));
}

/// Promotion rule, passing direction: a team with players from every
/// mandated club passes, with an empty reason.
pub proof fn lemma_promotion_rule_all_represented(
    clubs: Map<i64, ClubView>,
    team: TeamView,
    v: ValidationResultView,
)
    requires
        has_player_from(team.players, 3),
        has_player_from(team.players, 11),
        has_player_from(team.players, 17),
        promotion_rule_matches(clubs, team, v),
    ensures
        v.is_valid,
        v.reason == Seq::<char>::empty(),
{
    assert(forall|i: int|
        0 <= i < newly_promoted_ids().len() ==> has_player_from(
            team.players,
            #[trigger] newly_promoted_ids()[i],
        )) by {
        assert(newly_promoted_ids()[0] == 3i64);
        assert(newly_promoted_ids()[1] == 11i64);
        assert(newly_promoted_ids()[2] == 17i64);
    }
}

/// Promotion rule, first missing wins: a team with no player from the
/// first mandated club fails naming that club alone, whatever the other
/// two clubs' representation.
pub proof fn lemma_promotion_rule_first_missing_wins(
    clubs: Map<i64, ClubView>,
    team: TeamView,
    v: ValidationResultView,
)
    requires
        !has_player_from(team.players, 3),
        promotion_rule_matches(clubs, team, v),
    ensures
        !v.is_valid,
        exists|p: Seq<char>|
            is_violation_prefix(p) && v.reason == promotion_message(p, team.owner, clubs[3].name),
{
    assert(newly_promoted_ids()[0] == 3i64);
    assert(!has_player_from(team.players, newly_promoted_ids()[0]));
    let i = choose|i: int|
        {
            &&& 0 <= i < newly_promoted_ids().len()
            &&& !has_player_from(team.players, #[trigger] newly_promoted_ids()[i])
            &&& forall|j: int|
                0 <= j < i ==> has_player_from(team.players, #[trigger] newly_promoted_ids()[j])
            &&& !v.is_valid
            &&& exists|p: Seq<char>|
                is_violation_prefix(p) && v.reason == promotion_message(
                    p,
                    team.owner,
                    clubs[newly_promoted_ids()[i]].name,
                )
        };
    assert(i == 0) by {
        if i > 0 {
            assert(has_player_from(team.players, newly_promoted_ids()[0]));
        }
    }
}

/// Aggregator law: on a team that fails the price rule and the promotion
/// rule but passes the grouping rule, the three results filter down to
/// exactly the first two, both invalid.
pub proof fn lemma_aggregator_keeps_only_failures(
    clubs: Map<i64, ClubView>,
    team: TeamView,
    rs: Seq<ValidationResultView>,
)
    requires
        rule_results(clubs, team, rs),
        overpriced_of(team.players).len() > 0,
        exists|i: int|
            0 <= i < newly_promoted_ids().len() && !has_player_from(
                team.players,
                #[trigger] newly_promoted_ids()[i],
            ),
        offending_groups(team.players).len() == 0,
    ensures
        rs.filter(violation_filter()) == seq![rs[0], rs[1]],
        !rs[0].is_valid,
        !rs[1].is_valid,
{
    reveal(Seq::filter);
    assert(!rs[0].is_valid);
    assert(!rs[1].is_valid);
    assert(rs[2].is_valid);
    assert(rs =~= seq![rs[0], rs[1], rs[2]]);
    let s1 = seq![rs[0]];
    let s2 = seq![rs[0], rs[1]];
    let s3 = seq![rs[0], rs[1], rs[2]];
    assert(s1.drop_last() =~= Seq::<ValidationResultView>::empty());
    assert(s2.drop_last() =~= s1);
    assert(s3.drop_last() =~= s2);
    assert(Seq::<ValidationResultView>::empty().filter(violation_filter())
        =~= Seq::<ValidationResultView>::empty());
    assert(s1.filter(violation_filter()) =~= s1);
    assert(s2.filter(violation_filter()) =~= s2);
    assert(s3.filter(violation_filter()) =~= s2);
    assert(rs.filter(violation_filter()) == s3.filter(violation_filter()));
}


/// The names of a club's players, in team order.
pub open spec fn club_player_names(players: Seq<PlayerView>, club_name: Seq<char>) -> Seq<
    Seq<char>,
>
    decreases players.len(),
{
    if players.len() == 0 {
        Seq::empty()
    } else {
        let front = club_player_names(players.drop_last(), club_name);
        if players.last().club.name == club_name {
            front.push(players.last().name)
        } else {
            front
        }
    }
}

/// Pushing a name under a key absent from the entries appends a new
/// singleton group at the end.
proof fn lemma_gmap_push_new_key(
    entries: Seq<(Seq<char>, Seq<Seq<char>>)>,
    key: Seq<char>,
    name: Seq<char>,
)
    requires
        forall|k: int| 0 <= k < entries.len() ==> (#[trigger] entries[k]).0 != key,
    ensures
        gmap_push(entries, key, name) == entries.push((key, seq![name])),
    decreases entries.len(),
{
    if entries.len() == 0 {
        assert(gmap_push(entries, key, name) =~= entries.push((key, seq![name])));
    } else {
        assert(forall|k: int|
            0 <= k < entries.drop_first().len() ==> entries.drop_first()[k]
                == #[trigger] entries[k + 1]);
        lemma_gmap_push_new_key(entries.drop_first(), key, name);
        assert(seq![entries[0]] + entries.drop_first().push((key, seq![name])) =~= entries.push(
            (key, seq![name]),
        ));
    }
}

/// Pushing a name under the key at position `idx`, when the keys are
/// pairwise distinct, extends that one group's names in place.
proof fn lemma_gmap_push_existing_key(
    entries: Seq<(Seq<char>, Seq<Seq<char>>)>,
    idx: int,
    name: Seq<char>,
)
    requires
        0 <= idx < entries.len(),
        forall|k1: int, k2: int|
            0 <= k1 < k2 < entries.len() ==> (#[trigger] entries[k1]).0 != (#[trigger] entries[k2]).0,
    ensures
        gmap_push(entries, entries[idx].0, name) == entries.update(
            idx,
            (entries[idx].0, entries[idx].1.push(name)),
        ),
    decreases entries.len(),
{
    if idx == 0 {
        assert(gmap_push(entries, entries[0].0, name) =~= entries.update(
            0,
            (entries[0].0, entries[0].1.push(name)),
        ));
    } else {
        let rest = entries.drop_first();
        assert(forall|k: int|
            0 <= k < rest.len() ==> rest[k] == #[trigger] entries[k + 1]);
        assert(entries[0].0 != entries[idx].0);
        lemma_gmap_push_existing_key(rest, idx - 1, name);
        assert(rest[idx - 1] == entries[idx]);
        assert(seq![entries[0]] + rest.update(idx - 1, (entries[idx].0, entries[idx].1.push(name)))
            =~= entries.update(idx, (entries[idx].0, entries[idx].1.push(name))));
    }
}

/// A club no player belongs to has no player names.
proof fn lemma_club_player_names_absent(players: Seq<PlayerView>, club_name: Seq<char>)
    requires
        forall|j: int| 0 <= j < players.len() ==> (#[trigger] players[j]).club.name != club_name,
    ensures
        club_player_names(players, club_name).len() == 0,
    decreases players.len(),
{
    if players.len() > 0 {
        assert(forall|j: int|
            0 <= j < players.drop_last().len() ==> players.drop_last()[j]
                == #[trigger] players[j]);
        lemma_club_player_names_absent(players.drop_last(), club_name);
    }
}

/// The group keys are pairwise distinct.
pub open spec fn groups_keys_distinct(gs: Seq<(Seq<char>, Seq<Seq<char>>)>) -> bool {
    forall|k1: int, k2: int|
        0 <= k1 < k2 < gs.len() ==> (#[trigger] gs[k1]).0 != (#[trigger] gs[k2]).0
}

/// Each group holds exactly the names of that club's players in team
/// order.
pub open spec fn groups_names_match(
    players: Seq<PlayerView>,
    gs: Seq<(Seq<char>, Seq<Seq<char>>)>,
) -> bool {
    forall|k: int| 0 <= k < gs.len() ==> (#[trigger] gs[k]).1 == club_player_names(players, gs[k].0)
}

/// Each group's club is some player's club.
pub open spec fn groups_keys_represented(
    players: Seq<PlayerView>,
    gs: Seq<(Seq<char>, Seq<Seq<char>>)>,
) -> bool {
    forall|k: int|
        0 <= k < gs.len() ==> exists|j: int|
            0 <= j < players.len() && (#[trigger] players[j]).club.name == (#[trigger] gs[k]).0
}

/// Each player's club has a group.
pub open spec fn players_have_groups(
    players: Seq<PlayerView>,
    gs: Seq<(Seq<char>, Seq<Seq<char>>)>,
) -> bool {
    forall|j: int|
        0 <= j < players.len() ==> exists|k: int|
            0 <= k < gs.len() && (#[trigger] gs[k]).0 == (#[trigger] players[j]).club.name
}

/// What the grouping of a team's players looks like: the group keys are
/// pairwise distinct; each group holds exactly the names of that club's
/// players in team order; and a club has a group exactly when some player
/// belongs to it.
pub open spec fn groups_characterize(players: Seq<PlayerView>) -> bool {
    let gs = groups_of(players);
    &&& groups_keys_distinct(gs)
    &&& groups_names_match(players, gs)
    &&& groups_keys_represented(players, gs)
    &&& players_have_groups(players, gs)
}

/// One player more changes one club's name list: the last player's club
/// gains that player's name at the end; every other club's list stays.
proof fn lemma_club_player_names_step(players: Seq<PlayerView>, key: Seq<char>)
    requires
        players.len() > 0,
    ensures
        club_player_names(players, key) == if players.last().club.name == key {
            club_player_names(players.drop_last(), key).push(players.last().name)
        } else {
            club_player_names(players.drop_last(), key)
        },
{
}

/// Existing-key step, first half: the push keeps the keys — so still
/// pairwise distinct — and each group's names stay that club's player
/// names.
#[verifier::rlimit(100)]
proof fn lemma_step_existing_names(players: Seq<PlayerView>, idx: int)
    requires
        players.len() > 0,
        groups_keys_distinct(groups_of(players.drop_last())),
        groups_names_match(players.drop_last(), groups_of(players.drop_last())),
        0 <= idx < groups_of(players.drop_last()).len(),
        groups_of(players.drop_last())[idx].0 == players.last().club.name,
    ensures
        groups_keys_distinct(groups_of(players)),
        groups_names_match(players, groups_of(players)),
{
    let front = players.drop_last();
    let c = players.last().club.name;
    let n = players.last().name;
    let gf = groups_of(front);
    let gs = groups_of(players);
    lemma_gmap_push_existing_key(gf, idx, n);
    assert(gs == gf.update(idx, (gf[idx].0, gf[idx].1.push(n))));
    assert(forall|k: int| 0 <= k < gs.len() ==> (#[trigger] gs[k]).0 == gf[k].0);
    assert forall|k: int| 0 <= k < gs.len() implies (#[trigger] gs[k]).1 == club_player_names(
        players,
        gs[k].0,
    ) by {
        lemma_club_player_names_step(players, gs[k].0);
        if k != idx {
            assert(gs[k] == gf[k]);
            assert(gs[k].0 != c);
        }
    }
}

/// Existing-key step, second half: each group's club is some player's, and
/// each player's club has a group.
#[verifier::rlimit(100)]
proof fn lemma_step_existing_membership(players: Seq<PlayerView>, idx: int)
    requires
        players.len() > 0,
        groups_keys_distinct(groups_of(players.drop_last())),
        groups_keys_represented(players.drop_last(), groups_of(players.drop_last())),
        players_have_groups(players.drop_last(), groups_of(players.drop_last())),
        0 <= idx < groups_of(players.drop_last()).len(),
        groups_of(players.drop_last())[idx].0 == players.last().club.name,
    ensures
        groups_keys_represented(players, groups_of(players)),
        players_have_groups(players, groups_of(players)),
{
    let front = players.drop_last();
    let c = players.last().club.name;
    let n = players.last().name;
    let gf = groups_of(front);
    let gs = groups_of(players);
    lemma_gmap_push_existing_key(gf, idx, n);
    assert(gs == gf.update(idx, (gf[idx].0, gf[idx].1.push(n))));
    assert(forall|j: int| 0 <= j < front.len() ==> front[j] == #[trigger] players[j]);
    assert forall|k: int| 0 <= k < gs.len() implies exists|j: int|
        0 <= j < players.len() && (#[trigger] players[j]).club.name == (#[trigger] gs[k]).0 by {
        assert(gs[k].0 == gf[k].0);
        let j0 = choose|j: int|
            0 <= j < front.len() && (#[trigger] front[j]).club.name == gf[k].0;
        assert(players[j0].club.name == gs[k].0);
    }
    assert forall|j: int| 0 <= j < players.len() implies exists|k: int|
        0 <= k < gs.len() && (#[trigger] gs[k]).0 == (#[trigger] players[j]).club.name by {
        if j < players.len() - 1 {
            let k0 = choose|k: int|
                0 <= k < gf.len() && (#[trigger] gf[k]).0 == front[j].club.name;
            assert(gs[k0].0 == players[j].club.name);
        } else {
            assert(gs[idx].0 == players[j].club.name);
        }
    }
}

/// New-key step, first half: the keys gain the new club at the end — all
/// still pairwise distinct — and each group's names are that club's player
/// names.
#[verifier::rlimit(100)]
proof fn lemma_step_new_names(players: Seq<PlayerView>)
    requires
        players.len() > 0,
        groups_keys_distinct(groups_of(players.drop_last())),
        groups_names_match(players.drop_last(), groups_of(players.drop_last())),
        players_have_groups(players.drop_last(), groups_of(players.drop_last())),
        forall|k: int|
            0 <= k < groups_of(players.drop_last()).len() ==> (#[trigger] groups_of(
                players.drop_last(),
            )[k]).0 != players.last().club.name,
    ensures
        groups_keys_distinct(groups_of(players)),
        groups_names_match(players, groups_of(players)),
{
    let front = players.drop_last();
    let c = players.last().club.name;
    let n = players.last().name;
    let gf = groups_of(front);
    let gs = groups_of(players);
    lemma_gmap_push_new_key(gf, c, n);
    assert(gs == gf.push((c, seq![n])));
    assert(forall|j: int| 0 <= j < front.len() ==> front[j] == #[trigger] players[j]);
    // No earlier player belongs to the last player's club: its club would
    // have a group, and no group key equals it.
    assert forall|j: int| 0 <= j < front.len() implies (#[trigger] front[j]).club.name != c by {
        let k0 = choose|k: int| 0 <= k < gf.len() && (#[trigger] gf[k]).0 == front[j].club.name;
    }
    lemma_club_player_names_absent(front, c);
    assert forall|k: int| 0 <= k < gs.len() implies (#[trigger] gs[k]).1 == club_player_names(
        players,
        gs[k].0,
    ) by {
        lemma_club_player_names_step(players, gs[k].0);
        if k < gs.len() - 1 {
            assert(gs[k] == gf[k]);
            assert(gs[k].0 != c);
        } else {
            assert(club_player_names(players, c) =~= seq![n]);
        }
    }
}

/// New-key step, second half: each group's club is some player's, and each
/// player's club has a group.
#[verifier::rlimit(100)]
proof fn lemma_step_new_membership(players: Seq<PlayerView>)
    requires
        players.len() > 0,
        groups_keys_represented(players.drop_last(), groups_of(players.drop_last())),
        players_have_groups(players.drop_last(), groups_of(players.drop_last())),
        forall|k: int|
            0 <= k < groups_of(players.drop_last()).len() ==> (#[trigger] groups_of(
                players.drop_last(),
            )[k]).0 != players.last().club.name,
    ensures
        groups_keys_represented(players, groups_of(players)),
        players_have_groups(players, groups_of(players)),
{
    let front = players.drop_last();
    let c = players.last().club.name;
    let n = players.last().name;
    let gf = groups_of(front);
    let gs = groups_of(players);
    lemma_gmap_push_new_key(gf, c, n);
    assert(gs == gf.push((c, seq![n])));
    assert(forall|j: int| 0 <= j < front.len() ==> front[j] == #[trigger] players[j]);
    assert forall|k: int| 0 <= k < gs.len() implies exists|j: int|
        0 <= j < players.len() && (#[trigger] players[j]).club.name == (#[trigger] gs[k]).0 by {
        if k < gs.len() - 1 {
            assert(gs[k] == gf[k]);
            let j0 = choose|j: int|
                0 <= j < front.len() && (#[trigger] front[j]).club.name == gf[k].0;
            assert(players[j0].club.name == gs[k].0);
        } else {
            assert(players[players.len() - 1].club.name == gs[k].0);
        }
    }
    assert forall|j: int| 0 <= j < players.len() implies exists|k: int|
        0 <= k < gs.len() && (#[trigger] gs[k]).0 == (#[trigger] players[j]).club.name by {
        if j < players.len() - 1 {
            let k0 = choose|k: int|
                0 <= k < gf.len() && (#[trigger] gf[k]).0 == front[j].club.name;
            assert(gs[k0].0 == players[j].club.name);
        } else {
            assert(gs[gs.len() - 1].0 == players[j].club.name);
        }
    }
}

/// The grouping of a team's players is characterized as
/// [`groups_characterize`] says.
pub proof fn lemma_groups_of_characterization(players: Seq<PlayerView>)
    ensures
        groups_characterize(players),
    decreases players.len(),
{
    if players.len() > 0 {
        let front = players.drop_last();
        lemma_groups_of_characterization(front);
        let c = players.last().club.name;
        let gf = groups_of(front);
        if exists|k: int| 0 <= k < gf.len() && (#[trigger] gf[k]).0 == c {
            let idx = choose|k: int| 0 <= k < gf.len() && (#[trigger] gf[k]).0 == c;
            lemma_step_existing_names(players, idx);
            lemma_step_existing_membership(players, idx);
        } else {
            assert(forall|k: int| 0 <= k < gf.len() ==> (#[trigger] gf[k]).0 != c);
            lemma_step_new_names(players);
            lemma_step_new_membership(players);
        }
    }
}

/// With pairwise distinct club names, a club has at most one player name.
proof fn lemma_club_player_names_distinct(players: Seq<PlayerView>, club_name: Seq<char>)
    requires
        forall|j1: int, j2: int|
            0 <= j1 < j2 < players.len() ==> (#[trigger] players[j1]).club.name != (
            #[trigger] players[j2]).club.name,
    ensures
        club_player_names(players, club_name).len() <= 1,
    decreases players.len(),
{
    if players.len() > 0 {
        let front = players.drop_last();
        assert(forall|j: int| 0 <= j < front.len() ==> front[j] == #[trigger] players[j]);
        if players.last().club.name == club_name {
            assert(forall|j: int|
                0 <= j < front.len() ==> (#[trigger] front[j]).club.name != club_name);
            lemma_club_player_names_absent(front, club_name);
        } else {
            lemma_club_player_names_distinct(front, club_name);
        }
    }
}

/// A filter that accepts no element of a sequence yields the empty
/// sequence.
proof fn lemma_filter_rejects_all(s: Seq<(Seq<char>, Seq<Seq<char>>)>)
    requires
        forall|k: int| 0 <= k < s.len() ==> !multi_member()(#[trigger] s[k]),
    ensures
        s.filter(multi_member()).len() == 0,
    decreases s.len(),
{
    reveal(Seq::filter);
    if s.len() > 0 {
        assert(forall|k: int|
            0 <= k < s.drop_last().len() ==> s.drop_last()[k] == #[trigger] s[k]);
        lemma_filter_rejects_all(s.drop_last());
    }
}

/// Grouping rule, passing direction: a team whose players' club names are
/// pairwise distinct passes, with an empty reason.
pub proof fn lemma_grouping_rule_distinct_clubs(team: TeamView, v: ValidationResultView)
    requires
        forall|j1: int, j2: int|
            0 <= j1 < j2 < team.players.len() ==> (#[trigger] team.players[j1]).club.name != (
            #[trigger] team.players[j2]).club.name,
        grouping_rule_matches(team, v),
    ensures
        v.is_valid,
        v.reason == Seq::<char>::empty(),
{
    lemma_groups_of_characterization(team.players);
    let gs = groups_of(team.players);
    assert forall|k: int| 0 <= k < gs.len() implies !multi_member()(#[trigger] gs[k]) by {
        lemma_club_player_names_distinct(team.players, gs[k].0);
    }
    lemma_filter_rejects_all(gs);
}

/// A club one of the players belongs to has that player's name on its
/// list.
proof fn lemma_club_player_names_contains(players: Seq<PlayerView>, j: int)
    requires
        0 <= j < players.len(),
    ensures
        club_player_names(players, players[j].club.name).contains(players[j].name),
        club_player_names(players, players[j].club.name).len() >= 1,
    decreases players.len(),
{
    let front = players.drop_last();
    assert(forall|i: int| 0 <= i < front.len() ==> front[i] == #[trigger] players[i]);
    if j == players.len() - 1 {
        let names = club_player_names(players, players[j].club.name);
        assert(names.last() == players[j].name);
        assert(names.contains(players[j].name));
    } else {
        lemma_club_player_names_contains(front, j);
        let c = players[j].club.name;
        if players.last().club.name == c {
            let names = club_player_names(front, c);
            assert(club_player_names(players, c) == names.push(players.last().name));
            let w = choose|w: int| 0 <= w < names.len() && names[w] == players[j].name;
            assert(names.push(players.last().name)[w] == players[j].name);
        } else {
            assert(club_player_names(players, c) == club_player_names(front, c));
        }
    }
}

/// A club two players belong to has at least two names on its list.
proof fn lemma_club_player_names_two(players: Seq<PlayerView>, j1: int, j2: int)
    requires
        0 <= j1 < j2 < players.len(),
        players[j1].club.name == players[j2].club.name,
    ensures
        club_player_names(players, players[j1].club.name).len() >= 2,
    decreases players.len(),
{
    let front = players.drop_last();
    assert(forall|i: int| 0 <= i < front.len() ==> front[i] == #[trigger] players[i]);
    let c = players[j1].club.name;
    if j2 == players.len() - 1 {
        lemma_club_player_names_contains(front, j1);
        assert(club_player_names(players, c) == club_player_names(front, c).push(
            players.last().name,
        ));
    } else {
        lemma_club_player_names_two(front, j1, j2);
        if players.last().club.name == c {
            assert(club_player_names(players, c) == club_player_names(front, c).push(
                players.last().name,
            ));
        } else {
            assert(club_player_names(players, c) == club_player_names(front, c));
        }
    }
}

/// Grouping rule, shared club: a team with two players in the same club
/// fails; the offending groups include that club, with both players'
/// names, and the reason is the grouping message over those groups.
pub proof fn lemma_grouping_rule_reports_shared_club(
    team: TeamView,
    v: ValidationResultView,
    j1: int,
    j2: int,
)
    requires
        0 <= j1 < j2 < team.players.len(),
        team.players[j1].club.name == team.players[j2].club.name,
        grouping_rule_matches(team, v),
    ensures
        !v.is_valid,
        exists|k: int|
            {
                &&& 0 <= k < offending_groups(team.players).len()
                &&& (#[trigger] offending_groups(team.players)[k]).0 == team.players[j1].club.name
                &&& offending_groups(team.players)[k].1.contains(team.players[j1].name)
                &&& offending_groups(team.players)[k].1.contains(team.players[j2].name)
            },
        exists|p: Seq<char>|
            is_violation_prefix(p) && v.reason == grouping_message(
                p,
                team.owner,
                team.name,
                offending_groups(team.players),
            ),
{
    broadcast use vstd::seq_lib::group_filter_ensures;

    lemma_groups_of_characterization(team.players);
    let players = team.players;
    let c = players[j1].club.name;
    let gs = groups_of(players);
    let k = choose|k: int| 0 <= k < gs.len() && (#[trigger] gs[k]).0 == c;
    lemma_club_player_names_two(players, j1, j2);
    lemma_club_player_names_contains(players, j1);
    lemma_club_player_names_contains(players, j2);
    assert(players[j2].club.name == c);
    assert(gs[k].1 == club_player_names(players, c));
    assert(multi_member()(gs[k]));
    gs.lemma_filter_contains(multi_member(), k);
    let filtered = gs.filter(multi_member());
    assert(filtered.contains(gs[k]));
    let w = choose|w: int| 0 <= w < filtered.len() && filtered[w] == gs[k];
    assert(offending_groups(players)[w] == gs[k]);
    assert(offending_groups(players).len() > 0);
}

} // verus!

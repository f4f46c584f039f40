//! Choosing the player for a draft choice whose time ran out: the first
//! allowed player of the team's draft queue, and a random valid player.
use vstd::prelude::*;
use std::collections::HashMap;
use crate::drafts::Pick;
use crate::timespan::Timespan;
use crate::fresh::{new_v4_id, choose_random, fresh_id};

verus! {

broadcast use vstd::std_specs::hash::group_hash_axioms;

/// A player's membership of a (real) team.
#[derive(Clone, Copy, Debug, PartialEq, Eq, Structural)]
pub struct TeamPlayerLink {
    pub player_id: u128,
    pub team_id: u128,
}

/// A player with the positions they play.
#[derive(Clone, Debug, PartialEq, Eq)]
pub struct PlayerPositions {
    pub player_id: u128,
    pub positions: Vec<String>,
}

/// The teams and players known to the draft service.
#[derive(Clone, Debug, PartialEq, Eq)]
pub struct ApiTeamsAndPlayers {
    pub team_players: Vec<TeamPlayerLink>,
    pub players: Vec<PlayerPositions>,
}

/// No player could be picked.
#[derive(Clone, Copy, Debug, PartialEq, Eq, Structural)]
pub struct NoValidPicksError {}

impl NoValidPicksError {
    /// The error's message.
    pub fn message(&self) -> (s: String)
        ensures
            s@ == "No valid picks to choose from"@,
    {
        let s = "No valid picks to choose from".to_string();
        proof {
            reveal_strlit("No valid picks to choose from");
        }
        s
    }
}

/// Each player's team: a later link for the same player replaces an earlier one.
pub open spec fn team_map(tps: Seq<TeamPlayerLink>) -> Map<u128, u128>
    decreases tps.len(),
{
    if tps.len() == 0 {
        Map::empty()
    } else {
        team_map(tps.drop_last()).insert(tps.last().player_id, tps.last().team_id)
    }
}

/// Each player's position: the last position listed for the last entry of
/// the player that lists any.
pub open spec fn position_map(players: Seq<PlayerPositions>) -> Map<u128, String>
    decreases players.len(),
{
    if players.len() == 0 {
        Map::empty()
    } else {
        let m = position_map(players.drop_last());
        let p = players.last();
        if p.positions@.len() > 0 {
            m.insert(p.player_id, p.positions@.last())
        } else {
            m
        }
    }
}

/// Builds the map from player to position and the map from player to team.
pub fn build_team_and_position_maps(tp: &ApiTeamsAndPlayers) -> (r: (HashMap<u128, String>, HashMap<u128, u128>))
    ensures
        r.0@ == position_map(tp.players@),
        r.1@ == team_map(tp.team_players@),
{
    let mut positions: HashMap<u128, String> = HashMap::new();
    let mut teams: HashMap<u128, u128> = HashMap::new();
    for i in 0..tp.team_players.len()
        invariant
            teams@ == team_map(tp.team_players@.take(i as int)),
    {
        let link = tp.team_players[i];
        teams.insert(link.player_id, link.team_id);
        proof {
            assert(tp.team_players@.take(i + 1).drop_last() =~= tp.team_players@.take(i as int));
        }
    }
    proof {
        assert(tp.team_players@.take(tp.team_players@.len() as int) =~= tp.team_players@);
    }
    for i in 0..tp.players.len()
        invariant
            positions@ == position_map(tp.players@.take(i as int)),
    {
        let player = &tp.players[i];
        let ghost before = positions@;
        for j in 0..player.positions.len()
            invariant
                player == tp.players@[i as int],
                j == 0 ==> positions@ == before,
                j > 0 ==> positions@ == before.insert(player.player_id, player.positions@[j - 1]),
        {
            positions.insert(player.player_id, player.positions[j].clone());
            proof {
                if j > 0 {
                    assert(before.insert(player.player_id, player.positions@[j - 1]).insert(player.player_id, player.positions@[j as int])
                        =~= before.insert(player.player_id, player.positions@[j as int]));
                }
            }
        }
        proof {
            assert(tp.players@.take(i + 1).drop_last() =~= tp.players@.take(i as int));
        }
    }
    proof {
        assert(tp.players@.take(tp.players@.len() as int) =~= tp.players@);
    }
    (positions, teams)
}

/// How many players of `current` play for team `t`.
pub open spec fn count_team(current: Seq<u128>, teams: Map<u128, u128>, t: u128) -> nat
    decreases current.len(),
{
    if current.len() == 0 {
        0
    } else {
        count_team(current.drop_last(), teams, t) + if teams[current.last()] == t { 1nat } else { 0nat }
    }
}

/// How many players of `current` play position `p`.
pub open spec fn count_position(current: Seq<u128>, positions: Map<u128, String>, p: Seq<char>) -> nat
    decreases current.len(),
{
    if current.len() == 0 {
        0
    } else {
        count_position(current.drop_last(), positions, p) + if positions[current.last()]@ == p { 1nat } else { 0nat }
    }
}

/// The team already has more than `max` players of team `t`.
pub open spec fn team_banned(current: Seq<u128>, teams: Map<u128, u128>, t: u128, max: u16) -> bool {
    count_team(current, teams, t) > max
}

/// The team already has more than `max` players in position `p`.
pub open spec fn position_banned(current: Seq<u128>, positions: Map<u128, String>, p: Seq<char>, max: u16) -> bool {
    count_position(current, positions, p) > max
}

/// The players already in the team have a known position and team, and no
/// position or team occurs more than `u16::MAX` times among them.
pub open spec fn current_team_ok(current: Seq<u128>, positions: Map<u128, String>, teams: Map<u128, u128>) -> bool {
    forall|k: int| 0 <= k < current.len() ==> {
        &&& positions.contains_key(#[trigger] current[k])
        &&& teams.contains_key(current[k])
        &&& count_position(current, positions, positions[current[k]]@) <= u16::MAX
        &&& count_team(current, teams, teams[current[k]]) <= u16::MAX
    }
}

/// Queued player `q` may be picked: still valid, and neither its position nor
/// its team is over its limit in the team.
pub open spec fn eligible(
    q: u128,
    valid: Seq<u128>,
    current: Seq<u128>,
    positions: Map<u128, String>,
    teams: Map<u128, u128>,
    max_team: u16,
    max_position: u16,
) -> bool {
    &&& valid.contains(q)
    &&& positions.contains_key(q)
    &&& !position_banned(current, positions, positions[q]@, max_position)
    &&& teams.contains_key(q)
    &&& !team_banned(current, teams, teams[q], max_team)
}

/// The first eligible player of the queue.
pub open spec fn first_eligible(
    queue: Seq<u128>,
    valid: Seq<u128>,
    current: Seq<u128>,
    positions: Map<u128, String>,
    teams: Map<u128, u128>,
    max_team: u16,
    max_position: u16,
) -> Option<u128>
    decreases queue.len(),
{
    if queue.len() == 0 {
        None
    } else if eligible(queue[0], valid, current, positions, teams, max_team, max_position) {
        Some(queue[0])
    } else {
        first_eligible(queue.drop_first(), valid, current, positions, teams, max_team, max_position)
    }
}

/// Every queued player that is looked at on the way to the first eligible one
/// has a known position when valid, and a known team when its position is
/// not over its limit.
pub open spec fn queue_ok(
    queue: Seq<u128>,
    valid: Seq<u128>,
    current: Seq<u128>,
    positions: Map<u128, String>,
    teams: Map<u128, u128>,
    max_team: u16,
    max_position: u16,
) -> bool
    decreases queue.len(),
{
    if queue.len() == 0 {
        true
    } else {
        let q = queue[0];
        &&& valid.contains(q) ==> positions.contains_key(q)
            && (!position_banned(current, positions, positions[q]@, max_position) ==> teams.contains_key(q))
        &&& eligible(q, valid, current, positions, teams, max_team, max_position)
            || queue_ok(queue.drop_first(), valid, current, positions, teams, max_team, max_position)
    }
}


/// The queued player that is picked is the first eligible one: it is in the
/// queue and eligible, and no player before it in the queue is; when none is
/// picked, no queued player is eligible.
pub proof fn lemma_queue_pick_is_first_eligible(
    queue: Seq<u128>,
    valid: Seq<u128>,
    current: Seq<u128>,
    positions: Map<u128, String>,
    teams: Map<u128, u128>,
    max_team: u16,
    max_position: u16,
)
    ensures
        first_eligible(queue, valid, current, positions, teams, max_team, max_position) matches Some(x) ==> exists|k: int|
            0 <= k < queue.len() && queue[k] == x && eligible(x, valid, current, positions, teams, max_team, max_position)
            && forall|j: int| 0 <= j < k ==> !eligible(#[trigger] queue[j], valid, current, positions, teams, max_team, max_position),
        first_eligible(queue, valid, current, positions, teams, max_team, max_position) is None ==> forall|j: int|
            0 <= j < queue.len() ==> !eligible(#[trigger] queue[j], valid, current, positions, teams, max_team, max_position),
    decreases queue.len(),
{
    if queue.len() > 0 {
        let rest = queue.drop_first();
        lemma_queue_pick_is_first_eligible(rest, valid, current, positions, teams, max_team, max_position);
        if !eligible(queue[0], valid, current, positions, teams, max_team, max_position) {
            match first_eligible(rest, valid, current, positions, teams, max_team, max_position) {
                Some(x) => {
                    let k = choose|k: int| 0 <= k < rest.len() && rest[k] == x && eligible(x, valid, current, positions, teams, max_team, max_position)
                        && forall|j: int| 0 <= j < k ==> !eligible(#[trigger] rest[j], valid, current, positions, teams, max_team, max_position);
                    assert(queue[k + 1] == x);
                    assert forall|j: int| 0 <= j < k + 1 implies !eligible(#[trigger] queue[j], valid, current, positions, teams, max_team, max_position) by {
                        if j > 0 {
                            assert(queue[j] == rest[j - 1]);
                        }
                    }
                },
                None => {
                    assert forall|j: int| 0 <= j < queue.len() implies !eligible(#[trigger] queue[j], valid, current, positions, teams, max_team, max_position) by {
                        if j > 0 {
                            assert(queue[j] == rest[j - 1]);
                        }
                    }
                },
            }
        } else {
            assert(queue[0] == queue[0]);
        }
    }
}

fn contains_player(v: &Vec<u128>, x: u128) -> (r: bool)
    ensures
        r == v@.contains(x),
{
    for i in 0..v.len()
        invariant
            forall|k: int| 0 <= k < i ==> v@[k] != x,
    {
        if v[i] == x {
            return true;
        }
    }
    false
}

fn count_team_of(current: &Vec<u128>, teams: &HashMap<u128, u128>, t: u128) -> (r: usize)
    requires
        forall|k: int| 0 <= k < current@.len() ==> teams@.contains_key(#[trigger] current@[k]),
    ensures
        r == count_team(current@, teams@, t),
{
    let mut r: usize = 0;
    for i in 0..current.len()
        invariant
            forall|k: int| 0 <= k < current@.len() ==> teams@.contains_key(#[trigger] current@[k]),
            r == count_team(current@.take(i as int), teams@, t),
            r <= i,
    {
        let c = current[i];
        assert(teams@.contains_key(current@[i as int]));
        let tc = *teams.get(&c).unwrap();
        proof {
            assert(current@.take(i + 1).drop_last() =~= current@.take(i as int));
        }
        if tc == t {
            r = r + 1;
        }
    }
    proof {
        assert(current@.take(current@.len() as int) =~= current@);
    }
    r
}

fn count_position_of(current: &Vec<u128>, positions: &HashMap<u128, String>, p: &String) -> (r: usize)
    requires
        forall|k: int| 0 <= k < current@.len() ==> positions@.contains_key(#[trigger] current@[k]),
    ensures
        r == count_position(current@, positions@, p@),
{
    let mut r: usize = 0;
    for i in 0..current.len()
        invariant
            forall|k: int| 0 <= k < current@.len() ==> positions@.contains_key(#[trigger] current@[k]),
            r == count_position(current@.take(i as int), positions@, p@),
            r <= i,
    {
        let c = current[i];
        assert(positions@.contains_key(current@[i as int]));
        let pc = positions.get(&c).unwrap();
        proof {
            assert(current@.take(i + 1).drop_last() =~= current@.take(i as int));
        }
        if *pc == *p {
            r = r + 1;
        }
    }
    proof {
        assert(current@.take(current@.len() as int) =~= current@);
    }
    r
}

/// The first player of the draft queue that is still valid and whose
/// position and team are not over their limits in the picking team (a
/// position or team is over its limit when the team already has more than
/// the maximum of it).
pub fn choose_queue_pick(
    queue: &Vec<u128>,
    valid: &Vec<u128>,
    current: &Vec<u128>,
    positions: &HashMap<u128, String>,
    teams: &HashMap<u128, u128>,
    max_team: u16,
    max_position: u16,
) -> (r: Option<u128>)
    requires
        current_team_ok(current@, positions@, teams@),
        queue_ok(queue@, valid@, current@, positions@, teams@, max_team, max_position),
    ensures
        r == first_eligible(queue@, valid@, current@, positions@, teams@, max_team, max_position),
{
    assert(queue@.skip(0) =~= queue@);
    for i in 0..queue.len()
        invariant
            current_team_ok(current@, positions@, teams@),
            first_eligible(queue@, valid@, current@, positions@, teams@, max_team, max_position)
                == first_eligible(queue@.skip(i as int), valid@, current@, positions@, teams@, max_team, max_position),
            queue_ok(queue@.skip(i as int), valid@, current@, positions@, teams@, max_team, max_position),
    {
        let q = queue[i];
        let ghost rest = queue@.skip(i as int);
        assert(rest[0] == q);
        assert(rest.drop_first() =~= queue@.skip(i + 1));
        if contains_player(valid, q) {
            let pos = positions.get(&q).unwrap();
            let cp = count_position_of(current, positions, pos);
            if cp <= max_position as usize {
                let tm = *teams.get(&q).unwrap();
                let ct = count_team_of(current, teams, tm);
                if ct <= max_team as usize {
                    return Some(q);
                }
            }
        }
    }
    proof {
        assert(queue@.skip(queue@.len() as int).len() == 0);
    }
    None
}

fn check_current_team(current: &Vec<u128>, positions: &HashMap<u128, String>, teams: &HashMap<u128, u128>) -> (r: bool)
    ensures
        r == current_team_ok(current@, positions@, teams@),
{
    for i in 0..current.len()
        invariant
            forall|k: int| 0 <= k < i ==> positions@.contains_key(#[trigger] current@[k]) && teams@.contains_key(current@[k]),
    {
        if !positions.contains_key(&current[i]) || !teams.contains_key(&current[i]) {
            return false;
        }
    }
    for i in 0..current.len()
        invariant
            forall|k: int| 0 <= k < current@.len() ==> positions@.contains_key(#[trigger] current@[k]) && teams@.contains_key(current@[k]),
            forall|k: int| 0 <= k < i ==> {
                &&& count_position(current@, positions@, positions@[#[trigger] current@[k]]@) <= u16::MAX
                &&& count_team(current@, teams@, teams@[current@[k]]) <= u16::MAX
            },
    {
        let c = current[i];
        assert(positions@.contains_key(current@[i as int]));
        let pos = positions.get(&c).unwrap();
        let t = *teams.get(&c).unwrap();
        if count_position_of(current, positions, pos) > 65535 || count_team_of(current, teams, t) > 65535 {
            return false;
        }
    }
    true
}

fn check_queue(
    queue: &Vec<u128>,
    valid: &Vec<u128>,
    current: &Vec<u128>,
    positions: &HashMap<u128, String>,
    teams: &HashMap<u128, u128>,
    max_team: u16,
    max_position: u16,
) -> (r: bool)
    requires
        current_team_ok(current@, positions@, teams@),
    ensures
        r == queue_ok(queue@, valid@, current@, positions@, teams@, max_team, max_position),
{
    assert(queue@.skip(0) =~= queue@);
    for i in 0..queue.len()
        invariant
            current_team_ok(current@, positions@, teams@),
            queue_ok(queue@, valid@, current@, positions@, teams@, max_team, max_position)
                == queue_ok(queue@.skip(i as int), valid@, current@, positions@, teams@, max_team, max_position),
    {
        let q = queue[i];
        let ghost rest = queue@.skip(i as int);
        assert(rest[0] == q);
        assert(rest.drop_first() =~= queue@.skip(i + 1));
        if contains_player(valid, q) {
            if !positions.contains_key(&q) {
                return false;
            }
            let pos = positions.get(&q).unwrap();
            let cp = count_position_of(current, positions, pos);
            if cp <= max_position as usize {
                if !teams.contains_key(&q) {
                    return false;
                }
                let tm = *teams.get(&q).unwrap();
                let ct = count_team_of(current, teams, tm);
                if ct <= max_team as usize {
                    return true;
                }
            }
        }
    }
    proof {
        assert(queue@.skip(queue@.len() as int).len() == 0);
    }
    true
}

/// Whether `pick_from_queue_or_random` accepts its inputs.
pub fn check_pick_inputs(
    draft_queue: &Option<Vec<u128>>,
    valid_remaining: &Vec<u128>,
    current_team: &Vec<u128>,
    teams_and_players: Option<&ApiTeamsAndPlayers>,
    max_picks_per_team: u16,
    max_picks_per_position: u16,
) -> (r: bool)
    ensures
        r == pick_inputs_ok(*draft_queue, valid_remaining@, current_team@, teams_and_players, max_picks_per_team, max_picks_per_position),
{
    match teams_and_players {
        None => true,
        Some(tp) => {
            let (positions, teams) = build_team_and_position_maps(tp);
            if !check_current_team(current_team, &positions, &teams) {
                return false;
            }
            match draft_queue {
                Some(q) => check_queue(q, valid_remaining, current_team, &positions, &teams, max_picks_per_team, max_picks_per_position),
                None => {
                    let empty: Vec<u128> = Vec::new();
                    check_queue(&empty, valid_remaining, current_team, &positions, &teams, max_picks_per_team, max_picks_per_position)
                },
            }
        },
    }
}

/// What happens to a draft choice whose time ran out.
#[derive(Debug, PartialEq, Eq)]
pub struct PickOutcome {
    /// The pick of a queued player, to be stored.
    pub queued: Option<Pick>,
    /// The pick that is reported.
    pub chosen: Result<Pick, NoValidPicksError>,
}

/// A pick of `player_id` for the team in the choice, not active, with the
/// given span; its id is fresh.
pub open spec fn pick_for(p: Pick, player_id: u128, fantasy_team_id: u128, draft_choice_id: u128, timespan: Timespan) -> bool {
    &&& fresh_id(p.pick_id)
    &&& p.player_id == player_id
    &&& p.fantasy_team_id == fantasy_team_id
    &&& p.draft_choice_id == draft_choice_id
    &&& p.timespan == timespan
    &&& !p.active
}

/// What `pick_from_queue_or_random` needs: the team's players and the queued
/// players it looks at have a known position and team, and no count overflows.
pub open spec fn pick_inputs_ok(
    draft_queue: Option<Vec<u128>>,
    valid_remaining: Seq<u128>,
    current_team: Seq<u128>,
    teams_and_players: Option<&ApiTeamsAndPlayers>,
    max_picks_per_team: u16,
    max_picks_per_position: u16,
) -> bool {
    match teams_and_players {
        None => true,
        Some(tp) => {
            let positions = position_map(tp.players@);
            let teams = team_map(tp.team_players@);
            let queue = match draft_queue { Some(q) => q@, None => Seq::empty() };
            &&& current_team_ok(current_team, positions, teams)
            &&& queue_ok(queue, valid_remaining, current_team, positions, teams, max_picks_per_team, max_picks_per_position)
        },
    }
}

/// Handles a draft choice whose time ran out. Without the teams and players
/// nothing is picked. Otherwise the first eligible player of the team's
/// queue (see `choose_queue_pick`) is returned in `queued`, to be stored, and
/// the reported pick is a player drawn at random from the valid ones, or an
/// error when there is none.
pub fn pick_from_queue_or_random(
    fantasy_team_id: u128,
    draft_choice_id: u128,
    belongs_to_team_for: Timespan,
    draft_queue: Option<Vec<u128>>,
    valid_remaining: &Vec<u128>,
    current_team: &Vec<u128>,
    teams_and_players: Option<&ApiTeamsAndPlayers>,
    max_picks_per_team: u16,
    max_picks_per_position: u16,
) -> (r: PickOutcome)
    requires
        pick_inputs_ok(draft_queue, valid_remaining@, current_team@, teams_and_players, max_picks_per_team, max_picks_per_position),
    ensures
        teams_and_players is None ==> r.queued is None && r.chosen is Err,
        teams_and_players matches Some(tp) ==> {
            let positions = position_map(tp.players@);
            let teams = team_map(tp.team_players@);
            let queue = match draft_queue { Some(q) => q@, None => Seq::empty() };
            &&& (match first_eligible(queue, valid_remaining@, current_team@, positions, teams, max_picks_per_team, max_picks_per_position) {
                Some(q) => (r.queued matches Some(p) && pick_for(p, q, fantasy_team_id, draft_choice_id, belongs_to_team_for)),
                None => r.queued is None,
            })
            &&& (r.chosen is Err <==> valid_remaining@.len() == 0)
            &&& (r.chosen matches Ok(p) ==> valid_remaining@.contains(p.player_id)
                && pick_for(p, p.player_id, fantasy_team_id, draft_choice_id, belongs_to_team_for))
        },
{
    match teams_and_players {
        None => PickOutcome { queued: None, chosen: Err(NoValidPicksError {}) },
        Some(tp) => {
            let (positions, teams) = build_team_and_position_maps(tp);
            let queue = match draft_queue {
                Some(q) => q,
                None => Vec::new(),
            };
            let choice = choose_queue_pick(
                &queue,
                valid_remaining,
                current_team,
                &positions,
                &teams,
                max_picks_per_team,
                max_picks_per_position,
            );
            let queued = match choice {
                Some(player_id) => Some(Pick {
                    pick_id: new_v4_id(),
                    fantasy_team_id,
                    draft_choice_id,
                    player_id,
                    timespan: belongs_to_team_for,
                    active: false,
                }),
                None => None,
            };
            let chosen = match choose_random(valid_remaining) {
                Some(player_id) => Ok(Pick {
                    pick_id: new_v4_id(),
                    fantasy_team_id,
                    draft_choice_id,
                    player_id,
                    timespan: belongs_to_team_for,
                    active: false,
                }),
                None => Err(NoValidPicksError {}),
            };
            PickOutcome { queued, chosen }
        },
    }
}


/// Whether a player plays position `p`.
pub open spec fn plays_position(positions: Map<u128, String>, p: Seq<char>) -> spec_fn(u128) -> bool {
    |x: u128| positions[x]@ == p
}

/// Whether a player plays for team `t`.
pub open spec fn plays_for(teams: Map<u128, u128>, t: u128) -> spec_fn(u128) -> bool {
    |x: u128| teams[x] == t
}

proof fn lemma_counts_are_filters(current: Seq<u128>, positions: Map<u128, String>, teams: Map<u128, u128>, p: Seq<char>, t: u128)
    ensures
        count_position(current, positions, p) == current.filter(plays_position(positions, p)).len(),
        count_team(current, teams, t) == current.filter(plays_for(teams, t)).len(),
    decreases current.len(),
{
    reveal(Seq::filter);
    if current.len() > 0 {
        lemma_counts_are_filters(current.drop_last(), positions, teams, p, t);
    }
}

/// The limits count the players already in the team: a queued player is
/// eligible exactly when it is still valid, has a known position and team,
/// at most `max_position` of the team's players play its position, and at
/// most `max_team` play for its team. In particular, when every player of
/// the team plays `p`, `count_position` is the size of the team.
pub proof fn lemma_limits_count_the_team(
    q: u128,
    valid: Seq<u128>,
    current: Seq<u128>,
    positions: Map<u128, String>,
    teams: Map<u128, u128>,
    max_team: u16,
    max_position: u16,
    p: Seq<char>,
)
    ensures
        eligible(q, valid, current, positions, teams, max_team, max_position) <==> {
            &&& valid.contains(q)
            &&& positions.contains_key(q)
            &&& teams.contains_key(q)
            &&& current.filter(plays_position(positions, positions[q]@)).len() <= max_position
            &&& current.filter(plays_for(teams, teams[q])).len() <= max_team
        },
        (forall|k: int| 0 <= k < current.len() ==> #[trigger] positions[current[k]]@ == p)
            ==> count_position(current, positions, p) == current.len(),
{
    lemma_counts_are_filters(current, positions, teams, positions[q]@, teams[q]);
    lemma_counts_are_filters(current, positions, teams, p, teams[q]);
    if forall|k: int| 0 <= k < current.len() ==> #[trigger] positions[current[k]]@ == p {
        lemma_all_play(current, positions, p);
    }
}

proof fn lemma_all_play(current: Seq<u128>, positions: Map<u128, String>, p: Seq<char>)
    requires
        forall|k: int| 0 <= k < current.len() ==> #[trigger] positions[current[k]]@ == p,
    ensures
        count_position(current, positions, p) == current.len(),
    decreases current.len(),
{
    if current.len() > 0 {
        let d = current.drop_last();
        assert forall|k: int| 0 <= k < d.len() implies #[trigger] positions[d[k]]@ == p by {
            assert(d[k] == current[k]);
        }
        lemma_all_play(d, positions, p);
        assert(positions[current[current.len() - 1]]@ == p);
    }
}


/// The map from player to team holds every linked player, and a player's
/// team is that of the last link naming the player.
pub proof fn lemma_team_map_keeps_the_last_link(tps: Seq<TeamPlayerLink>)
    ensures
        forall|x: u128| #[trigger] team_map(tps).contains_key(x) <==> exists|k: int| 0 <= k < tps.len() && tps[k].player_id == x,
        forall|k: int| 0 <= k < tps.len() && (forall|j: int| k < j < tps.len() ==> tps[j].player_id != tps[k].player_id) ==>
            team_map(tps).contains_key(#[trigger] tps[k].player_id) && team_map(tps)[tps[k].player_id] == tps[k].team_id,
    decreases tps.len(),
{
    if tps.len() > 0 {
        let pre = tps.drop_last();
        let n = tps.len() - 1;
        lemma_team_map_keeps_the_last_link(pre);
        assert forall|x: u128| #[trigger] team_map(tps).contains_key(x) <==> exists|k: int| 0 <= k < tps.len() && tps[k].player_id == x by {
            if exists|k: int| 0 <= k < tps.len() && tps[k].player_id == x {
                let k = choose|k: int| 0 <= k < tps.len() && tps[k].player_id == x;
                if k < n {
                    assert(pre[k] == tps[k]);
                }
            }
            if team_map(pre).contains_key(x) {
                let k = choose|k: int| 0 <= k < pre.len() && pre[k].player_id == x;
                assert(tps[k] == pre[k]);
            }
            if x == tps[n].player_id {
                assert(tps[n].player_id == x);
            }
        }
        assert forall|k: int| 0 <= k < tps.len() && (forall|j: int| k < j < tps.len() ==> tps[j].player_id != tps[k].player_id) implies
            (team_map(tps).contains_key(#[trigger] tps[k].player_id) && team_map(tps)[tps[k].player_id] == tps[k].team_id) by {
            if k < n {
                assert(pre[k] == tps[k]);
                assert forall|j: int| k < j < pre.len() implies pre[j].player_id != pre[k].player_id by {
                    assert(pre[j] == tps[j]);
                }
                assert(tps[n].player_id != tps[k].player_id);
            }
        }
    }
}

/// The map from player to position holds every player listed with a
/// position, and a player's position is the last position of the last entry
/// of the player that lists any.
pub proof fn lemma_position_map_keeps_the_last_entry(players: Seq<PlayerPositions>)
    ensures
        forall|x: u128| #[trigger] position_map(players).contains_key(x) <==>
            exists|k: int| 0 <= k < players.len() && players[k].player_id == x && players[k].positions@.len() > 0,
        forall|k: int| 0 <= k < players.len() && players[k].positions@.len() > 0
            && (forall|j: int| k < j < players.len() && players[j].player_id == players[k].player_id ==> players[j].positions@.len() == 0) ==>
            position_map(players).contains_key(#[trigger] players[k].player_id)
                && position_map(players)[players[k].player_id] == players[k].positions@.last(),
    decreases players.len(),
{
    if players.len() > 0 {
        let pre = players.drop_last();
        let n = players.len() - 1;
        lemma_position_map_keeps_the_last_entry(pre);
        assert forall|x: u128| #[trigger] position_map(players).contains_key(x) <==>
            exists|k: int| 0 <= k < players.len() && players[k].player_id == x && players[k].positions@.len() > 0 by {
            if exists|k: int| 0 <= k < players.len() && players[k].player_id == x && players[k].positions@.len() > 0 {
                let k = choose|k: int| 0 <= k < players.len() && players[k].player_id == x && players[k].positions@.len() > 0;
                if k < n {
                    assert(pre[k] == players[k]);
                }
            }
            if position_map(pre).contains_key(x) {
                let k = choose|k: int| 0 <= k < pre.len() && pre[k].player_id == x && pre[k].positions@.len() > 0;
                assert(players[k] == pre[k]);
            }
            if x == players[n].player_id && players[n].positions@.len() > 0 {
                assert(players[n].player_id == x);
            }
        }
        assert forall|k: int| 0 <= k < players.len() && players[k].positions@.len() > 0
            && (forall|j: int| k < j < players.len() && players[j].player_id == players[k].player_id ==> players[j].positions@.len() == 0) implies
            (position_map(players).contains_key(#[trigger] players[k].player_id)
                && position_map(players)[players[k].player_id] == players[k].positions@.last()) by {
            if k < n {
                assert(pre[k] == players[k]);
                assert forall|j: int| k < j < pre.len() && pre[j].player_id == pre[k].player_id implies pre[j].positions@.len() == 0 by {
                    assert(pre[j] == players[j]);
                }
            }
        }
    }
}

} // verus!

//! Splitting a league's fantasy teams into drafts and laying out each draft's
//! choices in snake order.
use vstd::prelude::*;
use crate::grouping::{grouped_by, group_at, last_index_of, keys_resolve, grouped_total, lemma_grouping_keeps_every_child};
use crate::drafts::{FantasyTeam, Draft, TeamDraft, DraftChoice};
use crate::timespan::{Timespan, MICROS_PER_SEC, half_open};
use crate::assembly::{fantasy_team_ids, fantasy_team_ids_of};
use crate::fresh::{new_v4_id, fresh_id};

verus! {

/// A period of a league, in which one round of drafts is held.
#[derive(Clone, Debug, PartialEq, Eq)]
pub struct Period {
    pub period_id: u128,
    pub league_id: u128,
    pub name: String,
    pub timespan: Timespan,
    pub draft_start: i64,
    pub draft_interval_secs: i32,
    pub teams_per_draft: i32,
    pub draft_lockdown: i64,
}

/// A draft choice laid out for a team draft, before it is stored.
#[derive(Clone, Copy, Debug, PartialEq, Eq, Structural)]
pub struct ApiDraftChoice {
    pub draft_choice_id: u128,
    pub fantasy_team_id: u128,
    pub team_draft_id: u128,
    pub timespan: Timespan,
}

impl ApiDraftChoice {
    /// A draft choice with a fresh id.
    pub fn new(fantasy_team_id: u128, team_draft_id: u128, timespan: Timespan) -> (c: ApiDraftChoice)
        ensures
            c.fantasy_team_id == fantasy_team_id,
            c.team_draft_id == team_draft_id,
            c.timespan == timespan,
            fresh_id(c.draft_choice_id),
    {
        ApiDraftChoice { draft_choice_id: new_v4_id(), fantasy_team_id, team_draft_id, timespan }
    }

    /// The row that stores this choice.
    pub fn to_draft_choice(&self) -> (d: DraftChoice)
        ensures
            d == (DraftChoice {
                draft_choice_id: self.draft_choice_id,
                team_draft_id: self.team_draft_id,
                timespan: self.timespan,
            }),
    {
        DraftChoice { draft_choice_id: self.draft_choice_id, team_draft_id: self.team_draft_id, timespan: self.timespan }
    }
}

/// One generated draft: its row, its team drafts and its choices.
#[derive(Clone, Debug, PartialEq, Eq)]
pub struct GeneratedDraft {
    pub draft: Draft,
    pub team_drafts: Vec<TeamDraft>,
    pub choices: Vec<ApiDraftChoice>,
}

/// The number of drafts a league's teams are split into.
pub open spec fn num_drafts_spec(teams_per_draft: usize, num_teams: usize) -> int {
    teams_per_draft / num_teams + 1
}

/// Draft number `i % nd` for each team position `i`.
pub open spec fn draft_numbers(n: nat, nd: nat) -> Seq<u128> {
    Seq::new(n, |i: int| (i % (nd as int)) as u128)
}

/// The numbers `0..m`.
pub open spec fn counting(m: nat) -> Seq<u128> {
    Seq::new(m, |k: int| k as u128)
}

/// The number of drafts that receive a team.
pub open spec fn used_drafts(n: nat, nd: nat) -> nat {
    if n <= nd { n } else { nd }
}

/// The teams of draft `k`: those whose position `i` has `i % nd == k`, in order.
pub open spec fn draft_group<T>(teams: Seq<T>, nd: nat, k: int) -> Seq<T> {
    group_at(teams, draft_numbers(teams.len(), nd), counting(used_drafts(teams.len(), nd)), k)
}

/// In a snake draft with `g` teams, the team draft that takes choice `c`:
/// rounds alternate between the given order and its reverse.
pub open spec fn snake_slot(g: int, c: int) -> int {
    let round = c / g;
    let i = c % g;
    if round % 2 == 0 { i } else { g - 1 - i }
}

/// Start (microseconds) of choice `i` of round `round`: the draft start plus
/// `(round * num_teams + i)` intervals.
pub open spec fn choice_start(draft_start: i64, interval_secs: i32, num_teams: int, round: int, i: int) -> int {
    draft_start + (round * num_teams + i) * interval_secs * MICROS_PER_SEC
}

/// Every choice start and end lies in the range of `i64`.
pub open spec fn draft_times_fit(draft_start: i64, interval_secs: i32, num_teams: int, rounds: int, g: int) -> bool {
    forall|round: int, i: int| 0 <= round < rounds && 0 <= i < g ==>
        i64::MIN <= #[trigger] choice_start(draft_start, interval_secs, num_teams, round, i) <= i64::MAX
        && i64::MIN <= choice_start(draft_start, interval_secs, num_teams, round, i) + interval_secs * MICROS_PER_SEC <= i64::MAX
}

/// Choice `c` of a snake draft over `tds`.
pub open spec fn snake_choice_ok(
    tds: Seq<TeamDraft>,
    c: int,
    ch: ApiDraftChoice,
    draft_start: i64,
    interval_secs: i32,
    num_teams: int,
) -> bool {
    let g = tds.len() as int;
    let td = tds[snake_slot(g, c)];
    let start = choice_start(draft_start, interval_secs, num_teams, c / g, c % g);
    &&& fresh_id(ch.draft_choice_id)
    &&& ch.fantasy_team_id == td.fantasy_team_id
    &&& ch.team_draft_id == td.team_draft_id
    &&& ch.timespan == half_open(start as i64, (start + interval_secs * MICROS_PER_SEC) as i64)
}


proof fn lemma_last_index_counting(m: nat, x: int)
    requires
        0 <= x < m,
        m <= u128::MAX,
    ensures
        last_index_of(counting(m), x as u128) == x,
    decreases m,
{
    let c = counting(m);
    assert(c.last() == (m - 1) as u128);
    if x < m - 1 {
        lemma_last_index_counting((m - 1) as nat, x);
        assert(c.drop_last() =~= counting((m - 1) as nat));
    }
}

proof fn lemma_draft_numbers_resolve(n: nat, nd: nat)
    requires
        nd > 0,
        n <= u128::MAX,
    ensures
        keys_resolve(draft_numbers(n, nd), counting(used_drafts(n, nd))),
{
    let keys = draft_numbers(n, nd);
    let m = used_drafts(n, nd);
    let parents = counting(m);
    assert forall|i: int| 0 <= i < keys.len() implies #[trigger] parents.contains(keys[i]) by {
        let x = i % (nd as int);
        assert(0 <= x < m) by {
            vstd::arithmetic::div_mod::lemma_mod_bound(i, nd as int);
            if i < nd {
                vstd::arithmetic::div_mod::lemma_small_mod(i as nat, nd as nat);
            }
        }
        assert(parents[x] == keys[i]);
    }
}

/// Every team goes to exactly one draft: the drafts together hold as many
/// teams as were given.
pub proof fn lemma_every_team_in_one_draft(ids: Seq<u128>, nd: nat)
    requires
        nd > 0,
        ids.len() <= u128::MAX,
    ensures
        grouped_total(
            ids,
            draft_numbers(ids.len(), nd),
            counting(used_drafts(ids.len(), nd)),
            used_drafts(ids.len(), nd) as int,
        ) == ids.len(),
{
    lemma_draft_numbers_resolve(ids.len(), nd);
    lemma_grouping_keeps_every_child(ids, draft_numbers(ids.len(), nd), counting(used_drafts(ids.len(), nd)));
}

/// Team `t` takes some choice in round `round` of a snake draft among `g` teams.
pub open spec fn takes_a_choice(g: int, round: int, t: int) -> bool {
    exists|i: int| 0 <= i < g && #[trigger] snake_slot(g, round * g + i) == t
}

/// In every round of a snake draft among `g` teams, each team takes exactly
/// one choice.
pub proof fn lemma_snake_round_gives_each_team_one_choice(g: int, round: int)
    requires
        g > 0,
        round >= 0,
    ensures
        forall|i: int| 0 <= i < g ==> 0 <= #[trigger] snake_slot(g, round * g + i) < g,
        forall|i: int, j: int| 0 <= i < g && 0 <= j < g
            && #[trigger] snake_slot(g, round * g + i) == #[trigger] snake_slot(g, round * g + j) ==> i == j,
        forall|t: int| 0 <= t < g ==> #[trigger] takes_a_choice(g, round, t),
{
    assert forall|i: int| 0 <= i < g implies #[trigger] snake_slot(g, round * g + i)
        == (if round % 2 == 0 { i } else { g - 1 - i }) by {
        vstd::arithmetic::div_mod::lemma_fundamental_div_mod_converse(round * g + i, g, round, i);
    }
    assert forall|t: int| 0 <= t < g implies #[trigger] takes_a_choice(g, round, t) by {
        if round % 2 == 0 {
            assert(snake_slot(g, round * g + t) == t);
        } else {
            assert(snake_slot(g, round * g + (g - 1 - t)) == t);
        }
    }
}

/// The team that takes the last choice of a round takes the first choice of
/// the next one.
pub proof fn lemma_snake_turns_at_round_end(g: int, round: int)
    requires
        g > 0,
        round >= 0,
    ensures
        snake_slot(g, round * g + (g - 1)) == snake_slot(g, (round + 1) * g),
{
    vstd::arithmetic::div_mod::lemma_fundamental_div_mod_converse(round * g + (g - 1), g, round, g - 1);
    vstd::arithmetic::div_mod::lemma_fundamental_div_mod_converse((round + 1) * g, g, round + 1, 0);
    assert((round + 1) * g == round * g + g) by (nonlinear_arith);
}

/// Splits team ids among `nd` drafts: the team at position `i` goes to draft
/// `i % nd`, and only drafts that receive a team are returned, in order.
pub fn split_teams(ids: Vec<u128>, nd: usize) -> (groups: Vec<Vec<u128>>)
    requires
        nd > 0,
    ensures
        groups@.len() == used_drafts(ids@.len(), nd as nat),
        forall|k: int| 0 <= k < groups@.len() ==> (#[trigger] groups@[k])@ == draft_group(ids@, nd as nat, k),
{
    let n = ids.len();
    let m = if n <= nd { n } else { nd };
    let mut keys: Vec<u128> = Vec::new();
    for i in 0..n
        invariant
            keys@ == draft_numbers(i as nat, nd as nat),
            nd > 0,
    {
        keys.push((i % nd) as u128);
        proof {
            assert(keys@ =~= draft_numbers((i + 1) as nat, nd as nat));
        }
    }
    let mut parents: Vec<u128> = Vec::new();
    for k in 0..m
        invariant
            parents@ == counting(k as nat),
    {
        parents.push(k as u128);
        proof {
            assert(parents@ =~= counting((k + 1) as nat));
        }
    }
    proof {
        assert forall|i: int| 0 <= i < keys@.len() implies #[trigger] parents@.contains(keys@[i]) by {
            let x = i % (nd as int);
            assert(0 <= x < m) by {
                vstd::arithmetic::div_mod::lemma_mod_bound(i, nd as int);
                vstd::arithmetic::div_mod::lemma_mod_self_0(nd as int);
                if i < nd {
                    vstd::arithmetic::div_mod::lemma_small_mod(i as nat, nd as nat);
                }
            }
            assert(parents@[x] == keys@[i]);
            lemma_last_index_counting(m as nat, x);
        }
    }
    grouped_by(ids, &keys, &parents)
}

/// Lays out the choices of a snake draft among `tds`: `rounds` rounds, the
/// even ones in the given order and the odd ones in reverse; choice `i` of
/// round `round` starts `(round * num_teams + i)` intervals after the draft
/// start and lasts one interval.
fn snake_choices(tds: &Vec<TeamDraft>, rounds: usize, num_teams: usize, draft_start: i64, interval_secs: i32) -> (r: Vec<ApiDraftChoice>)
    requires
        tds@.len() <= num_teams,
        rounds * num_teams <= i64::MAX,
        rounds * num_teams <= usize::MAX,
        draft_times_fit(draft_start, interval_secs, num_teams as int, rounds as int, tds@.len() as int),
    ensures
        r@.len() == rounds * tds@.len(),
        forall|c: int| 0 <= c < r@.len() ==>
            snake_choice_ok(tds@, c, #[trigger] r@[c], draft_start, interval_secs, num_teams as int),
{
    let g = tds.len();
    let mut r: Vec<ApiDraftChoice> = Vec::new();
    assert(0 * g == 0) by (nonlinear_arith);
    for round in 0..rounds
        invariant
            g == tds@.len(),
            g <= num_teams,
            rounds * num_teams <= i64::MAX,
            rounds * num_teams <= usize::MAX,
            draft_times_fit(draft_start, interval_secs, num_teams as int, rounds as int, g as int),
            r@.len() == round * g,
            forall|c: int| 0 <= c < r@.len() ==>
                snake_choice_ok(tds@, c, #[trigger] r@[c], draft_start, interval_secs, num_teams as int),
    {
        for i in 0..g
            invariant
                g == tds@.len(),
                g <= num_teams,
                round < rounds,
                rounds * num_teams <= i64::MAX,
                rounds * num_teams <= usize::MAX,
                draft_times_fit(draft_start, interval_secs, num_teams as int, rounds as int, g as int),
                r@.len() == round * g + i,
                forall|c: int| 0 <= c < r@.len() ==>
                    snake_choice_ok(tds@, c, #[trigger] r@[c], draft_start, interval_secs, num_teams as int),
        {
            assert(round * num_teams + i < rounds * num_teams) by (nonlinear_arith)
                requires round < rounds, i < g, g <= num_teams;
            let k: usize = round * num_teams + i;
            let ghost st = choice_start(draft_start, interval_secs, num_teams as int, round as int, i as int);
            assert(i64::MIN <= st <= i64::MAX);
            assert(i64::MIN <= st + interval_secs * MICROS_PER_SEC <= i64::MAX);
            let ghost prod: int = (k as int) * (interval_secs as int);
            assert(st == draft_start + prod * 1_000_000) by (nonlinear_arith)
                requires st == draft_start + (round * num_teams + i) * interval_secs * 1_000_000,
                    k == round * num_teams + i, prod == (k as int) * (interval_secs as int);
            let ghost x: int = prod * 1_000_000;
            assert(-20_000_000_000_000_000_000 <= x <= 20_000_000_000_000_000_000);
            assert(-20_000_000_000_000 <= prod <= 20_000_000_000_000) by (nonlinear_arith)
                requires -20_000_000_000_000_000_000 <= x <= 20_000_000_000_000_000_000, x == prod * 1_000_000;
            let offset_secs: i64 = (k as i64) * (interval_secs as i64);
            let start_wide: i128 = (draft_start as i128) + (offset_secs as i128) * 1_000_000i128;
            assert(start_wide == st);
            let start: i64 = start_wide as i64;
            let end: i64 = start + (interval_secs as i64) * MICROS_PER_SEC;
            let td = if round % 2 == 0 { tds[i] } else { tds[g - 1 - i] };
            let ch = ApiDraftChoice::new(td.fantasy_team_id, td.team_draft_id, Timespan::new(start, end));
            let ghost pre = r@;
            r.push(ch);
            proof {
                let c = (round * g + i) as int;
                assert(c == round * g + i);
                vstd::arithmetic::div_mod::lemma_fundamental_div_mod_converse(c, g as int, round as int, i as int);
                assert(r@[c] == ch);
                assert(snake_choice_ok(tds@, c, ch, draft_start, interval_secs, num_teams as int));
                assert forall|c2: int| 0 <= c2 < r@.len() implies
                    snake_choice_ok(tds@, c2, #[trigger] r@[c2], draft_start, interval_secs, num_teams as int) by {
                    if c2 < pre.len() {
                        assert(r@[c2] == pre[c2]);
                    }
                }
            }
        }
        assert((round + 1) * g == round * g + g) by (nonlinear_arith);
    }
    r
}

/// Whether `rounds * num_teams` is at most `i64::MAX` and every choice of a
/// snake draft of `rounds` rounds among `g` teams starts and ends within the
/// range of `i64`.
pub fn check_draft_times(draft_start: i64, interval_secs: i32, num_teams: usize, rounds: usize, g: usize) -> (r: bool)
    ensures
        r == (rounds * num_teams <= i64::MAX
            && draft_times_fit(draft_start, interval_secs, num_teams as int, rounds as int, g as int)),
{
    assert((rounds as int) * (num_teams as int) <= 0xffff_ffff_ffff_ffff_ffff_ffff_ffff_ffffint) by (nonlinear_arith)
        requires rounds <= 0xffff_ffff_ffff_ffffint, num_teams <= 0xffff_ffff_ffff_ffffint, 0 <= rounds, 0 <= num_teams;
    let total: u128 = (rounds as u128) * (num_teams as u128);
    if total > i64::MAX as u128 {
        return false;
    }
    for round in 0..rounds
        invariant
            rounds * num_teams <= i64::MAX,
            forall|r2: int, i: int| 0 <= r2 < round && 0 <= i < g ==>
                i64::MIN <= #[trigger] choice_start(draft_start, interval_secs, num_teams as int, r2, i) <= i64::MAX
                && i64::MIN <= choice_start(draft_start, interval_secs, num_teams as int, r2, i) + interval_secs * MICROS_PER_SEC <= i64::MAX,
    {
        for i in 0..g
            invariant
                round < rounds,
                rounds * num_teams <= i64::MAX,
                forall|r2: int, i2: int| 0 <= r2 < round && 0 <= i2 < g ==>
                    i64::MIN <= #[trigger] choice_start(draft_start, interval_secs, num_teams as int, r2, i2) <= i64::MAX
                    && i64::MIN <= choice_start(draft_start, interval_secs, num_teams as int, r2, i2) + interval_secs * MICROS_PER_SEC <= i64::MAX,
                forall|i2: int| 0 <= i2 < i ==>
                    i64::MIN <= #[trigger] choice_start(draft_start, interval_secs, num_teams as int, round as int, i2) <= i64::MAX
                    && i64::MIN <= choice_start(draft_start, interval_secs, num_teams as int, round as int, i2) + interval_secs * MICROS_PER_SEC <= i64::MAX,
        {
            assert(round * num_teams <= (rounds - 1) * num_teams) by (nonlinear_arith)
                requires round < rounds;
            assert((rounds - 1) * num_teams <= rounds * num_teams) by (nonlinear_arith)
                requires 1 <= rounds, 0 <= num_teams;
            assert(0 <= round * num_teams <= i64::MAX) by (nonlinear_arith)
                requires round * num_teams <= (rounds - 1) * num_teams, (rounds - 1) * num_teams <= rounds * num_teams,
                    rounds * num_teams <= i64::MAX, 0 <= round, 0 <= num_teams;
            let k: i128 = (round as i128) * (num_teams as i128) + (i as i128);
            assert(0 <= k <= 40_000_000_000_000_000_000);
            let ghost p: int = k * interval_secs;
            assert(-100_000_000_000_000_000_000_000_000_000 <= p <= 100_000_000_000_000_000_000_000_000_000) by (nonlinear_arith)
                requires p == k * interval_secs, 0 <= k <= 40_000_000_000_000_000_000, i32::MIN <= interval_secs <= i32::MAX;
            let st: i128 = (draft_start as i128) + k * (interval_secs as i128) * 1_000_000i128;
            let en: i128 = st + (interval_secs as i128) * 1_000_000i128;
            assert(st == choice_start(draft_start, interval_secs, num_teams as int, round as int, i as int)) by (nonlinear_arith)
                requires st == draft_start + k * interval_secs * 1_000_000, k == round * num_teams + i;
            if st < -9_223_372_036_854_775_808i128 || st > 9_223_372_036_854_775_807i128
                || en < -9_223_372_036_854_775_808i128 || en > 9_223_372_036_854_775_807i128 {
                return false;
            }
        }
    }
    true
}


/// The number of drafts that the teams of a league are split into: the
/// period's teams per draft divided by the number of teams, plus one.
pub fn num_drafts(teams_per_draft: usize, num_teams: usize) -> (nd: usize)
    requires
        num_teams > 0,
        teams_per_draft / num_teams + 1 <= usize::MAX,
    ensures
        nd == num_drafts_spec(teams_per_draft, num_teams),
{
    teams_per_draft / num_teams + 1
}

/// What `generate_drafts` needs of its inputs: at least one team, no
/// overflow in the number of drafts, room for every draft's choices, and
/// every choice time within range.
pub open spec fn generation_ok(teams: Seq<FantasyTeam>, squad_size: usize, period: Period) -> bool {
    let n = teams.len();
    let nd = num_drafts_spec(period.teams_per_draft as usize, n as usize);
    &&& n > 0
    &&& (period.teams_per_draft as usize) / (n as usize) + 1 <= usize::MAX
    &&& squad_size * n <= i64::MAX
    &&& squad_size * n <= usize::MAX
    &&& forall|k: int| 0 <= k < used_drafts(n, nd as nat) ==> draft_times_fit(
        period.draft_start,
        period.draft_interval_secs,
        n as int,
        squad_size as int,
        #[trigger] draft_group(fantasy_team_ids(teams), nd as nat, k).len() as int,
    )
}

/// Whether `generate_drafts` accepts its inputs.
pub fn check_generation_inputs(teams: &Vec<FantasyTeam>, squad_size: usize, period: &Period) -> (r: bool)
    ensures
        r == generation_ok(teams@, squad_size, *period),
{
    let n = teams.len();
    if n == 0 {
        return false;
    }
    let tpd = period.teams_per_draft as usize;
    if tpd / n == usize::MAX {
        return false;
    }
    let nd = num_drafts(tpd, n);
    assert((squad_size as int) * (n as int) <= 0xffff_ffff_ffff_ffff_ffff_ffff_ffff_ffffint) by (nonlinear_arith)
        requires squad_size <= 0xffff_ffff_ffff_ffffint, n <= 0xffff_ffff_ffff_ffffint, 0 <= squad_size, 0 <= n;
    let total: u128 = (squad_size as u128) * (n as u128);
    if total > i64::MAX as u128 || total > usize::MAX as u128 {
        return false;
    }
    let ids = fantasy_team_ids_of(teams);
    let ghost idv = ids@;
    let groups = split_teams(ids, nd);
    let ghost ndn: nat = nd as nat;
    for k in 0..groups.len()
        invariant
            n == teams@.len(),
            n > 0,
            squad_size * n <= i64::MAX,
            nd == num_drafts_spec(period.teams_per_draft as usize, n),
            ndn == nd as nat,
            idv == fantasy_team_ids(teams@),
            groups@.len() == used_drafts(n as nat, ndn),
            forall|j: int| 0 <= j < groups@.len() ==> (#[trigger] groups@[j])@ == draft_group(idv, ndn, j),
            forall|j: int| 0 <= j < k ==> draft_times_fit(
                period.draft_start,
                period.draft_interval_secs,
                n as int,
                squad_size as int,
                #[trigger] draft_group(idv, ndn, j).len() as int,
            ),
    {
        assert(groups@[k as int]@ == draft_group(idv, ndn, k as int));
        if !check_draft_times(period.draft_start, period.draft_interval_secs, n, squad_size, groups[k].len()) {
            proof {
                let nds = num_drafts_spec(period.teams_per_draft as usize, teams@.len() as usize);
                assert(nds as nat == ndn);
                assert(!draft_times_fit(period.draft_start, period.draft_interval_secs, n as int, squad_size as int,
                    draft_group(fantasy_team_ids(teams@), nds as nat, k as int).len() as int));
            }
            return false;
        }
    }
    true
}

/// Generated draft `d` for the team ids `group` of period `period`.
pub open spec fn generated_draft_ok(
    d: GeneratedDraft,
    group: Seq<u128>,
    squad_size: usize,
    num_teams: int,
    period: Period,
) -> bool {
    &&& d.draft.period_id == period.period_id
    &&& fresh_id(d.draft.draft_id)
    &&& d.draft.meta@ == "{}"@
    &&& d.team_drafts@.len() == group.len()
    &&& forall|i: int| 0 <= i < group.len() ==> (#[trigger] d.team_drafts@[i]).draft_id == d.draft.draft_id
        && d.team_drafts@[i].fantasy_team_id == group[i]
        && fresh_id(d.team_drafts@[i].team_draft_id)
    &&& d.choices@.len() == squad_size * group.len()
    &&& forall|c: int| 0 <= c < d.choices@.len() ==> snake_choice_ok(
        d.team_drafts@,
        c,
        #[trigger] d.choices@[c],
        period.draft_start,
        period.draft_interval_secs,
        num_teams,
    )
}

/// Generates the drafts of a period for the teams of its league, taken in the
/// given (shuffled) order: team `i` goes to draft `i % nd`, where `nd` is the
/// period's teams per draft divided by the number of teams, plus one; each
/// draft gets a fresh id, a team draft with a fresh id per team, and
/// `squad_size` rounds of choices in snake order, each one interval long.
pub fn generate_drafts(teams: &Vec<FantasyTeam>, squad_size: usize, period: &Period) -> (r: Vec<GeneratedDraft>)
    requires
        generation_ok(teams@, squad_size, *period),
    ensures
        r@.len() == used_drafts(teams@.len(), num_drafts_spec(period.teams_per_draft as usize, teams@.len() as usize) as nat),
        forall|k: int| 0 <= k < r@.len() ==> generated_draft_ok(
            #[trigger] r@[k],
            draft_group(fantasy_team_ids(teams@), num_drafts_spec(period.teams_per_draft as usize, teams@.len() as usize) as nat, k),
            squad_size,
            teams@.len() as int,
            *period,
        ),
{
    let n = teams.len();
    let nd = num_drafts(period.teams_per_draft as usize, n);
    let ids = fantasy_team_ids_of(teams);
    let ghost idv = ids@;
    let groups = split_teams(ids, nd);
    let ghost gs = groups@;
    let m = groups.len();
    let mut out: Vec<GeneratedDraft> = Vec::new();
    let mut k: usize = 0;
    for group in it: groups.into_iter()
        invariant
            k == it.index(),
            it.seq() == gs,
            m == gs.len(),
            gs.len() == used_drafts(n as nat, nd as nat),
            n == teams@.len(),
            nd == num_drafts_spec(period.teams_per_draft as usize, n),
            idv == fantasy_team_ids(teams@),
            forall|j: int| 0 <= j < gs.len() ==> (#[trigger] gs[j])@ == draft_group(idv, nd as nat, j),
            generation_ok(teams@, squad_size, *period),
            out@.len() == k,
            forall|j: int| 0 <= j < k ==> generated_draft_ok(
                #[trigger] out@[j], draft_group(idv, nd as nat, j), squad_size, n as int, *period),
    {
        let draft_id = new_v4_id();
        let mut tds: Vec<TeamDraft> = Vec::new();
        for i in 0..group.len()
            invariant
                tds@.len() == i,
                fresh_id(draft_id),
                forall|j: int| 0 <= j < i ==> (#[trigger] tds@[j]).draft_id == draft_id
                    && tds@[j].fantasy_team_id == group@[j]
                    && fresh_id(tds@[j].team_draft_id),
        {
            tds.push(TeamDraft { team_draft_id: new_v4_id(), draft_id, fantasy_team_id: group[i] });
        }
        let ghost g = group@;
        assert(g == draft_group(idv, nd as nat, k as int));
        proof {
            crate::grouping::lemma_group_at_len_le(idv, draft_numbers(n as nat, nd as nat), counting(used_drafts(n as nat, nd as nat)), k as int);
        }
        let ghost ndn: nat = num_drafts_spec(period.teams_per_draft as usize, teams@.len() as usize) as nat;
        assert(ndn == nd as nat);
        assert(0 <= k < used_drafts(teams@.len(), ndn));
        assert(draft_times_fit(period.draft_start, period.draft_interval_secs, teams@.len() as int, squad_size as int,
            draft_group(fantasy_team_ids(teams@), ndn, k as int).len() as int));
        let choices = snake_choices(&tds, squad_size, n, period.draft_start, period.draft_interval_secs);
        let meta = "{}".to_string();
        proof {
            reveal_strlit("{}");
        }
        out.push(GeneratedDraft {
            draft: Draft { draft_id, period_id: period.period_id, meta },
            team_drafts: tds,
            choices,
        });
        k = k + 1;
    }
    out
}


/// In a generated draft among the `g` teams of `group`, choice `i` of round
/// `r` goes to team `i` in even rounds and to team `g - 1 - i` in odd rounds
/// (the exact reverse order), and runs for one interval from
/// `(r * num_teams + i)` intervals after the draft start.
pub proof fn lemma_generated_choices_follow_the_snake(
    d: GeneratedDraft,
    group: Seq<u128>,
    squad_size: usize,
    num_teams: int,
    period: Period,
    r: int,
    i: int,
)
    requires
        generated_draft_ok(d, group, squad_size, num_teams, period),
        0 <= r < squad_size,
        0 <= i < group.len(),
    ensures
        ({
            let g = group.len() as int;
            let t = if r % 2 == 0 { i } else { g - 1 - i };
            let c = d.choices@[r * g + i];
            let start = period.draft_start + (r * num_teams + i) * period.draft_interval_secs * 1_000_000;
            &&& 0 <= t < g
            &&& c.fantasy_team_id == group[t]
            &&& c.team_draft_id == d.team_drafts@[t].team_draft_id
            &&& c.timespan == half_open(start as i64, (start + period.draft_interval_secs * 1_000_000) as i64)
        }),
{
    let g = group.len() as int;
    let c = r * g + i;
    assert(r * g <= (squad_size - 1) * g) by (nonlinear_arith)
        requires 0 <= r < squad_size, 0 <= g;
    assert((squad_size - 1) * g == squad_size * g - g) by (nonlinear_arith);
    assert(0 <= r * g) by (nonlinear_arith)
        requires 0 <= r, 0 <= g;
    assert(0 <= c < squad_size * g);
    vstd::arithmetic::div_mod::lemma_fundamental_div_mod_converse(c, g, r, i);
    assert(snake_choice_ok(d.team_drafts@, c, d.choices@[c], period.draft_start, period.draft_interval_secs, num_teams));
    let t = if r % 2 == 0 { i } else { g - 1 - i };
    assert(d.team_drafts@[t].fantasy_team_id == group[t]);
}


proof fn lemma_dealt_prefix(ids: Seq<u128>, nd: nat, k: int, p: int)
    requires
        nd > 0,
        ids.len() <= u128::MAX,
        0 <= k < used_drafts(ids.len(), nd),
        0 <= p <= ids.len(),
    ensures
        group_at(ids.take(p), draft_numbers(p as nat, nd), counting(used_drafts(ids.len(), nd)), k).len()
            == if p > k { (p - 1 - k) / (nd as int) + 1 } else { 0 },
        forall|m: int| 0 <= m < group_at(ids.take(p), draft_numbers(p as nat, nd), counting(used_drafts(ids.len(), nd)), k).len()
            ==> #[trigger] group_at(ids.take(p), draft_numbers(p as nat, nd), counting(used_drafts(ids.len(), nd)), k)[m]
                == ids[k + m * nd] && k + m * nd < p,
    decreases p,
{
    let mm = used_drafts(ids.len(), nd);
    let d = nd as int;
    let g = group_at(ids.take(p), draft_numbers(p as nat, nd), counting(mm), k);
    if p > 0 {
        lemma_dealt_prefix(ids, nd, k, p - 1);
        let h = group_at(ids.take(p - 1), draft_numbers((p - 1) as nat, nd), counting(mm), k);
        assert(ids.take(p).drop_last() =~= ids.take(p - 1));
        assert(draft_numbers(p as nat, nd).take(p - 1) =~= draft_numbers((p - 1) as nat, nd));
        let x = (p - 1) % d;
        assert(draft_numbers(p as nat, nd)[p - 1] == x as u128);
        vstd::arithmetic::div_mod::lemma_mod_bound(p - 1, d);
        assert(x <= p - 1) by {
            if p - 1 < d {
                vstd::arithmetic::div_mod::lemma_small_mod((p - 1) as nat, nd);
            }
        }
        assert(0 <= x < mm);
        lemma_last_index_counting(mm, x);
        assert(ids.take(p).last() == ids[p - 1]);
        let q = (p - 1) / d;
        vstd::arithmetic::div_mod::lemma_fundamental_div_mod(p - 1, d);
        assert(p - 1 == d * q + x);
        vstd::arithmetic::div_mod::lemma_div_pos_is_pos(p - 1, d);
        let l = h.len() as int;
        if x == k {
            assert(g == h.push(ids[p - 1]));
            // l == q
            if q == 0 {
                assert(d * q == 0) by (nonlinear_arith) requires q == 0;
                assert(p - 1 == k);
            } else {
                assert(p - 1 > k) by (nonlinear_arith) requires p - 1 == d * q + k, q > 0, d > 0;
                assert(p - 2 - k == (q - 1) * d + (d - 1)) by (nonlinear_arith) requires p - 1 == d * q + k;
                vstd::arithmetic::div_mod::lemma_fundamental_div_mod_converse(p - 2 - k, d, q - 1, d - 1);
            }
            assert(l == q);
            assert(p - 1 - k == q * d + 0) by (nonlinear_arith) requires p - 1 == d * q + k;
            vstd::arithmetic::div_mod::lemma_fundamental_div_mod_converse(p - 1 - k, d, q, 0);
            assert(k + q * nd == p - 1) by (nonlinear_arith) requires p - 1 == d * q + k, d == nd;
            assert forall|m: int| 0 <= m < g.len() implies (#[trigger] g[m] == ids[k + m * nd] && k + m * nd < p) by {
                if m < l {
                    assert(g[m] == h[m]);
                }
            }
        } else {
            assert(g == h);
            if p - 1 > k {
                let a = (p - 1 - k) / d;
                let b = (p - 1 - k) % d;
                vstd::arithmetic::div_mod::lemma_fundamental_div_mod(p - 1 - k, d);
                vstd::arithmetic::div_mod::lemma_mod_bound(p - 1 - k, d);
                vstd::arithmetic::div_mod::lemma_div_pos_is_pos(p - 1 - k, d);
                if b == 0 {
                    assert(p - 1 == a * d + k) by (nonlinear_arith) requires p - 1 - k == d * a + b, b == 0;
                    vstd::arithmetic::div_mod::lemma_fundamental_div_mod_converse(p - 1, d, a, k);
                    assert(false);
                }
                assert(p - 2 - k == a * d + (b - 1)) by (nonlinear_arith) requires p - 1 - k == d * a + b;
                vstd::arithmetic::div_mod::lemma_fundamental_div_mod_converse(p - 2 - k, d, a, b - 1);
            } else {
                vstd::arithmetic::div_mod::lemma_small_mod(k as nat, nd);
                assert(p - 1 != k);
            }
            assert forall|m: int| 0 <= m < g.len() implies (#[trigger] g[m] == ids[k + m * nd] && k + m * nd < p) by {
                assert(g[m] == h[m]);
            }
        }
    } else {
        assert(g.len() == 0);
    }
}

/// Teams are dealt round-robin: draft `k` holds exactly the teams at
/// positions `k, k + nd, k + 2 * nd, ...` below the number of teams, in that
/// order, so it has `(n - 1 - k) / nd + 1` of them.
pub proof fn lemma_teams_dealt_round_robin(ids: Seq<u128>, nd: nat, k: int)
    requires
        nd > 0,
        ids.len() <= u128::MAX,
        0 <= k < used_drafts(ids.len(), nd),
    ensures
        draft_group(ids, nd, k).len() == (ids.len() - 1 - k) / (nd as int) + 1,
        forall|m: int| 0 <= m < draft_group(ids, nd, k).len() ==>
            #[trigger] draft_group(ids, nd, k)[m] == ids[k + m * nd] && k + m * nd < ids.len(),
{
    lemma_dealt_prefix(ids, nd, k, ids.len() as int);
    assert(ids.take(ids.len() as int) =~= ids);
}

} // verus!

//! Teams with their names over time.
use vstd::prelude::*;
use crate::timespan::Timespan;
use crate::fresh::{new_v4_id, fresh_id};

verus! {

broadcast use vstd::seq::Seq::lemma_flatten_push;

/// A team row.
#[derive(Clone, Debug, PartialEq, Eq)]
pub struct Team {
    pub team_id: u128,
    pub meta: String,
}

/// A name a team had for a span of time, as stored.
#[derive(Clone, Debug, PartialEq, Eq)]
pub struct TeamName {
    pub team_name_id: u128,
    pub team_id: u128,
    pub name: String,
    pub timespan: Timespan,
}

/// Changes to a team.
#[derive(Clone, Debug, PartialEq, Eq)]
pub struct TeamUpdate {
    pub team_id: u128,
    pub meta: Option<String>,
}

/// A name a team had for a span of time.
#[derive(Clone, Debug, PartialEq, Eq)]
pub struct ApiTeamName {
    pub name: String,
    pub timespan: Timespan,
}

/// A new name for a team.
#[derive(Clone, Debug, PartialEq, Eq)]
pub struct ApiTeamNameNew {
    pub team_id: u128,
    pub name: String,
    pub timespan: Timespan,
}

/// A team with all its names, as the API reports it.
#[derive(Clone, Debug, PartialEq, Eq)]
pub struct ApiTeam {
    pub team_id: u128,
    pub meta: String,
    pub names: Vec<ApiTeamName>,
}

/// A player's membership of a team for a span of time, as stored.
#[derive(Clone, Debug, PartialEq, Eq)]
pub struct TeamPlayer {
    pub team_player_id: u128,
    pub player_id: u128,
    pub team_id: u128,
    pub timespan: Timespan,
}

/// A player's membership of a team for a span of time.
#[derive(Clone, Debug, PartialEq, Eq)]
pub struct ApiTeamPlayer {
    pub player_id: u128,
    pub team_id: u128,
    pub timespan: Timespan,
}

/// A team's player as reported under the team.
#[derive(Clone, Debug, PartialEq, Eq)]
pub struct ApiTeamPlayerOut {
    pub team_id: u128,
    pub player_id: u128,
    pub timespan: Timespan,
}

/// A team with, where loaded, its names and players.
#[derive(Clone, Debug, PartialEq, Eq)]
pub struct ApiTeamWithPlayersHierarchy {
    pub team_id: u128,
    pub names: Option<Vec<ApiTeamName>>,
    pub meta: String,
    pub players: Option<Vec<ApiTeamPlayerOut>>,
}

pub struct ApiTeamView {
    pub team_id: u128,
    pub meta: String,
    pub names: Seq<ApiTeamName>,
}

pub struct ApiTeamWithPlayersHierarchyView {
    pub team_id: u128,
    pub names: Option<Seq<ApiTeamName>>,
    pub meta: String,
    pub players: Option<Seq<ApiTeamPlayerOut>>,
}

impl View for ApiTeam {
    type V = ApiTeamView;

    open spec fn view(&self) -> ApiTeamView {
        ApiTeamView { team_id: self.team_id, meta: self.meta, names: self.names@ }
    }
}

impl View for ApiTeamWithPlayersHierarchy {
    type V = ApiTeamWithPlayersHierarchyView;

    open spec fn view(&self) -> ApiTeamWithPlayersHierarchyView {
        ApiTeamWithPlayersHierarchyView {
            team_id: self.team_id,
            names: match self.names { Some(v) => Some(v@), None => None },
            meta: self.meta,
            players: match self.players { Some(v) => Some(v@), None => None },
        }
    }
}

/// The name part of a stored team name.
pub open spec fn api_name_of(n: TeamName) -> ApiTeamName {
    ApiTeamName { name: n.name, timespan: n.timespan }
}

/// The team ids of the rows, each once, in the order of their first row.
pub open spec fn first_ids(rows: Seq<(Team, TeamName)>) -> Seq<u128>
    decreases rows.len(),
{
    if rows.len() == 0 {
        Seq::empty()
    } else {
        let f = first_ids(rows.drop_last());
        if f.contains(rows.last().0.team_id) { f } else { f.push(rows.last().0.team_id) }
    }
}

/// The names of the rows of team `id`, in row order.
pub open spec fn names_of(rows: Seq<(Team, TeamName)>, id: u128) -> Seq<ApiTeamName>
    decreases rows.len(),
{
    if rows.len() == 0 {
        Seq::empty()
    } else {
        let rest = names_of(rows.drop_last(), id);
        if rows.last().0.team_id == id { rest.push(api_name_of(rows.last().1)) } else { rest }
    }
}

/// The metadata of the first row of team `id`.
pub open spec fn first_meta(rows: Seq<(Team, TeamName)>, id: u128) -> String
    decreases rows.len(),
{
    if rows.len() == 0 {
        arbitrary()
    } else if first_ids(rows.drop_last()).contains(id) {
        first_meta(rows.drop_last(), id)
    } else {
        rows.last().0.meta
    }
}

proof fn lemma_first_ids_step(rows: Seq<(Team, TeamName)>, id: u128)
    requires
        rows.len() > 0,
    ensures
        first_ids(rows).contains(id) <==> (first_ids(rows.drop_last()).contains(id) || rows.last().0.team_id == id),
{
    let f = first_ids(rows.drop_last());
    let x = rows.last().0.team_id;
    if !f.contains(x) {
        let fp = f.push(x);
        assert(fp[f.len() as int] == x);
        if f.contains(id) {
            let k = choose|k: int| 0 <= k < f.len() && f[k] == id;
            assert(fp[k] == id);
        }
        if fp.contains(id) && id != x {
            let k = choose|k: int| 0 <= k < fp.len() && fp[k] == id;
            assert(k < f.len());
            assert(f[k] == id);
        }
    }
}

proof fn lemma_first_ids_contains(rows: Seq<(Team, TeamName)>, id: u128)
    ensures
        first_ids(rows).contains(id) <==> exists|k: int| 0 <= k < rows.len() && (#[trigger] rows[k]).0.team_id == id,
        !first_ids(rows).contains(id) ==> names_of(rows, id) == Seq::<ApiTeamName>::empty(),
    decreases rows.len(),
{
    if rows.len() > 0 {
        let p = rows.drop_last();
        lemma_first_ids_contains(p, id);
        lemma_first_ids_step(rows, id);
        if exists|k: int| 0 <= k < p.len() && (#[trigger] p[k]).0.team_id == id {
            let k = choose|k: int| 0 <= k < p.len() && (#[trigger] p[k]).0.team_id == id;
            assert(rows[k] == p[k]);
        }
        if rows.last().0.team_id == id {
            assert(rows[rows.len() - 1].0.team_id == id);
        }
        if exists|k: int| 0 <= k < rows.len() && (#[trigger] rows[k]).0.team_id == id {
            let k = choose|k: int| 0 <= k < rows.len() && (#[trigger] rows[k]).0.team_id == id;
            if k < rows.len() - 1 {
                assert(p[k] == rows[k]);
            }
        }
    } else {
        assert(first_ids(rows) =~= Seq::<u128>::empty());
    }
}

proof fn lemma_first_ids_distinct(rows: Seq<(Team, TeamName)>)
    ensures
        forall|a: int, b: int| 0 <= a < b < first_ids(rows).len() ==> first_ids(rows)[a] != first_ids(rows)[b],
    decreases rows.len(),
{
    if rows.len() > 0 {
        let f = first_ids(rows.drop_last());
        let x = rows.last().0.team_id;
        lemma_first_ids_distinct(rows.drop_last());
        if !f.contains(x) {
            let fp = f.push(x);
            assert forall|a: int, b: int| 0 <= a < b < fp.len() implies fp[a] != fp[b] by {
                if b == f.len() {
                    assert(fp[a] == f[a]);
                    if f[a] == x {
                        assert(f.contains(x));
                    }
                } else {
                    assert(fp[a] == f[a] && fp[b] == f[b]);
                }
            }
        }
    }
}

/// Team `id` as grouped from the rows.
pub open spec fn team_view_of(rows: Seq<(Team, TeamName)>, id: u128) -> ApiTeamView {
    ApiTeamView { team_id: id, meta: first_meta(rows, id), names: names_of(rows, id) }
}

/// The teams grouped from the rows, in the order of each team's first row.
pub open spec fn teams_of_rows(rows: Seq<(Team, TeamName)>) -> Seq<ApiTeamView> {
    first_ids(rows).map_values(|id: u128| team_view_of(rows, id))
}

/// The rows of team `id`, in row order.
pub open spec fn team_rows(rows: Seq<(Team, TeamName)>, id: u128) -> Seq<(Team, TeamName)>
    decreases rows.len(),
{
    if rows.len() == 0 {
        Seq::empty()
    } else {
        let rest = team_rows(rows.drop_last(), id);
        if rows.last().0.team_id == id { rest.push(rows.last()) } else { rest }
    }
}

proof fn lemma_team_rows_determine_team(rows: Seq<(Team, TeamName)>, id: u128)
    ensures
        first_ids(rows).contains(id) <==> team_rows(rows, id).len() > 0,
        names_of(rows, id) == team_rows(rows, id).map_values(|r: (Team, TeamName)| api_name_of(r.1)),
        team_rows(rows, id).len() > 0 ==> first_meta(rows, id) == team_rows(rows, id)[0].0.meta,
    decreases rows.len(),
{
    if rows.len() == 0 {
        assert(first_ids(rows) =~= Seq::<u128>::empty());
        assert(team_rows(rows, id).map_values(|r: (Team, TeamName)| api_name_of(r.1)) =~= Seq::<ApiTeamName>::empty());
    } else {
        let p = rows.drop_last();
        lemma_team_rows_determine_team(p, id);
        lemma_first_ids_step(rows, id);
        let tp = team_rows(p, id);
        let f = |r: (Team, TeamName)| api_name_of(r.1);
        if rows.last().0.team_id == id {
            assert(tp.push(rows.last()).map_values(f) =~= tp.map_values(f).push(f(rows.last())));
        }
    }
}

proof fn lemma_no_dup_same_elements_same_multiset<A>(a: Seq<A>, b: Seq<A>)
    requires
        a.no_duplicates(),
        b.no_duplicates(),
        forall|x: A| a.contains(x) <==> b.contains(x),
    ensures
        a.to_multiset() == b.to_multiset(),
{
    broadcast use vstd::seq_lib::group_to_multiset_ensures;
    a.lemma_multiset_has_no_duplicates();
    b.lemma_multiset_has_no_duplicates();
    assert forall|x: A| a.to_multiset().count(x) == b.to_multiset().count(x) by {
        if a.contains(x) {
            assert(a.to_multiset().contains(x));
            assert(b.to_multiset().contains(x));
        }
    }
    assert(a.to_multiset() =~= b.to_multiset());
}

/// Reordering the rows while keeping the rows of each team in their order
/// gives the same teams, only possibly in another order: the grouped teams
/// are equal as multisets.
pub proof fn lemma_from_rows_ignores_order_across_teams(rows: Seq<(Team, TeamName)>, rows2: Seq<(Team, TeamName)>)
    requires
        forall|id: u128| #[trigger] team_rows(rows2, id) == team_rows(rows, id),
    ensures
        teams_of_rows(rows2).to_multiset() == teams_of_rows(rows).to_multiset(),
{
    let a = teams_of_rows(rows);
    let b = teams_of_rows(rows2);
    let fa = first_ids(rows);
    let fb = first_ids(rows2);
    assert forall|id: u128| fa.contains(id) implies #[trigger] team_view_of(rows2, id) == team_view_of(rows, id) && fb.contains(id) by {
        lemma_team_rows_determine_team(rows, id);
        lemma_team_rows_determine_team(rows2, id);
        assert(team_rows(rows2, id) == team_rows(rows, id));
    }
    assert forall|id: u128| fb.contains(id) implies fa.contains(id) by {
        lemma_team_rows_determine_team(rows, id);
        lemma_team_rows_determine_team(rows2, id);
        assert(team_rows(rows2, id) == team_rows(rows, id));
    }
    lemma_first_ids_distinct(rows);
    lemma_first_ids_distinct(rows2);
    assert forall|x: ApiTeamView| a.contains(x) <==> b.contains(x) by {
        if a.contains(x) {
            let k = choose|k: int| 0 <= k < a.len() && a[k] == x;
            let id = fa[k];
            assert(fa.contains(id));
            assert(team_view_of(rows2, id) == x);
            let j = choose|j: int| 0 <= j < fb.len() && fb[j] == id;
            assert(b[j] == x);
        }
        if b.contains(x) {
            let k = choose|k: int| 0 <= k < b.len() && b[k] == x;
            let id = fb[k];
            assert(fa.contains(id));
            assert(team_view_of(rows2, id) == team_view_of(rows, id));
            let j = choose|j: int| 0 <= j < fa.len() && fa[j] == id;
            assert(a[j] == x);
        }
    }
    assert forall|i: int, j: int| 0 <= i < a.len() && 0 <= j < a.len() && i != j implies a[i] != a[j] by {
        if i < j { assert(fa[i] != fa[j]); } else { assert(fa[j] != fa[i]); }
    }
    assert forall|i: int, j: int| 0 <= i < b.len() && 0 <= j < b.len() && i != j implies b[i] != b[j] by {
        if i < j { assert(fb[i] != fb[j]); } else { assert(fb[j] != fb[i]); }
    }
    lemma_no_dup_same_elements_same_multiset(b, a);
}

proof fn lemma_team_rows_filter(rows: Seq<(Team, TeamName)>, id: u128, f: spec_fn((Team, TeamName)) -> bool)
    requires
        forall|r: (Team, TeamName)| #[trigger] f(r) == (r.0.team_id == id),
    ensures
        team_rows(rows, id) == rows.filter(f),
    decreases rows.len(),
{
    reveal(Seq::filter);
    if rows.len() > 0 {
        lemma_team_rows_filter(rows.drop_last(), id, f);
    }
}

/// Every team grouped from the rows carries the names of all the rows of
/// its id, in row order, and the metadata of the first of them; every team
/// id of the rows is grouped, and no id twice.
pub proof fn lemma_teams_carry_their_rows(rows: Seq<(Team, TeamName)>)
    ensures
        forall|k: int| 0 <= k < teams_of_rows(rows).len() ==> {
            let t = #[trigger] teams_of_rows(rows)[k];
            let mine = rows.filter(|r: (Team, TeamName)| r.0.team_id == t.team_id);
            &&& mine.len() > 0
            &&& t.meta == mine[0].0.meta
            &&& t.names == mine.map_values(|r: (Team, TeamName)| ApiTeamName { name: r.1.name, timespan: r.1.timespan })
        },
        forall|i: int| 0 <= i < rows.len() ==> exists|k: int| 0 <= k < teams_of_rows(rows).len()
            && #[trigger] teams_of_rows(rows)[k].team_id == #[trigger] rows[i].0.team_id,
        forall|a: int, b: int| 0 <= a < b < teams_of_rows(rows).len() ==>
            #[trigger] teams_of_rows(rows)[a].team_id != #[trigger] teams_of_rows(rows)[b].team_id,
{
    lemma_first_ids_distinct(rows);
    let fi = first_ids(rows);
    assert forall|k: int| 0 <= k < teams_of_rows(rows).len() implies ({
        let t = #[trigger] teams_of_rows(rows)[k];
        let mine = rows.filter(|r: (Team, TeamName)| r.0.team_id == t.team_id);
        &&& mine.len() > 0
        &&& t.meta == mine[0].0.meta
        &&& t.names == mine.map_values(|r: (Team, TeamName)| ApiTeamName { name: r.1.name, timespan: r.1.timespan })
    }) by {
        let id = fi[k];
        assert(fi.contains(id));
        lemma_team_rows_determine_team(rows, id);
        let f = |r: (Team, TeamName)| r.0.team_id == id;
        lemma_team_rows_filter(rows, id, f);
        let tr = team_rows(rows, id);
        assert(tr.map_values(|r: (Team, TeamName)| api_name_of(r.1))
            =~= tr.map_values(|r: (Team, TeamName)| ApiTeamName { name: r.1.name, timespan: r.1.timespan }));
    }
    assert forall|i: int| 0 <= i < rows.len() implies exists|k: int| 0 <= k < teams_of_rows(rows).len()
        && #[trigger] teams_of_rows(rows)[k].team_id == #[trigger] rows[i].0.team_id by {
        lemma_first_ids_contains(rows, rows[i].0.team_id);
        let k = choose|k: int| 0 <= k < fi.len() && fi[k] == rows[i].0.team_id;
        assert(teams_of_rows(rows)[k].team_id == fi[k]);
    }
}

fn find_team(acc: &Vec<ApiTeam>, id: u128) -> (r: Option<usize>)
    ensures
        r matches Some(k) ==> k < acc@.len() && acc@[k as int].team_id == id,
        r is None ==> forall|k: int| 0 <= k < acc@.len() ==> acc@[k].team_id != id,
{
    for k in 0..acc.len()
        invariant
            forall|j: int| 0 <= j < k ==> acc@[j].team_id != id,
    {
        if acc[k].team_id == id {
            return Some(k);
        }
    }
    None
}

impl ApiTeam {
    /// Groups `(team, name)` rows into teams, one per team id in the order
    /// of its first row, each with the metadata of that first row and the
    /// names of all its rows in row order.
    pub fn from_rows(rows: Vec<(Team, TeamName)>) -> (r: Vec<ApiTeam>)
        ensures
            r@.len() == first_ids(rows@).len(),
            forall|k: int| 0 <= k < r@.len() ==> {
                let id = first_ids(rows@)[k];
                &&& (#[trigger] r@[k]).team_id == id
                &&& r@[k].meta == first_meta(rows@, id)
                &&& r@[k].names@ == names_of(rows@, id)
            },
            r@.map_values(|t: ApiTeam| t@) == teams_of_rows(rows@),
    {
        let ghost all = rows@;
        let n = rows.len();
        let mut acc: Vec<ApiTeam> = Vec::new();
        let mut i: usize = 0;
        for row in it: rows.into_iter()
            invariant
                i == it.index(),
                it.seq() == all,
                n == all.len(),
                acc@.len() == first_ids(all.take(i as int)).len(),
                forall|k: int| 0 <= k < acc@.len() ==> {
                    let id = first_ids(all.take(i as int))[k];
                    &&& (#[trigger] acc@[k]).team_id == id
                    &&& acc@[k].meta == first_meta(all.take(i as int), id)
                    &&& acc@[k].names@ == names_of(all.take(i as int), id)
                },
        {
            let ghost pre = all.take(i as int);
            let ghost post = all.take(i + 1);
            assert(post.drop_last() =~= pre);
            assert(post.last() == row);
            proof {
                lemma_first_ids_distinct(pre);
            }
            let (team, team_name) = row;
            let ghost nm = api_name_of(team_name);
            let name = ApiTeamName { name: team_name.name, timespan: team_name.timespan };
            let ghost old_acc = acc@;
            match find_team(&acc, team.team_id) {
                Some(k) => {
                    assert(first_ids(pre)[k as int] == team.team_id);
                    assert(first_ids(pre).contains(team.team_id));
                    acc[k].names.push(name);
                    proof {
                        assert(first_ids(post) == first_ids(pre));
                        assert forall|j: int| 0 <= j < acc@.len() implies {
                            let id = first_ids(post)[j];
                            &&& (#[trigger] acc@[j]).team_id == id
                            &&& acc@[j].meta == first_meta(post, id)
                            &&& acc@[j].names@ == names_of(post, id)
                        } by {
                            let id = first_ids(pre)[j];
                            assert(first_ids(pre).contains(id));
                            if j != k {
                                assert(acc@[j] == old_acc[j]);
                                assert(id != team.team_id);
                            }
                        }
                    }
                },
                None => {
                    proof {
                        lemma_first_ids_contains(pre, team.team_id);
                        assert(!first_ids(pre).contains(team.team_id)) by {
                            if first_ids(pre).contains(team.team_id) {
                                let j = choose|j: int| 0 <= j < first_ids(pre).len() && first_ids(pre)[j] == team.team_id;
                                assert(acc@[j].team_id == team.team_id);
                            }
                        }
                    }
                    let mut names: Vec<ApiTeamName> = Vec::new();
                    names.push(name);
                    acc.push(ApiTeam { team_id: team.team_id, meta: team.meta, names });
                    proof {
                        assert(first_ids(post) == first_ids(pre).push(team.team_id));
                        assert forall|j: int| 0 <= j < acc@.len() implies {
                            let id = first_ids(post)[j];
                            &&& (#[trigger] acc@[j]).team_id == id
                            &&& acc@[j].meta == first_meta(post, id)
                            &&& acc@[j].names@ == names_of(post, id)
                        } by {
                            if j < old_acc.len() {
                                let id = first_ids(pre)[j];
                                assert(first_ids(pre).contains(id));
                                assert(acc@[j] == old_acc[j]);
                                assert(id != team.team_id);
                            } else {
                                assert(names_of(pre, team.team_id) == Seq::<ApiTeamName>::empty());
                                assert(acc@[j].names@ =~= names_of(post, team.team_id));
                            }
                        }
                    }
                },
            }
            i = i + 1;
        }
        proof {
            assert(all.take(n as int) =~= all);
            assert(acc@.map_values(|t: ApiTeam| t@) =~= teams_of_rows(all));
        }
        acc
    }

    /// The rows that store the given teams: a team row per team, and a name
    /// row with a fresh id per name of each team, in order.
    pub fn insertable_rows(teams: Vec<ApiTeam>) -> (r: (Vec<Team>, Vec<TeamName>))
        ensures
            r.0@.len() == teams@.len(),
            forall|k: int| 0 <= k < teams@.len() ==> (#[trigger] r.0@[k]).team_id == teams@[k].team_id
                && r.0@[k].meta == teams@[k].meta,
            r.1@.map_values(|n: TeamName| (n.team_id, api_name_of(n))) == teams@.map_values(
                |t: ApiTeam| t.names@.map_values(|n: ApiTeamName| (t.team_id, n))).flatten(),
            forall|k: int| 0 <= k < r.1@.len() ==> fresh_id(#[trigger] r.1@[k].team_name_id),
    {
        let ghost all = teams@;
        let ghost g = |t: ApiTeam| t.names@.map_values(|n: ApiTeamName| (t.team_id, n));
        let ghost f = |n: TeamName| (n.team_id, api_name_of(n));
        let n = teams.len();
        let mut rows: Vec<Team> = Vec::new();
        let mut names: Vec<TeamName> = Vec::new();
        let mut i: usize = 0;
        assert(all.take(0).map_values(g) =~= Seq::<Seq<(u128, ApiTeamName)>>::empty());
        for t in it: teams.into_iter()
            invariant
                i == it.index(),
                it.seq() == all,
                n == all.len(),
                g == (|t: ApiTeam| t.names@.map_values(|n: ApiTeamName| (t.team_id, n))),
                f == (|n: TeamName| (n.team_id, api_name_of(n))),
                rows@.len() == i,
                forall|k: int| 0 <= k < i ==> (#[trigger] rows@[k]).team_id == all[k].team_id && rows@[k].meta == all[k].meta,
                names@.map_values(f) == all.take(i as int).map_values(g).flatten(),
                forall|k: int| 0 <= k < names@.len() ==> fresh_id(#[trigger] names@[k].team_name_id),
        {
            let ghost tv = t;
            assert(all[i as int] == tv);
            let ApiTeam { team_id, meta, names: tnames } = t;
            let ghost before = names@.map_values(f);
            let ghost nall = tnames@;
            let m = tnames.len();
            let mut j: usize = 0;
            for nm in nit: tnames.into_iter()
                invariant
                    j == nit.index(),
                    nit.seq() == nall,
                    m == nall.len(),
                    f == (|n: TeamName| (n.team_id, api_name_of(n))),
                    names@.map_values(f) == before + nall.take(j as int).map_values(|n: ApiTeamName| (team_id, n)),
                    forall|k: int| 0 <= k < names@.len() ==> fresh_id(#[trigger] names@[k].team_name_id),
            {
                let ghost pre = names@;
                names.push(TeamName { team_name_id: new_v4_id(), team_id, name: nm.name, timespan: nm.timespan });
                proof {
                    let h = |n: ApiTeamName| (team_id, n);
                    assert(names@.map_values(f) =~= pre.map_values(f).push(f(names@.last())));
                    assert(nall.take(j + 1).map_values(h) =~= nall.take(j as int).map_values(h).push(h(nall[j as int])));
                    assert(f(names@.last()) == h(nall[j as int]));
                }
                j = j + 1;
            }
            proof {
                assert(nall.take(m as int) =~= nall);
                assert(g(tv) =~= nall.map_values(|n: ApiTeamName| (team_id, n)));
                assert(all.take(i + 1).map_values(g) =~= all.take(i as int).map_values(g).push(g(tv)));
            }
            rows.push(Team { team_id, meta });
            i = i + 1;
        }
        proof {
            assert(all.take(n as int) =~= all);
        }
        (rows, names)
    }
}

impl ApiTeamWithPlayersHierarchy {
    /// The given teams with their names and without players.
    pub fn from_api_team(teams: Vec<ApiTeam>) -> (r: Vec<ApiTeamWithPlayersHierarchy>)
        ensures
            r@.len() == teams@.len(),
            forall|k: int| 0 <= k < r@.len() ==> (#[trigger] r@[k])@ == (ApiTeamWithPlayersHierarchyView {
                team_id: teams@[k].team_id,
                names: Some(teams@[k].names@),
                meta: teams@[k].meta,
                players: None,
            }),
    {
        let ghost all = teams@;
        let n = teams.len();
        let mut r: Vec<ApiTeamWithPlayersHierarchy> = Vec::new();
        let mut i: usize = 0;
        for t in it: teams.into_iter()
            invariant
                i == it.index(),
                it.seq() == all,
                n == all.len(),
                r@.len() == i,
                forall|k: int| 0 <= k < i ==> (#[trigger] r@[k])@ == (ApiTeamWithPlayersHierarchyView {
                    team_id: all[k].team_id,
                    names: Some(all[k].names@),
                    meta: all[k].meta,
                    players: None,
                }),
        {
            assert(all[i as int] == t);
            r.push(ApiTeamWithPlayersHierarchy { team_id: t.team_id, names: Some(t.names), meta: t.meta, players: None });
            i = i + 1;
        }
        r
    }

    /// The given teams without names or players.
    pub fn from_team(teams: Vec<Team>) -> (r: Vec<ApiTeamWithPlayersHierarchy>)
        ensures
            r@.len() == teams@.len(),
            forall|k: int| 0 <= k < r@.len() ==> (#[trigger] r@[k])@ == (ApiTeamWithPlayersHierarchyView {
                team_id: teams@[k].team_id,
                names: None,
                meta: teams@[k].meta,
                players: None,
            }),
    {
        let ghost all = teams@;
        let n = teams.len();
        let mut r: Vec<ApiTeamWithPlayersHierarchy> = Vec::new();
        let mut i: usize = 0;
        for t in it: teams.into_iter()
            invariant
                i == it.index(),
                it.seq() == all,
                n == all.len(),
                r@.len() == i,
                forall|k: int| 0 <= k < i ==> (#[trigger] r@[k])@ == (ApiTeamWithPlayersHierarchyView {
                    team_id: all[k].team_id,
                    names: None,
                    meta: all[k].meta,
                    players: None,
                }),
        {
            assert(all[i as int] == t);
            r.push(ApiTeamWithPlayersHierarchy { team_id: t.team_id, names: None, meta: t.meta, players: None });
            i = i + 1;
        }
        r
    }
}

} // verus!

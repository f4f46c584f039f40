//! Gathering each league's periods, stat multipliers, position limits and
//! fantasy teams.
use vstd::prelude::*;
use crate::grouping::{attach, grouped_by, zip_vecs, group_at, keys_resolve};

verus! {

/// Pairs each league with the rows of each kind that belong to it. The rows
/// of each kind come with their league ids (`*_keys`), which must all name
/// one of the leagues.
pub fn league_rows<L, P, S, M, F>(
    leagues: Vec<L>,
    league_ids: &Vec<u128>,
    periods: Vec<P>,
    period_keys: &Vec<u128>,
    stats: Vec<S>,
    stat_keys: &Vec<u128>,
    maxes: Vec<M>,
    max_keys: &Vec<u128>,
    teams: Vec<F>,
    team_keys: &Vec<u128>,
) -> (r: Vec<(L, Vec<P>, Vec<S>, Vec<M>, Vec<F>)>)
    requires
        league_ids@.len() == leagues@.len(),
        period_keys@.len() == periods@.len(),
        stat_keys@.len() == stats@.len(),
        max_keys@.len() == maxes@.len(),
        team_keys@.len() == teams@.len(),
        keys_resolve(period_keys@, league_ids@),
        keys_resolve(stat_keys@, league_ids@),
        keys_resolve(max_keys@, league_ids@),
        keys_resolve(team_keys@, league_ids@),
    ensures
        r@.len() == leagues@.len(),
        forall|i: int| 0 <= i < r@.len() ==> {
            &&& (#[trigger] r@[i]).0 == leagues@[i]
            &&& r@[i].1@ == group_at(periods@, period_keys@, league_ids@, i)
            &&& r@[i].2@ == group_at(stats@, stat_keys@, league_ids@, i)
            &&& r@[i].3@ == group_at(maxes@, max_keys@, league_ids@, i)
            &&& r@[i].4@ == group_at(teams@, team_keys@, league_ids@, i)
        },
{
    let ghost (l0, p0, s0, m0, f0) = (leagues@, periods@, stats@, maxes@, teams@);
    let a = attach(leagues, league_ids, periods, period_keys);
    let gs = grouped_by(stats, stat_keys, league_ids);
    let gm = grouped_by(maxes, max_keys, league_ids);
    let gf = grouped_by(teams, team_keys, league_ids);
    let ghost (av, gsv, gmv, gfv) = (a@, gs@, gm@, gf@);
    let z = zip_vecs(zip_vecs(zip_vecs(a, gs), gm), gf);
    let ghost zv = z@;
    let n = z.len();
    let mut r: Vec<(L, Vec<P>, Vec<S>, Vec<M>, Vec<F>)> = Vec::new();
    let mut i: usize = 0;
    for e in it: z.into_iter()
        invariant
            i == it.index(),
            it.seq() == zv,
            n == zv.len(),
            r@.len() == i,
            forall|k: int| 0 <= k < i ==> (#[trigger] r@[k]) == (zv[k].0.0.0.0, zv[k].0.0.0.1, zv[k].0.0.1, zv[k].0.1, zv[k].1),
    {
        let ((((a1, p1), s1), m1), f1) = e;
        r.push((a1, p1, s1, m1, f1));
        i = i + 1;
    }
    r
}

} // verus!

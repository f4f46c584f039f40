//! Flattening competitions and series into the rows that store them, and
//! grouping stored rows back into series.
use vstd::prelude::*;
use crate::results::{
    Competition, Series, Match, PlayerResult, TeamMatchResult, TeamSeriesResult, ApiMatch, ApiSeries,
    ApiSeriesNew, ApiCompetition, ApiMatchView, ApiSeriesView, ApiCompetitionView, opt_view,
};
use crate::competitions::{MatchRow, SeriesRow, MatchRowV, SeriesRowV, match_row_view, series_row_view};
use crate::grouping::{
    attach, grouped_by, zip_vecs, group_at, keys_resolve, keys_of, lemma_group_at_map, lemma_group_blocks, lemma_flatten_map,
    lemma_flatten_flatten, lemma_flatten_all, lemma_flatten_contains,
};

verus! {

broadcast use vstd::seq::Seq::lemma_flatten_push;

/// The elements of an optional sequence; none when it is missing.
pub open spec fn opt_seq<T>(o: Option<Seq<T>>) -> Seq<T> {
    match o {
        Some(s) => s,
        None => Seq::empty(),
    }
}

/// The row that stores an API match of series `series_id`.
pub open spec fn match_row_of(m: ApiMatchView, series_id: u128) -> Match {
    Match { match_id: m.match_id, name: m.name, series_id, meta: m.meta, timespan: m.timespan }
}

/// The rows that store one series and what it holds.
pub struct SeriesInsertView {
    pub series: Series,
    pub matches: Seq<Match>,
    pub player_results: Seq<PlayerResult>,
    pub team_match_results: Seq<TeamMatchResult>,
    pub team_results: Seq<TeamSeriesResult>,
}

/// The rows that store API series `s` of competition `competition_id`: the
/// series, its matches, all their player results and team results in match
/// order, and the series' own team results.
pub open spec fn series_insert(s: ApiSeriesView, competition_id: u128) -> SeriesInsertView {
    let ms = opt_seq(s.matches);
    SeriesInsertView {
        series: Series { series_id: s.series_id, name: s.name, competition_id, meta: s.meta, timespan: s.timespan },
        matches: ms.map_values(|m: ApiMatchView| match_row_of(m, s.series_id)),
        player_results: ms.map_values(|m: ApiMatchView| opt_seq(m.player_results)).flatten(),
        team_match_results: ms.map_values(|m: ApiMatchView| opt_seq(m.team_results)).flatten(),
        team_results: opt_seq(s.team_results),
    }
}

/// Rows of several series, in order.
#[derive(Clone, Debug, PartialEq, Eq)]
pub struct InsertRows {
    pub series: Vec<Series>,
    pub matches: Vec<Match>,
    pub player_results: Vec<PlayerResult>,
    pub team_match_results: Vec<TeamMatchResult>,
    pub team_results: Vec<TeamSeriesResult>,
}

/// The rows of the given series, concatenated kind by kind in series order.
pub open spec fn rows_of(ins: Seq<SeriesInsertView>, r: InsertRows) -> bool {
    &&& r.series@ == ins.map_values(|x: SeriesInsertView| x.series)
    &&& r.matches@ == ins.map_values(|x: SeriesInsertView| x.matches).flatten()
    &&& r.player_results@ == ins.map_values(|x: SeriesInsertView| x.player_results).flatten()
    &&& r.team_match_results@ == ins.map_values(|x: SeriesInsertView| x.team_match_results).flatten()
    &&& r.team_results@ == ins.map_values(|x: SeriesInsertView| x.team_results).flatten()
}

/// The competition row of an API competition.
pub open spec fn competition_row_of(c: ApiCompetitionView) -> Competition {
    Competition { competition_id: c.competition_id, name: c.name, meta: c.meta, timespan: c.timespan }
}

/// The series rows of all given competitions, in order.
pub open spec fn competition_inserts(comps: Seq<ApiCompetitionView>) -> Seq<SeriesInsertView> {
    comps.map_values(|c: ApiCompetitionView| opt_seq(c.series).map_values(
        |s: ApiSeriesView| series_insert(s, c.competition_id))).flatten()
}

/// The API series of a new series: the same series without its competition.
pub open spec fn as_api_series(s: ApiSeriesNew) -> ApiSeries {
    ApiSeries { series_id: s.series_id, name: s.name, meta: s.meta, timespan: s.timespan, matches: s.matches, team_results: s.team_results }
}

impl ApiMatch {
    /// The rows that store this match of series `series_id`: the match, its
    /// player results and its team results (none where missing).
    pub fn insertable(self, series_id: u128) -> (r: (Match, Vec<PlayerResult>, Vec<TeamMatchResult>))
        ensures
            r.0 == match_row_of(self@, series_id),
            r.1@ == opt_seq(self@.player_results),
            r.2@ == opt_seq(self@.team_results),
    {
        let m = Match { match_id: self.match_id, name: self.name, series_id, meta: self.meta, timespan: self.timespan };
        let pr = match self.player_results {
            Some(v) => v,
            None => Vec::new(),
        };
        let tr = match self.team_results {
            Some(v) => v,
            None => Vec::new(),
        };
        (m, pr, tr)
    }
}

impl ApiSeries {
    /// The rows that store this series of competition `competition_id`.
    pub fn insertable(self, competition_id: u128) -> (r: (Series, Vec<Match>, Vec<PlayerResult>, Vec<TeamMatchResult>, Vec<TeamSeriesResult>))
        ensures
            r.0 == series_insert(self@, competition_id).series,
            r.1@ == series_insert(self@, competition_id).matches,
            r.2@ == series_insert(self@, competition_id).player_results,
            r.3@ == series_insert(self@, competition_id).team_match_results,
            r.4@ == series_insert(self@, competition_id).team_results,
    {
        let ghost sv = self@;
        let series_id = self.series_id;
        let mut matches: Vec<Match> = Vec::new();
        let mut player_results: Vec<PlayerResult> = Vec::new();
        let mut team_match_results: Vec<TeamMatchResult> = Vec::new();
        let input = match self.matches {
            Some(v) => v,
            None => Vec::new(),
        };
        let ghost all = input@;
        let ghost allv = input@.map_values(|m: ApiMatch| m@);
        assert(allv == opt_seq(sv.matches));
        let n = input.len();
        let mut i: usize = 0;
        for m in it: input.into_iter()
            invariant
                i == it.index(),
                it.seq() == all,
                n == all.len(),
                allv == all.map_values(|m: ApiMatch| m@),
                series_id == sv.series_id,
                matches@ == allv.take(i as int).map_values(|m: ApiMatchView| match_row_of(m, series_id)),
                player_results@ == allv.take(i as int).map_values(|m: ApiMatchView| opt_seq(m.player_results)).flatten(),
                team_match_results@ == allv.take(i as int).map_values(|m: ApiMatchView| opt_seq(m.team_results)).flatten(),
        {
            let ghost mv = m@;
            assert(allv[i as int] == mv);
            assert(allv.take(i + 1) =~= allv.take(i as int).push(mv));
            let (new_m, mut new_pr, mut new_tr) = m.insertable(series_id);
            matches.push(new_m);
            player_results.append(&mut new_pr);
            team_match_results.append(&mut new_tr);
            proof {
                let f = |m: ApiMatchView| opt_seq(m.player_results);
                let g = |m: ApiMatchView| opt_seq(m.team_results);
                let h = |m: ApiMatchView| match_row_of(m, series_id);
                assert(allv.take(i + 1).map_values(f) =~= allv.take(i as int).map_values(f).push(f(mv)));
                assert(allv.take(i + 1).map_values(g) =~= allv.take(i as int).map_values(g).push(g(mv)));
                assert(allv.take(i + 1).map_values(h) =~= allv.take(i as int).map_values(h).push(h(mv)));
            }
            i = i + 1;
        }
        proof {
            assert(allv.take(n as int) =~= allv);
        }
        let team_results = match self.team_results {
            Some(v) => v,
            None => Vec::new(),
        };
        let s = Series { series_id, name: self.name, competition_id, meta: self.meta, timespan: self.timespan };
        (s, matches, player_results, team_match_results, team_results)
    }
}

fn empty_rows() -> (r: InsertRows)
    ensures
        rows_of(Seq::empty(), r),
{
    let r = InsertRows {
        series: Vec::new(),
        matches: Vec::new(),
        player_results: Vec::new(),
        team_match_results: Vec::new(),
        team_results: Vec::new(),
    };
    proof {
        let e = Seq::<SeriesInsertView>::empty();
        assert(e.map_values(|x: SeriesInsertView| x.series) =~= Seq::empty());
        assert(e.map_values(|x: SeriesInsertView| x.matches) =~= Seq::<Seq<Match>>::empty());
        assert(e.map_values(|x: SeriesInsertView| x.player_results) =~= Seq::<Seq<PlayerResult>>::empty());
        assert(e.map_values(|x: SeriesInsertView| x.team_match_results) =~= Seq::<Seq<TeamMatchResult>>::empty());
        assert(e.map_values(|x: SeriesInsertView| x.team_results) =~= Seq::<Seq<TeamSeriesResult>>::empty());
    }
    r
}

/// Appends the rows of series `s` of competition `competition_id`.
fn push_series(rows: &mut InsertRows, s: ApiSeries, competition_id: u128, Ghost(done): Ghost<Seq<SeriesInsertView>>)
    requires
        rows_of(done, *old(rows)),
    ensures
        rows_of(done.push(series_insert(s@, competition_id)), *final(rows)),
{
    let ghost x = series_insert(s@, competition_id);
    let (s2, mut ms, mut prs, mut tmrs, mut trs) = s.insertable(competition_id);
    rows.series.push(s2);
    rows.matches.append(&mut ms);
    rows.player_results.append(&mut prs);
    rows.team_match_results.append(&mut tmrs);
    rows.team_results.append(&mut trs);
    proof {
        let d2 = done.push(x);
        assert(d2.map_values(|x: SeriesInsertView| x.series) =~= done.map_values(|x: SeriesInsertView| x.series).push(x.series));
        assert(d2.map_values(|x: SeriesInsertView| x.matches) =~= done.map_values(|x: SeriesInsertView| x.matches).push(x.matches));
        assert(d2.map_values(|x: SeriesInsertView| x.player_results) =~= done.map_values(|x: SeriesInsertView| x.player_results).push(x.player_results));
        assert(d2.map_values(|x: SeriesInsertView| x.team_match_results) =~= done.map_values(|x: SeriesInsertView| x.team_match_results).push(x.team_match_results));
        assert(d2.map_values(|x: SeriesInsertView| x.team_results) =~= done.map_values(|x: SeriesInsertView| x.team_results).push(x.team_results));
    }
}

/// The rows that store some competitions and everything they hold.
#[derive(Clone, Debug, PartialEq, Eq)]
pub struct CompetitionRows {
    pub competitions: Vec<Competition>,
    pub rows: InsertRows,
}

impl ApiCompetition {
    /// The rows that store the given competitions: the competition rows in
    /// order, and the rows of all their series in order.
    pub fn insertable_rows(comps: Vec<ApiCompetition>) -> (r: CompetitionRows)
        ensures
            r.competitions@ == comps@.map_values(|c: ApiCompetition| c@).map_values(|c: ApiCompetitionView| competition_row_of(c)),
            rows_of(competition_inserts(comps@.map_values(|c: ApiCompetition| c@)), r.rows),
    {
        let ghost all = comps@;
        let ghost allv = comps@.map_values(|c: ApiCompetition| c@);
        let ghost g = |c: ApiCompetitionView| opt_seq(c.series).map_values(|s: ApiSeriesView| series_insert(s, c.competition_id));
        let n = comps.len();
        let mut competitions: Vec<Competition> = Vec::new();
        let mut rows = empty_rows();
        let mut i: usize = 0;
        assert(allv.take(0).map_values(g) =~= Seq::<Seq<SeriesInsertView>>::empty());
        for c in it: comps.into_iter()
            invariant
                i == it.index(),
                it.seq() == all,
                n == all.len(),
                allv == all.map_values(|c: ApiCompetition| c@),
                g == (|c: ApiCompetitionView| opt_seq(c.series).map_values(|s: ApiSeriesView| series_insert(s, c.competition_id))),
                competitions@ == allv.take(i as int).map_values(|c: ApiCompetitionView| competition_row_of(c)),
                rows_of(allv.take(i as int).map_values(g).flatten(), rows),
        {
            let ghost cv = c@;
            assert(allv[i as int] == cv);
            assert(allv.take(i + 1) =~= allv.take(i as int).push(cv));
            let competition_id = c.competition_id;
            let ghost before = allv.take(i as int).map_values(g).flatten();
            let series_in = match c.series {
                Some(v) => v,
                None => Vec::new(),
            };
            let ghost sall = series_in@;
            let ghost cur = g(cv);
            assert(cur =~= sall.map_values(|s: ApiSeries| s@).map_values(|s: ApiSeriesView| series_insert(s, competition_id)));
            let m = series_in.len();
            let mut j: usize = 0;
            for s in sit: series_in.into_iter()
                invariant
                    j == sit.index(),
                    sit.seq() == sall,
                    m == sall.len(),
                    cur == sall.map_values(|s: ApiSeries| s@).map_values(|s: ApiSeriesView| series_insert(s, competition_id)),
                    rows_of(before + cur.take(j as int), rows),
            {
                assert(cur[j as int] == series_insert(s@, competition_id));
                push_series(&mut rows, s, competition_id, Ghost(before + cur.take(j as int)));
                assert((before + cur.take(j as int)).push(cur[j as int]) =~= before + cur.take(j + 1));
                j = j + 1;
            }
            assert(cur.take(m as int) =~= cur);
            assert(allv.take(i + 1).map_values(g) =~= allv.take(i as int).map_values(g).push(cur));
            competitions.push(Competition { competition_id, name: c.name, meta: c.meta, timespan: c.timespan });
            proof {
                let h = |c: ApiCompetitionView| competition_row_of(c);
                assert(allv.take(i + 1).map_values(h) =~= allv.take(i as int).map_values(h).push(h(cv)));
            }
            i = i + 1;
        }
        proof {
            assert(allv.take(n as int) =~= allv);
        }
        CompetitionRows { competitions, rows }
    }
}

impl ApiSeriesNew {
    /// This series as an API series, with the competition it belongs to.
    pub fn into_api_series(self) -> (r: (u128, ApiSeries))
        ensures
            r.0 == self.competition_id,
            r.1@ == as_api_series(self)@,
    {
        (self.competition_id, ApiSeries {
            series_id: self.series_id,
            name: self.name,
            meta: self.meta,
            timespan: self.timespan,
            matches: self.matches,
            team_results: self.team_results,
        })
    }

    /// The rows that store the given new series, each in its own competition.
    pub fn insertable_rows(new: Vec<ApiSeriesNew>) -> (r: InsertRows)
        ensures
            rows_of(new@.map_values(|s: ApiSeriesNew| series_insert(as_api_series(s)@, s.competition_id)), r),
    {
        let ghost all = new@;
        let ghost ins = new@.map_values(|s: ApiSeriesNew| series_insert(as_api_series(s)@, s.competition_id));
        let n = new.len();
        let mut rows = empty_rows();
        let mut i: usize = 0;
        assert(ins.take(0) =~= Seq::<SeriesInsertView>::empty());
        for s in it: new.into_iter()
            invariant
                i == it.index(),
                it.seq() == all,
                n == all.len(),
                ins == all.map_values(|s: ApiSeriesNew| series_insert(as_api_series(s)@, s.competition_id)),
                rows_of(ins.take(i as int), rows),
        {
            let ghost x = series_insert(as_api_series(s)@, s.competition_id);
            assert(ins[i as int] == x);
            let (competition_id, api) = s.into_api_series();
            push_series(&mut rows, api, competition_id, Ghost(ins.take(i as int)));
            assert(ins.take(i as int).push(x) =~= ins.take(i + 1));
            i = i + 1;
        }
        proof {
            assert(ins.take(n as int) =~= ins);
        }
        rows
    }
}


pub open spec fn match_ids(s: Seq<Match>) -> Seq<u128> {
    s.map_values(|m: Match| m.match_id)
}

pub open spec fn match_series_keys(s: Seq<Match>) -> Seq<u128> {
    s.map_values(|m: Match| m.series_id)
}

pub open spec fn series_ids(s: Seq<Series>) -> Seq<u128> {
    s.map_values(|x: Series| x.series_id)
}

pub open spec fn player_result_keys(s: Seq<PlayerResult>) -> Seq<u128> {
    s.map_values(|x: PlayerResult| x.match_id)
}

pub open spec fn team_match_result_keys(s: Seq<TeamMatchResult>) -> Seq<u128> {
    s.map_values(|x: TeamMatchResult| x.match_id)
}

pub open spec fn team_result_keys(s: Seq<TeamSeriesResult>) -> Seq<u128> {
    s.map_values(|x: TeamSeriesResult| x.series_id)
}

/// Every result names a stored match or series, and every match a stored series.
pub open spec fn inserted_rows_ok(
    series: Seq<Series>,
    matches: Seq<Match>,
    prs: Seq<PlayerResult>,
    tmrs: Seq<TeamMatchResult>,
    trs: Seq<TeamSeriesResult>,
) -> bool {
    &&& keys_resolve(player_result_keys(prs), match_ids(matches))
    &&& keys_resolve(team_match_result_keys(tmrs), match_ids(matches))
    &&& keys_resolve(team_result_keys(trs), series_ids(series))
    &&& keys_resolve(match_series_keys(matches), series_ids(series))
}

/// Each match with its player and team results.
pub open spec fn match_rows_of(matches: Seq<Match>, prs: Seq<PlayerResult>, tmrs: Seq<TeamMatchResult>) -> Seq<MatchRowV> {
    Seq::new(matches.len(), |j: int| (
        matches[j],
        group_at(prs, player_result_keys(prs), match_ids(matches), j),
        group_at(tmrs, team_match_result_keys(tmrs), match_ids(matches), j),
    ))
}

/// Each series with its team results and its matches (with their results).
pub open spec fn series_rows_of(
    series: Seq<Series>,
    matches: Seq<Match>,
    prs: Seq<PlayerResult>,
    tmrs: Seq<TeamMatchResult>,
    trs: Seq<TeamSeriesResult>,
) -> Seq<SeriesRowV> {
    let mr = match_rows_of(matches, prs, tmrs);
    Seq::new(series.len(), |i: int| (
        series[i],
        group_at(trs, team_result_keys(trs), series_ids(series), i),
        group_at(mr, mr.map_values(|m: MatchRowV| m.0.series_id), series_ids(series), i),
    ))
}

/// Whether `group_inserted` accepts the rows.
pub fn check_inserted_rows(rows: &InsertRows) -> (r: bool)
    ensures
        r == inserted_rows_ok(rows.series@, rows.matches@, rows.player_results@, rows.team_match_results@, rows.team_results@),
{
    let mids = keys_of(&rows.matches, |m: &Match| -> (k: u128) ensures k == m.match_id { m.match_id }, Ghost(|m: Match| m.match_id));
    let msk = keys_of(&rows.matches, |m: &Match| -> (k: u128) ensures k == m.series_id { m.series_id }, Ghost(|m: Match| m.series_id));
    let sids = keys_of(&rows.series, |s: &Series| -> (k: u128) ensures k == s.series_id { s.series_id }, Ghost(|s: Series| s.series_id));
    let prk = keys_of(&rows.player_results, |p: &PlayerResult| -> (k: u128) ensures k == p.match_id { p.match_id }, Ghost(|p: PlayerResult| p.match_id));
    let tmk = keys_of(&rows.team_match_results, |p: &TeamMatchResult| -> (k: u128) ensures k == p.match_id { p.match_id }, Ghost(|p: TeamMatchResult| p.match_id));
    let trk = keys_of(&rows.team_results, |p: &TeamSeriesResult| -> (k: u128) ensures k == p.series_id { p.series_id }, Ghost(|p: TeamSeriesResult| p.series_id));
    crate::assembly::all_resolve(&prk, &mids) && crate::assembly::all_resolve(&tmk, &mids)
        && crate::assembly::all_resolve(&trk, &sids) && crate::assembly::all_resolve(&msk, &sids)
}

/// Groups stored rows back into series: each series with the team results
/// that name it and the matches that name it, each match with the player and
/// team results that name it.
pub fn group_inserted(rows: InsertRows) -> (r: Vec<SeriesRow>)
    requires
        inserted_rows_ok(rows.series@, rows.matches@, rows.player_results@, rows.team_match_results@, rows.team_results@),
    ensures
        r@.map_values(|s: SeriesRow| series_row_view(s))
            == series_rows_of(rows.series@, rows.matches@, rows.player_results@, rows.team_match_results@, rows.team_results@),
{
    let ghost (s0, m0, p0, t0, r0) = (rows.series@, rows.matches@, rows.player_results@, rows.team_match_results@, rows.team_results@);
    let mids = keys_of(&rows.matches, |m: &Match| -> (k: u128) ensures k == m.match_id { m.match_id }, Ghost(|m: Match| m.match_id));
    let msk = keys_of(&rows.matches, |m: &Match| -> (k: u128) ensures k == m.series_id { m.series_id }, Ghost(|m: Match| m.series_id));
    let sids = keys_of(&rows.series, |s: &Series| -> (k: u128) ensures k == s.series_id { s.series_id }, Ghost(|s: Series| s.series_id));
    let prk = keys_of(&rows.player_results, |p: &PlayerResult| -> (k: u128) ensures k == p.match_id { p.match_id }, Ghost(|p: PlayerResult| p.match_id));
    let tmk = keys_of(&rows.team_match_results, |p: &TeamMatchResult| -> (k: u128) ensures k == p.match_id { p.match_id }, Ghost(|p: TeamMatchResult| p.match_id));
    let trk = keys_of(&rows.team_results, |p: &TeamSeriesResult| -> (k: u128) ensures k == p.series_id { p.series_id }, Ghost(|p: TeamSeriesResult| p.series_id));
    assert(mids@ =~= match_ids(m0));
    assert(msk@ =~= match_series_keys(m0));
    assert(sids@ =~= series_ids(s0));
    assert(prk@ =~= player_result_keys(p0));
    assert(tmk@ =~= team_match_result_keys(t0));
    assert(trk@ =~= team_result_keys(r0));
    let InsertRows { series, matches, player_results, team_match_results, team_results } = rows;
    let gp = grouped_by(player_results, &prk, &mids);
    let gt = grouped_by(team_match_results, &tmk, &mids);
    let gs = grouped_by(team_results, &trk, &sids);
    let ghost (gpv, gtv, gsv) = (gp@, gt@, gs@);
    let z = zip_vecs(zip_vecs(matches, gp), gt);
    let ghost zv = z@;
    let nz = z.len();
    let mut mrows: Vec<MatchRow> = Vec::new();
    let mut i: usize = 0;
    for e in it: z.into_iter()
        invariant
            i == it.index(),
            it.seq() == zv,
            nz == zv.len(),
            mrows@.len() == i,
            forall|k: int| 0 <= k < i ==> (#[trigger] mrows@[k]) == (zv[k].0.0, zv[k].0.1, zv[k].1),
    {
        let ((m, p), t) = e;
        mrows.push((m, p, t));
        i = i + 1;
    }
    let ghost mr = match_rows_of(m0, p0, t0);
    assert(mrows@.map_values(|m: MatchRow| match_row_view(m)) =~= mr);
    assert(msk@ =~= mr.map_values(|m: MatchRowV| m.0.series_id));
    let ghost mrows0 = mrows@;
    let gm = grouped_by(mrows, &msk, &sids);
    let ghost gmv = gm@;
    let z2 = zip_vecs(zip_vecs(series, gs), gm);
    let ghost z2v = z2@;
    let n2 = z2.len();
    let mut out: Vec<SeriesRow> = Vec::new();
    let mut j: usize = 0;
    for e in it: z2.into_iter()
        invariant
            j == it.index(),
            it.seq() == z2v,
            n2 == z2v.len(),
            out@.len() == j,
            forall|k: int| 0 <= k < j ==> (#[trigger] out@[k]) == (z2v[k].0.0, z2v[k].0.1, z2v[k].1),
    {
        let ((s, tr), ms) = e;
        out.push((s, tr, ms));
        j = j + 1;
    }
    proof {
        let target = series_rows_of(s0, m0, p0, t0, r0);
        assert forall|k: int| 0 <= k < out@.len() implies #[trigger] series_row_view(out@[k]) == target[k] by {
            lemma_group_at_map(mrows0, msk@, sids@, k, |m: MatchRow| match_row_view(m));
        }
        assert(out@.map_values(|s: SeriesRow| series_row_view(s)) =~= target);
    }
    out
}


/// The matches of a new series.
pub open spec fn new_series_matches(s: ApiSeriesNew) -> Seq<ApiMatchView> {
    opt_seq(as_api_series(s)@.matches)
}

/// The team results of a new series.
pub open spec fn new_series_team_results(s: ApiSeriesNew) -> Seq<TeamSeriesResult> {
    opt_seq(as_api_series(s)@.team_results)
}

/// A match of series `series_id` as stored: its row with its player and team results.
pub open spec fn stored_match_of(m: ApiMatchView, series_id: u128) -> MatchRowV {
    (match_row_of(m, series_id), opt_seq(m.player_results), opt_seq(m.team_results))
}

/// A new series as stored: its row, its team results, and its matches with
/// their results, in the order given.
pub open spec fn stored_series_of(s: ApiSeriesNew) -> SeriesRowV {
    (
        series_insert(as_api_series(s)@, s.competition_id).series,
        new_series_team_results(s),
        new_series_matches(s).map_values(|m: ApiMatchView| stored_match_of(m, s.series_id)),
    )
}

/// No two new series share an id, no two of their matches share an id, and
/// every result names the series or match it is given under.
pub open spec fn new_series_consistent(new: Seq<ApiSeriesNew>) -> bool {
    &&& new.map_values(|s: ApiSeriesNew| s.series_id).no_duplicates()
    &&& new.map_values(|s: ApiSeriesNew| new_series_matches(s)).flatten().map_values(|m: ApiMatchView| m.match_id).no_duplicates()
    &&& forall|k: int, i: int| 0 <= k < new.len() && 0 <= i < new_series_team_results(new[k]).len() ==>
        (#[trigger] new_series_team_results(new[k])[i]).series_id == new[k].series_id
    &&& forall|k: int, g: int| 0 <= k < new.len() && 0 <= g < new_series_matches(new[k]).len() ==>
        results_name_match(#[trigger] new_series_matches(new[k])[g])
}

/// Every player and team result of a match names that match.
pub open spec fn results_name_match(m: ApiMatchView) -> bool {
    &&& forall|i: int| 0 <= i < opt_seq(m.player_results).len() ==> (#[trigger] opt_seq(m.player_results)[i]).match_id == m.match_id
    &&& forall|i: int| 0 <= i < opt_seq(m.team_results).len() ==> (#[trigger] opt_seq(m.team_results)[i]).match_id == m.match_id
}

/// Storing new series and grouping the stored rows back gives every series
/// as it was given: its row, its team results, and its matches with their
/// results, in order; provided no series id or match id repeats and every
/// result names the series or match it is given under.
pub proof fn lemma_stored_series_group_back(new: Seq<ApiSeriesNew>, r: InsertRows)
    requires
        rows_of(new.map_values(|s: ApiSeriesNew| series_insert(as_api_series(s)@, s.competition_id)), r),
        new_series_consistent(new),
    ensures
        inserted_rows_ok(r.series@, r.matches@, r.player_results@, r.team_match_results@, r.team_results@),
        series_rows_of(r.series@, r.matches@, r.player_results@, r.team_match_results@, r.team_results@)
            == new.map_values(|s: ApiSeriesNew| stored_series_of(s)),
{
    let ins = new.map_values(|s: ApiSeriesNew| series_insert(as_api_series(s)@, s.competition_id));
    let sr = r.series@;
    let ids = series_ids(sr);
    assert(ids =~= new.map_values(|s: ApiSeriesNew| s.series_id));
    // Team results of the series.
    let tb = new.map_values(|s: ApiSeriesNew| new_series_team_results(s));
    let ft = |t: TeamSeriesResult| t.series_id;
    assert(ins.map_values(|x: SeriesInsertView| x.team_results) =~= tb);
    let trs = r.team_results@;
    assert(trs == tb.flatten());
    assert forall|k: int, i: int| 0 <= k < tb.len() && 0 <= i < tb[k].len() implies ft(#[trigger] tb[k][i]) == ids[k] by {
        assert(tb[k] == new_series_team_results(new[k]));
        assert(new_series_team_results(new[k])[i].series_id == new[k].series_id);
    }
    assert(team_result_keys(trs) =~= tb.flatten().map_values(ft));
    // Matches with their results, series by series.
    let mb = new.map_values(|s: ApiSeriesNew| new_series_matches(s).map_values(|m: ApiMatchView| stored_match_of(m, s.series_id)));
    let mball = mb.flatten();
    let fst = |x: MatchRowV| x.0;
    let snd = |x: MatchRowV| x.1;
    let thd = |x: MatchRowV| x.2;
    lemma_flatten_map(mb, fst);
    lemma_flatten_map(mb, snd);
    lemma_flatten_map(mb, thd);
    let im = ins.map_values(|x: SeriesInsertView| x.matches);
    let mbf = mb.map_values(|b: Seq<MatchRowV>| b.map_values(fst));
    assert forall|k: int| 0 <= k < new.len() implies #[trigger] im[k] =~= mbf[k] by {
        let ms = new_series_matches(new[k]);
        assert(ins[k].matches == ms.map_values(|m: ApiMatchView| match_row_of(m, new[k].series_id)));
    }
    assert(im =~= mbf);
    let m_rows = r.matches@;
    assert(m_rows == mball.map_values(fst));
    let pbb = mb.map_values(|b: Seq<MatchRowV>| b.map_values(snd));
    lemma_flatten_flatten(pbb);
    let ip = ins.map_values(|x: SeriesInsertView| x.player_results);
    let pbf = pbb.map_values(|s: Seq<Seq<PlayerResult>>| s.flatten());
    assert forall|k: int| 0 <= k < new.len() implies #[trigger] ip[k] =~= pbf[k] by {
        let ms = new_series_matches(new[k]);
        assert(ms.map_values(|m: ApiMatchView| opt_seq(m.player_results)) =~= pbb[k]);
    }
    assert(ip =~= pbf);
    let prs = r.player_results@;
    assert(prs == mball.map_values(snd).flatten());
    let tbb = mb.map_values(|b: Seq<MatchRowV>| b.map_values(thd));
    lemma_flatten_flatten(tbb);
    let it = ins.map_values(|x: SeriesInsertView| x.team_match_results);
    let tbf = tbb.map_values(|s: Seq<Seq<TeamMatchResult>>| s.flatten());
    assert forall|k: int| 0 <= k < new.len() implies #[trigger] it[k] =~= tbf[k] by {
        let ms = new_series_matches(new[k]);
        assert(ms.map_values(|m: ApiMatchView| opt_seq(m.team_results)) =~= tbb[k]);
    }
    assert(it =~= tbf);
    let tmrs = r.team_match_results@;
    assert(tmrs == mball.map_values(thd).flatten());
    // Match ids do not repeat.
    let mid = |x: MatchRowV| x.0.match_id;
    let mids = match_ids(m_rows);
    assert(mids =~= mball.map_values(mid));
    let allm = new.map_values(|s: ApiSeriesNew| new_series_matches(s));
    let apm = |m: ApiMatchView| m.match_id;
    lemma_flatten_map(mb, mid);
    lemma_flatten_map(allm, apm);
    let mbm = mb.map_values(|b: Seq<MatchRowV>| b.map_values(mid));
    let amm = allm.map_values(|s: Seq<ApiMatchView>| s.map_values(apm));
    assert forall|k: int| 0 <= k < new.len() implies #[trigger] mbm[k] =~= amm[k] by {}
    assert(mbm =~= amm);
    assert(mids.no_duplicates());
    // Each match's results name it.
    let names_own = |x: MatchRowV|
        (forall|i: int| 0 <= i < x.1.len() ==> (#[trigger] x.1[i]).match_id == x.0.match_id)
        && (forall|i: int| 0 <= i < x.2.len() ==> (#[trigger] x.2[i]).match_id == x.0.match_id);
    assert forall|k: int, g: int| 0 <= k < mb.len() && 0 <= g < mb[k].len() implies names_own(#[trigger] mb[k][g]) by {
        let m = new_series_matches(new[k])[g];
        assert(results_name_match(m));
        assert(mb[k][g] == stored_match_of(m, new[k].series_id));
    }
    lemma_flatten_all(mb, names_own);
    let pb = mball.map_values(snd);
    let fp = |p: PlayerResult| p.match_id;
    assert forall|g: int, i: int| 0 <= g < pb.len() && 0 <= i < pb[g].len() implies fp(#[trigger] pb[g][i]) == mids[g] by {
        assert(names_own(mball[g]));
    }
    let tmb = mball.map_values(thd);
    let fm = |p: TeamMatchResult| p.match_id;
    assert forall|g: int, i: int| 0 <= g < tmb.len() && 0 <= i < tmb[g].len() implies fm(#[trigger] tmb[g][i]) == mids[g] by {
        assert(names_own(mball[g]));
    }
    assert(player_result_keys(prs) =~= pb.flatten().map_values(fp));
    assert(team_match_result_keys(tmrs) =~= tmb.flatten().map_values(fm));
    // Matches grouped under their series.
    let mr = match_rows_of(m_rows, prs, tmrs);
    let fs = |x: MatchRowV| x.0.series_id;
    assert forall|k: int, i: int| 0 <= k < mb.len() && 0 <= i < mb[k].len() implies fs(#[trigger] mb[k][i]) == ids[k] by {
        let m = new_series_matches(new[k])[i];
        assert(mb[k][i] == stored_match_of(m, new[k].series_id));
    }
    assert forall|g: int| 0 <= g < mball.len() implies #[trigger] mr[g] == mball[g] by {
        lemma_group_blocks(pb, fp, mids, g);
        lemma_group_blocks(tmb, fm, mids, g);
    }
    assert(mr =~= mball);
    assert(mr.map_values(|m: MatchRowV| m.0.series_id) =~= mball.map_values(fs));
    assert(match_series_keys(m_rows) =~= mball.map_values(fs));
    lemma_group_blocks(pb, fp, mids, 0);
    lemma_group_blocks(tmb, fm, mids, 0);
    lemma_group_blocks(tb, ft, ids, 0);
    lemma_group_blocks(mb, fs, ids, 0);
    let target = new.map_values(|s: ApiSeriesNew| stored_series_of(s));
    let got = series_rows_of(sr, m_rows, prs, tmrs, trs);
    assert forall|i: int| 0 <= i < new.len() implies #[trigger] got[i] == target[i] by {
        lemma_group_blocks(tb, ft, ids, i);
        lemma_group_blocks(mb, fs, ids, i);
    }
    assert(got =~= target);
}


/// The series row of API series `s` held by competition `competition_id`.
pub open spec fn series_row_in(s: ApiSeriesView, competition_id: u128) -> Series {
    Series { series_id: s.series_id, name: s.name, competition_id, meta: s.meta, timespan: s.timespan }
}

/// The match row of API match `m` held by series `series_id`.
pub open spec fn match_row_in(m: ApiMatchView, series_id: u128) -> Match {
    Match { match_id: m.match_id, name: m.name, series_id, meta: m.meta, timespan: m.timespan }
}

/// The series rows stored for competitions are all their series, competition
/// by competition and in order, each naming the competition that holds it;
/// the match rows are all their matches in the same order, each naming the
/// series that holds it.
pub proof fn lemma_competition_rows_name_their_holders(cv: Seq<ApiCompetitionView>, rows: InsertRows)
    requires
        rows_of(competition_inserts(cv), rows),
    ensures
        rows.series@ == cv.map_values(|c: ApiCompetitionView|
            opt_seq(c.series).map_values(|s: ApiSeriesView| series_row_in(s, c.competition_id))).flatten(),
        rows.matches@ == cv.map_values(|c: ApiCompetitionView|
            opt_seq(c.series).map_values(|s: ApiSeriesView|
                opt_seq(s.matches).map_values(|m: ApiMatchView| match_row_in(m, s.series_id))).flatten()).flatten(),
        forall|k: int, j: int| 0 <= k < cv.len() && 0 <= j < opt_seq(cv[k].series).len() ==>
            #[trigger] rows.series@.contains(series_row_in(opt_seq(cv[k].series)[j], cv[k].competition_id)),
{
    let per = cv.map_values(|c: ApiCompetitionView| opt_seq(c.series).map_values(
        |s: ApiSeriesView| series_insert(s, c.competition_id)));
    assert(competition_inserts(cv) == per.flatten());
    let fs = |x: SeriesInsertView| x.series;
    let fm = |x: SeriesInsertView| x.matches;
    lemma_flatten_map(per, fs);
    lemma_flatten_map(per, fm);
    let ps = per.map_values(|b: Seq<SeriesInsertView>| b.map_values(fs));
    let want_s = cv.map_values(|c: ApiCompetitionView|
        opt_seq(c.series).map_values(|s: ApiSeriesView| series_row_in(s, c.competition_id)));
    assert forall|k: int| 0 <= k < cv.len() implies #[trigger] ps[k] =~= want_s[k] by {}
    assert(ps =~= want_s);
    let pm = per.map_values(|b: Seq<SeriesInsertView>| b.map_values(fm));
    lemma_flatten_flatten(pm);
    let pmf = pm.map_values(|x: Seq<Seq<Match>>| x.flatten());
    let want_m = cv.map_values(|c: ApiCompetitionView|
        opt_seq(c.series).map_values(|s: ApiSeriesView|
            opt_seq(s.matches).map_values(|m: ApiMatchView| match_row_in(m, s.series_id))).flatten());
    assert forall|k: int| 0 <= k < cv.len() implies #[trigger] pmf[k] =~= want_m[k] by {
        let a = pm[k];
        let b = opt_seq(cv[k].series).map_values(|s: ApiSeriesView|
            opt_seq(s.matches).map_values(|m: ApiMatchView| match_row_in(m, s.series_id)));
        assert forall|j: int| 0 <= j < a.len() implies #[trigger] a[j] =~= b[j] by {}
        assert(a =~= b);
    }
    assert(pmf =~= want_m);
    assert forall|k: int, j: int| 0 <= k < cv.len() && 0 <= j < opt_seq(cv[k].series).len() implies
        #[trigger] rows.series@.contains(series_row_in(opt_seq(cv[k].series)[j], cv[k].competition_id)) by {
        assert(want_s[k][j] == series_row_in(opt_seq(cv[k].series)[j], cv[k].competition_id));
        lemma_flatten_contains(want_s, k, j);
    }
}

/// The series rows stored for new series are those series, in order, each
/// naming the competition it was given with.
pub proof fn lemma_new_series_rows_name_their_competitions(new: Seq<ApiSeriesNew>, rows: InsertRows)
    requires
        rows_of(new.map_values(|s: ApiSeriesNew| series_insert(as_api_series(s)@, s.competition_id)), rows),
    ensures
        rows.series@.len() == new.len(),
        forall|k: int| 0 <= k < new.len() ==> #[trigger] rows.series@[k] == (Series {
            series_id: new[k].series_id,
            name: new[k].name,
            competition_id: new[k].competition_id,
            meta: new[k].meta,
            timespan: new[k].timespan,
        }),
{
}

} // verus!

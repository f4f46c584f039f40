//! Building the API's competitions from joined rows.
use vstd::prelude::*;
use crate::results::{
    Competition, Series, Match, PlayerResult, TeamMatchResult, TeamSeriesResult, ApiMatch, ApiSeries,
    ApiCompetition, ApiMatchView, ApiSeriesView, ApiCompetitionView, opt_view,
};

verus! {

/// A match with its player and team results.
pub type MatchRow = (Match, Vec<PlayerResult>, Vec<TeamMatchResult>);
pub type MatchRowV = (Match, Seq<PlayerResult>, Seq<TeamMatchResult>);
/// A series with its team results and its matches.
pub type SeriesRow = (Series, Vec<TeamSeriesResult>, Vec<MatchRow>);
pub type SeriesRowV = (Series, Seq<TeamSeriesResult>, Seq<MatchRowV>);
/// A competition with its series, if they were loaded.
pub type CompetitionRow = (Competition, Option<Vec<SeriesRow>>);
pub type CompetitionRowV = (Competition, Option<Seq<SeriesRowV>>);
/// A series with its matches (no series results).
pub type SeriesMatchRow = (Series, Vec<MatchRow>);
pub type SeriesMatchRowV = (Series, Seq<MatchRowV>);
/// A competition with its series and their matches.
pub type CompetitionMatchRow = (Competition, Vec<SeriesMatchRow>);
pub type CompetitionMatchRowV = (Competition, Seq<SeriesMatchRowV>);
/// A match whose results may be missing.
pub type OptyMatchRow = (Match, Option<Vec<PlayerResult>>, Option<Vec<TeamMatchResult>>);
pub type OptyMatchRowV = (Match, Option<Seq<PlayerResult>>, Option<Seq<TeamMatchResult>>);
/// A series whose results and matches may be missing.
pub type OptySeriesRow = (Series, Option<Vec<TeamSeriesResult>>, Option<Vec<OptyMatchRow>>);
pub type OptySeriesRowV = (Series, Option<Seq<TeamSeriesResult>>, Option<Seq<OptyMatchRowV>>);
/// A competition whose series may be missing.
pub type CompetitionOptyRow = (Competition, Option<Vec<OptySeriesRow>>);
pub type CompetitionOptyRowV = (Competition, Option<Seq<OptySeriesRowV>>);

pub open spec fn match_row_view(r: MatchRow) -> MatchRowV {
    (r.0, r.1@, r.2@)
}

pub open spec fn series_row_view(r: SeriesRow) -> SeriesRowV {
    (r.0, r.1@, r.2@.map_values(|m: MatchRow| match_row_view(m)))
}

pub open spec fn competition_row_view(r: CompetitionRow) -> CompetitionRowV {
    (r.0, match r.1 { Some(v) => Some(v@.map_values(|s: SeriesRow| series_row_view(s))), None => None })
}

pub open spec fn series_match_row_view(r: SeriesMatchRow) -> SeriesMatchRowV {
    (r.0, r.1@.map_values(|m: MatchRow| match_row_view(m)))
}

pub open spec fn competition_match_row_view(r: CompetitionMatchRow) -> CompetitionMatchRowV {
    (r.0, r.1@.map_values(|s: SeriesMatchRow| series_match_row_view(s)))
}

pub open spec fn opty_match_row_view(r: OptyMatchRow) -> OptyMatchRowV {
    (r.0, opt_view(r.1), opt_view(r.2))
}

pub open spec fn opty_series_row_view(r: OptySeriesRow) -> OptySeriesRowV {
    (r.0, opt_view(r.1), match r.2 { Some(v) => Some(v@.map_values(|m: OptyMatchRow| opty_match_row_view(m))), None => None })
}

pub open spec fn competition_opty_row_view(r: CompetitionOptyRow) -> CompetitionOptyRowV {
    (r.0, match r.1 { Some(v) => Some(v@.map_values(|s: OptySeriesRow| opty_series_row_view(s))), None => None })
}

/// The API match of a match row, with its results.
pub open spec fn api_match_of(m: Match, pr: Option<Seq<PlayerResult>>, tr: Option<Seq<TeamMatchResult>>) -> ApiMatchView {
    ApiMatchView { match_id: m.match_id, name: m.name, meta: m.meta, timespan: m.timespan, player_results: pr, team_results: tr }
}

/// The API series of a series row, with its matches and results.
pub open spec fn api_series_of(s: Series, tr: Option<Seq<TeamSeriesResult>>, matches: Option<Seq<ApiMatchView>>) -> ApiSeriesView {
    ApiSeriesView { series_id: s.series_id, name: s.name, meta: s.meta, timespan: s.timespan, matches, team_results: tr }
}

/// The API competition of a competition row, with its series.
pub open spec fn api_competition_of(c: Competition, series: Option<Seq<ApiSeriesView>>) -> ApiCompetitionView {
    ApiCompetitionView { competition_id: c.competition_id, name: c.name, meta: c.meta, timespan: c.timespan, series }
}

pub open spec fn matches_of_rows(v: Seq<MatchRowV>) -> Seq<ApiMatchView> {
    v.map_values(|m: MatchRowV| api_match_of(m.0, Some(m.1), Some(m.2)))
}

/// The competitions built from full rows: every loaded series carries its
/// series results and matches, every match its results.
pub open spec fn from_rows_spec(rows: Seq<CompetitionRowV>) -> Seq<ApiCompetitionView> {
    rows.map_values(|c: CompetitionRowV| api_competition_of(c.0, match c.1 {
        Some(v) => Some(v.map_values(|s: SeriesRowV| api_series_of(s.0, Some(s.1), Some(matches_of_rows(s.2))))),
        None => None,
    }))
}

/// The competitions built from match rows: every series carries its matches
/// and no series results.
pub open spec fn from_match_rows_spec(rows: Seq<CompetitionMatchRowV>) -> Seq<ApiCompetitionView> {
    rows.map_values(|c: CompetitionMatchRowV| api_competition_of(c.0, Some(
        c.1.map_values(|s: SeriesMatchRowV| api_series_of(s.0, None, Some(matches_of_rows(s.1)))),
    )))
}

/// The competitions built from rows whose parts may be missing: what is
/// missing in a row is missing in the result.
pub open spec fn from_opty_rows_spec(rows: Seq<CompetitionOptyRowV>) -> Seq<ApiCompetitionView> {
    rows.map_values(|c: CompetitionOptyRowV| api_competition_of(c.0, match c.1 {
        Some(v) => Some(v.map_values(|s: OptySeriesRowV| opty_series_of(s))),
        None => None,
    }))
}

fn api_match(m: Match, pr: Option<Vec<PlayerResult>>, tr: Option<Vec<TeamMatchResult>>) -> (r: ApiMatch)
    ensures
        r@ == api_match_of(m, opt_view(pr), opt_view(tr)),
{
    ApiMatch { match_id: m.match_id, name: m.name, meta: m.meta, timespan: m.timespan, player_results: pr, team_results: tr }
}

fn matches_from_rows(v: Vec<MatchRow>) -> (r: Vec<ApiMatch>)
    ensures
        r@.map_values(|m: ApiMatch| m@) == matches_of_rows(v@.map_values(|m: MatchRow| match_row_view(m))),
{
    let ghost all = v@;
    let ghost target = matches_of_rows(v@.map_values(|m: MatchRow| match_row_view(m)));
    let n = v.len();
    let mut r: Vec<ApiMatch> = Vec::new();
    let mut i: usize = 0;
    for e in it: v.into_iter()
        invariant
            i == it.index(),
            it.seq() == all,
            n == all.len(),
            target == matches_of_rows(all.map_values(|m: MatchRow| match_row_view(m))),
            r@.map_values(|m: ApiMatch| m@) == target.take(i as int),
    {
        let (m, pr, tr) = e;
        let am = api_match(m, Some(pr), Some(tr));
        let ghost pre = r@;
        r.push(am);
        proof {
            assert(r@.map_values(|m: ApiMatch| m@) =~= pre.map_values(|m: ApiMatch| m@).push(am@));
            assert(target.take(i + 1) =~= target.take(i as int).push(target[i as int]));
        }
        i = i + 1;
    }
    proof {
        assert(target.take(n as int) =~= target);
    }
    r
}

fn series_from_rows(v: Vec<SeriesRow>) -> (r: Vec<ApiSeries>)
    ensures
        r@.map_values(|s: ApiSeries| s@) == v@.map_values(|s: SeriesRow| series_row_view(s)).map_values(
            |s: SeriesRowV| api_series_of(s.0, Some(s.1), Some(matches_of_rows(s.2)))),
{
    let ghost all = v@;
    let ghost target = v@.map_values(|s: SeriesRow| series_row_view(s)).map_values(
        |s: SeriesRowV| api_series_of(s.0, Some(s.1), Some(matches_of_rows(s.2))));
    let n = v.len();
    let mut r: Vec<ApiSeries> = Vec::new();
    let mut i: usize = 0;
    for e in it: v.into_iter()
        invariant
            i == it.index(),
            it.seq() == all,
            n == all.len(),
            target == all.map_values(|s: SeriesRow| series_row_view(s)).map_values(
                |s: SeriesRowV| api_series_of(s.0, Some(s.1), Some(matches_of_rows(s.2)))),
            r@.map_values(|s: ApiSeries| s@) == target.take(i as int),
    {
        let (s, tr, ms) = e;
        let matches = matches_from_rows(ms);
        let api = ApiSeries {
            series_id: s.series_id,
            name: s.name,
            meta: s.meta,
            timespan: s.timespan,
            matches: Some(matches),
            team_results: Some(tr),
        };
        let ghost pre = r@;
        r.push(api);
        proof {
            assert(r@.map_values(|s: ApiSeries| s@) =~= pre.map_values(|s: ApiSeries| s@).push(api@));
            assert(target.take(i + 1) =~= target.take(i as int).push(target[i as int]));
        }
        i = i + 1;
    }
    proof {
        assert(target.take(n as int) =~= target);
    }
    r
}

fn series_from_match_rows(v: Vec<SeriesMatchRow>) -> (r: Vec<ApiSeries>)
    ensures
        r@.map_values(|s: ApiSeries| s@) == v@.map_values(|s: SeriesMatchRow| series_match_row_view(s)).map_values(
            |s: SeriesMatchRowV| api_series_of(s.0, None, Some(matches_of_rows(s.1)))),
{
    let ghost all = v@;
    let ghost target = v@.map_values(|s: SeriesMatchRow| series_match_row_view(s)).map_values(
        |s: SeriesMatchRowV| api_series_of(s.0, None, Some(matches_of_rows(s.1))));
    let n = v.len();
    let mut r: Vec<ApiSeries> = Vec::new();
    let mut i: usize = 0;
    for e in it: v.into_iter()
        invariant
            i == it.index(),
            it.seq() == all,
            n == all.len(),
            target == all.map_values(|s: SeriesMatchRow| series_match_row_view(s)).map_values(
                |s: SeriesMatchRowV| api_series_of(s.0, None, Some(matches_of_rows(s.1)))),
            r@.map_values(|s: ApiSeries| s@) == target.take(i as int),
    {
        let (s, ms) = e;
        let matches = matches_from_rows(ms);
        let api = ApiSeries {
            series_id: s.series_id,
            name: s.name,
            meta: s.meta,
            timespan: s.timespan,
            matches: Some(matches),
            team_results: None,
        };
        let ghost pre = r@;
        r.push(api);
        proof {
            assert(r@.map_values(|s: ApiSeries| s@) =~= pre.map_values(|s: ApiSeries| s@).push(api@));
            assert(target.take(i + 1) =~= target.take(i as int).push(target[i as int]));
        }
        i = i + 1;
    }
    proof {
        assert(target.take(n as int) =~= target);
    }
    r
}

fn opty_matches(v: Vec<OptyMatchRow>) -> (r: Vec<ApiMatch>)
    ensures
        r@.map_values(|m: ApiMatch| m@) == v@.map_values(|m: OptyMatchRow| opty_match_row_view(m)).map_values(
            |m: OptyMatchRowV| api_match_of(m.0, m.1, m.2)),
{
    let ghost all = v@;
    let ghost target = v@.map_values(|m: OptyMatchRow| opty_match_row_view(m)).map_values(
        |m: OptyMatchRowV| api_match_of(m.0, m.1, m.2));
    let n = v.len();
    let mut r: Vec<ApiMatch> = Vec::new();
    let mut i: usize = 0;
    for e in it: v.into_iter()
        invariant
            i == it.index(),
            it.seq() == all,
            n == all.len(),
            target == all.map_values(|m: OptyMatchRow| opty_match_row_view(m)).map_values(
                |m: OptyMatchRowV| api_match_of(m.0, m.1, m.2)),
            r@.map_values(|m: ApiMatch| m@) == target.take(i as int),
    {
        let (m, pr, tr) = e;
        let am = api_match(m, pr, tr);
        let ghost pre = r@;
        r.push(am);
        proof {
            assert(r@.map_values(|m: ApiMatch| m@) =~= pre.map_values(|m: ApiMatch| m@).push(am@));
            assert(target.take(i + 1) =~= target.take(i as int).push(target[i as int]));
        }
        i = i + 1;
    }
    proof {
        assert(target.take(n as int) =~= target);
    }
    r
}

pub open spec fn opty_series_of(s: OptySeriesRowV) -> ApiSeriesView {
    api_series_of(s.0, s.1, match s.2 {
        Some(ms) => Some(ms.map_values(|m: OptyMatchRowV| api_match_of(m.0, m.1, m.2))),
        None => None,
    })
}

fn opty_series(v: Vec<OptySeriesRow>) -> (r: Vec<ApiSeries>)
    ensures
        r@.map_values(|s: ApiSeries| s@) == v@.map_values(|s: OptySeriesRow| opty_series_row_view(s)).map_values(
            |s: OptySeriesRowV| opty_series_of(s)),
{
    let ghost all = v@;
    let ghost target = v@.map_values(|s: OptySeriesRow| opty_series_row_view(s)).map_values(
        |s: OptySeriesRowV| opty_series_of(s));
    let n = v.len();
    let mut r: Vec<ApiSeries> = Vec::new();
    let mut i: usize = 0;
    for e in it: v.into_iter()
        invariant
            i == it.index(),
            it.seq() == all,
            n == all.len(),
            target == all.map_values(|s: OptySeriesRow| opty_series_row_view(s)).map_values(
                |s: OptySeriesRowV| opty_series_of(s)),
            r@.map_values(|s: ApiSeries| s@) == target.take(i as int),
    {
        let (s, tr, ms) = e;
        let matches = match ms {
            Some(ms) => Some(opty_matches(ms)),
            None => None,
        };
        let api = ApiSeries {
            series_id: s.series_id,
            name: s.name,
            meta: s.meta,
            timespan: s.timespan,
            matches,
            team_results: tr,
        };
        let ghost pre = r@;
        r.push(api);
        proof {
            assert(api@ == target[i as int]);
            assert(r@.map_values(|s: ApiSeries| s@) =~= pre.map_values(|s: ApiSeries| s@).push(api@));
            assert(target.take(i + 1) =~= target.take(i as int).push(target[i as int]));
        }
        i = i + 1;
    }
    proof {
        assert(target.take(n as int) =~= target);
    }
    r
}

impl ApiCompetition {
    /// Builds competitions from competition rows with their loaded series,
    /// series results, matches and match results.
    pub fn from_rows(rows: Vec<CompetitionRow>) -> (r: Vec<ApiCompetition>)
        ensures
            r@.map_values(|c: ApiCompetition| c@) == from_rows_spec(rows@.map_values(|c: CompetitionRow| competition_row_view(c))),
    {
        let ghost all = rows@;
        let ghost target = from_rows_spec(rows@.map_values(|c: CompetitionRow| competition_row_view(c)));
        let n = rows.len();
        let mut r: Vec<ApiCompetition> = Vec::new();
        let mut i: usize = 0;
        for e in it: rows.into_iter()
            invariant
                i == it.index(),
                it.seq() == all,
                n == all.len(),
                target == from_rows_spec(all.map_values(|c: CompetitionRow| competition_row_view(c))),
                r@.map_values(|c: ApiCompetition| c@) == target.take(i as int),
        {
            let (c, v_opt) = e;
            let series = match v_opt {
                Some(v) => Some(series_from_rows(v)),
                None => None,
            };
            let api = ApiCompetition { competition_id: c.competition_id, name: c.name, meta: c.meta, timespan: c.timespan, series };
            let ghost pre = r@;
            r.push(api);
            proof {
                assert(api@ == target[i as int]);
                assert(r@.map_values(|c: ApiCompetition| c@) =~= pre.map_values(|c: ApiCompetition| c@).push(api@));
                assert(target.take(i + 1) =~= target.take(i as int).push(target[i as int]));
            }
            i = i + 1;
        }
        proof {
            assert(target.take(n as int) =~= target);
        }
        r
    }

    /// Builds competitions from competition rows with their series and the
    /// series' matches and match results; no series results are reported.
    pub fn from_match_rows(rows: Vec<CompetitionMatchRow>) -> (r: Vec<ApiCompetition>)
        ensures
            r@.map_values(|c: ApiCompetition| c@) == from_match_rows_spec(rows@.map_values(|c: CompetitionMatchRow| competition_match_row_view(c))),
    {
        let ghost all = rows@;
        let ghost target = from_match_rows_spec(rows@.map_values(|c: CompetitionMatchRow| competition_match_row_view(c)));
        let n = rows.len();
        let mut r: Vec<ApiCompetition> = Vec::new();
        let mut i: usize = 0;
        for e in it: rows.into_iter()
            invariant
                i == it.index(),
                it.seq() == all,
                n == all.len(),
                target == from_match_rows_spec(all.map_values(|c: CompetitionMatchRow| competition_match_row_view(c))),
                r@.map_values(|c: ApiCompetition| c@) == target.take(i as int),
        {
            let (c, v) = e;
            let series = series_from_match_rows(v);
            let api = ApiCompetition { competition_id: c.competition_id, name: c.name, meta: c.meta, timespan: c.timespan, series: Some(series) };
            let ghost pre = r@;
            r.push(api);
            proof {
                assert(api@ == target[i as int]);
                assert(r@.map_values(|c: ApiCompetition| c@) =~= pre.map_values(|c: ApiCompetition| c@).push(api@));
                assert(target.take(i + 1) =~= target.take(i as int).push(target[i as int]));
            }
            i = i + 1;
        }
        proof {
            assert(target.take(n as int) =~= target);
        }
        r
    }

    /// Builds competitions from rows whose series, results and matches may be
    /// missing; what is missing in a row is missing in the result.
    pub fn from_opty_rows(rows: Vec<CompetitionOptyRow>) -> (r: Vec<ApiCompetition>)
        ensures
            r@.map_values(|c: ApiCompetition| c@) == from_opty_rows_spec(rows@.map_values(|c: CompetitionOptyRow| competition_opty_row_view(c))),
    {
        let ghost all = rows@;
        let ghost target = from_opty_rows_spec(rows@.map_values(|c: CompetitionOptyRow| competition_opty_row_view(c)));
        let n = rows.len();
        let mut r: Vec<ApiCompetition> = Vec::new();
        let mut i: usize = 0;
        for e in it: rows.into_iter()
            invariant
                i == it.index(),
                it.seq() == all,
                n == all.len(),
                target == from_opty_rows_spec(all.map_values(|c: CompetitionOptyRow| competition_opty_row_view(c))),
                r@.map_values(|c: ApiCompetition| c@) == target.take(i as int),
        {
            let (c, v_opt) = e;
            let series = match v_opt {
                Some(v) => Some(opty_series(v)),
                None => None,
            };
            let api = ApiCompetition { competition_id: c.competition_id, name: c.name, meta: c.meta, timespan: c.timespan, series };
            let ghost pre = r@;
            r.push(api);
            proof {
                assert(api@ == target[i as int]);
                assert(r@.map_values(|c: ApiCompetition| c@) =~= pre.map_values(|c: ApiCompetition| c@).push(api@));
                assert(target.take(i + 1) =~= target.take(i as int).push(target[i as int]));
            }
            i = i + 1;
        }
        proof {
            assert(target.take(n as int) =~= target);
        }
        r
    }
}


/// The API match reported for match row `r`, with its player and team results.
pub open spec fn reported_match(r: MatchRowV) -> ApiMatchView {
    ApiMatchView {
        match_id: r.0.match_id,
        name: r.0.name,
        meta: r.0.meta,
        timespan: r.0.timespan,
        player_results: Some(r.1),
        team_results: Some(r.2),
    }
}

/// Every match row of every loaded series becomes a match of that series,
/// in order and with its results, none dropped and none added; the same
/// holds of competitions built from match rows.
pub proof fn lemma_every_match_row_is_reported(
    rows: Seq<CompetitionRowV>,
    match_rows: Seq<CompetitionMatchRowV>,
    i: int,
    j: int,
)
    ensures
        0 <= i < rows.len() && rows[i].1 is Some && 0 <= j < rows[i].1->0.len() ==> {
            let mr = rows[i].1->0[j].2;
            let out = from_rows_spec(rows)[i];
            &&& out.series is Some
            &&& out.series->0[j].matches is Some
            &&& out.series->0[j].matches->0.len() == mr.len()
            &&& forall|k: int| 0 <= k < mr.len() ==> #[trigger] out.series->0[j].matches->0[k] == reported_match(mr[k])
        },
        0 <= i < match_rows.len() && 0 <= j < match_rows[i].1.len() ==> {
            let mr = match_rows[i].1[j].1;
            let out = from_match_rows_spec(match_rows)[i];
            &&& out.series is Some
            &&& out.series->0[j].matches is Some
            &&& out.series->0[j].matches->0.len() == mr.len()
            &&& forall|k: int| 0 <= k < mr.len() ==> #[trigger] out.series->0[j].matches->0[k] == reported_match(mr[k])
        },
{
}


/// Competitions are built one per row, in order, each with its row's id,
/// name, metadata and span. From full rows, a competition has series exactly
/// when its row has them, one per series row in order, each with its series
/// results; from match rows, every competition has its series, each without
/// series results; from rows whose parts may be missing, each series keeps
/// its results and matches, or their absence, and each match its results.
pub proof fn lemma_competitions_follow_their_rows(
    rows: Seq<CompetitionRowV>,
    match_rows: Seq<CompetitionMatchRowV>,
    opty_rows: Seq<CompetitionOptyRowV>,
    i: int,
    j: int,
)
    ensures
        from_rows_spec(rows).len() == rows.len(),
        from_match_rows_spec(match_rows).len() == match_rows.len(),
        from_opty_rows_spec(opty_rows).len() == opty_rows.len(),
        0 <= i < rows.len() ==> {
            let out = from_rows_spec(rows)[i];
            &&& out.competition_id == rows[i].0.competition_id
            &&& out.name == rows[i].0.name
            &&& out.meta == rows[i].0.meta
            &&& out.timespan == rows[i].0.timespan
            &&& (out.series is Some <==> rows[i].1 is Some)
            &&& rows[i].1 is Some ==> out.series->0.len() == rows[i].1->0.len()
            &&& rows[i].1 is Some && 0 <= j < rows[i].1->0.len() ==> {
                let sr = rows[i].1->0[j];
                &&& out.series->0[j].series_id == sr.0.series_id
                &&& out.series->0[j].name == sr.0.name
                &&& out.series->0[j].meta == sr.0.meta
                &&& out.series->0[j].timespan == sr.0.timespan
                &&& out.series->0[j].team_results == Some(sr.1)
            }
        },
        0 <= i < match_rows.len() ==> {
            let out = from_match_rows_spec(match_rows)[i];
            &&& out.competition_id == match_rows[i].0.competition_id
            &&& out.series is Some
            &&& out.series->0.len() == match_rows[i].1.len()
            &&& 0 <= j < match_rows[i].1.len() ==> {
                &&& out.series->0[j].series_id == match_rows[i].1[j].0.series_id
                &&& out.series->0[j].team_results is None
            }
        },
        0 <= i < opty_rows.len() ==> {
            let out = from_opty_rows_spec(opty_rows)[i];
            &&& out.competition_id == opty_rows[i].0.competition_id
            &&& (out.series is Some <==> opty_rows[i].1 is Some)
            &&& opty_rows[i].1 is Some ==> out.series->0.len() == opty_rows[i].1->0.len()
            &&& opty_rows[i].1 is Some && 0 <= j < opty_rows[i].1->0.len() ==> {
                let sr = opty_rows[i].1->0[j];
                let ss = out.series->0[j];
                &&& ss.series_id == sr.0.series_id
                &&& ss.name == sr.0.name
                &&& ss.team_results == sr.1
                &&& (ss.matches is Some <==> sr.2 is Some)
                &&& sr.2 is Some ==> ss.matches->0.len() == sr.2->0.len()
                    && forall|k: int| 0 <= k < sr.2->0.len() ==> #[trigger] ss.matches->0[k] == (ApiMatchView {
                        match_id: sr.2->0[k].0.match_id,
                        name: sr.2->0[k].0.name,
                        meta: sr.2->0[k].0.meta,
                        timespan: sr.2->0[k].0.timespan,
                        player_results: sr.2->0[k].1,
                        team_results: sr.2->0[k].2,
                    })
            }
        },
{
}

} // verus!

//! Competitions, series and matches with their results, as stored rows and
//! as the API reports them.
use vstd::prelude::*;
use crate::timespan::Timespan;

verus! {

/// A competition row.
#[derive(Clone, Debug, PartialEq, Eq)]
pub struct Competition {
    pub competition_id: u128,
    pub name: String,
    pub meta: String,
    pub timespan: Timespan,
}

/// Changes to a competition.
#[derive(Clone, Debug, PartialEq, Eq)]
pub struct CompetitionUpdate {
    pub competition_id: u128,
    pub name: Option<String>,
    pub meta: Option<String>,
    pub timespan: Option<Timespan>,
}

/// A series row, belonging to a competition.
#[derive(Clone, Debug, PartialEq, Eq)]
pub struct Series {
    pub series_id: u128,
    pub name: String,
    pub competition_id: u128,
    pub meta: String,
    pub timespan: Timespan,
}

/// Changes to a series.
#[derive(Clone, Debug, PartialEq, Eq)]
pub struct SeriesUpdate {
    pub series_id: u128,
    pub competition_id: Option<u128>,
    pub name: Option<String>,
    pub meta: Option<String>,
    pub timespan: Option<Timespan>,
}

/// A match row, belonging to a series.
#[derive(Clone, Debug, PartialEq, Eq)]
pub struct Match {
    pub match_id: u128,
    pub name: String,
    pub series_id: u128,
    pub meta: String,
    pub timespan: Timespan,
}

/// A player's result in a match.
#[derive(Clone, Debug, PartialEq, Eq)]
pub struct PlayerResult {
    pub player_id: u128,
    pub match_id: u128,
    pub meta: String,
}

/// A team's result in a match.
#[derive(Clone, Debug, PartialEq, Eq)]
pub struct TeamMatchResult {
    pub team_id: u128,
    pub match_id: u128,
    pub meta: String,
}

/// A team's result in a series.
#[derive(Clone, Debug, PartialEq, Eq)]
pub struct TeamSeriesResult {
    pub team_id: u128,
    pub series_id: u128,
    pub meta: String,
}

/// A match as the API reports it.
#[derive(Clone, Debug, PartialEq, Eq)]
pub struct ApiMatch {
    pub match_id: u128,
    pub name: String,
    pub meta: String,
    pub timespan: Timespan,
    pub player_results: Option<Vec<PlayerResult>>,
    pub team_results: Option<Vec<TeamMatchResult>>,
}

/// A series as the API reports it.
#[derive(Clone, Debug, PartialEq, Eq)]
pub struct ApiSeries {
    pub series_id: u128,
    pub name: String,
    pub meta: String,
    pub timespan: Timespan,
    pub matches: Option<Vec<ApiMatch>>,
    pub team_results: Option<Vec<TeamSeriesResult>>,
}

/// A new series with the competition it belongs to.
#[derive(Clone, Debug, PartialEq, Eq)]
pub struct ApiSeriesNew {
    pub series_id: u128,
    pub competition_id: u128,
    pub name: String,
    pub meta: String,
    pub timespan: Timespan,
    pub matches: Option<Vec<ApiMatch>>,
    pub team_results: Option<Vec<TeamSeriesResult>>,
}

/// A competition as the API reports it.
#[derive(Clone, Debug, PartialEq, Eq)]
pub struct ApiCompetition {
    pub competition_id: u128,
    pub name: String,
    pub meta: String,
    pub timespan: Timespan,
    pub series: Option<Vec<ApiSeries>>,
}

pub struct ApiMatchView {
    pub match_id: u128,
    pub name: String,
    pub meta: String,
    pub timespan: Timespan,
    pub player_results: Option<Seq<PlayerResult>>,
    pub team_results: Option<Seq<TeamMatchResult>>,
}

pub struct ApiSeriesView {
    pub series_id: u128,
    pub name: String,
    pub meta: String,
    pub timespan: Timespan,
    pub matches: Option<Seq<ApiMatchView>>,
    pub team_results: Option<Seq<TeamSeriesResult>>,
}

pub struct ApiCompetitionView {
    pub competition_id: u128,
    pub name: String,
    pub meta: String,
    pub timespan: Timespan,
    pub series: Option<Seq<ApiSeriesView>>,
}

pub open spec fn opt_view<T>(o: Option<Vec<T>>) -> Option<Seq<T>> {
    match o {
        Some(v) => Some(v@),
        None => None,
    }
}

impl View for ApiMatch {
    type V = ApiMatchView;

    open spec fn view(&self) -> ApiMatchView {
        ApiMatchView {
            match_id: self.match_id,
            name: self.name,
            meta: self.meta,
            timespan: self.timespan,
            player_results: opt_view(self.player_results),
            team_results: opt_view(self.team_results),
        }
    }
}

impl View for ApiSeries {
    type V = ApiSeriesView;

    open spec fn view(&self) -> ApiSeriesView {
        ApiSeriesView {
            series_id: self.series_id,
            name: self.name,
            meta: self.meta,
            timespan: self.timespan,
            matches: match self.matches {
                Some(v) => Some(v@.map_values(|m: ApiMatch| m@)),
                None => None,
            },
            team_results: opt_view(self.team_results),
        }
    }
}

impl View for ApiCompetition {
    type V = ApiCompetitionView;

    open spec fn view(&self) -> ApiCompetitionView {
        ApiCompetitionView {
            competition_id: self.competition_id,
            name: self.name,
            meta: self.meta,
            timespan: self.timespan,
            series: match self.series {
                Some(v) => Some(v@.map_values(|s: ApiSeries| s@)),
                None => None,
            },
        }
    }
}

/// The identity of a competition, whichever form it has.
pub trait IsCompetition {
    spec fn spec_competition_id(&self) -> u128;

    fn competition_id(&self) -> (id: u128)
        ensures
            id == self.spec_competition_id(),
    ;
}

impl IsCompetition for Competition {
    open spec fn spec_competition_id(&self) -> u128 {
        self.competition_id
    }

    fn competition_id(&self) -> (id: u128) {
        self.competition_id
    }
}

impl IsCompetition for ApiCompetition {
    open spec fn spec_competition_id(&self) -> u128 {
        self.competition_id
    }

    fn competition_id(&self) -> (id: u128) {
        self.competition_id
    }
}

} // verus!

use vstd::prelude::*;
use crate::timespan::Timespan;

verus! {

/// A fantasy team of a league, owned by an external user.
#[derive(Clone, Debug, PartialEq, Eq)]
pub struct FantasyTeam {
    pub fantasy_team_id: u128,
    pub name: String,
    pub league_id: u128,
    pub external_user_id: u128,
    pub meta: String,
}

/// A draft held for one period of a league.
#[derive(Clone, Debug, PartialEq, Eq)]
pub struct Draft {
    pub draft_id: u128,
    pub period_id: u128,
    pub meta: String,
}

/// The place of one fantasy team in one draft.
#[derive(Clone, Copy, Debug, PartialEq, Eq, Structural)]
pub struct TeamDraft {
    pub team_draft_id: u128,
    pub draft_id: u128,
    pub fantasy_team_id: u128,
}

/// A slot in a draft in which one team draft picks one player.
#[derive(Clone, Copy, Debug, PartialEq, Eq, Structural)]
pub struct DraftChoice {
    pub draft_choice_id: u128,
    pub team_draft_id: u128,
    pub timespan: Timespan,
}

/// A player picked by a fantasy team in a draft choice.
#[derive(Clone, Copy, Debug, PartialEq, Eq, Structural)]
pub struct Pick {
    pub pick_id: u128,
    pub fantasy_team_id: u128,
    pub draft_choice_id: u128,
    pub player_id: u128,
    pub timespan: Timespan,
    pub active: bool,
}

/// A span of time in which a pick is in its team's active line-up.
#[derive(Clone, Copy, Debug, PartialEq, Eq, Structural)]
pub struct ActivePick {
    pub active_pick_id: u128,
    pub pick_id: u128,
    pub timespan: Timespan,
}

/// An active pick as the API reports it.
#[derive(Clone, Copy, Debug, PartialEq, Eq, Structural)]
pub struct ApiPick {
    pub pick_id: u128,
    pub player_id: u128,
    pub timespan: Timespan,
    pub draft_id: Option<u128>,
    pub fantasy_team_id: Option<u128>,
}

/// A draft choice as the API reports it, with its pick once made.
#[derive(Clone, Copy, Debug, PartialEq, Eq, Structural)]
pub struct ApiDraftChoice2 {
    pub draft_choice_id: u128,
    pub timespan: Timespan,
    pub pick: Option<Pick>,
}

/// A team draft as the API reports it.
#[derive(Clone, Debug, PartialEq, Eq)]
pub struct ApiTeamDraft {
    pub team_draft_id: u128,
    pub fantasy_team_id: u128,
    pub name: String,
    pub external_user_id: u128,
    pub meta: String,
    pub draft_choices: Option<Vec<ApiDraftChoice2>>,
    pub active_picks: Option<Vec<ApiPick>>,
}

/// A draft as the API reports it.
#[derive(Clone, Debug, PartialEq, Eq)]
pub struct ApiDraft {
    pub league_id: u128,
    pub draft_id: u128,
    pub period_id: u128,
    pub meta: String,
    pub team_drafts: Option<Vec<ApiTeamDraft>>,
}

pub struct ApiTeamDraftView {
    pub team_draft_id: u128,
    pub fantasy_team_id: u128,
    pub name: String,
    pub external_user_id: u128,
    pub meta: String,
    pub draft_choices: Option<Seq<ApiDraftChoice2>>,
    pub active_picks: Option<Seq<ApiPick>>,
}

pub struct ApiDraftView {
    pub league_id: u128,
    pub draft_id: u128,
    pub period_id: u128,
    pub meta: String,
    pub team_drafts: Option<Seq<ApiTeamDraftView>>,
}

impl View for ApiTeamDraft {
    type V = ApiTeamDraftView;

    open spec fn view(&self) -> ApiTeamDraftView {
        ApiTeamDraftView {
            team_draft_id: self.team_draft_id,
            fantasy_team_id: self.fantasy_team_id,
            name: self.name,
            external_user_id: self.external_user_id,
            meta: self.meta,
            draft_choices: match self.draft_choices {
                Some(v) => Some(v@),
                None => None,
            },
            active_picks: match self.active_picks {
                Some(v) => Some(v@),
                None => None,
            },
        }
    }
}

impl View for ApiDraft {
    type V = ApiDraftView;

    open spec fn view(&self) -> ApiDraftView {
        ApiDraftView {
            league_id: self.league_id,
            draft_id: self.draft_id,
            period_id: self.period_id,
            meta: self.meta,
            team_drafts: match self.team_drafts {
                Some(v) => Some(v@.map_values(|t: ApiTeamDraft| t@)),
                None => None,
            },
        }
    }
}

} // verus!

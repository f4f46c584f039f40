use fantasy_esports::{
    check_drafts_for_picks_rows, check_full_drafts_rows, drafts_for_picks_from_rows, full_drafts_from_rows,
    grouped_by, ActivePick, ApiDraftChoice2, ApiPick, Draft, DraftChoice, FantasyTeam, Pick, TeamDraft, Timespan,
};

fn ts(a: i64, b: i64) -> Timespan {
    Timespan::new(a, b)
}

fn team(id: u128, league: u128, name: &str) -> FantasyTeam {
    FantasyTeam { fantasy_team_id: id, name: name.to_string(), league_id: league, external_user_id: id + 1000, meta: "{}".to_string() }
}

struct Rows {
    drafts: Vec<Draft>,
    tds: Vec<TeamDraft>,
    fts: Vec<FantasyTeam>,
    dcs: Vec<DraftChoice>,
    picks: Vec<Pick>,
    aps: Vec<ActivePick>,
}

fn rows() -> Rows {
    Rows {
        drafts: vec![Draft { draft_id: 1, period_id: 50, meta: "{\"a\":1}".to_string() }],
        tds: vec![
            TeamDraft { team_draft_id: 11, draft_id: 1, fantasy_team_id: 21 },
            TeamDraft { team_draft_id: 12, draft_id: 1, fantasy_team_id: 22 },
        ],
        fts: vec![team(21, 7, "first"), team(22, 8, "second")],
        dcs: vec![
            DraftChoice { draft_choice_id: 31, team_draft_id: 11, timespan: ts(0, 10) },
            DraftChoice { draft_choice_id: 32, team_draft_id: 12, timespan: ts(10, 20) },
            DraftChoice { draft_choice_id: 33, team_draft_id: 11, timespan: ts(20, 30) },
        ],
        picks: vec![
            Pick { pick_id: 41, fantasy_team_id: 21, draft_choice_id: 31, player_id: 100, timespan: ts(0, 99), active: false },
            Pick { pick_id: 42, fantasy_team_id: 22, draft_choice_id: 32, player_id: 200, timespan: ts(0, 99), active: true },
        ],
        aps: vec![
            ActivePick { active_pick_id: 51, pick_id: 41, timespan: ts(1, 2) },
            ActivePick { active_pick_id: 52, pick_id: 42, timespan: ts(3, 4) },
            ActivePick { active_pick_id: 53, pick_id: 41, timespan: ts(5, 6) },
        ],
    }
}

fn api_pick(pick_id: u128, player_id: u128, t: Timespan) -> ApiPick {
    ApiPick { pick_id, player_id, timespan: t, draft_id: None, fantasy_team_id: None }
}

#[test]
fn full_drafts_nest_every_row() {
    let r = rows();
    assert!(check_full_drafts_rows(&r.drafts, &r.tds, &r.fts, &r.dcs, &r.picks, &r.aps));
    let out = full_drafts_from_rows(r.drafts, r.tds, &r.fts, r.dcs, r.picks.clone(), r.aps);
    assert_eq!(out.len(), 1);
    let d = &out[0];
    // the league is that of the last team draft's fantasy team
    assert_eq!(d.league_id, 8);
    assert_eq!(d.draft_id, 1);
    assert_eq!(d.period_id, 50);
    assert_eq!(d.meta, "{\"a\":1}");
    let tds = d.team_drafts.as_ref().unwrap();
    assert_eq!(tds.len(), 2);
    assert_eq!(tds[0].team_draft_id, 11);
    assert_eq!(tds[0].name, "first");
    assert_eq!(tds[0].external_user_id, 1021);
    assert_eq!(
        tds[0].draft_choices.as_ref().unwrap(),
        &vec![
            ApiDraftChoice2 { draft_choice_id: 31, timespan: ts(0, 10), pick: Some(r.picks[0]) },
            ApiDraftChoice2 { draft_choice_id: 33, timespan: ts(20, 30), pick: None },
        ]
    );
    assert_eq!(
        tds[0].active_picks.as_ref().unwrap(),
        &vec![api_pick(41, 100, ts(1, 2)), api_pick(41, 100, ts(5, 6))]
    );
    assert_eq!(tds[1].fantasy_team_id, 22);
    assert_eq!(
        tds[1].draft_choices.as_ref().unwrap(),
        &vec![ApiDraftChoice2 { draft_choice_id: 32, timespan: ts(10, 20), pick: Some(r.picks[1]) }]
    );
    assert_eq!(tds[1].active_picks.as_ref().unwrap(), &vec![api_pick(42, 200, ts(3, 4))]);
}

#[test]
fn full_drafts_report_every_team_draft() {
    let mut r = rows();
    r.drafts.push(Draft { draft_id: 2, period_id: 51, meta: "{}".to_string() });
    r.tds.push(TeamDraft { team_draft_id: 13, draft_id: 2, fantasy_team_id: 21 });
    let n = r.tds.len();
    assert!(check_full_drafts_rows(&r.drafts, &r.tds, &r.fts, &r.dcs, &r.picks, &r.aps));
    let out = full_drafts_from_rows(r.drafts, r.tds, &r.fts, r.dcs, r.picks, r.aps);
    let total: usize = out.iter().map(|d| d.team_drafts.as_ref().unwrap().len()).sum();
    assert_eq!(total, n);
    assert_eq!(out[1].league_id, 7);
    let second = &out[1].team_drafts.as_ref().unwrap()[0];
    assert_eq!(second.draft_choices.as_ref().unwrap().len(), 0);
    assert_eq!(second.active_picks.as_ref().unwrap().len(), 0);
}

#[test]
fn only_the_first_pick_of_a_choice_is_reported() {
    let mut r = rows();
    r.picks.push(Pick { pick_id: 43, fantasy_team_id: 21, draft_choice_id: 31, player_id: 300, timespan: ts(0, 9), active: false });
    r.aps.push(ActivePick { active_pick_id: 54, pick_id: 43, timespan: ts(7, 8) });
    let out = full_drafts_from_rows(r.drafts, r.tds, &r.fts, r.dcs, r.picks.clone(), r.aps);
    let td = &out[0].team_drafts.as_ref().unwrap()[0];
    assert_eq!(td.draft_choices.as_ref().unwrap()[0].pick, Some(r.picks[0]));
    assert_eq!(td.active_picks.as_ref().unwrap().len(), 2);
}

#[test]
fn rows_with_dangling_keys_are_refused() {
    let r = rows();
    let fts_missing = vec![team(21, 7, "first")];
    assert!(!check_full_drafts_rows(&r.drafts, &r.tds, &fts_missing, &r.dcs, &r.picks, &r.aps));
    let mut aps = r.aps.clone();
    aps.push(ActivePick { active_pick_id: 59, pick_id: 999, timespan: ts(0, 1) });
    assert!(!check_full_drafts_rows(&r.drafts, &r.tds, &r.fts, &r.dcs, &r.picks, &aps));
    let mut drafts = r.drafts.clone();
    drafts.push(Draft { draft_id: 3, period_id: 52, meta: "{}".to_string() });
    assert!(!check_full_drafts_rows(&drafts, &r.tds, &r.fts, &r.dcs, &r.picks, &r.aps));
    let mut picks = r.picks.clone();
    picks[0].draft_choice_id = 777;
    assert!(!check_full_drafts_rows(&r.drafts, &r.tds, &r.fts, &r.dcs, &picks, &r.aps));
}

#[test]
fn drafts_for_picks_pair_team_picks_with_choices_by_position() {
    let r = rows();
    // teams listed in reverse: the first draft choice is paired with the picks of team 22
    let fts = vec![team(22, 8, "second"), team(21, 7, "first")];
    assert!(check_drafts_for_picks_rows(&r.drafts, &r.tds, &fts, &r.dcs, &r.picks, &r.aps));
    let out = drafts_for_picks_from_rows(r.drafts, r.tds, &fts, r.dcs, r.picks.clone(), r.aps);
    assert_eq!(out.len(), 1);
    let tds = out[0].team_drafts.as_ref().unwrap();
    // choice 31 (of team draft 11) now carries pick 42, choice 32 carries pick 41, choice 33 is dropped
    assert_eq!(
        tds[0].draft_choices.as_ref().unwrap(),
        &vec![ApiDraftChoice2 { draft_choice_id: 31, timespan: ts(0, 10), pick: Some(r.picks[1]) }]
    );
    assert_eq!(tds[0].active_picks.as_ref().unwrap(), &vec![api_pick(42, 200, ts(3, 4))]);
    assert_eq!(
        tds[1].draft_choices.as_ref().unwrap(),
        &vec![ApiDraftChoice2 { draft_choice_id: 32, timespan: ts(10, 20), pick: Some(r.picks[0]) }]
    );
}

#[test]
fn grouping_follows_the_last_parent_with_an_id() {
    let groups = grouped_by(vec!['a', 'b', 'c', 'd'], &vec![5, 6, 5, 7], &vec![5, 6, 5, 7]);
    assert_eq!(groups, vec![vec![], vec!['b'], vec!['a', 'c'], vec!['d']]);
}

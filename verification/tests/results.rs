use fantasy_esports::{
    check_inserted_rows, group_inserted, ApiCompetition, ApiMatch, ApiSeries, ApiSeriesNew, ApiTeam, ApiTeamName,
    ApiTeamWithPlayersHierarchy, Competition, IsCompetition, Match, PlayerResult, Series, Team, TeamMatchResult,
    TeamName, TeamSeriesResult, Timespan,
};

fn ts(a: i64) -> Timespan {
    Timespan::new(a, a + 1)
}

fn pr(player: u128, m: u128) -> PlayerResult {
    PlayerResult { player_id: player, match_id: m, meta: format!("p{}", player) }
}

fn tmr(team: u128, m: u128) -> TeamMatchResult {
    TeamMatchResult { team_id: team, match_id: m, meta: "{}".to_string() }
}

fn tsr(team: u128, s: u128) -> TeamSeriesResult {
    TeamSeriesResult { team_id: team, series_id: s, meta: "{}".to_string() }
}

fn competition(id: u128) -> Competition {
    Competition { competition_id: id, name: format!("c{}", id), meta: "{}".to_string(), timespan: ts(0) }
}

fn series(id: u128, c: u128) -> Series {
    Series { series_id: id, name: format!("s{}", id), competition_id: c, meta: "{}".to_string(), timespan: ts(1) }
}

fn a_match(id: u128, s: u128) -> Match {
    Match { match_id: id, name: format!("m{}", id), series_id: s, meta: "{}".to_string(), timespan: ts(2) }
}

fn api_match(id: u128, prs: Option<Vec<PlayerResult>>, tmrs: Option<Vec<TeamMatchResult>>) -> ApiMatch {
    ApiMatch { match_id: id, name: format!("m{}", id), meta: "{}".to_string(), timespan: ts(2), player_results: prs, team_results: tmrs }
}

fn api_series(id: u128, matches: Option<Vec<ApiMatch>>, trs: Option<Vec<TeamSeriesResult>>) -> ApiSeries {
    ApiSeries { series_id: id, name: format!("s{}", id), meta: "{}".to_string(), timespan: ts(1), matches, team_results: trs }
}

#[test]
fn competitions_from_full_rows() {
    let rows = vec![
        (competition(1), Some(vec![(series(10, 1), vec![tsr(5, 10)], vec![(a_match(100, 10), vec![pr(7, 100)], vec![tmr(5, 100)])])])),
        (competition(2), None),
    ];
    let out = ApiCompetition::from_rows(rows);
    assert_eq!(out.len(), 2);
    assert_eq!(out[0].competition_id, 1);
    assert_eq!(out[0].name, "c1");
    let s = &out[0].series.as_ref().unwrap()[0];
    assert_eq!(s, &api_series(10, Some(vec![api_match(100, Some(vec![pr(7, 100)]), Some(vec![tmr(5, 100)]))]), Some(vec![tsr(5, 10)])));
    assert_eq!(out[1].series, None);
}

#[test]
fn competitions_from_match_rows_carry_no_series_results() {
    let rows = vec![(competition(1), vec![(series(10, 1), vec![(a_match(100, 10), vec![], vec![])])])];
    let out = ApiCompetition::from_match_rows(rows);
    let s = &out[0].series.as_ref().unwrap()[0];
    assert_eq!(s.team_results, None);
    assert_eq!(s.matches, Some(vec![api_match(100, Some(vec![]), Some(vec![]))]));
}

#[test]
fn competitions_from_opty_rows_keep_what_is_missing_missing() {
    let rows = vec![
        (competition(1), Some(vec![(series(10, 1), None, Some(vec![(a_match(100, 10), None, Some(vec![tmr(1, 100)]))])), (series(11, 1), Some(vec![]), None)])),
        (competition(2), None),
    ];
    let out = ApiCompetition::from_opty_rows(rows);
    let ss = out[0].series.as_ref().unwrap();
    assert_eq!(ss[0], api_series(10, Some(vec![api_match(100, None, Some(vec![tmr(1, 100)]))]), None));
    assert_eq!(ss[1], api_series(11, None, Some(vec![])));
    assert_eq!(out[1].series, None);
    assert_eq!(IsCompetition::competition_id(&out[1]), 2);
    assert_eq!(IsCompetition::competition_id(&competition(3)), 3);
}

#[test]
fn series_flatten_into_rows() {
    let s = api_series(
        10,
        Some(vec![
            api_match(100, Some(vec![pr(1, 100), pr(2, 100)]), None),
            api_match(101, None, Some(vec![tmr(9, 101)])),
        ]),
        None,
    );
    let (row, matches, prs, tmrs, trs) = s.insertable(1);
    assert_eq!(row, series(10, 1));
    assert_eq!(matches, vec![a_match(100, 10), a_match(101, 10)]);
    assert_eq!(prs, vec![pr(1, 100), pr(2, 100)]);
    assert_eq!(tmrs, vec![tmr(9, 101)]);
    assert!(trs.is_empty());
    let (m, p, t) = api_match(5, None, None).insertable(3);
    assert_eq!(m, a_match(5, 3));
    assert!(p.is_empty() && t.is_empty());
}

#[test]
fn competitions_flatten_into_rows_in_order() {
    let comps = vec![
        ApiCompetition {
            competition_id: 1,
            name: "c1".to_string(),
            meta: "{}".to_string(),
            timespan: ts(0),
            series: Some(vec![
                api_series(10, Some(vec![api_match(100, Some(vec![pr(1, 100)]), Some(vec![]))]), Some(vec![tsr(4, 10)])),
                api_series(11, None, None),
            ]),
        },
        ApiCompetition { competition_id: 2, name: "c2".to_string(), meta: "{}".to_string(), timespan: ts(0), series: None },
    ];
    let out = ApiCompetition::insertable_rows(comps);
    assert_eq!(out.competitions, vec![competition(1), competition(2)]);
    assert_eq!(out.rows.series, vec![series(10, 1), series(11, 1)]);
    assert_eq!(out.rows.matches, vec![a_match(100, 10)]);
    assert_eq!(out.rows.player_results, vec![pr(1, 100)]);
    assert!(out.rows.team_match_results.is_empty());
    assert_eq!(out.rows.team_results, vec![tsr(4, 10)]);
}

#[test]
fn new_series_are_stored_and_read_back_grouped() {
    let new = vec![
        ApiSeriesNew {
            series_id: 10,
            competition_id: 1,
            name: "s10".to_string(),
            meta: "{}".to_string(),
            timespan: ts(1),
            matches: Some(vec![api_match(100, Some(vec![pr(1, 100)]), Some(vec![tmr(2, 100)])), api_match(101, None, None)]),
            team_results: Some(vec![tsr(3, 10)]),
        },
        ApiSeriesNew { series_id: 11, competition_id: 2, name: "s11".to_string(), meta: "{}".to_string(), timespan: ts(1), matches: None, team_results: None },
    ];
    let rows = ApiSeriesNew::insertable_rows(new);
    assert_eq!(rows.series, vec![series(10, 1), series(11, 2)]);
    assert!(check_inserted_rows(&rows));
    let out = group_inserted(rows);
    assert_eq!(out.len(), 2);
    assert_eq!(out[0].0, series(10, 1));
    assert_eq!(out[0].1, vec![tsr(3, 10)]);
    assert_eq!(out[0].2, vec![(a_match(100, 10), vec![pr(1, 100)], vec![tmr(2, 100)]), (a_match(101, 10), vec![], vec![])]);
    assert_eq!(out[1], (series(11, 2), vec![], vec![]));
}

#[test]
fn results_naming_unknown_matches_are_refused() {
    let new = vec![ApiSeriesNew {
        series_id: 10,
        competition_id: 1,
        name: "s10".to_string(),
        meta: "{}".to_string(),
        timespan: ts(1),
        matches: Some(vec![api_match(100, Some(vec![pr(1, 999)]), None)]),
        team_results: None,
    }];
    let rows = ApiSeriesNew::insertable_rows(new);
    assert!(!check_inserted_rows(&rows));
}

fn team_row(id: u128, meta: &str) -> Team {
    Team { team_id: id, meta: meta.to_string() }
}

fn name_row(id: u128, team: u128, name: &str) -> TeamName {
    TeamName { team_name_id: id, team_id: team, name: name.to_string(), timespan: ts(id as i64) }
}

#[test]
fn teams_from_rows_group_names_by_team() {
    let rows = vec![
        (team_row(1, "first"), name_row(11, 1, "a")),
        (team_row(2, "second"), name_row(12, 2, "b")),
        (team_row(1, "later"), name_row(13, 1, "c")),
    ];
    let out = ApiTeam::from_rows(rows);
    assert_eq!(out.len(), 2);
    assert_eq!(out[0].team_id, 1);
    assert_eq!(out[0].meta, "first");
    assert_eq!(out[0].names, vec![ApiTeamName { name: "a".to_string(), timespan: ts(11) }, ApiTeamName { name: "c".to_string(), timespan: ts(13) }]);
    assert_eq!(out[1].team_id, 2);
    assert_eq!(out[1].names.len(), 1);
    assert!(ApiTeam::from_rows(vec![]).is_empty());
}

#[test]
fn teams_are_stored_with_fresh_name_ids() {
    let teams = vec![
        ApiTeam { team_id: 1, meta: "m".to_string(), names: vec![ApiTeamName { name: "a".to_string(), timespan: ts(1) }, ApiTeamName { name: "b".to_string(), timespan: ts(2) }] },
        ApiTeam { team_id: 2, meta: "n".to_string(), names: vec![] },
    ];
    let (rows, names) = ApiTeam::insertable_rows(teams);
    assert_eq!(rows, vec![team_row(1, "m"), team_row(2, "n")]);
    assert_eq!(names.len(), 2);
    assert_eq!((names[0].team_id, names[0].name.as_str(), names[0].timespan), (1, "a", ts(1)));
    assert_eq!((names[1].team_id, names[1].name.as_str(), names[1].timespan), (1, "b", ts(2)));
    assert_ne!(names[0].team_name_id, names[1].team_name_id);
    assert_eq!((names[0].team_name_id >> 76) & 0xf, 4);
}

#[test]
fn hierarchies_from_teams() {
    let t = ApiTeam { team_id: 1, meta: "m".to_string(), names: vec![ApiTeamName { name: "a".to_string(), timespan: ts(1) }] };
    let h = ApiTeamWithPlayersHierarchy::from_api_team(vec![t.clone()]);
    assert_eq!(h, vec![ApiTeamWithPlayersHierarchy { team_id: 1, names: Some(t.names.clone()), meta: "m".to_string(), players: None }]);
    let h2 = ApiTeamWithPlayersHierarchy::from_team(vec![team_row(2, "x")]);
    assert_eq!(h2, vec![ApiTeamWithPlayersHierarchy { team_id: 2, names: None, meta: "x".to_string(), players: None }]);
}

#[test]
fn repeated_series_ids_group_under_the_last_one() {
    let new = vec![
        ApiSeriesNew {
            series_id: 10,
            competition_id: 1,
            name: "a".to_string(),
            meta: "{}".to_string(),
            timespan: ts(1),
            matches: None,
            team_results: Some(vec![tsr(3, 10)]),
        },
        ApiSeriesNew { series_id: 10, competition_id: 2, name: "b".to_string(), meta: "{}".to_string(), timespan: ts(1), matches: None, team_results: None },
    ];
    let rows = ApiSeriesNew::insertable_rows(new);
    assert!(check_inserted_rows(&rows));
    let out = group_inserted(rows);
    assert_eq!(out.len(), 2);
    assert!(out[0].1.is_empty());
    assert_eq!(out[1].1, vec![tsr(3, 10)]);
}

#[test]
fn reordering_rows_across_teams_gives_the_same_teams() {
    let rows = vec![
        (team_row(1, "first"), name_row(11, 1, "a")),
        (team_row(2, "second"), name_row(12, 2, "b")),
        (team_row(1, "later"), name_row(13, 1, "c")),
    ];
    let moved = vec![
        (team_row(2, "second"), name_row(12, 2, "b")),
        (team_row(1, "first"), name_row(11, 1, "a")),
        (team_row(1, "later"), name_row(13, 1, "c")),
    ];
    let a = ApiTeam::from_rows(rows);
    let b = ApiTeam::from_rows(moved);
    assert_eq!(a.len(), b.len());
    assert_eq!(a[0], b[1]);
    assert_eq!(a[1], b[0]);
}

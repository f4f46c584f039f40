use fantasy_esports::{
    check_draft_times, check_generation_inputs, generate_drafts, num_drafts, split_teams, ApiDraftChoice, FantasyTeam,
    Period, TeamDraft,
    Timespan, MICROS_PER_SEC,
};

fn team(id: u128) -> FantasyTeam {
    FantasyTeam { fantasy_team_id: id, name: format!("team {}", id), league_id: 1, external_user_id: id, meta: "{}".to_string() }
}

fn period(teams_per_draft: i32, interval: i32) -> Period {
    Period {
        period_id: 77,
        league_id: 1,
        name: "week 1".to_string(),
        timespan: Timespan::new(0, 1_000),
        draft_start: 1_000_000,
        draft_interval_secs: interval,
        teams_per_draft,
        draft_lockdown: 0,
    }
}

fn version_of(id: u128) -> u128 {
    (id >> 76) & 0xf
}

#[test]
fn number_of_drafts_is_teams_per_draft_over_teams_plus_one() {
    assert_eq!(num_drafts(8, 4), 3);
    assert_eq!(num_drafts(3, 4), 1);
    assert_eq!(num_drafts(0, 5), 1);
}

#[test]
fn teams_are_dealt_round_robin() {
    assert_eq!(split_teams(vec![1, 2, 3, 4, 5], 2), vec![vec![1, 3, 5], vec![2, 4]]);
    // more drafts than teams: only drafts that receive a team are returned
    assert_eq!(split_teams(vec![1, 2], 5), vec![vec![1], vec![2]]);
    let all = split_teams(vec![9, 8, 7, 6, 5, 4, 3], 3);
    let total: usize = all.iter().map(|g| g.len()).sum();
    assert_eq!(total, 7);
}

#[test]
fn snake_draft_with_one_draft() {
    let teams = vec![team(1), team(2), team(3)];
    // 2 / 3 + 1 = 1 draft
    let out = generate_drafts(&teams, 2, &period(2, 60));
    assert_eq!(out.len(), 1);
    let d = &out[0];
    assert_eq!(d.draft.period_id, 77);
    assert_eq!(d.draft.meta, "{}");
    assert_eq!(version_of(d.draft.draft_id), 4);
    let tds: &Vec<TeamDraft> = &d.team_drafts;
    assert_eq!(tds.iter().map(|t| t.fantasy_team_id).collect::<Vec<_>>(), vec![1, 2, 3]);
    assert!(tds.iter().all(|t| t.draft_id == d.draft.draft_id));
    let order: Vec<u128> = d.choices.iter().map(|c| c.fantasy_team_id).collect();
    assert_eq!(order, vec![1, 2, 3, 3, 2, 1]);
    let minute = 60 * MICROS_PER_SEC;
    let starts: Vec<Timespan> = d.choices.iter().map(|c| c.timespan).collect();
    let expected: Vec<Timespan> = (0..6).map(|k| Timespan::new(1_000_000 + k * minute, 1_000_000 + (k + 1) * minute)).collect();
    assert_eq!(starts, expected);
    for c in &d.choices {
        assert_eq!(version_of(c.draft_choice_id), 4);
        let td = tds.iter().find(|t| t.team_draft_id == c.team_draft_id).unwrap();
        assert_eq!(td.fantasy_team_id, c.fantasy_team_id);
    }
}

#[test]
fn offsets_count_all_league_teams() {
    let teams = vec![team(1), team(2), team(3), team(4)];
    // 4 / 4 + 1 = 2 drafts of two teams; offsets use the league's 4 teams per round
    let out = generate_drafts(&teams, 2, &period(4, 10));
    assert_eq!(out.len(), 2);
    assert_eq!(out[0].team_drafts.iter().map(|t| t.fantasy_team_id).collect::<Vec<_>>(), vec![1, 3]);
    assert_eq!(out[1].team_drafts.iter().map(|t| t.fantasy_team_id).collect::<Vec<_>>(), vec![2, 4]);
    let s = 10 * MICROS_PER_SEC;
    let c: &Vec<ApiDraftChoice> = &out[0].choices;
    assert_eq!(c.iter().map(|c| c.fantasy_team_id).collect::<Vec<_>>(), vec![1, 3, 3, 1]);
    assert_eq!(c[0].timespan, Timespan::new(1_000_000, 1_000_000 + s));
    assert_eq!(c[1].timespan, Timespan::new(1_000_000 + s, 1_000_000 + 2 * s));
    // round 1 starts at 1 * 4 + 0 intervals
    assert_eq!(c[2].timespan, Timespan::new(1_000_000 + 4 * s, 1_000_000 + 5 * s));
    assert_eq!(c[3].timespan, Timespan::new(1_000_000 + 5 * s, 1_000_000 + 6 * s));
    let stored = c[0].to_draft_choice();
    assert_eq!(stored.draft_choice_id, c[0].draft_choice_id);
    assert_eq!(stored.team_draft_id, c[0].team_draft_id);
    assert_eq!(stored.timespan, c[0].timespan);
}

#[test]
fn zero_rounds_give_no_choices() {
    let out = generate_drafts(&vec![team(1)], 0, &period(1, 60));
    assert_eq!(out.len(), 1);
    assert!(out[0].choices.is_empty());
    assert_eq!(out[0].team_drafts.len(), 1);
}

#[test]
fn draft_times_out_of_range_are_refused() {
    assert!(check_draft_times(0, 60, 3, 2, 3));
    assert!(!check_draft_times(i64::MAX - 10, 60, 3, 2, 3));
    assert!(!check_draft_times(i64::MIN + 10, -60, 3, 2, 3));
    assert!(check_draft_times(i64::MAX, 0, 3, 2, 3));
    assert!(!check_draft_times(0, 1, usize::MAX, 2, 1));
}

#[test]
fn generation_inputs_are_checked() {
    let teams = vec![team(1), team(2), team(3)];
    assert!(check_generation_inputs(&teams, 2, &period(2, 60)));
    // no teams: the number of drafts cannot be computed
    assert!(!check_generation_inputs(&vec![], 2, &period(2, 60)));
    // a choice would end after the last representable instant
    let mut late = period(2, 60);
    late.draft_start = i64::MAX - 10;
    assert!(!check_generation_inputs(&teams, 2, &late));
    // too many rounds for the offsets
    assert!(!check_generation_inputs(&teams, usize::MAX, &period(2, 60)));
}

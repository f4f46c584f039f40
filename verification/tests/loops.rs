use fantasy_esports::{
    choice_deadline, due_step, every_team_on_the_clock, latest_teams_from_rows, leaderboard_filter,
    leaderboards_to_publish, league_rows, wait_after_pass, DueStep, TimeBound, Timespan, WaitPlan,
};

#[test]
fn items_are_handled_once_their_instant_has_passed() {
    assert_eq!(due_step(100, 150), DueStep::Process);
    assert_eq!(due_step(150, 100), DueStep::Wait(50));
    assert_eq!(due_step(100, 100), DueStep::Wait(0));
}

#[test]
fn a_choice_runs_out_at_the_end_of_its_span() {
    assert_eq!(choice_deadline(&Timespan::new(3, 9)), 9);
    let included = Timespan { lower: TimeBound::Unbounded, upper: TimeBound::Included(12) };
    assert_eq!(choice_deadline(&included), 12);
}

#[test]
fn waits_after_a_pass() {
    assert_eq!(wait_after_pass(Some(42)), WaitPlan::Sleep(42));
    assert_eq!(wait_after_pass(None), WaitPlan::UntilWoken);
}

#[test]
fn every_team_needs_a_choice_on_the_clock() {
    assert!(every_team_on_the_clock(3, 3));
    assert!(!every_team_on_the_clock(2, 3));
    assert!(every_team_on_the_clock(0, 0));
}

#[test]
fn latest_teams_group_players_by_team() {
    let m = latest_teams_from_rows(&vec![(1, 10), (2, 20), (1, 11), (3, 30), (1, 12)]);
    assert_eq!(m.len(), 3);
    assert_eq!(m[&1], vec![10, 11, 12]);
    assert_eq!(m[&2], vec![20]);
    assert_eq!(m[&3], vec![30]);
    assert!(latest_teams_from_rows(&vec![]).is_empty());
}

#[test]
fn repeated_leaderboards_are_published_once_per_run() {
    assert_eq!(leaderboards_to_publish(vec![5, 5, 6, 6, 6, 5, 7]), vec![5, 6, 5, 7]);
    assert_eq!(leaderboards_to_publish(vec![]), Vec::<u128>::new());
}

#[test]
fn subscriptions_to_everything_filter_nothing() {
    assert_eq!(leaderboard_filter(true, vec![1, 2]), None);
    assert_eq!(leaderboard_filter(false, vec![1, 2]), Some(vec![1, 2]));
}

#[test]
fn league_rows_gather_each_kind_by_league() {
    let out = league_rows(
        vec!["l1", "l2"],
        &vec![1, 2],
        vec!["p1", "p2", "p3"],
        &vec![2, 1, 2],
        vec!["s1"],
        &vec![1],
        Vec::<&str>::new(),
        &vec![],
        vec!["t1", "t2"],
        &vec![2, 2],
    );
    assert_eq!(out.len(), 2);
    assert_eq!(out[0], ("l1", vec!["p2"], vec!["s1"], vec![], vec![]));
    assert_eq!(out[1], ("l2", vec!["p1", "p3"], vec![], vec![], vec!["t1", "t2"]));
}

/// Runs one pass the way the draft loops do: items in order, each looked at
/// with its own clock reading, until the first one not yet due.
fn run_pass(dues: &[i64], nows: &[i64]) -> (usize, Option<i64>) {
    for i in 0..dues.len() {
        match due_step(dues[i], nows[i]) {
            DueStep::Process => {},
            DueStep::Wait(t) => return (i, Some(t)),
        }
    }
    (dues.len(), None)
}

#[test]
fn a_pass_handles_every_item_due_at_its_start() {
    // sorted due instants, a clock that moves on while the pass runs
    let dues = [10, 20, 30, 45, 60];
    let nows = [31, 33, 40, 44, 50];
    // 10, 20 and 30 were due at the start; 45 is not yet due when looked at
    assert_eq!(run_pass(&dues, &nows), (3, Some(1)));
    assert_eq!(run_pass(&dues, &[100; 5]), (5, None));
    assert_eq!(run_pass(&[], &[]), (0, None));
}

#[test]
fn leagues_read_with_a_filter_match_the_unfiltered_read() {
    let all = league_rows(
        vec!["l1", "l2", "l3"],
        &vec![1, 2, 3],
        vec!["p1", "p2", "p3", "p4"],
        &vec![3, 1, 2, 3],
        Vec::<&str>::new(),
        &vec![],
        vec!["m1"],
        &vec![2],
        vec!["t1"],
        &vec![1],
    );
    // only leagues 1 and 3, with the rows that name them
    let kept = league_rows(
        vec!["l1", "l3"],
        &vec![1, 3],
        vec!["p1", "p2", "p4"],
        &vec![3, 1, 3],
        Vec::<&str>::new(),
        &vec![],
        Vec::<&str>::new(),
        &vec![],
        vec!["t1"],
        &vec![1],
    );
    assert_eq!(kept.len(), 2);
    assert_eq!(kept[0], all[0]);
    assert_eq!(kept[1], all[2]);
}

use fantasy_esports::{
    build_team_and_position_maps, check_pick_inputs, choose_queue_pick, pick_from_queue_or_random,
    ApiTeamsAndPlayers, NoValidPicksError, PlayerPositions, TeamPlayerLink, Timespan,
};

fn world() -> ApiTeamsAndPlayers {
    // players 1..=6; teams: 1,2,3 -> team 100; 4,5 -> team 200; 6 -> team 300
    // positions: 1,2 -> "mid"; 3,4 -> "top"; 5,6 -> "sup"
    let link = |p: u128, t: u128| TeamPlayerLink { player_id: p, team_id: t };
    let pos = |p: u128, s: &str| PlayerPositions { player_id: p, positions: vec![s.to_string()] };
    ApiTeamsAndPlayers {
        team_players: vec![link(1, 100), link(2, 100), link(3, 100), link(4, 200), link(5, 200), link(6, 300)],
        players: vec![pos(1, "mid"), pos(2, "mid"), pos(3, "top"), pos(4, "top"), pos(5, "sup"), pos(6, "sup")],
    }
}

#[test]
fn maps_keep_the_last_entry() {
    let tp = ApiTeamsAndPlayers {
        team_players: vec![TeamPlayerLink { player_id: 1, team_id: 10 }, TeamPlayerLink { player_id: 1, team_id: 11 }],
        players: vec![
            PlayerPositions { player_id: 1, positions: vec!["top".to_string(), "mid".to_string()] },
            PlayerPositions { player_id: 2, positions: vec![] },
        ],
    };
    let (positions, teams) = build_team_and_position_maps(&tp);
    assert_eq!(teams.get(&1), Some(&11));
    assert_eq!(positions.get(&1).map(|s| s.as_str()), Some("mid"));
    assert_eq!(positions.get(&2), None);
}

#[test]
fn queue_skips_invalid_and_over_limit_players() {
    let (positions, teams) = build_team_and_position_maps(&world());
    // the team already has players 1 and 2 (two mids of team 100)
    let current = vec![1, 2];
    let valid = vec![3, 4, 5, 6];
    // 9 is not valid; 3 is of team 100 (2 > 1: over the limit of 1); 4 is fine
    assert_eq!(choose_queue_pick(&vec![9, 3, 4, 5], &valid, &current, &positions, &teams, 1, 5), Some(4));
    // with a team limit of 2, team 100 has 2 players, which is not more than 2: 3 is allowed
    assert_eq!(choose_queue_pick(&vec![9, 3, 4, 5], &valid, &current, &positions, &teams, 2, 5), Some(3));
    // position limit 1: "mid" is over it, but the queue holds no mid
    assert_eq!(choose_queue_pick(&vec![6], &valid, &current, &positions, &teams, 5, 1), Some(6));
    assert_eq!(choose_queue_pick(&vec![9], &valid, &current, &positions, &teams, 5, 5), None);
    assert_eq!(choose_queue_pick(&vec![], &valid, &current, &positions, &teams, 5, 5), None);
}

#[test]
fn the_reported_pick_is_a_random_valid_player() {
    let tp = world();
    let span = Timespan::new(5, 50);
    let valid = vec![3, 4, 5];
    let queue = Some(vec![4]);
    assert!(check_pick_inputs(&queue, &valid, &vec![1], Some(&tp), 10, 5));
    let out = pick_from_queue_or_random(7, 8, span, queue, &valid, &vec![1], Some(&tp), 10, 5);
    let queued = out.queued.unwrap();
    assert_eq!((queued.player_id, queued.fantasy_team_id, queued.draft_choice_id), (4, 7, 8));
    assert_eq!(queued.timespan, span);
    assert!(!queued.active);
    assert_eq!((queued.pick_id >> 76) & 0xf, 4);
    let chosen = out.chosen.unwrap();
    assert!(valid.contains(&chosen.player_id));
    assert_eq!((chosen.fantasy_team_id, chosen.draft_choice_id, chosen.timespan, chosen.active), (7, 8, span, false));
}

#[test]
fn no_valid_player_is_an_error() {
    let tp = world();
    let out = pick_from_queue_or_random(7, 8, Timespan::new(0, 1), None, &vec![], &vec![], Some(&tp), 10, 5);
    assert_eq!(out.queued, None);
    assert_eq!(out.chosen, Err(NoValidPicksError {}));
    assert_eq!(NoValidPicksError {}.message(), "No valid picks to choose from");
}

#[test]
fn without_teams_and_players_nothing_is_picked() {
    let out = pick_from_queue_or_random(7, 8, Timespan::new(0, 1), Some(vec![3]), &vec![3], &vec![], None, 10, 5);
    assert_eq!(out.queued, None);
    assert!(out.chosen.is_err());
}

#[test]
fn unknown_players_are_refused() {
    let tp = world();
    // player 99 of the current team has no known position
    assert!(!check_pick_inputs(&None, &vec![3], &vec![99], Some(&tp), 10, 5));
    // queued valid player 42 has no known position
    assert!(!check_pick_inputs(&Some(vec![42]), &vec![42], &vec![], Some(&tp), 10, 5));
    // a queued player that is not valid is never looked up
    assert!(check_pick_inputs(&Some(vec![42]), &vec![3], &vec![], Some(&tp), 10, 5));
    assert!(check_pick_inputs(&None, &vec![], &vec![99], None, 10, 5));
}

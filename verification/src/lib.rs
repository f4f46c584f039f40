//! Draft assembly, draft generation, pick selection and result
//! flattening for a fantasy e-sports service, with contracts proved by Verus.
//!
//! Database identifiers are carried as `u128` (the integer form of a UUID),
//! instants as `i64` microseconds since the Unix epoch, and JSON metadata as
//! its serialised text.

mod grouping;
mod timespan;
mod drafts;
mod assembly;
mod fresh;
mod generation;
mod scheduling;
mod picking;
mod latest;
mod leaderboards;
mod leagues;
mod results;
mod competitions;
mod series;
mod teams;

pub use grouping::{
    grouped_by, group_at, last_index_of, keys_resolve, parent_has_child, zip_vecs, attach, grouped_total, lemma_grouping_keeps_every_child,
    lemma_group_at_map, lemma_group_nonempty, lemma_group_at_members, lemma_last_index_of_bounds, lemma_group_blocks,
    key_is, parent_kept, lemma_grouping_kept_parents, lemma_flatten_contains, lemma_group_at_distinct_is_filter,
};
pub use timespan::{TimeBound, Timespan, MICROS_PER_SEC, bound_instant, half_open};
pub use drafts::{
    FantasyTeam, Draft, TeamDraft, DraftChoice, Pick, ActivePick, ApiPick, ApiDraftChoice2, ApiTeamDraft,
    ApiDraft, ApiTeamDraftView, ApiDraftView,
};
pub use assembly::{
    PickEntry, PickEntryV, ChoiceEntry, ChoiceEntryV, TeamDraftEntry, TeamDraftEntryV, DraftEntry, DraftEntryV,
    pick_entry_view, choice_entry_view, team_draft_entry_view, draft_entry_view, pick_ids, pick_choice_keys,
    pick_team_keys, active_pick_keys, draft_choice_ids, choice_team_draft_keys, team_draft_ids,
    team_draft_draft_keys, draft_ids, fantasy_team_ids, pick_level, choice_level, choice_level_by_team,
    team_draft_level, draft_level, team_of, api_pick_of, active_of_choice, active_of_team, choice_view,
    team_draft_view, api_draft_view, drafts_buildable, draft_has_team_draft, full_drafts_spec,
    full_drafts_rows_ok, drafts_for_picks_spec, paired_len, drafts_for_picks_rows_ok, fantasy_team_ids_of,
    full_drafts_from_rows, drafts_for_picks_from_rows, check_full_drafts_rows, check_drafts_for_picks_rows,
    reported_team_drafts, lemma_full_drafts_report_every_team_draft, lemma_drafts_for_picks_report_every_team_draft,
    reported_active_pick, choice_active_picks, lemma_team_draft_reports_every_choice_active_picks,
    lemma_reported_draft_fields, lemma_levels_hold_the_rows_that_name_them, lemma_choices_paired_with_team_picks,
};
pub use fresh::{uuid_version, uuid_variant_bits, fresh_id};
pub use generation::{
    Period, ApiDraftChoice, GeneratedDraft, num_drafts_spec, draft_numbers, counting, used_drafts, draft_group,
    snake_slot, choice_start, draft_times_fit, snake_choice_ok, split_teams, check_draft_times, num_drafts, check_generation_inputs,
    generation_ok, generated_draft_ok, generate_drafts, takes_a_choice, lemma_every_team_in_one_draft,
    lemma_snake_round_gives_each_team_one_choice, lemma_snake_turns_at_round_end,
    lemma_generated_choices_follow_the_snake, lemma_teams_dealt_round_robin,
};
pub use scheduling::{
    DueStep, due_step, choice_deadline, WaitPlan, wait_after_pass, every_team_on_the_clock, step_of, pass_outcome,
    pass_in_range, lemma_pass_handles_the_due_prefix, lemma_sorted_pass_handles_every_item_due_at_its_start,
};
pub use picking::{
    TeamPlayerLink, PlayerPositions, ApiTeamsAndPlayers, NoValidPicksError, team_map, position_map,
    build_team_and_position_maps, count_team, count_position, team_banned, position_banned, current_team_ok,
    eligible, first_eligible, queue_ok, choose_queue_pick, PickOutcome, pick_for, pick_inputs_ok,
    check_pick_inputs, pick_from_queue_or_random, lemma_queue_pick_is_first_eligible, plays_position, plays_for,
    lemma_limits_count_the_team, lemma_team_map_keeps_the_last_link, lemma_position_map_keeps_the_last_entry,
};
pub use latest::{players_of, has_team, latest_teams_from_rows, lemma_every_row_listed};
pub use leaderboards::{dedup_spec, leaderboards_to_publish, leaderboard_filter, lemma_dedup_keeps_elements_without_repeats};
pub use leagues::league_rows;
pub use results::{
    Competition, CompetitionUpdate, Series, SeriesUpdate, Match, PlayerResult, TeamMatchResult,
    TeamSeriesResult, ApiMatch, ApiSeries, ApiSeriesNew, ApiCompetition, ApiMatchView, ApiSeriesView,
    ApiCompetitionView, opt_view, IsCompetition,
};
pub use competitions::{
    MatchRow, MatchRowV, SeriesRow, SeriesRowV, CompetitionRow, CompetitionRowV, SeriesMatchRow,
    SeriesMatchRowV, CompetitionMatchRow, CompetitionMatchRowV, OptyMatchRow, OptyMatchRowV, OptySeriesRow,
    OptySeriesRowV, CompetitionOptyRow, CompetitionOptyRowV, match_row_view, series_row_view,
    competition_row_view, series_match_row_view, competition_match_row_view, opty_match_row_view,
    opty_series_row_view, competition_opty_row_view, api_match_of, api_series_of, api_competition_of,
    matches_of_rows, from_rows_spec, from_match_rows_spec, from_opty_rows_spec, opty_series_of, reported_match,
    lemma_every_match_row_is_reported, lemma_competitions_follow_their_rows,
};
pub use series::{
    opt_seq, match_row_of, SeriesInsertView, series_insert, InsertRows, rows_of, competition_row_of,
    competition_inserts, as_api_series, CompetitionRows, match_ids, match_series_keys, series_ids,
    player_result_keys, team_match_result_keys, team_result_keys, inserted_rows_ok, match_rows_of,
    series_rows_of, check_inserted_rows, group_inserted, new_series_matches, new_series_team_results, stored_match_of,
    stored_series_of, new_series_consistent, results_name_match, lemma_stored_series_group_back, series_row_in, match_row_in,
    lemma_competition_rows_name_their_holders, lemma_new_series_rows_name_their_competitions,
};
pub use teams::{
    Team, TeamName, TeamUpdate, ApiTeamName, ApiTeamNameNew, ApiTeam, TeamPlayer, ApiTeamPlayer,
    ApiTeamPlayerOut, ApiTeamWithPlayersHierarchy, ApiTeamView, ApiTeamWithPlayersHierarchyView, api_name_of,
    first_ids, names_of, first_meta, team_view_of, teams_of_rows, team_rows, lemma_from_rows_ignores_order_across_teams,
    lemma_teams_carry_their_rows,
};

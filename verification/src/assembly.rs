//! Nesting the rows of drafts, team drafts, draft choices, picks and active
//! picks into the hierarchy that the API reports.
use vstd::prelude::*;
use crate::grouping::{key_is, lemma_group_at_distinct_is_filter, grouped_total, lemma_grouping_keeps_every_child, attach, grouped_by, zip_vecs, group_at, last_index_of, keys_resolve, lemma_group_at_map, lemma_group_at_members, lemma_group_nonempty, lemma_last_index_of_bounds, find_last, parent_has_child};
use crate::drafts::{FantasyTeam, Draft, TeamDraft, DraftChoice, Pick, ActivePick, ApiPick, ApiDraftChoice2, ApiTeamDraft, ApiDraft, ApiTeamDraftView, ApiDraftView};

verus! {

/// A pick with its active picks.
pub type PickEntry = (Pick, Vec<ActivePick>);
pub type PickEntryV = (Pick, Seq<ActivePick>);
/// A draft choice with the picks grouped under it.
pub type ChoiceEntry = (DraftChoice, Vec<PickEntry>);
pub type ChoiceEntryV = (DraftChoice, Seq<PickEntryV>);
/// A team draft with the draft choices grouped under it.
pub type TeamDraftEntry = (TeamDraft, Vec<ChoiceEntry>);
pub type TeamDraftEntryV = (TeamDraft, Seq<ChoiceEntryV>);
/// A draft with the team drafts grouped under it.
pub type DraftEntry = (Draft, Vec<TeamDraftEntry>);
pub type DraftEntryV = (Draft, Seq<TeamDraftEntryV>);

pub open spec fn pick_entry_view(e: PickEntry) -> PickEntryV {
    (e.0, e.1@)
}

pub open spec fn choice_entry_view(e: ChoiceEntry) -> ChoiceEntryV {
    (e.0, e.1@.map_values(|x: PickEntry| pick_entry_view(x)))
}

pub open spec fn team_draft_entry_view(e: TeamDraftEntry) -> TeamDraftEntryV {
    (e.0, e.1@.map_values(|x: ChoiceEntry| choice_entry_view(x)))
}

pub open spec fn draft_entry_view(e: DraftEntry) -> DraftEntryV {
    (e.0, e.1@.map_values(|x: TeamDraftEntry| team_draft_entry_view(x)))
}

pub open spec fn pick_ids(s: Seq<Pick>) -> Seq<u128> {
    s.map_values(|p: Pick| p.pick_id)
}

pub open spec fn pick_choice_keys(s: Seq<Pick>) -> Seq<u128> {
    s.map_values(|p: Pick| p.draft_choice_id)
}

pub open spec fn pick_team_keys(s: Seq<Pick>) -> Seq<u128> {
    s.map_values(|p: Pick| p.fantasy_team_id)
}

pub open spec fn active_pick_keys(s: Seq<ActivePick>) -> Seq<u128> {
    s.map_values(|a: ActivePick| a.pick_id)
}

pub open spec fn draft_choice_ids(s: Seq<DraftChoice>) -> Seq<u128> {
    s.map_values(|d: DraftChoice| d.draft_choice_id)
}

pub open spec fn choice_team_draft_keys(s: Seq<DraftChoice>) -> Seq<u128> {
    s.map_values(|d: DraftChoice| d.team_draft_id)
}

pub open spec fn team_draft_ids(s: Seq<TeamDraft>) -> Seq<u128> {
    s.map_values(|t: TeamDraft| t.team_draft_id)
}

pub open spec fn team_draft_draft_keys(s: Seq<TeamDraft>) -> Seq<u128> {
    s.map_values(|t: TeamDraft| t.draft_id)
}

pub open spec fn draft_ids(s: Seq<Draft>) -> Seq<u128> {
    s.map_values(|d: Draft| d.draft_id)
}

pub open spec fn fantasy_team_ids(s: Seq<FantasyTeam>) -> Seq<u128> {
    s.map_values(|f: FantasyTeam| f.fantasy_team_id)
}

/// Each pick with the active picks that belong to it.
pub open spec fn pick_level(picks: Seq<Pick>, aps: Seq<ActivePick>) -> Seq<PickEntryV> {
    Seq::new(picks.len(), |i: int| (picks[i], group_at(aps, active_pick_keys(aps), pick_ids(picks), i)))
}

/// Each draft choice with the picks made in it.
pub open spec fn choice_level(dcs: Seq<DraftChoice>, pl: Seq<PickEntryV>) -> Seq<ChoiceEntryV> {
    Seq::new(dcs.len(), |i: int| (dcs[i], group_at(pl, pl.map_values(|e: PickEntryV| e.0.draft_choice_id), draft_choice_ids(dcs), i)))
}

/// The `i`-th draft choice paired with the picks of the `i`-th fantasy team,
/// as far as both lists go.
pub open spec fn choice_level_by_team(dcs: Seq<DraftChoice>, pl: Seq<PickEntryV>, fts: Seq<FantasyTeam>) -> Seq<ChoiceEntryV> {
    Seq::new(
        if dcs.len() <= fts.len() { dcs.len() } else { fts.len() },
        |i: int| (dcs[i], group_at(pl, pl.map_values(|e: PickEntryV| e.0.fantasy_team_id), fantasy_team_ids(fts), i)),
    )
}

/// Each team draft with its draft choices.
pub open spec fn team_draft_level(tds: Seq<TeamDraft>, cl: Seq<ChoiceEntryV>) -> Seq<TeamDraftEntryV> {
    Seq::new(tds.len(), |i: int| (tds[i], group_at(cl, cl.map_values(|e: ChoiceEntryV| e.0.team_draft_id), team_draft_ids(tds), i)))
}

/// Each draft with its team drafts.
pub open spec fn draft_level(drafts: Seq<Draft>, tl: Seq<TeamDraftEntryV>) -> Seq<DraftEntryV> {
    Seq::new(drafts.len(), |i: int| (drafts[i], group_at(tl, tl.map_values(|e: TeamDraftEntryV| e.0.draft_id), draft_ids(drafts), i)))
}

/// The fantasy team with the given id (the last one, where ids repeat).
pub open spec fn team_of(fts: Seq<FantasyTeam>, id: u128) -> FantasyTeam {
    fts[last_index_of(fantasy_team_ids(fts), id)]
}

/// An active pick reported with the player of its pick.
pub open spec fn api_pick_of(ap: ActivePick, player_id: u128) -> ApiPick {
    ApiPick { pick_id: ap.pick_id, player_id, timespan: ap.timespan, draft_id: None, fantasy_team_id: None }
}

/// The active picks of the first pick of a draft choice, reported with that pick's player.
pub open spec fn active_of_choice(picks: Seq<PickEntryV>) -> Seq<ApiPick> {
    if picks.len() == 0 {
        Seq::empty()
    } else {
        picks[0].1.map_values(|ap: ActivePick| api_pick_of(ap, picks[0].0.player_id))
    }
}

/// The active picks of all draft choices of a team draft, in order.
pub open spec fn active_of_team(v: Seq<ChoiceEntryV>) -> Seq<ApiPick>
    decreases v.len(),
{
    if v.len() == 0 {
        Seq::empty()
    } else {
        active_of_team(v.drop_last()) + active_of_choice(v.last().1)
    }
}

/// A draft choice as reported: its first pick, if it has any.
pub open spec fn choice_view(e: ChoiceEntryV) -> ApiDraftChoice2 {
    ApiDraftChoice2 {
        draft_choice_id: e.0.draft_choice_id,
        timespan: e.0.timespan,
        pick: if e.1.len() > 0 { Some(e.1[0].0) } else { None },
    }
}

/// A team draft as reported, with the name, owner and metadata of its fantasy team.
pub open spec fn team_draft_view(e: TeamDraftEntryV, ft: FantasyTeam) -> ApiTeamDraftView {
    ApiTeamDraftView {
        team_draft_id: e.0.team_draft_id,
        fantasy_team_id: ft.fantasy_team_id,
        name: ft.name,
        external_user_id: ft.external_user_id,
        meta: ft.meta,
        draft_choices: Some(e.1.map_values(|c: ChoiceEntryV| choice_view(c))),
        active_picks: Some(active_of_team(e.1)),
    }
}

/// A draft as reported; its league is that of the fantasy team of its last team draft.
pub open spec fn api_draft_view(e: DraftEntryV, fts: Seq<FantasyTeam>) -> ApiDraftView {
    ApiDraftView {
        league_id: team_of(fts, e.1.last().0.fantasy_team_id).league_id,
        draft_id: e.0.draft_id,
        period_id: e.0.period_id,
        meta: e.0.meta,
        team_drafts: Some(e.1.map_values(|t: TeamDraftEntryV| team_draft_view(t, team_of(fts, t.0.fantasy_team_id)))),
    }
}

/// Each team draft that is reported names a fantasy team, and each draft has a team draft.
pub open spec fn drafts_buildable(dl: Seq<DraftEntryV>, fts: Seq<FantasyTeam>) -> bool {
    &&& forall|i: int| 0 <= i < dl.len() ==> (#[trigger] dl[i]).1.len() > 0
    &&& forall|i: int, k: int| 0 <= i < dl.len() && 0 <= k < dl[i].1.len() ==>
        fantasy_team_ids(fts).contains(#[trigger] dl[i].1[k].0.fantasy_team_id)
}

/// The drafts, as the API reports them, of all given rows.
pub open spec fn full_drafts_spec(
    drafts: Seq<Draft>,
    tds: Seq<TeamDraft>,
    fts: Seq<FantasyTeam>,
    dcs: Seq<DraftChoice>,
    picks: Seq<Pick>,
    aps: Seq<ActivePick>,
) -> Seq<ApiDraftView> {
    draft_level(drafts, team_draft_level(tds, choice_level(dcs, pick_level(picks, aps))))
        .map_values(|e: DraftEntryV| api_draft_view(e, fts))
}

/// Some team draft belongs to the `i`-th draft.
pub open spec fn draft_has_team_draft(drafts: Seq<Draft>, tds: Seq<TeamDraft>, i: int) -> bool {
    exists|k: int| 0 <= k < tds.len() && last_index_of(draft_ids(drafts), #[trigger] tds[k].draft_id) == i
}

/// The rows nest without a dangling key, every draft has a team draft and
/// every team draft has its fantasy team among the rows.
pub open spec fn full_drafts_rows_ok(
    drafts: Seq<Draft>,
    tds: Seq<TeamDraft>,
    fts: Seq<FantasyTeam>,
    dcs: Seq<DraftChoice>,
    picks: Seq<Pick>,
    aps: Seq<ActivePick>,
) -> bool {
    &&& keys_resolve(active_pick_keys(aps), pick_ids(picks))
    &&& keys_resolve(pick_choice_keys(picks), draft_choice_ids(dcs))
    &&& keys_resolve(choice_team_draft_keys(dcs), team_draft_ids(tds))
    &&& keys_resolve(team_draft_draft_keys(tds), draft_ids(drafts))
    &&& forall|i: int| 0 <= i < drafts.len() ==> #[trigger] draft_has_team_draft(drafts, tds, i)
    &&& forall|k: int| 0 <= k < tds.len() ==> fantasy_team_ids(fts).contains(#[trigger] tds[k].fantasy_team_id)
}

/// The drafts, as the API reports them, of rows loaded for a set of picks: the
/// picks are grouped by fantasy team, and the groups are paired with the draft
/// choices position by position.
pub open spec fn drafts_for_picks_spec(
    drafts: Seq<Draft>,
    tds: Seq<TeamDraft>,
    fts: Seq<FantasyTeam>,
    dcs: Seq<DraftChoice>,
    picks: Seq<Pick>,
    aps: Seq<ActivePick>,
) -> Seq<ApiDraftView> {
    draft_level(drafts, team_draft_level(tds, choice_level_by_team(dcs, pick_level(picks, aps), fts)))
        .map_values(|e: DraftEntryV| api_draft_view(e, fts))
}

/// The number of draft choices that are paired with a fantasy team's picks.
pub open spec fn paired_len(dcs: Seq<DraftChoice>, fts: Seq<FantasyTeam>) -> int {
    if dcs.len() <= fts.len() { dcs.len() as int } else { fts.len() as int }
}

pub open spec fn drafts_for_picks_rows_ok(
    drafts: Seq<Draft>,
    tds: Seq<TeamDraft>,
    fts: Seq<FantasyTeam>,
    dcs: Seq<DraftChoice>,
    picks: Seq<Pick>,
    aps: Seq<ActivePick>,
) -> bool {
    &&& keys_resolve(active_pick_keys(aps), pick_ids(picks))
    &&& keys_resolve(pick_team_keys(picks), fantasy_team_ids(fts))
    &&& keys_resolve(choice_team_draft_keys(dcs.take(paired_len(dcs, fts))), team_draft_ids(tds))
    &&& keys_resolve(team_draft_draft_keys(tds), draft_ids(drafts))
    &&& forall|i: int| 0 <= i < drafts.len() ==> #[trigger] draft_has_team_draft(drafts, tds, i)
    &&& forall|k: int| 0 <= k < tds.len() ==> fantasy_team_ids(fts).contains(#[trigger] tds[k].fantasy_team_id)
}


proof fn lemma_attach_view<P, C, V>(
    r: Seq<(P, Vec<C>)>,
    parents: Seq<P>,
    children: Seq<C>,
    keys: Seq<u128>,
    ids: Seq<u128>,
    f: spec_fn(C) -> V,
)
    requires
        r.len() == parents.len(),
        keys.len() == children.len(),
        forall|i: int| 0 <= i < r.len() ==> (#[trigger] r[i]).0 == parents[i]
            && r[i].1@ == group_at(children, keys, ids, i),
    ensures
        forall|i: int| 0 <= i < r.len() ==> (#[trigger] r[i]).1@.map_values(f)
            == group_at(children.map_values(f), keys, ids, i),
{
    assert forall|i: int| 0 <= i < r.len() implies (#[trigger] r[i]).1@.map_values(f)
        == group_at(children.map_values(f), keys, ids, i) by {
        lemma_group_at_map(children, keys, ids, i, f);
    }
}

fn pick_ids_of(v: &Vec<Pick>) -> (r: Vec<u128>)
    ensures
        r@ == pick_ids(v@),
{
    let mut r: Vec<u128> = Vec::new();
    for i in 0..v.len()
        invariant
            r@ == pick_ids(v@.take(i as int)),
    {
        proof {
            assert(v@.take(i + 1) =~= v@.take(i as int).push(v@[i as int]));
        }
        r.push(v[i].pick_id);
        proof {
            assert(r@ =~= pick_ids(v@.take(i + 1)));
        }
    }
    proof {
        assert(v@.take(v@.len() as int) =~= v@);
    }
    r
}

fn pick_choice_keys_of(v: &Vec<Pick>) -> (r: Vec<u128>)
    ensures
        r@ == pick_choice_keys(v@),
{
    let mut r: Vec<u128> = Vec::new();
    for i in 0..v.len()
        invariant
            r@ == pick_choice_keys(v@.take(i as int)),
    {
        proof {
            assert(v@.take(i + 1) =~= v@.take(i as int).push(v@[i as int]));
        }
        r.push(v[i].draft_choice_id);
        proof {
            assert(r@ =~= pick_choice_keys(v@.take(i + 1)));
        }
    }
    proof {
        assert(v@.take(v@.len() as int) =~= v@);
    }
    r
}

fn pick_team_keys_of(v: &Vec<Pick>) -> (r: Vec<u128>)
    ensures
        r@ == pick_team_keys(v@),
{
    let mut r: Vec<u128> = Vec::new();
    for i in 0..v.len()
        invariant
            r@ == pick_team_keys(v@.take(i as int)),
    {
        proof {
            assert(v@.take(i + 1) =~= v@.take(i as int).push(v@[i as int]));
        }
        r.push(v[i].fantasy_team_id);
        proof {
            assert(r@ =~= pick_team_keys(v@.take(i + 1)));
        }
    }
    proof {
        assert(v@.take(v@.len() as int) =~= v@);
    }
    r
}

fn active_pick_keys_of(v: &Vec<ActivePick>) -> (r: Vec<u128>)
    ensures
        r@ == active_pick_keys(v@),
{
    let mut r: Vec<u128> = Vec::new();
    for i in 0..v.len()
        invariant
            r@ == active_pick_keys(v@.take(i as int)),
    {
        proof {
            assert(v@.take(i + 1) =~= v@.take(i as int).push(v@[i as int]));
        }
        r.push(v[i].pick_id);
        proof {
            assert(r@ =~= active_pick_keys(v@.take(i + 1)));
        }
    }
    proof {
        assert(v@.take(v@.len() as int) =~= v@);
    }
    r
}

fn draft_choice_ids_of(v: &Vec<DraftChoice>) -> (r: Vec<u128>)
    ensures
        r@ == draft_choice_ids(v@),
{
    let mut r: Vec<u128> = Vec::new();
    for i in 0..v.len()
        invariant
            r@ == draft_choice_ids(v@.take(i as int)),
    {
        proof {
            assert(v@.take(i + 1) =~= v@.take(i as int).push(v@[i as int]));
        }
        r.push(v[i].draft_choice_id);
        proof {
            assert(r@ =~= draft_choice_ids(v@.take(i + 1)));
        }
    }
    proof {
        assert(v@.take(v@.len() as int) =~= v@);
    }
    r
}

fn choice_team_draft_keys_of(v: &Vec<DraftChoice>) -> (r: Vec<u128>)
    ensures
        r@ == choice_team_draft_keys(v@),
{
    let mut r: Vec<u128> = Vec::new();
    for i in 0..v.len()
        invariant
            r@ == choice_team_draft_keys(v@.take(i as int)),
    {
        proof {
            assert(v@.take(i + 1) =~= v@.take(i as int).push(v@[i as int]));
        }
        r.push(v[i].team_draft_id);
        proof {
            assert(r@ =~= choice_team_draft_keys(v@.take(i + 1)));
        }
    }
    proof {
        assert(v@.take(v@.len() as int) =~= v@);
    }
    r
}

fn team_draft_ids_of(v: &Vec<TeamDraft>) -> (r: Vec<u128>)
    ensures
        r@ == team_draft_ids(v@),
{
    let mut r: Vec<u128> = Vec::new();
    for i in 0..v.len()
        invariant
            r@ == team_draft_ids(v@.take(i as int)),
    {
        proof {
            assert(v@.take(i + 1) =~= v@.take(i as int).push(v@[i as int]));
        }
        r.push(v[i].team_draft_id);
        proof {
            assert(r@ =~= team_draft_ids(v@.take(i + 1)));
        }
    }
    proof {
        assert(v@.take(v@.len() as int) =~= v@);
    }
    r
}

fn team_draft_draft_keys_of(v: &Vec<TeamDraft>) -> (r: Vec<u128>)
    ensures
        r@ == team_draft_draft_keys(v@),
{
    let mut r: Vec<u128> = Vec::new();
    for i in 0..v.len()
        invariant
            r@ == team_draft_draft_keys(v@.take(i as int)),
    {
        proof {
            assert(v@.take(i + 1) =~= v@.take(i as int).push(v@[i as int]));
        }
        r.push(v[i].draft_id);
        proof {
            assert(r@ =~= team_draft_draft_keys(v@.take(i + 1)));
        }
    }
    proof {
        assert(v@.take(v@.len() as int) =~= v@);
    }
    r
}

fn draft_ids_of(v: &Vec<Draft>) -> (r: Vec<u128>)
    ensures
        r@ == draft_ids(v@),
{
    let mut r: Vec<u128> = Vec::new();
    for i in 0..v.len()
        invariant
            r@ == draft_ids(v@.take(i as int)),
    {
        proof {
            assert(v@.take(i + 1) =~= v@.take(i as int).push(v@[i as int]));
        }
        r.push(v[i].draft_id);
        proof {
            assert(r@ =~= draft_ids(v@.take(i + 1)));
        }
    }
    proof {
        assert(v@.take(v@.len() as int) =~= v@);
    }
    r
}

pub fn fantasy_team_ids_of(v: &Vec<FantasyTeam>) -> (r: Vec<u128>)
    ensures
        r@ == fantasy_team_ids(v@),
{
    let mut r: Vec<u128> = Vec::new();
    for i in 0..v.len()
        invariant
            r@ == fantasy_team_ids(v@.take(i as int)),
    {
        proof {
            assert(v@.take(i + 1) =~= v@.take(i as int).push(v@[i as int]));
        }
        r.push(v[i].fantasy_team_id);
        proof {
            assert(r@ =~= fantasy_team_ids(v@.take(i + 1)));
        }
    }
    proof {
        assert(v@.take(v@.len() as int) =~= v@);
    }
    r
}


/// The number of team drafts reported in the first `m` drafts.
pub open spec fn reported_team_drafts(v: Seq<ApiDraftView>, m: int) -> int
    decreases m,
{
    if m <= 0 {
        0
    } else {
        reported_team_drafts(v, m - 1) + match v[m - 1].team_drafts {
            Some(t) => t.len() as int,
            None => 0,
        }
    }
}

proof fn lemma_reported_is_grouped(drafts: Seq<Draft>, tlv: Seq<TeamDraftEntryV>, fts: Seq<FantasyTeam>, m: int)
    requires
        0 <= m <= drafts.len(),
    ensures
        reported_team_drafts(
            draft_level(drafts, tlv).map_values(|e: DraftEntryV| api_draft_view(e, fts)),
            m,
        ) == grouped_total(tlv, tlv.map_values(|e: TeamDraftEntryV| e.0.draft_id), draft_ids(drafts), m),
    decreases m,
{
    if m > 0 {
        lemma_reported_is_grouped(drafts, tlv, fts, m - 1);
    }
}

/// Every team draft is reported under exactly one draft: when the rows are
/// accepted, the drafts reported by `full_drafts_from_rows` hold as many team
/// drafts as were given.
pub proof fn lemma_full_drafts_report_every_team_draft(
    drafts: Seq<Draft>,
    tds: Seq<TeamDraft>,
    fts: Seq<FantasyTeam>,
    dcs: Seq<DraftChoice>,
    picks: Seq<Pick>,
    aps: Seq<ActivePick>,
)
    requires
        full_drafts_rows_ok(drafts, tds, fts, dcs, picks, aps),
    ensures
        reported_team_drafts(full_drafts_spec(drafts, tds, fts, dcs, picks, aps), drafts.len() as int) == tds.len(),
{
    let tlv = team_draft_level(tds, choice_level(dcs, pick_level(picks, aps)));
    let keys = tlv.map_values(|e: TeamDraftEntryV| e.0.draft_id);
    assert(keys =~= team_draft_draft_keys(tds));
    lemma_reported_is_grouped(drafts, tlv, fts, drafts.len() as int);
    lemma_grouping_keeps_every_child(tlv, keys, draft_ids(drafts));
}

/// Every team draft is reported under exactly one draft by
/// `drafts_for_picks_from_rows` too.
pub proof fn lemma_drafts_for_picks_report_every_team_draft(
    drafts: Seq<Draft>,
    tds: Seq<TeamDraft>,
    fts: Seq<FantasyTeam>,
    dcs: Seq<DraftChoice>,
    picks: Seq<Pick>,
    aps: Seq<ActivePick>,
)
    requires
        drafts_for_picks_rows_ok(drafts, tds, fts, dcs, picks, aps),
    ensures
        reported_team_drafts(drafts_for_picks_spec(drafts, tds, fts, dcs, picks, aps), drafts.len() as int) == tds.len(),
{
    let tlv = team_draft_level(tds, choice_level_by_team(dcs, pick_level(picks, aps), fts));
    let keys = tlv.map_values(|e: TeamDraftEntryV| e.0.draft_id);
    assert(keys =~= team_draft_draft_keys(tds));
    lemma_reported_is_grouped(drafts, tlv, fts, drafts.len() as int);
    lemma_grouping_keeps_every_child(tlv, keys, draft_ids(drafts));
}

fn build_choice(e: ChoiceEntry, total: &mut Vec<ApiPick>) -> (r: ApiDraftChoice2)
    ensures
        r == choice_view(choice_entry_view(e)),
        final(total)@ == old(total)@ + active_of_choice(choice_entry_view(e).1),
{
    let ghost ev = choice_entry_view(e);
    let (dc, picks) = e;
    if picks.len() > 0 {
        let mut picks = picks;
        let (pick, aps) = picks.remove(0);
        assert(ev.1[0] == (pick, aps@));
        let ghost start = total@;
        let ghost player = pick.player_id;
        let ghost f = |ap: ActivePick| api_pick_of(ap, player);
        for j in 0..aps.len()
            invariant
                player == pick.player_id,
                f == (|ap: ActivePick| api_pick_of(ap, player)),
                total@ == start + aps@.take(j as int).map_values(f),
        {
            let ap = aps[j];
            let ghost prev = total@;
            total.push(ApiPick {
                pick_id: ap.pick_id,
                player_id: pick.player_id,
                timespan: ap.timespan,
                draft_id: None,
                fantasy_team_id: None,
            });
            proof {
                assert(aps@.take(j + 1).map_values(f) =~= aps@.take(j as int).map_values(f).push(f(aps@[j as int])));
                assert(f(aps@[j as int]) == total@.last());
                assert(total@ == prev.push(f(aps@[j as int])));
                assert(total@ =~= start + aps@.take(j + 1).map_values(f));
            }
        }
        proof {
            assert(aps@.take(aps@.len() as int) =~= aps@);
            assert(active_of_choice(ev.1) =~= aps@.map_values(f));
        }
        ApiDraftChoice2 { draft_choice_id: dc.draft_choice_id, timespan: dc.timespan, pick: Some(pick) }
    } else {
        proof {
            assert(total@ =~= total@ + Seq::<ApiPick>::empty());
        }
        ApiDraftChoice2 { draft_choice_id: dc.draft_choice_id, timespan: dc.timespan, pick: None }
    }
}

fn build_team_draft(e: TeamDraftEntry, ft: &FantasyTeam) -> (r: ApiTeamDraft)
    ensures
        r@ == team_draft_view(team_draft_entry_view(e), *ft),
{
    let ghost ev = team_draft_entry_view(e);
    let (td, cv) = e;
    let ghost all = cv@;
    let n = cv.len();
    let mut total: Vec<ApiPick> = Vec::new();
    let mut choices: Vec<ApiDraftChoice2> = Vec::new();
    let mut i: usize = 0;
    for c in it: cv.into_iter()
        invariant
            i == it.index(),
            it.seq() == all,
            n == all.len(),
            choices@ == all.take(i as int).map_values(|x: ChoiceEntry| choice_view(choice_entry_view(x))),
            total@ == active_of_team(all.take(i as int).map_values(|x: ChoiceEntry| choice_entry_view(x))),
    {
        let ch = build_choice(c, &mut total);
        choices.push(ch);
        proof {
            let pre = all.take(i as int).map_values(|x: ChoiceEntry| choice_entry_view(x));
            let post = all.take(i + 1).map_values(|x: ChoiceEntry| choice_entry_view(x));
            assert(post =~= pre.push(choice_entry_view(c)));
            assert(post.drop_last() =~= pre);
            assert(choices@ =~= all.take(i + 1).map_values(|x: ChoiceEntry| choice_view(choice_entry_view(x))));
        }
        i = i + 1;
    }
    proof {
        assert(all.take(n as int) =~= all);
        assert(choices@ =~= ev.1.map_values(|c: ChoiceEntryV| choice_view(c)));
    }
    ApiTeamDraft {
        team_draft_id: td.team_draft_id,
        fantasy_team_id: ft.fantasy_team_id,
        name: ft.name.clone(),
        external_user_id: ft.external_user_id,
        meta: ft.meta.clone(),
        draft_choices: Some(choices),
        active_picks: Some(total),
    }
}

fn build_api_draft(e: DraftEntry, fts: &Vec<FantasyTeam>, ft_ids: &Vec<u128>) -> (r: ApiDraft)
    requires
        ft_ids@ == fantasy_team_ids(fts@),
        e.1@.len() > 0,
        forall|k: int| 0 <= k < e.1@.len() ==> ft_ids@.contains(#[trigger] e.1@[k].0.fantasy_team_id),
    ensures
        r@ == api_draft_view(draft_entry_view(e), fts@),
{
    let ghost ev = draft_entry_view(e);
    let (d, v) = e;
    let ghost all = v@;
    let n = v.len();
    let mut league_id: u128 = 0;
    let mut out: Vec<ApiTeamDraft> = Vec::new();
    let mut i: usize = 0;
    for t in it: v.into_iter()
        invariant
            i == it.index(),
            it.seq() == all,
            n == all.len(),
            n > 0,
            ft_ids@ == fantasy_team_ids(fts@),
            forall|k: int| 0 <= k < all.len() ==> ft_ids@.contains(#[trigger] all[k].0.fantasy_team_id),
            out@.map_values(|x: ApiTeamDraft| x@) == all.take(i as int).map_values(
                |x: TeamDraftEntry| team_draft_view(team_draft_entry_view(x), team_of(fts@, x.0.fantasy_team_id))),
            i > 0 ==> league_id == team_of(fts@, all[i - 1].0.fantasy_team_id).league_id,
    {
        assert(ft_ids@.contains(all[i as int].0.fantasy_team_id));
        let idx = find_last(ft_ids, t.0.fantasy_team_id);
        assert(fts@[idx as int] == team_of(fts@, t.0.fantasy_team_id));
        let ft = &fts[idx];
        league_id = ft.league_id;
        let td = build_team_draft(t, ft);
        let ghost pre = out@;
        out.push(td);
        proof {
            let f = |x: TeamDraftEntry| team_draft_view(team_draft_entry_view(x), team_of(fts@, x.0.fantasy_team_id));
            assert(all.take(i + 1).map_values(f) =~= all.take(i as int).map_values(f).push(f(t)));
            assert(out@.map_values(|x: ApiTeamDraft| x@) =~= pre.map_values(|x: ApiTeamDraft| x@).push(td@));
        }
        i = i + 1;
    }
    proof {
        assert(all.take(n as int) =~= all);
        assert(ev.1.last().0 == all[n - 1].0);
        assert(out@.map_values(|x: ApiTeamDraft| x@) =~= ev.1.map_values(
            |t: TeamDraftEntryV| team_draft_view(t, team_of(fts@, t.0.fantasy_team_id))));
    }
    ApiDraft { league_id, draft_id: d.draft_id, period_id: d.period_id, meta: d.meta, team_drafts: Some(out) }
}

fn build_api_drafts(dl: Vec<DraftEntry>, fts: &Vec<FantasyTeam>) -> (r: Vec<ApiDraft>)
    requires
        drafts_buildable(dl@.map_values(|e: DraftEntry| draft_entry_view(e)), fts@),
    ensures
        r@.map_values(|d: ApiDraft| d@) == dl@.map_values(|e: DraftEntry| draft_entry_view(e)).map_values(
            |e: DraftEntryV| api_draft_view(e, fts@)),
{
    let ft_ids = fantasy_team_ids_of(fts);
    let ghost all = dl@;
    let ghost allv = dl@.map_values(|e: DraftEntry| draft_entry_view(e));
    let n = dl.len();
    let mut out: Vec<ApiDraft> = Vec::new();
    let mut i: usize = 0;
    for e in it: dl.into_iter()
        invariant
            i == it.index(),
            it.seq() == all,
            n == all.len(),
            allv == all.map_values(|e: DraftEntry| draft_entry_view(e)),
            ft_ids@ == fantasy_team_ids(fts@),
            drafts_buildable(allv, fts@),
            out@.map_values(|d: ApiDraft| d@) == allv.take(i as int).map_values(|e: DraftEntryV| api_draft_view(e, fts@)),
    {
        proof {
            assert(allv[i as int] == draft_entry_view(e));
            assert(allv[i as int].1.len() > 0);
            assert forall|k: int| 0 <= k < e.1@.len() implies ft_ids@.contains(#[trigger] e.1@[k].0.fantasy_team_id) by {
                assert(allv[i as int].1[k].0 == e.1@[k].0);
            }
        }
        let d = build_api_draft(e, fts, &ft_ids);
        let ghost pre = out@;
        out.push(d);
        proof {
            let f = |e: DraftEntryV| api_draft_view(e, fts@);
            assert(allv.take(i + 1).map_values(f) =~= allv.take(i as int).map_values(f).push(f(allv[i as int])));
            assert(out@.map_values(|d: ApiDraft| d@) =~= pre.map_values(|d: ApiDraft| d@).push(d@));
        }
        i = i + 1;
    }
    proof {
        assert(allv.take(n as int) =~= allv);
    }
    out
}


proof fn lemma_buildable(
    drafts: Seq<Draft>,
    tds: Seq<TeamDraft>,
    fts: Seq<FantasyTeam>,
    tlv: Seq<TeamDraftEntryV>,
)
    requires
        tlv.len() == tds.len(),
        forall|k: int| 0 <= k < tlv.len() ==> (#[trigger] tlv[k]).0 == tds[k],
        forall|i: int| 0 <= i < drafts.len() ==> #[trigger] draft_has_team_draft(drafts, tds, i),
        forall|k: int| 0 <= k < tds.len() ==> fantasy_team_ids(fts).contains(#[trigger] tds[k].fantasy_team_id),
    ensures
        drafts_buildable(draft_level(drafts, tlv), fts),
{
    let dl = draft_level(drafts, tlv);
    let keys = tlv.map_values(|e: TeamDraftEntryV| e.0.draft_id);
    let ids = draft_ids(drafts);
    assert forall|i: int| 0 <= i < dl.len() implies (#[trigger] dl[i]).1.len() > 0 by {
        lemma_group_nonempty(tlv, keys, ids, i);
        assert(draft_has_team_draft(drafts, tds, i));
        let k = choose|k: int| 0 <= k < tds.len() && last_index_of(ids, #[trigger] tds[k].draft_id) == i;
        assert(keys[k] == tds[k].draft_id);
    }
    assert forall|i: int, k: int| 0 <= i < dl.len() && 0 <= k < dl[i].1.len() implies
        fantasy_team_ids(fts).contains(#[trigger] dl[i].1[k].0.fantasy_team_id) by {
        lemma_group_at_members(tlv, keys, ids, i);
        assert(tlv.contains(dl[i].1[k]));
        let m = choose|m: int| 0 <= m < tlv.len() && tlv[m] == dl[i].1[k];
        assert(tds[m].fantasy_team_id == dl[i].1[k].0.fantasy_team_id);
    }
}

/// Nests loaded rows into the drafts that the API reports: active picks under
/// their picks, picks under their draft choices, draft choices under their
/// team drafts and team drafts under their drafts, each team draft reported
/// with its fantasy team's name, owner and metadata and the active picks of
/// the first pick of each of its draft choices.
pub fn full_drafts_from_rows(
    drafts: Vec<Draft>,
    tds: Vec<TeamDraft>,
    fts: &Vec<FantasyTeam>,
    dcs: Vec<DraftChoice>,
    picks: Vec<Pick>,
    aps: Vec<ActivePick>,
) -> (r: Vec<ApiDraft>)
    requires
        full_drafts_rows_ok(drafts@, tds@, fts@, dcs@, picks@, aps@),
    ensures
        r@.map_values(|d: ApiDraft| d@) == full_drafts_spec(drafts@, tds@, fts@, dcs@, picks@, aps@),
{
    let ghost d0 = drafts@;
    let ghost t0 = tds@;
    let ghost c0 = dcs@;
    let ghost p0 = picks@;
    let ghost a0 = aps@;
    let pk = pick_ids_of(&picks);
    let apk = active_pick_keys_of(&aps);
    let pck = pick_choice_keys_of(&picks);
    let dcids = draft_choice_ids_of(&dcs);
    let dck = choice_team_draft_keys_of(&dcs);
    let tdids = team_draft_ids_of(&tds);
    let tdk = team_draft_draft_keys_of(&tds);
    let dids = draft_ids_of(&drafts);

    let pl = attach(picks, &pk, aps, &apk);
    let ghost plv = pick_level(p0, a0);
    assert(pl@.map_values(|x: PickEntry| pick_entry_view(x)) =~= plv);

    let cl = attach(dcs, &dcids, pl, &pck);
    let ghost clv = choice_level(c0, plv);
    proof {
        lemma_attach_view(cl@, c0, pl@, pck@, dcids@, |x: PickEntry| pick_entry_view(x));
        assert(pck@ =~= plv.map_values(|e: PickEntryV| e.0.draft_choice_id));
        assert(cl@.map_values(|x: ChoiceEntry| choice_entry_view(x)) =~= clv);
    }

    let tl = attach(tds, &tdids, cl, &dck);
    let ghost tlv = team_draft_level(t0, clv);
    proof {
        lemma_attach_view(tl@, t0, cl@, dck@, tdids@, |x: ChoiceEntry| choice_entry_view(x));
        assert(dck@ =~= clv.map_values(|e: ChoiceEntryV| e.0.team_draft_id));
        assert(tl@.map_values(|x: TeamDraftEntry| team_draft_entry_view(x)) =~= tlv);
    }

    let dl = attach(drafts, &dids, tl, &tdk);
    let ghost dlv = draft_level(d0, tlv);
    proof {
        lemma_attach_view(dl@, d0, tl@, tdk@, dids@, |x: TeamDraftEntry| team_draft_entry_view(x));
        assert(tdk@ =~= tlv.map_values(|e: TeamDraftEntryV| e.0.draft_id));
        assert(dl@.map_values(|x: DraftEntry| draft_entry_view(x)) =~= dlv);
        lemma_buildable(d0, t0, fts@, tlv);
    }
    build_api_drafts(dl, fts)
}

/// Nests rows loaded for a set of picks into the drafts that the API reports,
/// as `full_drafts_from_rows` does, except that the picks are grouped by
/// fantasy team and the `i`-th group is paired with the `i`-th draft choice
/// (as far as both lists go).
pub fn drafts_for_picks_from_rows(
    drafts: Vec<Draft>,
    tds: Vec<TeamDraft>,
    fts: &Vec<FantasyTeam>,
    dcs: Vec<DraftChoice>,
    picks: Vec<Pick>,
    aps: Vec<ActivePick>,
) -> (r: Vec<ApiDraft>)
    requires
        drafts_for_picks_rows_ok(drafts@, tds@, fts@, dcs@, picks@, aps@),
    ensures
        r@.map_values(|d: ApiDraft| d@) == drafts_for_picks_spec(drafts@, tds@, fts@, dcs@, picks@, aps@),
{
    let ghost d0 = drafts@;
    let ghost t0 = tds@;
    let ghost c0 = dcs@;
    let ghost p0 = picks@;
    let ghost a0 = aps@;
    let pk = pick_ids_of(&picks);
    let apk = active_pick_keys_of(&aps);
    let ptk = pick_team_keys_of(&picks);
    let ftids = fantasy_team_ids_of(fts);
    let mut dck = choice_team_draft_keys_of(&dcs);
    let tdids = team_draft_ids_of(&tds);
    let tdk = team_draft_draft_keys_of(&tds);
    let dids = draft_ids_of(&drafts);
    let n = if dcs.len() <= fts.len() { dcs.len() } else { fts.len() };
    dck.truncate(n);

    let pl = attach(picks, &pk, aps, &apk);
    let ghost plv = pick_level(p0, a0);
    assert(pl@.map_values(|x: PickEntry| pick_entry_view(x)) =~= plv);

    let ghost pl0 = pl@;
    let groups = grouped_by(pl, &ptk, &ftids);
    let ghost g = groups@;
    let cl = zip_vecs(dcs, groups);
    let ghost clv = choice_level_by_team(c0, plv, fts@);
    proof {
        assert(ptk@ =~= plv.map_values(|e: PickEntryV| e.0.fantasy_team_id));
        assert forall|i: int| 0 <= i < cl@.len() implies #[trigger] choice_entry_view(cl@[i]) == clv[i] by {
            assert(cl@[i] == (c0[i], g[i]));
            lemma_group_at_map(pl0, ptk@, ftids@, i, |x: PickEntry| pick_entry_view(x));
        }
        assert(cl@.map_values(|x: ChoiceEntry| choice_entry_view(x)) =~= clv);
        assert(dck@ =~= choice_team_draft_keys(c0.take(n as int)));
    }

    let tl = attach(tds, &tdids, cl, &dck);
    let ghost tlv = team_draft_level(t0, clv);
    proof {
        lemma_attach_view(tl@, t0, cl@, dck@, tdids@, |x: ChoiceEntry| choice_entry_view(x));
        assert(dck@ =~= clv.map_values(|e: ChoiceEntryV| e.0.team_draft_id));
        assert(tl@.map_values(|x: TeamDraftEntry| team_draft_entry_view(x)) =~= tlv);
    }

    let dl = attach(drafts, &dids, tl, &tdk);
    let ghost dlv = draft_level(d0, tlv);
    proof {
        lemma_attach_view(dl@, d0, tl@, tdk@, dids@, |x: TeamDraftEntry| team_draft_entry_view(x));
        assert(tdk@ =~= tlv.map_values(|e: TeamDraftEntryV| e.0.draft_id));
        assert(dl@.map_values(|x: DraftEntry| draft_entry_view(x)) =~= dlv);
        lemma_buildable(d0, t0, fts@, tlv);
    }
    build_api_drafts(dl, fts)
}


fn contains_id(ids: &Vec<u128>, key: u128) -> (r: bool)
    ensures
        r == ids@.contains(key),
{
    for i in 0..ids.len()
        invariant
            forall|k: int| 0 <= k < i ==> ids@[k] != key,
    {
        if ids[i] == key {
            return true;
        }
    }
    false
}

pub(crate) fn all_resolve(keys: &Vec<u128>, ids: &Vec<u128>) -> (r: bool)
    ensures
        r == keys_resolve(keys@, ids@),
{
    for i in 0..keys.len()
        invariant
            forall|k: int| 0 <= k < i ==> #[trigger] ids@.contains(keys@[k]),
    {
        if !contains_id(ids, keys[i]) {
            return false;
        }
    }
    true
}

/// Whether every parent has at least one child resolving to it.
fn every_parent_has_child(keys: &Vec<u128>, ids: &Vec<u128>) -> (r: bool)
    requires
        keys_resolve(keys@, ids@),
    ensures
        r == forall|i: int| 0 <= i < ids@.len() ==> #[trigger] parent_has_child(keys@, ids@, i),
{
    let mut hit: Vec<bool> = Vec::new();
    for i in 0..ids.len()
        invariant
            hit@.len() == i,
            forall|j: int| 0 <= j < i ==> !(#[trigger] hit@[j]),
    {
        hit.push(false);
    }
    for k in 0..keys.len()
        invariant
            hit@.len() == ids@.len(),
            keys_resolve(keys@, ids@),
            forall|j: int| 0 <= j < hit@.len() ==> (#[trigger] hit@[j] <==>
                exists|m: int| 0 <= m < k && last_index_of(ids@, #[trigger] keys@[m]) == j),
    {
        assert(ids@.contains(keys@[k as int]));
        let t = find_last(ids, keys[k]);
        hit.set(t, true);
        proof {
            assert forall|j: int| 0 <= j < hit@.len() implies (#[trigger] hit@[j] <==>
                exists|m: int| 0 <= m < k + 1 && last_index_of(ids@, #[trigger] keys@[m]) == j) by {
                if j == t {
                    assert(last_index_of(ids@, keys@[k as int]) == j);
                }
            }
        }
    }
    for i in 0..hit.len()
        invariant
            hit@.len() == ids@.len(),
            forall|j: int| 0 <= j < hit@.len() ==> (#[trigger] hit@[j] <==>
                exists|m: int| 0 <= m < keys@.len() && last_index_of(ids@, #[trigger] keys@[m]) == j),
            forall|j: int| 0 <= j < i ==> #[trigger] hit@[j],
    {
        if !hit[i] {
            assert(!parent_has_child(keys@, ids@, i as int));
            return false;
        }
    }
    assert forall|j: int| 0 <= j < ids@.len() implies #[trigger] parent_has_child(keys@, ids@, j) by {
        assert(hit@[j]);
    }
    true
}

fn team_drafts_have_teams(tds: &Vec<TeamDraft>, ftids: &Vec<u128>) -> (r: bool)
    ensures
        r == forall|k: int| 0 <= k < tds@.len() ==> ftids@.contains(#[trigger] tds@[k].fantasy_team_id),
{
    for i in 0..tds.len()
        invariant
            forall|k: int| 0 <= k < i ==> ftids@.contains(#[trigger] tds@[k].fantasy_team_id),
    {
        if !contains_id(ftids, tds[i].fantasy_team_id) {
            return false;
        }
    }
    true
}

proof fn lemma_has_team_draft_iff(drafts: Seq<Draft>, tds: Seq<TeamDraft>)
    ensures
        (forall|i: int| 0 <= i < drafts.len() ==> #[trigger] draft_has_team_draft(drafts, tds, i)) <==>
        (forall|i: int| 0 <= i < draft_ids(drafts).len() ==>
            #[trigger] parent_has_child(team_draft_draft_keys(tds), draft_ids(drafts), i)),
{
    let keys = team_draft_draft_keys(tds);
    let ids = draft_ids(drafts);
    if forall|i: int| 0 <= i < drafts.len() ==> #[trigger] draft_has_team_draft(drafts, tds, i) {
        assert forall|i: int| 0 <= i < ids.len() implies #[trigger] parent_has_child(keys, ids, i) by {
            assert(draft_has_team_draft(drafts, tds, i));
            let k = choose|k: int| 0 <= k < tds.len() && last_index_of(ids, #[trigger] tds[k].draft_id) == i;
            assert(keys[k] == tds[k].draft_id);
        }
    }
    if forall|i: int| 0 <= i < ids.len() ==> #[trigger] parent_has_child(keys, ids, i) {
        assert forall|i: int| 0 <= i < drafts.len() implies #[trigger] draft_has_team_draft(drafts, tds, i) by {
            assert(parent_has_child(keys, ids, i));
            let k = choose|k: int| 0 <= k < keys.len() && last_index_of(ids, #[trigger] keys[k]) == i;
            assert(keys[k] == tds[k].draft_id);
        }
    }
}

/// Whether `full_drafts_from_rows` accepts the rows.
pub fn check_full_drafts_rows(
    drafts: &Vec<Draft>,
    tds: &Vec<TeamDraft>,
    fts: &Vec<FantasyTeam>,
    dcs: &Vec<DraftChoice>,
    picks: &Vec<Pick>,
    aps: &Vec<ActivePick>,
) -> (r: bool)
    ensures
        r == full_drafts_rows_ok(drafts@, tds@, fts@, dcs@, picks@, aps@),
{
    proof {
        lemma_has_team_draft_iff(drafts@, tds@);
    }
    let pk = pick_ids_of(picks);
    let apk = active_pick_keys_of(aps);
    let pck = pick_choice_keys_of(picks);
    let dcids = draft_choice_ids_of(dcs);
    let dck = choice_team_draft_keys_of(dcs);
    let tdids = team_draft_ids_of(tds);
    let tdk = team_draft_draft_keys_of(tds);
    let dids = draft_ids_of(drafts);
    let ftids = fantasy_team_ids_of(fts);
    if !all_resolve(&apk, &pk) || !all_resolve(&pck, &dcids) || !all_resolve(&dck, &tdids)
        || !all_resolve(&tdk, &dids) {
        return false;
    }
    every_parent_has_child(&tdk, &dids) && team_drafts_have_teams(tds, &ftids)
}

/// Whether `drafts_for_picks_from_rows` accepts the rows.
pub fn check_drafts_for_picks_rows(
    drafts: &Vec<Draft>,
    tds: &Vec<TeamDraft>,
    fts: &Vec<FantasyTeam>,
    dcs: &Vec<DraftChoice>,
    picks: &Vec<Pick>,
    aps: &Vec<ActivePick>,
) -> (r: bool)
    ensures
        r == drafts_for_picks_rows_ok(drafts@, tds@, fts@, dcs@, picks@, aps@),
{
    proof {
        lemma_has_team_draft_iff(drafts@, tds@);
    }
    let pk = pick_ids_of(picks);
    let apk = active_pick_keys_of(aps);
    let ptk = pick_team_keys_of(picks);
    let ftids = fantasy_team_ids_of(fts);
    let mut dck = choice_team_draft_keys_of(dcs);
    let n = if dcs.len() <= fts.len() { dcs.len() } else { fts.len() };
    dck.truncate(n);
    assert(dck@ =~= choice_team_draft_keys(dcs@.take(paired_len(dcs@, fts@))));
    let tdids = team_draft_ids_of(tds);
    let tdk = team_draft_draft_keys_of(tds);
    let dids = draft_ids_of(drafts);
    if !all_resolve(&apk, &pk) || !all_resolve(&ptk, &ftids) || !all_resolve(&dck, &tdids)
        || !all_resolve(&tdk, &dids) {
        return false;
    }
    every_parent_has_child(&tdk, &dids) && team_drafts_have_teams(tds, &ftids)
}


/// The active pick `ap` as reported for a pick of player `player_id`.
pub open spec fn reported_active_pick(ap: ActivePick, player_id: u128) -> ApiPick {
    ApiPick { pick_id: ap.pick_id, player_id, timespan: ap.timespan, draft_id: None, fantasy_team_id: None }
}

/// The active picks a draft choice contributes: those of its first pick, with that pick's player.
pub open spec fn choice_active_picks(c: ChoiceEntryV) -> Seq<ApiPick> {
    if c.1.len() == 0 {
        Seq::empty()
    } else {
        c.1[0].1.map_values(|ap: ActivePick| reported_active_pick(ap, c.1[0].0.player_id))
    }
}

proof fn lemma_active_of_team_is_flatten(v: Seq<ChoiceEntryV>)
    ensures
        active_of_team(v) == v.map_values(|c: ChoiceEntryV| choice_active_picks(c)).flatten(),
    decreases v.len(),
{
    let h = |c: ChoiceEntryV| choice_active_picks(c);
    if v.len() == 0 {
        assert(v.map_values(h).flatten() =~= Seq::<ApiPick>::empty());
    } else {
        let pre = v.drop_last();
        lemma_active_of_team_is_flatten(pre);
        assert(v.map_values(h) =~= pre.map_values(h).push(h(v.last())));
        pre.map_values(h).lemma_flatten_push(h(v.last()));
        assert(active_of_choice(v.last().1) =~= h(v.last()));
    }
}

/// A team draft reports, as its active picks, those of the first pick of
/// every one of its draft choices: choice by choice in order, each active
/// pick with its pick's player. None is dropped and none is added.
pub proof fn lemma_team_draft_reports_every_choice_active_picks(e: TeamDraftEntryV, ft: FantasyTeam)
    ensures
        team_draft_view(e, ft).active_picks == Some(e.1.map_values(|c: ChoiceEntryV| choice_active_picks(c)).flatten()),
        forall|k: int, j: int| 0 <= k < e.1.len() && e.1[k].1.len() > 0 && 0 <= j < e.1[k].1[0].1.len() ==>
            (#[trigger] team_draft_view(e, ft).active_picks->0.contains(
                ApiPick {
                    pick_id: e.1[k].1[0].1[j].pick_id,
                    player_id: e.1[k].1[0].0.player_id,
                    timespan: e.1[k].1[0].1[j].timespan,
                    draft_id: None,
                    fantasy_team_id: None,
                },
            )),
{
    lemma_active_of_team_is_flatten(e.1);
    let h = |c: ChoiceEntryV| choice_active_picks(c);
    let parts = e.1.map_values(h);
    assert forall|k: int, j: int| 0 <= k < e.1.len() && e.1[k].1.len() > 0 && 0 <= j < e.1[k].1[0].1.len() implies
        (#[trigger] team_draft_view(e, ft).active_picks->0.contains(
            ApiPick {
                pick_id: e.1[k].1[0].1[j].pick_id,
                player_id: e.1[k].1[0].0.player_id,
                timespan: e.1[k].1[0].1[j].timespan,
                draft_id: None,
                fantasy_team_id: None,
            },
        )) by {
        assert(parts[k] == choice_active_picks(e.1[k]));
        assert(parts[k][j] == reported_active_pick(e.1[k].1[0].1[j], e.1[k].1[0].0.player_id));
        crate::grouping::lemma_flatten_contains(parts, k, j);
    }
}


/// A reported draft carries its own id, period and metadata and the league of
/// the fantasy team of its last team draft; it reports every team draft in
/// order, each with its fantasy team's id, name, owner and metadata (the last
/// fantasy team row with that id) and every one of its draft choices in
/// order, each with the first pick made in it, or none.
pub proof fn lemma_reported_draft_fields(e: DraftEntryV, fts: Seq<FantasyTeam>)
    ensures
        api_draft_view(e, fts).draft_id == e.0.draft_id,
        api_draft_view(e, fts).period_id == e.0.period_id,
        api_draft_view(e, fts).meta == e.0.meta,
        api_draft_view(e, fts).league_id
            == fts[last_index_of(fts.map_values(|f: FantasyTeam| f.fantasy_team_id), e.1.last().0.fantasy_team_id)].league_id,
        api_draft_view(e, fts).team_drafts is Some,
        api_draft_view(e, fts).team_drafts->0.len() == e.1.len(),
        forall|t: int| 0 <= t < e.1.len() ==> {
            let td = #[trigger] api_draft_view(e, fts).team_drafts->0[t];
            let ft = fts[last_index_of(fts.map_values(|f: FantasyTeam| f.fantasy_team_id), e.1[t].0.fantasy_team_id)];
            &&& td.team_draft_id == e.1[t].0.team_draft_id
            &&& td.fantasy_team_id == ft.fantasy_team_id
            &&& td.name == ft.name
            &&& td.external_user_id == ft.external_user_id
            &&& td.meta == ft.meta
            &&& td.draft_choices is Some
            &&& td.draft_choices->0.len() == e.1[t].1.len()
            &&& forall|c: int| 0 <= c < e.1[t].1.len() ==> #[trigger] td.draft_choices->0[c] == (ApiDraftChoice2 {
                draft_choice_id: e.1[t].1[c].0.draft_choice_id,
                timespan: e.1[t].1[c].0.timespan,
                pick: if e.1[t].1[c].1.len() > 0 { Some(e.1[t].1[c].1[0].0) } else { None },
            })
        },
{
    assert(fts.map_values(|f: FantasyTeam| f.fantasy_team_id) =~= fantasy_team_ids(fts));
}


/// With no repeated ids, every level of the hierarchy holds exactly the rows
/// that name it, in row order: a pick its active picks, a draft choice its
/// picks, a team draft its draft choices, and a draft its team drafts.
pub proof fn lemma_levels_hold_the_rows_that_name_them(
    drafts: Seq<Draft>,
    tds: Seq<TeamDraft>,
    dcs: Seq<DraftChoice>,
    picks: Seq<Pick>,
    aps: Seq<ActivePick>,
    pl: Seq<PickEntryV>,
    cl: Seq<ChoiceEntryV>,
    tl: Seq<TeamDraftEntryV>,
    i: int,
)
    ensures
        pick_ids(picks).no_duplicates() && 0 <= i < picks.len() ==>
            pick_level(picks, aps)[i].1 == aps.filter(|a: ActivePick| a.pick_id == picks[i].pick_id),
        draft_choice_ids(dcs).no_duplicates() && 0 <= i < dcs.len() ==>
            choice_level(dcs, pl)[i].1 == pl.filter(|e: PickEntryV| e.0.draft_choice_id == dcs[i].draft_choice_id),
        team_draft_ids(tds).no_duplicates() && 0 <= i < tds.len() ==>
            team_draft_level(tds, cl)[i].1 == cl.filter(|e: ChoiceEntryV| e.0.team_draft_id == tds[i].team_draft_id),
        draft_ids(drafts).no_duplicates() && 0 <= i < drafts.len() ==>
            draft_level(drafts, tl)[i].1 == tl.filter(|e: TeamDraftEntryV| e.0.draft_id == drafts[i].draft_id),
{
    if pick_ids(picks).no_duplicates() && 0 <= i < picks.len() {
        let f = |a: ActivePick| a.pick_id;
        assert(active_pick_keys(aps) =~= aps.map_values(f));
        lemma_group_at_distinct_is_filter(aps, f, pick_ids(picks), i);
        assert(key_is(f, pick_ids(picks)[i]) =~= (|a: ActivePick| a.pick_id == picks[i].pick_id));
    }
    if draft_choice_ids(dcs).no_duplicates() && 0 <= i < dcs.len() {
        let f = |e: PickEntryV| e.0.draft_choice_id;
        assert(pl.map_values(|e: PickEntryV| e.0.draft_choice_id) =~= pl.map_values(f));
        lemma_group_at_distinct_is_filter(pl, f, draft_choice_ids(dcs), i);
        assert(key_is(f, draft_choice_ids(dcs)[i]) =~= (|e: PickEntryV| e.0.draft_choice_id == dcs[i].draft_choice_id));
    }
    if team_draft_ids(tds).no_duplicates() && 0 <= i < tds.len() {
        let f = |e: ChoiceEntryV| e.0.team_draft_id;
        assert(cl.map_values(|e: ChoiceEntryV| e.0.team_draft_id) =~= cl.map_values(f));
        lemma_group_at_distinct_is_filter(cl, f, team_draft_ids(tds), i);
        assert(key_is(f, team_draft_ids(tds)[i]) =~= (|e: ChoiceEntryV| e.0.team_draft_id == tds[i].team_draft_id));
    }
    if draft_ids(drafts).no_duplicates() && 0 <= i < drafts.len() {
        let f = |e: TeamDraftEntryV| e.0.draft_id;
        assert(tl.map_values(|e: TeamDraftEntryV| e.0.draft_id) =~= tl.map_values(f));
        lemma_group_at_distinct_is_filter(tl, f, draft_ids(drafts), i);
        assert(key_is(f, draft_ids(drafts)[i]) =~= (|e: TeamDraftEntryV| e.0.draft_id == drafts[i].draft_id));
    }
}


/// For drafts loaded for picks, the `i`-th draft choice is paired, as far as
/// both lists go, with the picks of the `i`-th fantasy team, in row order,
/// when fantasy team ids do not repeat.
pub proof fn lemma_choices_paired_with_team_picks(dcs: Seq<DraftChoice>, pl: Seq<PickEntryV>, fts: Seq<FantasyTeam>, i: int)
    requires
        fantasy_team_ids(fts).no_duplicates(),
        0 <= i < dcs.len(),
        0 <= i < fts.len(),
    ensures
        choice_level_by_team(dcs, pl, fts).len() == if dcs.len() <= fts.len() { dcs.len() } else { fts.len() },
        choice_level_by_team(dcs, pl, fts)[i].0 == dcs[i],
        choice_level_by_team(dcs, pl, fts)[i].1 == pl.filter(|e: PickEntryV| e.0.fantasy_team_id == fts[i].fantasy_team_id),
{
    let f = |e: PickEntryV| e.0.fantasy_team_id;
    assert(pl.map_values(|e: PickEntryV| e.0.fantasy_team_id) =~= pl.map_values(f));
    lemma_group_at_distinct_is_filter(pl, f, fantasy_team_ids(fts), i);
    assert(key_is(f, fantasy_team_ids(fts)[i]) =~= (|e: PickEntryV| e.0.fantasy_team_id == fts[i].fantasy_team_id));
}

} // verus!

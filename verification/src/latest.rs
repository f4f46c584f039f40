//! The latest line-up of every fantasy team.
use vstd::prelude::*;
use std::collections::HashMap;

verus! {

broadcast use vstd::std_specs::hash::group_hash_axioms;

/// The players of team `t` among `(team, player)` rows, in row order.
pub open spec fn players_of(rows: Seq<(u128, u128)>, t: u128) -> Seq<u128>
    decreases rows.len(),
{
    if rows.len() == 0 {
        Seq::empty()
    } else {
        let rest = players_of(rows.drop_last(), t);
        if rows.last().0 == t { rest.push(rows.last().1) } else { rest }
    }
}

/// Some row names team `t`.
pub open spec fn has_team(rows: Seq<(u128, u128)>, t: u128) -> bool {
    exists|k: int| 0 <= k < rows.len() && (#[trigger] rows[k]).0 == t
}

/// Every row's player is listed among its team's players.
pub proof fn lemma_every_row_listed(rows: Seq<(u128, u128)>, k: int)
    requires
        0 <= k < rows.len(),
    ensures
        players_of(rows, rows[k].0).contains(rows[k].1),
    decreases rows.len(),
{
    let t = rows[k].0;
    if k == rows.len() - 1 {
        let r = players_of(rows.drop_last(), t).push(rows.last().1);
        assert(r[r.len() - 1] == rows[k].1);
    } else {
        lemma_every_row_listed(rows.drop_last(), k);
        assert(rows.drop_last()[k] == rows[k]);
        let r = players_of(rows.drop_last(), t);
        let j = choose|j: int| 0 <= j < r.len() && r[j] == rows[k].1;
        if rows.last().0 == t {
            assert(r.push(rows.last().1)[j] == rows[k].1);
        }
    }
}

proof fn lemma_no_team_no_players(rows: Seq<(u128, u128)>, t: u128)
    requires
        !has_team(rows, t),
    ensures
        players_of(rows, t).len() == 0,
    decreases rows.len(),
{
    if rows.len() > 0 {
        assert(rows.last() == rows[rows.len() - 1]);
        assert(!has_team(rows.drop_last(), t)) by {
            if has_team(rows.drop_last(), t) {
                let k = choose|k: int| 0 <= k < rows.drop_last().len() && (#[trigger] rows.drop_last()[k]).0 == t;
                assert(rows[k] == rows.drop_last()[k]);
            }
        }
        lemma_no_team_no_players(rows.drop_last(), t);
    }
}

/// Groups `(fantasy team, player)` rows into each team's players, in row order.
pub fn latest_teams_from_rows(rows: &Vec<(u128, u128)>) -> (m: HashMap<u128, Vec<u128>>)
    ensures
        forall|t: u128| #[trigger] m@.contains_key(t) <==> has_team(rows@, t),
        forall|t: u128| #[trigger] m@.contains_key(t) ==> m@[t]@ == players_of(rows@, t),
{
    let mut m: HashMap<u128, Vec<u128>> = HashMap::new();
    for i in 0..rows.len()
        invariant
            forall|t: u128| #[trigger] m@.contains_key(t) <==> has_team(rows@.take(i as int), t),
            forall|t: u128| #[trigger] m@.contains_key(t) ==> m@[t]@ == players_of(rows@.take(i as int), t),
    {
        let (team_id, player_id) = rows[i];
        let ghost pre = rows@.take(i as int);
        let ghost post = rows@.take(i + 1);
        assert(post.drop_last() =~= pre);
        assert(post.last() == (team_id, player_id));
        let ghost old_m = m@;
        match m.remove(&team_id) {
            Some(v) => {
                assert(old_m.contains_key(team_id) && old_m[team_id] == v);
                assert(m@ == old_m.remove(team_id));
                let mut v = v;
                v.push(player_id);
                m.insert(team_id, v);
                assert(m@[team_id]@ == old_m[team_id]@.push(player_id));
            },
            None => {
                assert(!old_m.contains_key(team_id));
                assert(m@ == old_m.remove(team_id));
                let mut v: Vec<u128> = Vec::new();
                v.push(player_id);
                m.insert(team_id, v);
                assert(m@[team_id]@ =~= seq![player_id]);
                assert(!has_team(pre, team_id));
                assert(players_of(pre, team_id) =~= Seq::<u128>::empty()) by {
                    lemma_no_team_no_players(pre, team_id);
                }
            },
        }
        proof {
            assert forall|t: u128| #[trigger] m@.contains_key(t) <==> has_team(post, t) by {
                if has_team(pre, t) {
                    let k = choose|k: int| 0 <= k < pre.len() && (#[trigger] pre[k]).0 == t;
                    assert(post[k] == pre[k]);
                }
                if t == team_id {
                    assert(post[i as int].0 == t);
                }
                if has_team(post, t) && t != team_id {
                    let k = choose|k: int| 0 <= k < post.len() && (#[trigger] post[k]).0 == t;
                    assert(k < i);
                    assert(pre[k] == post[k]);
                }
            }
            assert forall|t: u128| #[trigger] m@.contains_key(t) implies m@[t]@ == players_of(post, t) by {
                if t != team_id {
                    assert(old_m.contains_key(t));
                    assert(m@[t] == old_m[t]);
                }
            }
        }
    }
    proof {
        assert(rows@.take(rows@.len() as int) =~= rows@);
    }
    m
}

} // verus!

//! Which leaderboards a request concerns.
use vstd::prelude::*;
use itertools::Itertools;

verus! {

/// `s` without the elements equal to the one just before them.
pub open spec fn dedup_spec(s: Seq<u128>) -> Seq<u128>
    decreases s.len(),
{
    if s.len() == 0 {
        Seq::empty()
    } else if s.len() >= 2 && s[s.len() - 1] == s[s.len() - 2] {
        dedup_spec(s.drop_last())
    } else {
        dedup_spec(s.drop_last()).push(s.last())
    }
}

/// Removing repeats keeps exactly the elements given, and leaves no two
/// equal elements next to each other.
pub proof fn lemma_dedup_keeps_elements_without_repeats(s: Seq<u128>)
    ensures
        forall|x: u128| dedup_spec(s).contains(x) <==> s.contains(x),
        forall|i: int| 0 <= i < dedup_spec(s).len() - 1 ==> #[trigger] dedup_spec(s)[i] != dedup_spec(s)[i + 1],
        s.len() > 0 ==> dedup_spec(s).len() > 0 && dedup_spec(s).last() == s.last(),
    decreases s.len(),
{
    if s.len() > 0 {
        let p = s.drop_last();
        let d = dedup_spec(p);
        lemma_dedup_keeps_elements_without_repeats(p);
        assert forall|x: u128| dedup_spec(s).contains(x) <==> s.contains(x) by {
            if p.contains(x) {
                let k = choose|k: int| 0 <= k < p.len() && p[k] == x;
                assert(s[k] == x);
            }
            if s.contains(x) && x != s.last() {
                let k = choose|k: int| 0 <= k < s.len() && s[k] == x;
                assert(k < s.len() - 1);
                assert(p[k] == x);
            }
            if s.len() >= 2 && s[s.len() - 1] == s[s.len() - 2] {
                if x == s.last() {
                    assert(p.last() == x);
                    assert(p[p.len() - 1] == x);
                }
            } else {
                let dp = d.push(s.last());
                assert(dp[d.len() as int] == s.last());
                if d.contains(x) {
                    let k = choose|k: int| 0 <= k < d.len() && d[k] == x;
                    assert(dp[k] == x);
                }
                if dp.contains(x) && x != s.last() {
                    let k = choose|k: int| 0 <= k < dp.len() && dp[k] == x;
                    assert(k < d.len());
                    assert(d[k] == x);
                }
                if x == s.last() {
                    assert(s[s.len() - 1] == x);
                }
            }
        }
        if !(s.len() >= 2 && s[s.len() - 1] == s[s.len() - 2]) {
            let dp = d.push(s.last());
            assert forall|i: int| 0 <= i < dp.len() - 1 implies #[trigger] dp[i] != dp[i + 1] by {
                if i == dp.len() - 2 {
                    assert(d.last() == p.last());
                    assert(p.last() == s[s.len() - 2]);
                } else {
                    assert(dp[i] == d[i] && dp[i + 1] == d[i + 1]);
                }
            }
        }
    }
}

/// Calls `itertools::Itertools::dedup` on the elements of `v` and collects
/// them: a run of equal consecutive elements is kept once, as the crate
/// documents ("Remove duplicates from sections of consecutive identical
/// elements").
#[verifier::external_body]
fn dedup_ids(v: Vec<u128>) -> (r: Vec<u128>)
    ensures
        r@ == dedup_spec(v@),
{
    v.into_iter().dedup().collect()
}

/// The leaderboards whose latest standings are published after stats were
/// stored: the stats' leaderboard ids, with runs of the same id kept once.
pub fn leaderboards_to_publish(stat_leaderboard_ids: Vec<u128>) -> (r: Vec<u128>)
    ensures
        r@ == dedup_spec(stat_leaderboard_ids@),
{
    dedup_ids(stat_leaderboard_ids)
}

/// The leaderboards to report to a subscriber: all of them (`None`) when it
/// subscribed to everything, otherwise those it subscribed to.
pub fn leaderboard_filter(all: bool, subscribed_ids: Vec<u128>) -> (r: Option<Vec<u128>>)
    ensures
        all ==> r is None,
        !all ==> (r matches Some(v) && v@ == subscribed_ids@),
{
    if all {
        None
    } else {
        Some(subscribed_ids)
    }
}

} // verus!

//! The decisions of the loops that generate drafts when their period's
//! draft starts and fill draft choices when their time runs out.
use vstd::prelude::*;
use crate::timespan::{TimeBound, Timespan, bound_instant};

verus! {

/// What a pass over pending items does with the next one.
#[derive(Clone, Copy, Debug, PartialEq, Eq, Structural)]
pub enum DueStep {
    /// Its instant has passed: handle it and go on to the next item.
    Process,
    /// Its instant is this many microseconds away: end the pass and wait.
    Wait(i64),
}

/// The step for an item due at `due` when the clock reads `now`: it is
/// handled when `due - now` is negative, and otherwise the pass ends with a
/// wait of `due - now`.
pub fn due_step(due: i64, now: i64) -> (s: DueStep)
    requires
        i64::MIN <= due - now <= i64::MAX,
    ensures
        s == step_of(due, now),
        due - now < 0 ==> s == DueStep::Process,
        due - now >= 0 ==> s == DueStep::Wait((due - now) as i64),
{
    let until = due - now;
    if until < 0 {
        DueStep::Process
    } else {
        DueStep::Wait(until)
    }
}

/// The instant at which an unchosen draft choice runs out: the end of its
/// span, whether that end is included or not. The span must have an end.
pub fn choice_deadline(timespan: &Timespan) -> (due: i64)
    requires
        !(timespan.upper is Unbounded),
    ensures
        due == bound_instant(timespan.upper),
{
    match timespan.upper {
        TimeBound::Included(x) => x,
        TimeBound::Excluded(x) => x,
        TimeBound::Unbounded => 0,
    }
}

/// How a loop waits after a pass.
#[derive(Clone, Copy, Debug, PartialEq, Eq, Structural)]
pub enum WaitPlan {
    /// Sleep this many microseconds, then wake itself.
    Sleep(i64),
    /// Nothing is pending: wait until something else wakes the loop.
    UntilWoken,
}

/// The wait after a pass: a sleep until the next item is due when the pass
/// ended on one that was not, and otherwise a wait to be woken.
pub fn wait_after_pass(timeout: Option<i64>) -> (w: WaitPlan)
    ensures
        timeout matches Some(t) ==> w == WaitPlan::Sleep(t),
        timeout is None ==> w == WaitPlan::UntilWoken,
{
    match timeout {
        Some(t) => WaitPlan::Sleep(t),
        None => WaitPlan::UntilWoken,
    }
}

/// Whether each of `num_teams` fantasy teams has its draft choice on the
/// clock: the count of draft choices of those teams whose span holds the
/// present instant equals the number of teams.
pub fn every_team_on_the_clock(current_choices: i64, num_teams: usize) -> (r: bool)
    ensures
        r == (current_choices == num_teams as i64),
{
    current_choices == num_teams as i64
}


/// The step for an item due at `due` when the clock reads `now`.
pub open spec fn step_of(due: i64, now: i64) -> DueStep {
    if due - now < 0 {
        DueStep::Process
    } else {
        DueStep::Wait((due - now) as i64)
    }
}

/// A pass over items due at `dues`, in order, where `nows[i]` is the clock
/// reading when item `i` is looked at: each item is handled while its step
/// is `Process`; the first `Wait` ends the pass with that timeout, and a pass
/// that handles every item ends with none. The result is the number of items
/// handled and the timeout.
pub open spec fn pass_outcome(dues: Seq<i64>, nows: Seq<i64>) -> (int, Option<i64>)
    decreases dues.len(),
{
    if dues.len() == 0 {
        (0, None)
    } else {
        match step_of(dues[0], nows[0]) {
            DueStep::Process => {
                let rest = pass_outcome(dues.drop_first(), nows.drop_first());
                (rest.0 + 1, rest.1)
            },
            DueStep::Wait(t) => (0, Some(t)),
        }
    }
}

/// Every difference between a due instant and its clock reading fits in `i64`.
pub open spec fn pass_in_range(dues: Seq<i64>, nows: Seq<i64>) -> bool {
    &&& nows.len() == dues.len()
    &&& forall|i: int| 0 <= i < dues.len() ==> i64::MIN <= #[trigger] dues[i] - nows[i] <= i64::MAX
}

/// A pass handles a prefix of the items, each of which was due when it was
/// looked at; it stops at the first item not yet due, with the time left
/// until that item as its timeout, and ends with no timeout when it handled
/// every item.
pub proof fn lemma_pass_handles_the_due_prefix(dues: Seq<i64>, nows: Seq<i64>)
    requires
        pass_in_range(dues, nows),
    ensures
        0 <= pass_outcome(dues, nows).0 <= dues.len(),
        forall|i: int| 0 <= i < pass_outcome(dues, nows).0 ==> #[trigger] dues[i] < nows[i],
        pass_outcome(dues, nows).0 < dues.len() ==> {
            let k = pass_outcome(dues, nows).0;
            &&& dues[k] >= nows[k]
            &&& pass_outcome(dues, nows).1 == Some((dues[k] - nows[k]) as i64)
        },
        pass_outcome(dues, nows).0 == dues.len() ==> pass_outcome(dues, nows).1 is None,
    decreases dues.len(),
{
    if dues.len() > 0 {
        let d = dues.drop_first();
        let n = nows.drop_first();
        assert forall|i: int| 0 <= i < d.len() implies i64::MIN <= #[trigger] d[i] - n[i] <= i64::MAX by {
            assert(d[i] == dues[i + 1] && n[i] == nows[i + 1]);
        }
        lemma_pass_handles_the_due_prefix(d, n);
        if dues[0] - nows[0] < 0 {
            let k = pass_outcome(dues, nows).0;
            assert forall|i: int| 0 <= i < k implies #[trigger] dues[i] < nows[i] by {
                if i > 0 {
                    assert(d[i - 1] < n[i - 1]);
                }
            }
            if k < dues.len() {
                assert(dues[k] == d[k - 1] && nows[k] == n[k - 1]);
            }
        }
    }
}

/// When the items come in order of their due instants and the clock does not
/// go back, a pass handles every item that was already due when the pass
/// began, and the items it handles are exactly those due when looked at,
/// up to the first that is not.
pub proof fn lemma_sorted_pass_handles_every_item_due_at_its_start(dues: Seq<i64>, nows: Seq<i64>)
    requires
        pass_in_range(dues, nows),
        forall|i: int, j: int| 0 <= i <= j < dues.len() ==> dues[i] <= dues[j],
        forall|i: int, j: int| 0 <= i <= j < nows.len() ==> nows[i] <= nows[j],
    ensures
        forall|i: int| 0 <= i < dues.len() && #[trigger] dues[i] < nows[0] ==> i < pass_outcome(dues, nows).0,
{
    lemma_pass_handles_the_due_prefix(dues, nows);
    let k = pass_outcome(dues, nows).0;
    assert forall|i: int| 0 <= i < dues.len() && #[trigger] dues[i] < nows[0] implies i < k by {
        if k <= i {
            assert(dues[k] <= dues[i]);
            assert(nows[0] <= nows[k]);
        }
    }
}

} // verus!

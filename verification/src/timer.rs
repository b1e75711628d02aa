//! The refresh timer over a run of calls: a timer that is asked often enough
//! is due once in every period, and the mirror queues its periodic requests
//! exactly when the timer is due.

use vstd::prelude::*;
use crate::order::{lemma_refresh_repos_ordered, lemma_round_ordered};
use crate::{GithubDbView, Interval};

verus! {

/// Whether the times `times` do not go back.
pub open spec fn in_time_order(times: Seq<u64>) -> bool {
    forall|i: int, j: int| 0 <= i <= j < times.len() ==> times[i] <= times[j]
}

impl Interval {
    /// The timer after it was asked at each of `times`, in turn.
    pub open spec fn polled_at(self, times: Seq<u64>) -> Interval
        decreases times.len(),
    {
        if times.len() == 0 {
            self
        } else {
            self.polled_at(times.drop_last()).polled(times.last())
        }
    }

    /// How often the timer is due when it is asked at each of `times`, in
    /// turn.
    pub open spec fn times_due(self, times: Seq<u64>) -> nat
        decreases times.len(),
    {
        if times.len() == 0 {
            0
        } else {
            let before = self.times_due(times.drop_last());
            if self.polled_at(times.drop_last()).due(times.last()) {
                before + 1
            } else {
                before
            }
        }
    }
}

impl GithubDbView {
    /// The mirror after its periodic entry point was called at each of
    /// `times`, in turn.
    pub open spec fn updated_at(self, times: Seq<u64>) -> GithubDbView
        decreases times.len(),
    {
        if times.len() == 0 {
            self
        } else {
            self.updated_at(times.drop_last()).update(times.last())
        }
    }
}

/// A timer that is asked at times within its first two periods is due once:
/// at the first of them that is a period or more after its start. If none is,
/// it is not due at all.
pub proof fn lemma_due_once(period: u64, start: u64, times: Seq<u64>)
    requires
        period > 0,
        start + 2 * period <= u64::MAX,
        in_time_order(times),
        forall|i: int| 0 <= i < times.len() ==> start <= #[trigger] times[i] < start + 2 * period,
    ensures
        Interval::starting(period, start).times_due(times) == (if times.len() > 0 && times.last()
            >= start + period {
            1nat
        } else {
            0nat
        }),
        Interval::starting(period, start).polled_at(times).period == period,
        Interval::starting(period, start).polled_at(times).deadline == (if times.len() > 0
            && times.last() >= start + period {
            start + 2 * period
        } else {
            start + period
        }),
    decreases times.len(),
{
    if times.len() > 0 {
        let front = times.drop_last();
        assert(forall|i: int| 0 <= i < front.len() ==> front[i] == times[i]);
        lemma_due_once(period, start, front);
        if front.len() > 0 {
            assert(front.last() == times[front.len() - 1]);
            assert(front.last() <= times.last());
        }
    }
}

/// A call of the periodic entry point queues two requests for each
/// repository if the timer is due, and none if it is not.
pub proof fn lemma_update_queues(s: GithubDbView, now: u64)
    requires
        s.queue_ordered(),
        s.request_sequence_number + 2 * s.repos.len() <= i64::MAX,
    ensures
        s.update(now).queue_ordered(),
        s.update(now).refresh == s.refresh.polled(now),
        s.update(now).repos == s.repos,
        s.update(now).request_sequence_number == s.request_sequence_number + (if s.refresh.due(
            now,
        ) {
            2 * s.repos.len()
        } else {
            0
        }),
{
    let polled = GithubDbView { refresh: s.refresh.polled(now), ..s };
    lemma_refresh_repos_ordered(polled, polled.repos);
    let refreshed = if s.refresh.due(now) {
        polled.refresh()
    } else {
        polled
    };
    lemma_refresh_repos_same(polled, polled.repos);
    lemma_round_ordered(
        refreshed.limits,
        refreshed.db,
        now,
        refreshed.request_sequence_number,
    );
}

/// Refreshing repositories changes the queue and the next sequence number
/// only.
pub proof fn lemma_refresh_repos_same(s: GithubDbView, repos: Seq<crate::repo::RepoView>)
    ensures
        s.refresh_repos(repos).repos == s.repos,
        s.refresh_repos(repos).refresh == s.refresh,
        s.refresh_repos(repos).limits == s.limits,
    decreases repos.len(),
{
    if repos.len() > 0 {
        lemma_refresh_repos_same(s, repos.drop_last());
    }
}

/// Over a run of calls of the periodic entry point, two requests are queued
/// for each repository every time that the timer is due, and no other.
pub proof fn lemma_refreshes_counted(s: GithubDbView, times: Seq<u64>)
    requires
        s.queue_ordered(),
        s.request_sequence_number + 2 * s.repos.len() * times.len() <= i64::MAX,
    ensures
        s.updated_at(times).queue_ordered(),
        s.updated_at(times).refresh == s.refresh.polled_at(times),
        s.updated_at(times).repos == s.repos,
        s.updated_at(times).request_sequence_number == s.request_sequence_number + 2
            * s.repos.len() * s.refresh.times_due(times),
        s.refresh.times_due(times) <= times.len(),
    decreases times.len(),
{
    let each = 2 * s.repos.len();
    if times.len() > 0 {
        let front = times.drop_last();
        let calls = front.len();
        let due = s.refresh.times_due(front);
        assert(each * calls <= each * times.len()) by (nonlinear_arith)
            requires
                calls <= times.len(),
                each >= 0,
        ;
        lemma_refreshes_counted(s, front);
        let before = s.updated_at(front);
        assert(each * due + each <= each * times.len()) by (nonlinear_arith)
            requires
                due <= calls,
                calls + 1 == times.len(),
                each >= 0,
        ;
        lemma_update_queues(before, times.last());
        assert(each * (due + 1) == each * due + each) by (nonlinear_arith);
    } else {
        assert(each * 0 == 0);
    }
}

/// In the first two periods after a mirror was set up, its periodic entry
/// point queues the periodic requests once, when a period has passed, and
/// nothing before that.
pub proof fn lemma_first_refresh(s: GithubDbView, start: u64, times: Seq<u64>)
    requires
        s.queue_ordered(),
        s.refresh == Interval::starting(s.refresh.period, start),
        s.refresh.period > 0,
        start + 2 * s.refresh.period <= u64::MAX,
        in_time_order(times),
        forall|i: int|
            0 <= i < times.len() ==> start <= #[trigger] times[i] < start + 2 * s.refresh.period,
        s.request_sequence_number + 2 * s.repos.len() * times.len() <= i64::MAX,
    ensures
        s.updated_at(times).request_sequence_number == s.request_sequence_number + (
        if times.len() > 0 && times.last() >= start + s.refresh.period {
            2 * s.repos.len()
        } else {
            0
        }),
{
    lemma_due_once(s.refresh.period, start, times);
    lemma_refreshes_counted(s, times);
    let each = 2 * s.repos.len();
    assert(each * 1 == each && each * 0 == 0);
}

} // verus!

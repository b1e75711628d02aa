//! The budget bounds the rate at which requests leave the queue.
//!
//! Tokens are made only by the passing of time and paid only for requests:
//! a round hands out no more than the accounts held and were granted. So
//! over any run of rounds the requests handed out are paid for by what the
//! accounts held at the start and what the time of the run grants.

use vstd::prelude::*;
use crate::database::schema::DatabaseView;
use crate::queue::lemma_next_request_shrinks;
use crate::requests::limits::{
    ceiling, drain, elapsed, grant, RequestLimits, CEILING_PER_TENTH, CEILING_SAVED, UNIT,
};
use crate::requests::Priority;

verus! {

/// The nanoseconds of an hour.
pub const NANOS_PER_HOUR: u64 = 3_600_000_000_000;

impl RequestLimits {
    /// The tokens that the accounts hold, with what is kept from the last
    /// round.
    pub open spec fn held(self) -> int {
        self.update.tokens + self.comments.tokens + self.index.tokens + self.saved_up
    }

    /// The tokens that the category `c` is yet to be granted for the time up
    /// to `horizon`.
    pub open spec fn due(self, c: Priority, horizon: u64) -> int {
        grant(self.global_limit, c, elapsed(horizon, self.account(c).last_time))
    }

    /// The tokens that can be spent up to the time `horizon`: what the
    /// accounts hold and what they are yet to be granted.
    pub open spec fn potential(self, horizon: u64) -> int {
        self.held() + self.due(Priority::Update, horizon) + self.due(Priority::Comments, horizon)
            + self.due(Priority::Index, horizon)
    }
}

/// A grant is proportional to the time: the grants for two spans of time add
/// up to the grant for both.
pub proof fn lemma_grant_adds(limit: usize, c: Priority, a: int, b: int)
    requires
        0 <= a,
        0 <= b,
    ensures
        grant(limit, c, a + b) == grant(limit, c, a) + grant(limit, c, b),
        0 <= grant(limit, c, a),
{
    let t = c.spec_tenths() as int;
    let l = limit as int;
    assert((a + b) * t * l == a * t * l + b * t * l) by (nonlinear_arith);
    assert(0 <= a * t * l) by (nonlinear_arith)
        requires
            0 <= a,
            0 <= t,
            0 <= l,
    ;
}

/// Every request that is handed out against an account costs it [`UNIT`]
/// tokens.
pub proof fn lemma_drain_pays(db: DatabaseView, c: Priority, tokens: u128)
    ensures
        drain(db, c, tokens).tokens + drain(db, c, tokens).handed.len() * UNIT == tokens,
    decreases db.requests.len(),
{
    if tokens >= UNIT {
        let d = db.next_request(c);
        if d.row is Some {
            lemma_next_request_shrinks(db, c);
            lemma_drain_pays(d.db, c, (tokens - UNIT) as u128);
        }
    }
}

/// A category's turn makes no tokens: what its account holds afterwards,
/// what it hands on, what it paid and what it is yet to be granted come to
/// no more than what it held, what it was handed and what it was yet to be
/// granted before.
pub proof fn lemma_step_budget(
    limits: RequestLimits,
    db: DatabaseView,
    c: Priority,
    now: u64,
    carried: u128,
    horizon: u64,
)
    requires
        now <= horizon,
    ensures
        ({
            let s = limits.step(db, c, now, carried);
            &&& s.limits.account(c).tokens + s.carried + s.handed.len() * UNIT + s.limits.due(
                c,
                horizon,
            ) <= limits.account(c).tokens + carried + limits.due(c, horizon)
            &&& s.limits == limits.with_account(c, s.limits.account(c))
        }),
{
    let account = limits.account(c);
    let accrued = account.accrued(limits.global_limit, c, now, carried);
    lemma_drain_pays(db, c, accrued.tokens);
    lemma_grant_adds(
        limits.global_limit,
        c,
        elapsed(now, account.last_time),
        elapsed(horizon, accrued.last_time),
    );
}

/// A round makes no tokens: what can be spent after it, together with what
/// it paid for the requests that it handed out, is no more than what could
/// be spent before it.
pub proof fn lemma_round_budget(limits: RequestLimits, db: DatabaseView, now: u64, horizon: u64)
    requires
        now <= horizon,
    ensures
        limits.updated(db, now).limits.potential(horizon) + limits.updated(db, now).handed.len()
            * UNIT <= limits.potential(horizon),
        limits.updated(db, now).limits.global_limit == limits.global_limit,
{
    let first = limits.step(db, Priority::Update, now, limits.saved_up);
    let second = first.limits.step(first.db, Priority::Comments, now, first.carried);
    let third = second.limits.step(second.db, Priority::Index, now, second.carried);
    lemma_step_budget(limits, db, Priority::Update, now, limits.saved_up, horizon);
    lemma_step_budget(first.limits, first.db, Priority::Comments, now, first.carried, horizon);
    lemma_step_budget(second.limits, second.db, Priority::Index, now, second.carried, horizon);
    assert(limits.updated(db, now).handed.len() == first.handed.len() + second.handed.len()
        + third.handed.len());
    assert((first.handed.len() + second.handed.len() + third.handed.len()) * UNIT
        == first.handed.len() * UNIT + second.handed.len() * UNIT + third.handed.len() * UNIT)
        by (nonlinear_arith);
}

/// The state of the queue and the time at the start of a round.
pub struct Round {
    pub db: DatabaseView,
    pub now: u64,
}

impl RequestLimits {
    /// The accounts after the rounds `rounds`, in order.
    pub open spec fn after(self, rounds: Seq<Round>) -> RequestLimits
        decreases rounds.len(),
    {
        if rounds.len() == 0 {
            self
        } else {
            self.after(rounds.drop_last()).updated(rounds.last().db, rounds.last().now).limits
        }
    }

    /// The number of requests that the rounds `rounds` hand out.
    pub open spec fn handed_over(self, rounds: Seq<Round>) -> int
        decreases rounds.len(),
    {
        if rounds.len() == 0 {
            0
        } else {
            self.handed_over(rounds.drop_last()) + self.after(rounds.drop_last()).updated(
                rounds.last().db,
                rounds.last().now,
            ).handed.len()
        }
    }
}

/// Over any run of rounds up to the time `horizon`, whatever the queue
/// holds, the requests that are handed out cost no more than what could be
/// spent up to `horizon` at the start.
pub proof fn lemma_run_budget(limits: RequestLimits, rounds: Seq<Round>, horizon: u64)
    requires
        forall|i: int| 0 <= i < rounds.len() ==> (#[trigger] rounds[i]).now <= horizon,
    ensures
        limits.after(rounds).potential(horizon) + limits.handed_over(rounds) * UNIT
            <= limits.potential(horizon),
        limits.after(rounds).global_limit == limits.global_limit,
        0 <= limits.handed_over(rounds),
    decreases rounds.len(),
{
    if rounds.len() > 0 {
        let front = rounds.drop_last();
        assert(forall|i: int| 0 <= i < front.len() ==> front[i] == rounds[i]);
        lemma_run_budget(limits, front, horizon);
        let last = rounds.last();
        assert(last == rounds[rounds.len() - 1]);
        lemma_round_budget(limits.after(front), last.db, last.now, horizon);
        let a = limits.handed_over(front);
        let b = limits.after(front).updated(last.db, last.now).handed.len() as int;
        assert((a + b) * UNIT == a * UNIT + b * UNIT) by (nonlinear_arith);
    }
}

/// What can be spent is never negative.
pub proof fn lemma_potential_nonnegative(limits: RequestLimits, horizon: u64)
    ensures
        0 <= limits.potential(horizon),
{
    lemma_grant_adds(
        limits.global_limit,
        Priority::Update,
        elapsed(horizon, limits.update.last_time),
        0,
    );
    lemma_grant_adds(
        limits.global_limit,
        Priority::Comments,
        elapsed(horizon, limits.comments.last_time),
        0,
    );
    lemma_grant_adds(
        limits.global_limit,
        Priority::Index,
        elapsed(horizon, limits.index.last_time),
        0,
    );
}

/// The long-term rate: from its start at the time `start` up to the time
/// `horizon`, the budget hands out no more requests than a budget of
/// `limit` requests per hour grants over that time, and a fifth of an hour's
/// grant on top. Over an hour or more that is at most six fifths of the
/// budget.
pub proof fn lemma_long_term_rate(limit: usize, start: u64, rounds: Seq<Round>, horizon: u64)
    requires
        start <= horizon,
        forall|i: int| 0 <= i < rounds.len() ==> (#[trigger] rounds[i]).now <= horizon,
    ensures
        ({
            let handed = RequestLimits::make(limit, start).handed_over(rounds);
            let span = horizon - start;
            &&& handed * UNIT <= limit * CEILING_SAVED + limit * span * 10
            &&& span >= NANOS_PER_HOUR ==> handed * UNIT * 5 <= limit * span * 10 * 6
        }),
{
    let limits = RequestLimits::make(limit, start);
    let span = (horizon - start) as int;
    let l = limit as int;
    lemma_run_budget(limits, rounds, horizon);
    lemma_potential_nonnegative(limits.after(rounds), horizon);
    assert(ceiling(limit, Priority::Update) == l * 3 * CEILING_PER_TENTH);
    assert(ceiling(limit, Priority::Comments) == l * 6 * CEILING_PER_TENTH);
    assert(ceiling(limit, Priority::Index) == l * 1 * CEILING_PER_TENTH);
    assert(l * 3 * CEILING_PER_TENTH + l * 6 * CEILING_PER_TENTH + l * 1 * CEILING_PER_TENTH == l
        * CEILING_SAVED) by (nonlinear_arith);
    assert(0 <= l * 6 * CEILING_PER_TENTH <= usize::MAX * 6 * CEILING_PER_TENTH)
        by (nonlinear_arith)
        requires
            0 <= l <= usize::MAX,
    ;
    assert(0 <= l * 3 * CEILING_PER_TENTH <= l * 6 * CEILING_PER_TENTH) by (nonlinear_arith)
        requires
            0 <= l,
    ;
    assert(0 <= l * 1 * CEILING_PER_TENTH <= l * 6 * CEILING_PER_TENTH) by (nonlinear_arith)
        requires
            0 <= l,
    ;
    assert(limits.held() == l * CEILING_SAVED);
    assert(span * 3 * l + span * 6 * l + span * 1 * l == l * span * 10) by (nonlinear_arith);
    assert(limits.potential(horizon) == l * CEILING_SAVED + l * span * 10);
    let handed = limits.handed_over(rounds);
    if span >= NANOS_PER_HOUR {
        assert(l * CEILING_SAVED * 5 <= l * span * 10) by (nonlinear_arith)
            requires
                span >= NANOS_PER_HOUR,
                0 <= l,
                CEILING_SAVED * 5 == NANOS_PER_HOUR * 10,
        ;
        assert(handed * UNIT * 5 <= (l * CEILING_SAVED + l * span * 10) * 5) by (nonlinear_arith)
            requires
                handed * UNIT <= l * CEILING_SAVED + l * span * 10,
        ;
        assert((l * CEILING_SAVED + l * span * 10) * 5 == l * CEILING_SAVED * 5 + l * span * 10
            * 5) by (nonlinear_arith);
        assert(l * span * 10 + l * span * 10 * 5 == l * span * 10 * 6) by (nonlinear_arith);
    }
}

} // verus!

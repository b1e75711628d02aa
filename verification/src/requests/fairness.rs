//! The budget shares requests out among the categories by their tenths.
//!
//! While the queue of every category holds more requests than its account
//! pays for, no tokens flow from one category to another: each spends what
//! it is granted, down to less than the price of one request. So over a run
//! of such rounds a category is handed, to within one request, as many
//! requests as its share of the budget grants for the time of the run.

use vstd::prelude::*;
use crate::database::schema::DatabaseView;
use crate::requests::budget::{lemma_drain_pays, lemma_grant_adds, Round};
use crate::requests::limits::{ceiling, grant, RequestLimits, Stepped, UNIT};
use crate::requests::Priority;

verus! {

/// The greatest budget, in requests per hour, for which the shares are
/// stated here.
pub const GREATEST_BUDGET: usize = 0xffff_ffff;

impl RequestLimits {
    /// The turn of the category `c` within the round at the time `now`.
    pub open spec fn turn(self, db: DatabaseView, now: u64, c: Priority) -> Stepped {
        let first = self.step(db, Priority::Update, now, self.saved_up);
        let second = first.limits.step(first.db, Priority::Comments, now, first.carried);
        let third = second.limits.step(second.db, Priority::Index, now, second.carried);
        match c {
            Priority::Update => first,
            Priority::Comments => second,
            Priority::Index => third,
        }
    }

    /// The number of requests of the category `c` that the rounds `rounds`
    /// hand out.
    pub open spec fn handed_to(self, rounds: Seq<Round>, c: Priority) -> int
        decreases rounds.len(),
    {
        if rounds.len() == 0 {
            0
        } else {
            self.handed_to(rounds.drop_last(), c) + self.after(rounds.drop_last()).turn(
                rounds.last().db,
                rounds.last().now,
                c,
            ).handed.len()
        }
    }

    /// Whether every account holds less than the price of one request.
    pub open spec fn spent(self) -> bool {
        forall|c: Priority| (#[trigger] self.account(c)).tokens < UNIT
    }

    /// Whether the round at the time `now` leaves every account with less
    /// than the price of one request: no queue ran dry before its account
    /// did.
    pub open spec fn busy(self, db: DatabaseView, now: u64) -> bool {
        self.updated(db, now).limits.spent()
    }

    /// Whether every one of the rounds `rounds` is busy.
    pub open spec fn busy_throughout(self, rounds: Seq<Round>) -> bool
        decreases rounds.len(),
    {
        rounds.len() > 0 ==> {
            &&& self.busy_throughout(rounds.drop_last())
            &&& self.after(rounds.drop_last()).busy(rounds.last().db, rounds.last().now)
        }
    }

    /// Whether every account was granted its tokens up to the time `time`.
    pub open spec fn granted_up_to(self, time: u64) -> bool {
        forall|c: Priority| (#[trigger] self.account(c)).last_time == time
    }

    /// Whether the budget is one for which the shares are stated: every
    /// category may save up the price of a request or more, no account
    /// holds more than it may save up, and nothing is kept from the last
    /// round.
    pub open spec fn settled_down(self) -> bool {
        &&& self.global_limit <= GREATEST_BUDGET
        &&& self.saved_up == 0
        &&& forall|c: Priority|
            UNIT <= #[trigger] ceiling(self.global_limit, c) && self.account(c).tokens <= ceiling(
                self.global_limit,
                c,
            )
    }
}

/// The time of the last of `rounds`, or `start` where there is none.
pub open spec fn end_of(rounds: Seq<Round>, start: u64) -> u64 {
    if rounds.len() == 0 {
        start
    } else {
        rounds.last().now
    }
}

/// Whether the rounds `rounds` follow each other in time, from `start` on.
pub open spec fn in_turn(rounds: Seq<Round>, start: u64) -> bool {
    &&& forall|i: int| 0 <= i < rounds.len() ==> start <= (#[trigger] rounds[i]).now
    &&& forall|i: int, j: int|
        0 <= i <= j < rounds.len() ==> (#[trigger] rounds[i]).now <= (#[trigger] rounds[j]).now
}

/// What an account may save up, and what it is granted over any time, is
/// far from the most that it can hold.
proof fn lemma_amounts_fit(limit: usize, c: Priority, nanos: int)
    requires
        limit <= GREATEST_BUDGET,
        0 <= nanos <= u64::MAX,
    ensures
        0 <= grant(limit, c, nanos) <= 0x6_0000_0000_0000_0000_0000_0000,
        0 <= ceiling(limit, c) <= 0x6_0000_0000_0000_0000_0000_0000,
{
    let t = c.spec_tenths() as int;
    let l = limit as int;
    assert(0 <= nanos * t <= 0x1_0000_0000_0000_0000 * 6) by (nonlinear_arith)
        requires
            0 <= nanos <= 0x1_0000_0000_0000_0000,
            0 <= t <= 6,
    ;
    assert(0 <= (nanos * t) * l <= (0x1_0000_0000_0000_0000 * 6) * 0x1_0000_0000)
        by (nonlinear_arith)
        requires
            0 <= nanos * t <= 0x1_0000_0000_0000_0000 * 6,
            0 <= l <= 0x1_0000_0000,
    ;
    assert(0 <= l * t <= 0x1_0000_0000 * 6) by (nonlinear_arith)
        requires
            0 <= l <= 0x1_0000_0000,
            0 <= t <= 6,
    ;
    assert(0 <= (l * t) * 720_000_000_000 <= (0x1_0000_0000 * 6) * 720_000_000_000)
        by (nonlinear_arith)
        requires
            0 <= l * t <= 0x1_0000_0000 * 6,
    ;
}

/// In a busy turn the category pays for its requests out of what it held and
/// what it is granted, takes nothing from another category and hands nothing
/// on.
proof fn lemma_busy_turn(
    limits: RequestLimits,
    db: DatabaseView,
    c: Priority,
    time: u64,
    now: u64,
)
    requires
        limits.global_limit <= GREATEST_BUDGET,
        UNIT <= ceiling(limits.global_limit, c),
        limits.account(c).tokens <= ceiling(limits.global_limit, c),
        limits.account(c).last_time == time,
        time <= now,
        limits.step(db, c, now, 0).limits.account(c).tokens < UNIT,
    ensures
        ({
            let stepped = limits.step(db, c, now, 0);
            &&& stepped.carried == 0
            &&& stepped.limits == limits.with_account(c, stepped.limits.account(c))
            &&& stepped.limits.account(c).last_time == now
            &&& stepped.limits.account(c).tokens + stepped.handed.len() * UNIT
                == limits.account(c).tokens + grant(limits.global_limit, c, now - time)
        }),
{
    let limit = limits.global_limit;
    lemma_amounts_fit(limit, c, now - time);
    let accrued = limits.account(c).accrued(limit, c, now, 0);
    assert(accrued.tokens == limits.account(c).tokens + grant(limit, c, now - time));
    lemma_drain_pays(db, c, accrued.tokens);
}

/// In a busy round every category pays for its requests out of what it held
/// and what it is granted for the time since the last round.
pub proof fn lemma_busy_round(limits: RequestLimits, db: DatabaseView, time: u64, now: u64)
    requires
        limits.settled_down(),
        limits.granted_up_to(time),
        time <= now,
        limits.busy(db, now),
    ensures
        limits.updated(db, now).limits.settled_down(),
        limits.updated(db, now).limits.granted_up_to(now),
        limits.updated(db, now).limits.global_limit == limits.global_limit,
        forall|c: Priority|
            (#[trigger] limits.updated(db, now).limits.account(c)).tokens + limits.turn(
                db,
                now,
                c,
            ).handed.len() * UNIT == limits.account(c).tokens + grant(
                limits.global_limit,
                c,
                now - time,
            ),
{
    let limit = limits.global_limit;
    let after = limits.updated(db, now).limits;
    assert(after.account(Priority::Update).tokens < UNIT);
    assert(after.account(Priority::Comments).tokens < UNIT);
    assert(after.account(Priority::Index).tokens < UNIT);
    assert(UNIT <= ceiling(limit, Priority::Update));
    assert(UNIT <= ceiling(limit, Priority::Comments));
    assert(UNIT <= ceiling(limit, Priority::Index));
    assert(limits.account(Priority::Update).last_time == time);
    assert(limits.account(Priority::Comments).last_time == time);
    assert(limits.account(Priority::Index).last_time == time);
    let first = limits.step(db, Priority::Update, now, 0);
    lemma_busy_turn(limits, db, Priority::Update, time, now);
    let second = first.limits.step(first.db, Priority::Comments, now, 0);
    lemma_busy_turn(first.limits, first.db, Priority::Comments, time, now);
    let third = second.limits.step(second.db, Priority::Index, now, 0);
    lemma_busy_turn(second.limits, second.db, Priority::Index, time, now);
    assert forall|c: Priority|
        (#[trigger] after.account(c)).tokens + limits.turn(db, now, c).handed.len() * UNIT
            == limits.account(c).tokens + grant(limit, c, now - time) && after.account(
            c,
        ).last_time == now && after.account(c).tokens <= ceiling(limit, c) && UNIT <= ceiling(
            limit,
            c,
        ) by {
        match c {
            Priority::Update => {},
            Priority::Comments => {},
            Priority::Index => {},
        }
    }
}

/// Over a run of busy rounds every category pays for its requests out of
/// what it held at the start and what it is granted for the time of the run.
pub proof fn lemma_busy_run(limits: RequestLimits, start: u64, rounds: Seq<Round>)
    requires
        limits.settled_down(),
        limits.granted_up_to(start),
        in_turn(rounds, start),
        limits.busy_throughout(rounds),
    ensures
        limits.after(rounds).settled_down(),
        limits.after(rounds).granted_up_to(end_of(rounds, start)),
        limits.after(rounds).global_limit == limits.global_limit,
        rounds.len() > 0 ==> limits.after(rounds).spent(),
        forall|c: Priority|
            (#[trigger] limits.after(rounds).account(c)).tokens + limits.handed_to(rounds, c)
                * UNIT == limits.account(c).tokens + grant(
                limits.global_limit,
                c,
                end_of(rounds, start) - start,
            ),
    decreases rounds.len(),
{
    let limit = limits.global_limit;
    if rounds.len() == 0 {
        assert forall|c: Priority|
            (#[trigger] limits.account(c)).tokens + 0 * UNIT == limits.account(c).tokens + grant(
                limit,
                c,
                0,
            ) by {
            lemma_grant_adds(limit, c, 0, 0);
        }
    } else {
        let front = rounds.drop_last();
        let last = rounds.last();
        assert(forall|i: int| 0 <= i < front.len() ==> front[i] == rounds[i]);
        assert(last == rounds[rounds.len() - 1]);
        lemma_busy_run(limits, start, front);
        let before = limits.after(front);
        let time = end_of(front, start);
        if front.len() > 0 {
            assert(front.last() == rounds[front.len() - 1]);
        }
        assert(start <= time <= last.now);
        lemma_busy_round(before, last.db, time, last.now);
        let after = limits.after(rounds);
        assert forall|c: Priority|
            (#[trigger] after.account(c)).tokens + limits.handed_to(rounds, c) * UNIT
                == limits.account(c).tokens + grant(limit, c, last.now - start) by {
            lemma_grant_adds(limit, c, time - start, last.now - time);
            let a = limits.handed_to(front, c);
            let b = before.turn(last.db, last.now, c).handed.len() as int;
            assert((a + b) * UNIT == a * UNIT + b * UNIT) by (nonlinear_arith);
            assert(before.account(c).tokens + a * UNIT == limits.account(c).tokens + grant(
                limit,
                c,
                time - start,
            ));
            assert(after.account(c).tokens + b * UNIT == before.account(c).tokens + grant(
                limit,
                c,
                last.now - time,
            ));
        }
    }
}

/// The shares of the categories: over a run of busy rounds that starts with
/// every account below the price of a request, the requests that the
/// category `c` is handed cost what its share of the budget grants for the
/// time of the run, to within the price of one request.
///
/// Over an hour a budget of a hundred requests grants the categories
/// thirty, sixty and ten requests, so that they are handed between 29 and
/// 31, between 59 and 61, and between 9 and 11.
pub proof fn lemma_fair_shares(limits: RequestLimits, start: u64, rounds: Seq<Round>, c: Priority)
    requires
        limits.settled_down(),
        limits.spent(),
        limits.granted_up_to(start),
        in_turn(rounds, start),
        limits.busy_throughout(rounds),
    ensures
        grant(limits.global_limit, c, end_of(rounds, start) - start) - UNIT < limits.handed_to(
            rounds,
            c,
        ) * UNIT < grant(limits.global_limit, c, end_of(rounds, start) - start) + UNIT,
{
    lemma_busy_run(limits, start, rounds);
    assert(limits.account(c).tokens < UNIT);
    let after = limits.after(rounds);
    assert(after.account(c).tokens + limits.handed_to(rounds, c) * UNIT == limits.account(
        c,
    ).tokens + grant(limits.global_limit, c, end_of(rounds, start) - start));
    if rounds.len() > 0 {
        assert(after.account(c).tokens < UNIT);
    }
}

} // verus!

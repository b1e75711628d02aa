//! The rate budget: how many requests each category may take from the queue.
//!
//! The budget is a number of requests per hour, shared out among the
//! categories in tenths. Each category saves up what it is granted while its
//! queue is empty, up to a ceiling; what exceeds the ceiling flows on to the
//! next category, and what is left at the end is kept for the next round,
//! again up to a ceiling.
//!
//! All amounts are whole numbers of tokens, [`UNIT`] of which pay for one
//! request, so that a grant over any span of nanoseconds is exact. Time is a
//! count of nanoseconds on a clock of the caller's that never runs backwards.

use vstd::prelude::*;
use crate::database::schema::{Database, DatabaseView, RequestRow};
use crate::database::schema::views;
use crate::queue::{lemma_next_request_shrinks, payloads};
use crate::requests::{Priority, Request};

verus! {

/// The number of tokens that pay for one request: the nanoseconds of an hour
/// times the ten tenths of the budget.
pub const UNIT: u128 = 36_000_000_000_000;

/// The tokens that a category may save up, for each request per hour of the
/// budget and each tenth of its share: a fifth of what an hour grants.
pub const CEILING_PER_TENTH: u128 = 720_000_000_000;

/// The tokens that may be kept for the next round, for each request per hour
/// of the budget: a fifth of what an hour grants.
pub const CEILING_SAVED: u128 = 7_200_000_000_000;

/// The account of one category.
#[derive(Debug, Clone, Copy, PartialEq, Eq, Structural)]
pub struct CategoryLimit {
    /// The tokens that the category holds.
    pub tokens: u128,
    /// The time up to which the category was granted tokens.
    pub last_time: u64,
}

/// The accounts of the categories under one budget.
#[derive(Debug, Clone, Copy, PartialEq, Eq, Structural)]
pub struct RequestLimits {
    /// The budget, in requests per hour.
    pub global_limit: usize,
    pub update: CategoryLimit,
    pub comments: CategoryLimit,
    pub index: CategoryLimit,
    /// The tokens kept from the last round.
    pub saved_up: u128,
}

/// `amount`, or the greatest number of tokens that an account can hold where
/// `amount` exceeds it.
pub open spec fn capped(amount: int) -> u128 {
    if amount > u128::MAX {
        u128::MAX
    } else if amount < 0 {
        0
    } else {
        amount as u128
    }
}

/// The nanoseconds from `last` to `now`; none where `now` is not later.
pub open spec fn elapsed(now: u64, last: u64) -> int {
    if now > last {
        now - last
    } else {
        0
    }
}

/// The tokens that the category `c` is granted over `nanos` nanoseconds
/// under a budget of `limit` requests per hour.
pub open spec fn grant(limit: usize, c: Priority, nanos: int) -> int {
    nanos * c.spec_tenths() * limit
}

/// The most tokens that the category `c` may save up under a budget of
/// `limit` requests per hour.
pub open spec fn ceiling(limit: usize, c: Priority) -> int {
    limit * c.spec_tenths() * CEILING_PER_TENTH
}

/// The most tokens that may be kept for the next round.
pub open spec fn saved_ceiling(limit: usize) -> int {
    limit * CEILING_SAVED
}

impl CategoryLimit {
    /// The account after it was granted the tokens for the time up to `now`
    /// and handed `carried` tokens from another account.
    pub open spec fn accrued(self, limit: usize, c: Priority, now: u64, carried: u128)
        -> CategoryLimit {
        CategoryLimit {
            tokens: capped(self.tokens + grant(limit, c, elapsed(now, self.last_time)) + carried),
            last_time: if now > self.last_time {
                now
            } else {
                self.last_time
            },
        }
    }

    /// The tokens that the account hands on: what it holds above its ceiling.
    pub open spec fn excess(self, limit: usize, c: Priority) -> u128 {
        if self.tokens >= ceiling(limit, c) {
            (self.tokens - ceiling(limit, c)) as u128
        } else {
            0
        }
    }

    /// The account after it handed on what it holds above its ceiling.
    pub open spec fn settled(self, limit: usize, c: Priority) -> CategoryLimit {
        CategoryLimit { tokens: (self.tokens - self.excess(limit, c)) as u128, ..self }
    }
}

/// The product of three factors of which the last is small.
proof fn lemma_product_bound(a: int, b: int, c: int, a_max: int, b_max: int, c_max: int)
    requires
        0 <= a <= a_max,
        0 <= b <= b_max,
        0 <= c <= c_max,
    ensures
        0 <= a * b <= a_max * b_max,
        0 <= a * b * c <= a_max * b_max * c_max,
{
    assert(0 <= a * b <= a_max * b_max) by (nonlinear_arith)
        requires
            0 <= a <= a_max,
            0 <= b <= b_max,
    ;
    assert(0 <= (a * b) * c <= (a_max * b_max) * c_max) by (nonlinear_arith)
        requires
            0 <= a * b <= a_max * b_max,
            0 <= c <= c_max,
    ;
}

/// The tokens that pay for the requests that the category `c` is granted
/// over the time from `last` to `now`, capped.
pub fn grant_of(limit: usize, c: Priority, now: u64, last: u64) -> (r: u128)
    ensures
        r == capped(grant(limit, c, elapsed(now, last))),
{
    let nanos: u64 = if now > last {
        now - last
    } else {
        0
    };
    let tenths = c.tenths();
    proof {
        lemma_product_bound(
            nanos as int,
            tenths as int,
            limit as int,
            u64::MAX as int,
            6,
            usize::MAX as int,
        );
    }
    let per_request: u128 = (nanos as u128) * (tenths as u128);
    match per_request.checked_mul(limit as u128) {
        Some(v) => v,
        None => u128::MAX,
    }
}

/// The most tokens that the category `c` may save up.
pub fn ceiling_of(limit: usize, c: Priority) -> (r: u128)
    ensures
        r == ceiling(limit, c),
{
    let tenths = c.tenths();
    proof {
        lemma_product_bound(
            limit as int,
            tenths as int,
            CEILING_PER_TENTH as int,
            usize::MAX as int,
            6,
            CEILING_PER_TENTH as int,
        );
    }
    (limit as u128) * (tenths as u128) * CEILING_PER_TENTH
}

/// The most tokens that may be kept for the next round.
pub fn saved_ceiling_of(limit: usize) -> (r: u128)
    ensures
        r == saved_ceiling(limit),
{
    proof {
        lemma_product_bound(
            limit as int,
            CEILING_SAVED as int,
            1,
            usize::MAX as int,
            CEILING_SAVED as int,
            1,
        );
    }
    (limit as u128) * CEILING_SAVED
}

impl CategoryLimit {
    /// Grants the account the tokens for the time up to `now` and hands it
    /// `carried` tokens from another account.
    pub fn accrue(&mut self, limit: usize, c: Priority, now: u64, carried: u128)
        ensures
            *final(self) == old(self).accrued(limit, c, now, carried),
    {
        let granted = grant_of(limit, c, now, self.last_time);
        self.tokens = self.tokens.saturating_add(granted).saturating_add(carried);
        if now > self.last_time {
            self.last_time = now;
        }
    }

    /// Takes what the account holds above its ceiling out of it.
    pub fn settle(&mut self, limit: usize, c: Priority) -> (excess: u128)
        ensures
            *final(self) == old(self).settled(limit, c),
            excess == old(self).excess(limit, c),
    {
        let ceiling = ceiling_of(limit, c);
        if self.tokens >= ceiling {
            let excess = self.tokens - ceiling;
            self.tokens = ceiling;
            excess
        } else {
            0
        }
    }
}

/// What handing out requests against an account leaves behind.
pub struct Drained {
    /// The store afterwards.
    pub db: DatabaseView,
    /// The tokens that the account still holds.
    pub tokens: u128,
    /// The queue entries that were handed out, in order.
    pub handed: Seq<RequestRow>,
}

/// Requests of the category `c` are handed out for as long as `tokens` pay
/// for one and the queue holds one that can be read; each costs [`UNIT`].
pub open spec fn drain(db: DatabaseView, c: Priority, tokens: u128) -> Drained
    decreases db.requests.len(),
{
    if tokens < UNIT {
        Drained { db, tokens, handed: Seq::empty() }
    } else {
        let d = db.next_request(c);
        match d.row {
            None => Drained { db: d.db, tokens, handed: Seq::empty() },
            Some(row) => {
                proof {
                    lemma_next_request_shrinks(db, c);
                }
                let rest = drain(d.db, c, (tokens - UNIT) as u128);
                Drained { db: rest.db, tokens: rest.tokens, handed: seq![row] + rest.handed }
            },
        }
    }
}

/// What one category's turn leaves behind.
pub struct Stepped {
    /// The accounts afterwards.
    pub limits: RequestLimits,
    /// The store afterwards.
    pub db: DatabaseView,
    /// The queue entries that were handed out, in order.
    pub handed: Seq<RequestRow>,
    /// The tokens that flow on to the next category.
    pub carried: u128,
}

/// What a round over all categories leaves behind.
pub struct Ticked {
    /// The accounts afterwards.
    pub limits: RequestLimits,
    /// The store afterwards.
    pub db: DatabaseView,
    /// The queue entries that were handed out, in order.
    pub handed: Seq<RequestRow>,
}

impl RequestLimits {
    /// The accounts at the time `now` under a budget of `limit` requests per
    /// hour: each category starts with as much as it may save up.
    pub open spec fn make(limit: usize, now: u64) -> RequestLimits {
        RequestLimits {
            global_limit: limit,
            update: CategoryLimit {
                tokens: ceiling(limit, Priority::Update) as u128,
                last_time: now,
            },
            comments: CategoryLimit {
                tokens: ceiling(limit, Priority::Comments) as u128,
                last_time: now,
            },
            index: CategoryLimit { tokens: ceiling(limit, Priority::Index) as u128, last_time: now },
            saved_up: 0,
        }
    }

    /// The account of the category `c`.
    pub open spec fn account(self, c: Priority) -> CategoryLimit {
        match c {
            Priority::Update => self.update,
            Priority::Comments => self.comments,
            Priority::Index => self.index,
        }
    }

    /// The accounts with `account` for the category `c`.
    pub open spec fn with_account(self, c: Priority, account: CategoryLimit) -> RequestLimits {
        match c {
            Priority::Update => RequestLimits { update: account, ..self },
            Priority::Comments => RequestLimits { comments: account, ..self },
            Priority::Index => RequestLimits { index: account, ..self },
        }
    }

    /// The turn of the category `c` at the time `now`: its account is
    /// granted the tokens for the time since its last turn and `carried`
    /// tokens on top; requests are handed out against it; what it then holds
    /// above its ceiling flows on.
    pub open spec fn step(self, db: DatabaseView, c: Priority, now: u64, carried: u128) -> Stepped {
        let accrued = self.account(c).accrued(self.global_limit, c, now, carried);
        let drained = drain(db, c, accrued.tokens);
        let spent = CategoryLimit { tokens: drained.tokens, ..accrued };
        Stepped {
            limits: self.with_account(c, spent.settled(self.global_limit, c)),
            db: drained.db,
            handed: drained.handed,
            carried: spent.excess(self.global_limit, c),
        }
    }

    /// A round at the time `now`: the categories take their turns in the
    /// order `Update`, `Comments`, `Index`. The first is handed what was
    /// kept from the last round, each next one what the one before it handed
    /// on, and what the last hands on is kept, up to the ceiling.
    pub open spec fn updated(self, db: DatabaseView, now: u64) -> Ticked {
        let first = self.step(db, Priority::Update, now, self.saved_up);
        let second = first.limits.step(first.db, Priority::Comments, now, first.carried);
        let third = second.limits.step(second.db, Priority::Index, now, second.carried);
        Ticked {
            limits: RequestLimits {
                saved_up: if third.carried > saved_ceiling(self.global_limit) {
                    saved_ceiling(self.global_limit) as u128
                } else {
                    third.carried
                },
                ..third.limits
            },
            db: third.db,
            handed: first.handed + second.handed + third.handed,
        }
    }

    /// The accounts at the time `now` under a budget of `limit` requests per
    /// hour.
    pub fn new(limit: usize, now: u64) -> (r: RequestLimits)
        ensures
            r == RequestLimits::make(limit, now),
    {
        RequestLimits {
            global_limit: limit,
            update: CategoryLimit { tokens: ceiling_of(limit, Priority::Update), last_time: now },
            comments: CategoryLimit {
                tokens: ceiling_of(limit, Priority::Comments),
                last_time: now,
            },
            index: CategoryLimit { tokens: ceiling_of(limit, Priority::Index), last_time: now },
            saved_up: 0,
        }
    }

    /// The account of the category `c`.
    pub fn get(&self, c: Priority) -> (r: CategoryLimit)
        ensures
            r == self.account(c),
    {
        match c {
            Priority::Update => self.update,
            Priority::Comments => self.comments,
            Priority::Index => self.index,
        }
    }

    /// Replaces the account of the category `c`.
    pub fn set(&mut self, c: Priority, account: CategoryLimit)
        ensures
            *final(self) == old(self).with_account(c, account),
    {
        match c {
            Priority::Update => {
                self.update = account;
            },
            Priority::Comments => {
                self.comments = account;
            },
            Priority::Index => {
                self.index = account;
            },
        }
    }
}

/// Hands out requests of the category `c` for as long as `tokens` pay for
/// one and the queue holds one that can be read. Gives the tokens that are
/// left.
pub fn drain_queue(db: &mut Database, c: Priority, tokens: u128, handed: &mut Vec<Request>) -> (left:
    u128)
    ensures
        final(db)@ == drain(old(db)@, c, tokens).db,
        left == drain(old(db)@, c, tokens).tokens,
        views(final(handed)@) == views(old(handed)@) + payloads(drain(old(db)@, c, tokens).handed),
{
    let mut tokens = tokens;
    let ghost goal = drain(db@, c, tokens);
    let ghost mut done: Seq<RequestRow> = Seq::empty();
    assert(views(handed@) + payloads(done) =~= views(handed@));
    loop
        invariant_except_break
            drain(db@, c, tokens).db == goal.db,
            drain(db@, c, tokens).tokens == goal.tokens,
            done + drain(db@, c, tokens).handed == goal.handed,
            views(handed@) == views(old(handed)@) + payloads(done),
            forall|i: int| 0 <= i < done.len() ==> (#[trigger] done[i]).data is Some,
        ensures
            db@ == goal.db,
            tokens == goal.tokens,
            views(handed@) == views(old(handed)@) + payloads(goal.handed),
        decreases db.requests.len(),
    {
        if tokens < UNIT {
            assert(done + Seq::<RequestRow>::empty() =~= done);
            break ;
        }
        let ghost before = db@;
        proof {
            lemma_next_request_shrinks(before, c);
        }
        match db.next_request(c) {
            Some(request) => {
                let ghost row = before.next_request(c).row->0;
                let ghost rest = drain(db@, c, (tokens - UNIT) as u128);
                assert(done + (seq![row] + rest.handed) =~= done.push(row) + rest.handed);
                assert(row.data == Some(request@));
                assert(payloads(done.push(row)) =~= payloads(done).push(request@));
                assert(views(handed@.push(request)) =~= views(handed@).push(request@));
                assert(views(handed@.push(request)) =~= views(old(handed)@) + payloads(
                    done.push(row),
                ));
                handed.push(request);
                tokens = tokens - UNIT;
                proof {
                    done = done.push(row);
                }
            },
            None => {
                assert(done + Seq::<RequestRow>::empty() =~= done);
                break ;
            },
        }
    }
    tokens
}

impl RequestLimits {
    /// Gives the category `c` its turn at the time `now`, and tells how many
    /// tokens flow on to the next category. The requests that are handed out
    /// are added to `handed`.
    pub fn take_turn(
        &mut self,
        db: &mut Database,
        c: Priority,
        now: u64,
        carried: u128,
        handed: &mut Vec<Request>,
    ) -> (excess: u128)
        ensures
            *final(self) == old(self).step(old(db)@, c, now, carried).limits,
            final(db)@ == old(self).step(old(db)@, c, now, carried).db,
            views(final(handed)@) == views(old(handed)@) + payloads(
                old(self).step(old(db)@, c, now, carried).handed,
            ),
            excess == old(self).step(old(db)@, c, now, carried).carried,
    {
        let mut account = self.get(c);
        account.accrue(self.global_limit, c, now, carried);
        account.tokens = drain_queue(db, c, account.tokens, handed);
        let excess = account.settle(self.global_limit, c);
        self.set(c, account);
        excess
    }

    /// Runs a round at the time `now` and gives the requests that were
    /// taken out of the queue, in order.
    pub fn update(&mut self, now: u64, db: &mut Database) -> (handed: Vec<Request>)
        ensures
            *final(self) == old(self).updated(old(db)@, now).limits,
            final(db)@ == old(self).updated(old(db)@, now).db,
            views(handed@) == payloads(old(self).updated(old(db)@, now).handed),
    {
        let mut handed: Vec<Request> = Vec::new();
        let ghost first = self.step(db@, Priority::Update, now, self.saved_up);
        let carried = self.take_turn(db, Priority::Update, now, self.saved_up, &mut handed);
        let ghost second = first.limits.step(first.db, Priority::Comments, now, first.carried);
        let carried = self.take_turn(db, Priority::Comments, now, carried, &mut handed);
        let ghost third = second.limits.step(second.db, Priority::Index, now, second.carried);
        let carried = self.take_turn(db, Priority::Index, now, carried, &mut handed);
        let ceiling = saved_ceiling_of(self.global_limit);
        self.saved_up = if carried > ceiling {
            ceiling
        } else {
            carried
        };
        assert(views(handed@) =~= payloads(first.handed + second.handed + third.handed));
        handed
    }
}

} // verus!

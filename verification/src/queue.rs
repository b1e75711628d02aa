//! The request queue: the rows of the request table, handed out per budget
//! category in the order of their sequence numbers.

use vstd::prelude::*;
use crate::database::schema::{Database, DatabaseView, RequestRow};
use crate::requests::{Priority, Request};

verus! {

/// The row of the category `category` with the least sequence number; among
/// several such, the first.
pub open spec fn oldest(requests: Seq<RequestRow>, category: i64) -> Option<int>
    decreases requests.len(),
{
    if requests.len() == 0 {
        None
    } else {
        let last = requests.len() - 1;
        match oldest(requests.drop_last(), category) {
            Some(i) => if requests[last].category == category && requests[last].sequence_number
                < requests[i].sequence_number {
                Some(last)
            } else {
                Some(i)
            },
            None => if requests[last].category == category {
                Some(last)
            } else {
                None
            },
        }
    }
}

/// `oldest` finds a row exactly when the category has one; no row of the
/// category has a lesser sequence number, and none before it an equal one.
pub proof fn lemma_oldest(requests: Seq<RequestRow>, category: i64)
    ensures
        match oldest(requests, category) {
            Some(i) => {
                &&& 0 <= i < requests.len()
                &&& requests[i].category == category
                &&& forall|j: int|
                    0 <= j < requests.len() && (#[trigger] requests[j]).category == category
                        ==> requests[i].sequence_number <= requests[j].sequence_number
                &&& forall|j: int|
                    0 <= j < i && (#[trigger] requests[j]).category == category
                        ==> requests[i].sequence_number < requests[j].sequence_number
            },
            None => forall|j: int|
                0 <= j < requests.len() ==> (#[trigger] requests[j]).category != category,
        },
    decreases requests.len(),
{
    if requests.len() > 0 {
        let front = requests.drop_last();
        lemma_oldest(front, category);
        assert(forall|j: int| 0 <= j < front.len() ==> front[j] == requests[j]);
    }
}

/// What taking a request out of the queue leaves behind.
pub struct Dequeued {
    /// The store afterwards.
    pub db: DatabaseView,
    /// The row that was handed out, if one was.
    pub row: Option<RequestRow>,
}

impl DatabaseView {
    /// The store after the next request of the category `c` was taken out.
    ///
    /// The oldest row of the category leaves the queue. If it cannot be read
    /// as a request it is dropped and the next oldest is taken, and so on:
    /// a row that cannot be read does not block the queue.
    pub open spec fn next_request(self, c: Priority) -> Dequeued
        decreases self.requests.len(),
    {
        match oldest(self.requests, c.spec_code()) {
            None => Dequeued { db: self, row: None },
            Some(i) => {
                proof {
                    lemma_oldest(self.requests, c.spec_code());
                }
                let rest = DatabaseView { requests: self.requests.remove(i), ..self };
                if self.requests[i].data is Some {
                    Dequeued { db: rest, row: Some(self.requests[i]) }
                } else {
                    rest.next_request(c)
                }
            },
        }
    }
}

/// Taking a request out of the queue adds no row to it, and removes at least
/// the one that it hands out.
pub proof fn lemma_next_request_shrinks(db: DatabaseView, c: Priority)
    ensures
        db.next_request(c).db.requests.len() <= db.requests.len(),
        db.next_request(c).row is Some ==> db.next_request(c).db.requests.len()
            < db.requests.len(),
    decreases db.requests.len(),
{
    lemma_oldest(db.requests, c.spec_code());
    match oldest(db.requests, c.spec_code()) {
        None => {},
        Some(i) => {
            let rest = DatabaseView { requests: db.requests.remove(i), ..db };
            if db.requests[i].data is None {
                lemma_next_request_shrinks(rest, c);
            }
        },
    }
}

/// The requests that the rows `rows` hold.
pub open spec fn payloads(rows: Seq<RequestRow>) -> Seq<crate::requests::RequestView> {
    Seq::new(rows.len(), |i: int| rows[i].data->0)
}

impl Database {
    /// The row of the category `category` with the least sequence number.
    pub fn find_oldest(&self, category: i64) -> (r: Option<usize>)
        ensures
            match r {
                Some(i) => i < self.requests.len() && oldest(self@.requests, category) == Some(
                    i as int,
                ),
                None => oldest(self@.requests, category) is None,
            },
    {
        let mut best: Option<usize> = None;
        let mut k: usize = 0;
        while k < self.requests.len()
            invariant
                k <= self.requests.len(),
                match best {
                    Some(i) => i < k && oldest(self@.requests.take(k as int), category) == Some(
                        i as int,
                    ),
                    None => oldest(self@.requests.take(k as int), category) is None,
                },
            decreases self.requests.len() - k,
        {
            proof {
                assert(self@.requests.take(k + 1).drop_last() =~= self@.requests.take(k as int));
            }
            if self.requests[k].category == category {
                match best {
                    Some(i) => {
                        if self.requests[k].sequence_number < self.requests[i].sequence_number {
                            best = Some(k);
                        }
                    },
                    None => {
                        best = Some(k);
                    },
                }
            }
            k += 1;
        }
        assert(self@.requests.take(k as int) =~= self@.requests);
        best
    }

    /// Takes the next request of the category `c` out of the queue.
    pub fn next_request(&mut self, c: Priority) -> (r: Option<Request>)
        ensures
            final(self)@ == old(self)@.next_request(c).db,
            match r {
                Some(request) => old(self)@.next_request(c).row matches Some(row) && row.data
                    == Some(request@),
                None => old(self)@.next_request(c).row is None,
            },
            old(self)@.wf() ==> final(self)@.wf(),
    {
        proof {
            if self@.wf() {
                crate::wellformed::lemma_next_request_wf(self@, c);
            }
        }
        loop
            invariant
                self@.next_request(c) == old(self)@.next_request(c),
                old(self)@.wf() ==> old(self)@.next_request(c).db.wf(),
            decreases self.requests.len(),
        {
            match self.find_oldest(c.code()) {
                None => {
                    return None;
                },
                Some(i) => {
                    let ghost before = self@;
                    let row = self.requests.remove(i);
                    assert(self@.requests =~= before.requests.remove(i as int));
                    assert(row@ == before.requests[i as int]);
                    match row.data {
                        Some(request) => {
                            return Some(request);
                        },
                        None => {},
                    }
                },
            }
        }
    }
}

} // verus!

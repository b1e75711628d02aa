//! Putting requests into the queue.

use vstd::prelude::*;
use crate::database::schema::{Database, DatabaseView, RequestRow};
use crate::repo::{Repo, RepoView};
use crate::requests::{Priority, Request, RequestView};
use crate::status::ProcessStatus;
use crate::table::{first_index, lemma_first_index_is, lemma_first_index_none};
use crate::{GithubDb, GithubDbView};

verus! {

/// The rows of the request table with the sequence number `sequence_number`.
pub open spec fn request_with_number(sequence_number: i64) -> spec_fn(RequestRow) -> bool {
    |r: RequestRow| r.sequence_number == sequence_number
}

/// The sequence number after `n`. After the greatest number the count starts
/// over at the least.
pub open spec fn next_sequence_number(n: i64) -> i64 {
    if n == i64::MAX {
        i64::MIN
    } else {
        (n + 1) as i64
    }
}

/// The time from which comments are asked for when an item was updated at
/// `updated`: a hundred seconds earlier, or the earliest time there is.
pub open spec fn with_slack(updated: i64) -> i64 {
    if updated - 100 < i64::MIN {
        i64::MIN
    } else {
        (updated - 100) as i64
    }
}

/// Executable form of [`with_slack`].
pub fn subtract_slack(updated: i64) -> (r: i64)
    ensures
        r == with_slack(updated),
{
    if updated < i64::MIN + 100 {
        i64::MIN
    } else {
        updated - 100
    }
}

/// The time from which the comments of an item are asked for: none for a new
/// item, whose comments are all fetched; for an updated one the time of its
/// update, less the slack.
pub open spec fn comments_since(status: ProcessStatus, updated: Option<i64>) -> Option<i64> {
    match status {
        ProcessStatus::Updated => match updated {
            Some(t) => Some(with_slack(t)),
            None => None,
        },
        _ => None,
    }
}

impl GithubDbView {
    /// The mirror after the request `r` was queued in the category `c`.
    ///
    /// The entry gets the next sequence number, which is then used up. If the
    /// queue holds an entry with that number already, the request is dropped,
    /// so that no two entries ever share a number.
    pub open spec fn add_req(self, c: Priority, r: RequestView) -> GithubDbView {
        let row = RequestRow {
            category: c.spec_code(),
            sequence_number: self.request_sequence_number,
            data: Some(r),
            name: r.name(),
        };
        let taken = first_index(
            self.db.requests,
            request_with_number(self.request_sequence_number),
        ) is Some;
        GithubDbView {
            db: if taken {
                self.db
            } else {
                DatabaseView { requests: self.db.requests.push(row), ..self.db }
            },
            request_sequence_number: next_sequence_number(self.request_sequence_number),
            ..self
        }
    }

    /// The mirror after an issue of `repo` was classified as `issue_status`:
    /// unless the issue is unchanged, a request for its comments is queued.
    pub open spec fn add_comments_updated_req(
        self,
        issue_status: ProcessStatus,
        repo: RepoView,
        issue_updated_timestamp: Option<i64>,
        issue_number: u64,
    ) -> GithubDbView {
        if issue_status == ProcessStatus::Unchanged {
            self
        } else {
            self.add_req(
                Priority::Comments,
                RequestView::Comments {
                    repo,
                    issue_number,
                    since_timestamp: comments_since(issue_status, issue_updated_timestamp),
                    page: 0,
                    url: None,
                },
            )
        }
    }
}

impl Database {
    /// The first row of the request table with the sequence number
    /// `sequence_number`.
    pub fn find_request(&self, sequence_number: i64) -> (r: Option<usize>)
        ensures
            match r {
                Some(i) => i < self.requests.len() && first_index(
                    self@.requests,
                    request_with_number(sequence_number),
                ) == Some(i as int),
                None => first_index(self@.requests, request_with_number(sequence_number)) is None,
            },
    {
        let mut i: usize = 0;
        while i < self.requests.len()
            invariant
                i <= self.requests.len(),
                forall|j: int|
                    0 <= j < i ==> !request_with_number(sequence_number)(
                        #[trigger] self@.requests[j],
                    ),
            decreases self.requests.len() - i,
        {
            if self.requests[i].sequence_number == sequence_number {
                proof {
                    lemma_first_index_is(
                        self@.requests,
                        request_with_number(sequence_number),
                        i as int,
                    );
                }
                return Some(i);
            }
            i += 1;
        }
        proof {
            lemma_first_index_none(self@.requests, request_with_number(sequence_number));
        }
        None
    }
}

impl GithubDb {
    /// Queues the request `r` in the category `c`.
    pub fn add_req(&mut self, c: Priority, r: Request)
        ensures
            final(self)@ == old(self)@.add_req(c, r@),
            old(self)@.wf() ==> final(self)@.wf(),
    {
        proof {
            if self@.wf() {
                crate::wellformed::lemma_add_req_wf(self@, c, r@);
            }
        }
        let sequence_number = self.request_sequence_number;
        self.request_sequence_number = sequence_number.wrapping_add(1);
        if self.db.find_request(sequence_number).is_none() {
            let name = r.name().to_owned();
            self.db.requests.push(
                crate::database::schema::Request {
                    category: c.code(),
                    sequence_number,
                    data: Some(r),
                    name,
                },
            );
            assert(self@.db.requests =~= old(self)@.add_req(c, r@).db.requests);
        }
    }

    /// Queues a request for the comments of the issue `issue_number` of
    /// `repo`, unless the issue was classified as unchanged.
    pub fn add_comments_updated_req(
        &mut self,
        issue_status: ProcessStatus,
        repo: Repo,
        issue_updated_timestamp: Option<i64>,
        issue_number: u64,
    )
        ensures
            final(self)@ == old(self)@.add_comments_updated_req(
                issue_status,
                repo@,
                issue_updated_timestamp,
                issue_number,
            ),
    {
        let since = match issue_status {
            ProcessStatus::New => None,
            ProcessStatus::Updated => match issue_updated_timestamp {
                Some(t) => Some(subtract_slack(t)),
                None => None,
            },
            ProcessStatus::Unchanged => {
                return ;
            },
        };
        self.add_req(
            Priority::Comments,
            Request::Comments { repo, issue_number, since_timestamp: since, page: 0, url: None },
        );
    }
}

} // verus!

//! A store that reflects a comment is left alone by it, and goes on
//! reflecting it while other comments are observed.

use vstd::prelude::*;
use crate::database::idempotence::{
    alike, holds_user, lemma_comment_settled, lemma_user_held, lemma_user_kept,
    lemma_user_settled, row_of_user,
};
use crate::database::process::Processed;
use crate::database::schema::DatabaseView;
use crate::database::updates::{comment_with_id, observed_or, shared_with_number, Ensured};
use crate::requests::opt_text;
use crate::status::ProcessStatus;
use crate::table::{first_index, lemma_first_index, lemma_first_index_is};

verus! {

impl DatabaseView {
    /// What writing the comment `comment` on the row `issue_or_pr` to the
    /// comment table leaves behind, where the store holds its author.
    pub open spec fn comment_step(self, comment: crate::models::Comment, issue_or_pr: usize)
        -> Ensured {
        self.ensure_comment_exists(
            ProcessStatus::Unchanged,
            comment.id as i64,
            row_of_user(self.users, comment.user),
            issue_or_pr,
            opt_text(comment.body),
            comment.created_at,
            observed_or(comment.updated_at, comment.created_at),
        )
    }

    /// Whether the store reflects the comment `comment` on the issue or
    /// pull request `issue_number`. A comment on an item that the store
    /// does not hold is passed over, and so reflected.
    pub open spec fn reflects_comment(self, comment: crate::models::Comment, issue_number: u64)
        -> bool {
        first_index(self.shared, shared_with_number(issue_number as i64)) matches Some(at) ==> {
            &&& holds_user(self.users, comment.user)
            &&& first_index(self.comments, comment_with_id(comment.id as i64)) is Some
            &&& self.comment_step(comment, at as usize).db.comments == self.comments
            &&& self.comment_step(comment, at as usize).status == ProcessStatus::Unchanged
        }
    }
}

/// Whether two comments can be observed one after the other without the one
/// undoing what the other wrote: they are different comments, and their
/// authors are reported alike if they are the same user.
pub open spec fn comments_agree(a: crate::models::Comment, b: crate::models::Comment) -> bool {
    a.id as i64 != b.id as i64 && alike(a.user, b.user)
}

/// A comment that the store reflects is classified as unchanged and leaves
/// the store as it is.
pub proof fn lemma_reflected_comment(
    db: DatabaseView,
    comment: crate::models::Comment,
    issue_number: u64,
)
    requires
        db.reflects_comment(comment, issue_number),
    ensures
        db.process_comment(comment, issue_number) == (Processed {
            db,
            status: ProcessStatus::Unchanged,
        }),
{
    if let Some(at) = first_index(db.shared, shared_with_number(issue_number as i64)) {
        lemma_user_settled(db, ProcessStatus::Unchanged, comment.user);
        assert(db.comment_step(comment, at as usize).db == db);
    }
}

/// The store reflects a comment that was just brought in.
pub proof fn lemma_comment_reflected(
    db: DatabaseView,
    comment: crate::models::Comment,
    issue_number: u64,
)
    ensures
        db.process_comment(comment, issue_number).db.reflects_comment(comment, issue_number),
{
    let unchanged = ProcessStatus::Unchanged;
    if let Some(at) = first_index(db.shared, shared_with_number(issue_number as i64)) {
        let author = db.ensure_user_exists(unchanged, comment.user);
        lemma_user_held(db, unchanged, comment.user);
        let first = db.process_comment(comment, issue_number).db;
        assert(first.users == author.db.users);
        assert(first.shared == db.shared);
        let found = comment_with_id(comment.id as i64);
        lemma_first_index(author.db.comments, found);
        let row = match first_index(author.db.comments, found) {
            Some(i) => i,
            None => author.db.comments.len() as int,
        };
        assert forall|j: int| 0 <= j < row implies !found(#[trigger] first.comments[j]) by {
            assert(first.comments[j] == author.db.comments[j]);
        }
        lemma_first_index_is(first.comments, found, row);
        lemma_comment_settled(
            author.db,
            first,
            author.status,
            unchanged,
            comment.id as i64,
            author.row,
            at as usize,
            opt_text(comment.body),
            comment.created_at,
            observed_or(comment.updated_at, comment.created_at),
        );
    }
}

/// A store that reflects a comment still reflects it after another comment
/// on the same issue or pull request, which agrees with it, was observed.
pub proof fn lemma_comment_reflection_kept(
    db: DatabaseView,
    comment: crate::models::Comment,
    other: crate::models::Comment,
    issue_number: u64,
)
    requires
        db.reflects_comment(comment, issue_number),
        comments_agree(comment, other),
    ensures
        db.process_comment(other, issue_number).db.reflects_comment(comment, issue_number),
{
    let unchanged = ProcessStatus::Unchanged;
    if let Some(at) = first_index(db.shared, shared_with_number(issue_number as i64)) {
        let author = db.ensure_user_exists(unchanged, other.user);
        lemma_user_kept(db, unchanged, comment.user, other.user);
        let after = db.process_comment(other, issue_number).db;
        assert(after.users == author.db.users);
        assert(after.shared == db.shared);
        let found = comment_with_id(comment.id as i64);
        let other_found = comment_with_id(other.id as i64);
        lemma_first_index(db.comments, found);
        lemma_first_index(db.comments, other_found);
        let row = first_index(db.comments, found)->0;
        let other_row = match first_index(db.comments, other_found) {
            Some(i) => i,
            None => db.comments.len() as int,
        };
        assert(author.db.comments == db.comments);
        assert(after.comments[other_row].comment_id == other.id as i64);
        assert forall|j: int| 0 <= j < after.comments.len() && j != other_row implies
            #[trigger] after.comments[j] == db.comments[j] by {}
        assert(row != other_row);
        assert forall|j: int| 0 <= j < row implies !found(#[trigger] after.comments[j]) by {
            if j != other_row {
                assert(after.comments[j] == db.comments[j]);
            }
        }
        lemma_first_index_is(after.comments, found, row);
        let written = db.comment_step(comment, at as usize).db.comments;
        assert(written[row] == db.comments[row]);
        assert(after.comment_step(comment, at as usize).db.comments =~= after.comments);
    }
}

/// A comment that is brought into the store a second time, right after the
/// first, is classified as unchanged and leaves the store as it is.
pub proof fn lemma_comment_idempotent(
    db: DatabaseView,
    comment: crate::models::Comment,
    issue_number: u64,
)
    ensures
        db.process_comment(comment, issue_number).db.process_comment(comment, issue_number) == (
        Processed {
            db: db.process_comment(comment, issue_number).db,
            status: ProcessStatus::Unchanged,
        }),
{
    lemma_comment_reflected(db, comment, issue_number);
    lemma_reflected_comment(db.process_comment(comment, issue_number).db, comment, issue_number);
}

} // verus!

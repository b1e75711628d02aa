//! Links between a parent row and its members, and their reconciliation.
//!
//! Assignments, label links and review requests have one shape: a parent (an
//! issue or pull request), a member (a user or a label) and a flag. When a
//! parent is observed with a set of members, its links are first all marked
//! outdated, then the observed ones are confirmed or added, and what is still
//! marked is deleted.

use vstd::prelude::*;
use crate::database::schema::{Assignment, LabelLink, ReviewRequest};
use crate::table::{first_index, lemma_first_index_is, lemma_first_index_none};

verus! {

/// A row that links a member to a parent and can be marked outdated.
pub trait Link: Copy + Sized {
    /// The row of the shared table that the link is rooted at.
    spec fn parent(self) -> usize;

    /// The row that is linked to the parent.
    spec fn member(self) -> usize;

    /// Whether the link awaits confirmation.
    spec fn outdated(self) -> bool;

    /// The link of `member` to `parent`.
    spec fn make(parent: usize, member: usize, outdated: bool) -> Self;

    /// A link is made of its three attributes and of nothing else.
    proof fn lemma_make(parent: usize, member: usize, outdated: bool)
        ensures
            Self::make(parent, member, outdated).parent() == parent,
            Self::make(parent, member, outdated).member() == member,
            Self::make(parent, member, outdated).outdated() == outdated,
    ;

    /// A link is the link that is made of its attributes.
    proof fn lemma_made(self)
        ensures
            self == Self::make(self.parent(), self.member(), self.outdated()),
    ;

    /// Executable form of [`Link::parent`].
    fn get_parent(&self) -> (r: usize)
        ensures
            r == self.parent(),
    ;

    /// Executable form of [`Link::member`].
    fn get_member(&self) -> (r: usize)
        ensures
            r == self.member(),
    ;

    /// Executable form of [`Link::outdated`].
    fn is_outdated(&self) -> (r: bool)
        ensures
            r == self.outdated(),
    ;

    /// Executable form of [`Link::make`].
    fn new(parent: usize, member: usize, outdated: bool) -> (r: Self)
        ensures
            r == Self::make(parent, member, outdated),
    ;
}

impl Link for Assignment {
    open spec fn parent(self) -> usize {
        self.issue_or_pr
    }

    open spec fn member(self) -> usize {
        self.user
    }

    open spec fn outdated(self) -> bool {
        self.outdated
    }

    open spec fn make(parent: usize, member: usize, outdated: bool) -> Self {
        Assignment { user: member, issue_or_pr: parent, outdated }
    }

    proof fn lemma_make(parent: usize, member: usize, outdated: bool) {
    }

    proof fn lemma_made(self) {
    }

    fn get_parent(&self) -> (r: usize) {
        self.issue_or_pr
    }

    fn get_member(&self) -> (r: usize) {
        self.user
    }

    fn is_outdated(&self) -> (r: bool) {
        self.outdated
    }

    fn new(parent: usize, member: usize, outdated: bool) -> (r: Self) {
        Assignment { user: member, issue_or_pr: parent, outdated }
    }
}

impl Link for LabelLink {
    open spec fn parent(self) -> usize {
        self.issue_or_pr
    }

    open spec fn member(self) -> usize {
        self.label
    }

    open spec fn outdated(self) -> bool {
        self.outdated
    }

    open spec fn make(parent: usize, member: usize, outdated: bool) -> Self {
        LabelLink { issue_or_pr: parent, label: member, outdated }
    }

    proof fn lemma_make(parent: usize, member: usize, outdated: bool) {
    }

    proof fn lemma_made(self) {
    }

    fn get_parent(&self) -> (r: usize) {
        self.issue_or_pr
    }

    fn get_member(&self) -> (r: usize) {
        self.label
    }

    fn is_outdated(&self) -> (r: bool) {
        self.outdated
    }

    fn new(parent: usize, member: usize, outdated: bool) -> (r: Self) {
        LabelLink { issue_or_pr: parent, label: member, outdated }
    }
}

impl Link for ReviewRequest {
    open spec fn parent(self) -> usize {
        self.pr
    }

    open spec fn member(self) -> usize {
        self.user
    }

    open spec fn outdated(self) -> bool {
        self.outdated
    }

    open spec fn make(parent: usize, member: usize, outdated: bool) -> Self {
        ReviewRequest { user: member, pr: parent, outdated }
    }

    proof fn lemma_make(parent: usize, member: usize, outdated: bool) {
    }

    proof fn lemma_made(self) {
    }

    fn get_parent(&self) -> (r: usize) {
        self.pr
    }

    fn get_member(&self) -> (r: usize) {
        self.user
    }

    fn is_outdated(&self) -> (r: bool) {
        self.outdated
    }

    fn new(parent: usize, member: usize, outdated: bool) -> (r: Self) {
        ReviewRequest { user: member, pr: parent, outdated }
    }
}

/// The links of `member` to `parent`.
pub open spec fn links_of<L: Link>(parent: usize, member: usize) -> spec_fn(L) -> bool {
    |l: L| l.parent() == parent && l.member() == member
}

/// The links rooted at `parent` that are marked outdated.
pub open spec fn stale_at<L: Link>(parent: usize) -> spec_fn(L) -> bool {
    |l: L| l.parent() == parent && l.outdated()
}

/// `links` with every link rooted at `parent` marked outdated.
pub open spec fn mark<L: Link>(links: Seq<L>, parent: usize) -> Seq<L> {
    Seq::new(
        links.len(),
        |i: int|
            if links[i].parent() == parent {
                L::make(parent, links[i].member(), true)
            } else {
                links[i]
            },
    )
}

/// What confirming links leaves behind.
pub struct Confirmed<L> {
    /// The table afterwards.
    pub links: Seq<L>,
    /// Whether a link was added.
    pub inserted: bool,
}

/// `links` with the link of `member` to `parent` not outdated: the first such
/// link has its mark cleared, or a link is added where there was none.
pub open spec fn confirm<L: Link>(links: Seq<L>, parent: usize, member: usize) -> Confirmed<L> {
    match first_index(links, links_of::<L>(parent, member)) {
        Some(i) => Confirmed {
            links: links.update(i, L::make(parent, member, false)),
            inserted: false,
        },
        None => Confirmed { links: links.push(L::make(parent, member, false)), inserted: true },
    }
}

/// `links` with the links of all `members` to `parent` confirmed, in order.
pub open spec fn confirm_all<L: Link>(links: Seq<L>, parent: usize, members: Seq<usize>)
    -> Confirmed<L>
    decreases members.len(),
{
    if members.len() == 0 {
        Confirmed { links, inserted: false }
    } else {
        let before = confirm_all(links, parent, members.drop_last());
        let last = confirm(before.links, parent, members.last());
        Confirmed { links: last.links, inserted: before.inserted || last.inserted }
    }
}

/// The indices of the rows of `rows` that satisfy `pred`, in ascending order.
pub open spec fn rows_where<T>(rows: Seq<T>, pred: spec_fn(T) -> bool) -> Seq<usize>
    decreases rows.len(),
{
    if rows.len() == 0 {
        Seq::empty()
    } else if pred(rows.last()) {
        rows_where(rows.drop_last(), pred).push((rows.len() - 1) as usize)
    } else {
        rows_where(rows.drop_last(), pred)
    }
}

/// `rows` without the rows whose index is in `dead`, in their old order.
pub open spec fn without_rows<T>(rows: Seq<T>, dead: Seq<usize>) -> Seq<T>
    decreases rows.len(),
{
    if rows.len() == 0 {
        rows
    } else if dead.contains((rows.len() - 1) as usize) {
        without_rows(rows.drop_last(), dead)
    } else {
        without_rows(rows.drop_last(), dead).push(rows.last())
    }
}

/// What reconciling the links of a parent leaves behind.
pub struct Reconciled<L> {
    /// The table afterwards, with no link deleted yet.
    pub links: Seq<L>,
    /// Whether a link was added.
    pub inserted: bool,
    /// The links of the parent that were not confirmed: those to delete.
    pub outdated: Seq<usize>,
}

/// The links of `parent` marked, then those of `members` confirmed.
pub open spec fn reconcile<L: Link>(links: Seq<L>, parent: usize, members: Seq<usize>)
    -> Reconciled<L> {
    let confirmed = confirm_all(mark(links, parent), parent, members);
    Reconciled {
        links: confirmed.links,
        inserted: confirmed.inserted,
        outdated: rows_where(confirmed.links, stale_at::<L>(parent)),
    }
}

/// Marks every link rooted at `parent` outdated.
pub fn mark_outdated<L: Link>(links: &mut Vec<L>, parent: usize)
    ensures
        final(links)@ == mark(old(links)@, parent),
{
    let mut i: usize = 0;
    while i < links.len()
        invariant
            i <= links.len(),
            links.len() == old(links).len(),
            forall|j: int| 0 <= j < i ==> links@[j] == mark(old(links)@, parent)[j],
            forall|j: int| i <= j < links.len() ==> links@[j] == old(links)@[j],
        decreases links.len() - i,
    {
        if links[i].get_parent() == parent {
            let member = links[i].get_member();
            links[i] = L::new(parent, member, true);
        }
        i += 1;
    }
    assert(links@ =~= mark(old(links)@, parent));
}

/// The first link of `member` to `parent`.
pub fn find_link<L: Link>(links: &Vec<L>, parent: usize, member: usize) -> (r: Option<usize>)
    ensures
        match r {
            Some(i) => i < links.len() && first_index(links@, links_of::<L>(parent, member))
                == Some(i as int),
            None => first_index(links@, links_of::<L>(parent, member)) is None,
        },
{
    let mut i: usize = 0;
    while i < links.len()
        invariant
            i <= links.len(),
            forall|j: int| 0 <= j < i ==> !links_of::<L>(parent, member)(#[trigger] links@[j]),
        decreases links.len() - i,
    {
        if links[i].get_parent() == parent && links[i].get_member() == member {
            proof {
                lemma_first_index_is(links@, links_of::<L>(parent, member), i as int);
            }
            return Some(i);
        }
        i += 1;
    }
    proof {
        lemma_first_index_none(links@, links_of::<L>(parent, member));
    }
    None
}

/// Clears the mark of the link of `member` to `parent`, or adds the link.
/// Tells whether it added one.
pub fn confirm_link<L: Link>(links: &mut Vec<L>, parent: usize, member: usize) -> (inserted: bool)
    ensures
        final(links)@ == confirm(old(links)@, parent, member).links,
        inserted == confirm(old(links)@, parent, member).inserted,
{
    match find_link(links, parent, member) {
        Some(i) => {
            links[i] = L::new(parent, member, false);
            false
        },
        None => {
            links.push(L::new(parent, member, false));
            true
        },
    }
}

/// The indices of the links rooted at `parent` that are marked outdated.
pub fn outdated_rows<L: Link>(links: &Vec<L>, parent: usize) -> (rows: Vec<usize>)
    ensures
        rows@ == rows_where(links@, stale_at::<L>(parent)),
{
    let mut rows: Vec<usize> = Vec::new();
    let mut i: usize = 0;
    while i < links.len()
        invariant
            i <= links.len(),
            rows@ == rows_where(links@.take(i as int), stale_at::<L>(parent)),
        decreases links.len() - i,
    {
        proof {
            assert(links@.take(i + 1).drop_last() =~= links@.take(i as int));
        }
        if links[i].get_parent() == parent && links[i].is_outdated() {
            rows.push(i);
        }
        i += 1;
    }
    assert(links@.take(i as int) =~= links@);
    rows
}

/// Marks the links of `parent` outdated, confirms those of `members`, and
/// reports the rows of those that are still marked. Tells whether a link was
/// added.
pub fn reconcile_links<L: Link>(links: &mut Vec<L>, parent: usize, members: &Vec<usize>) -> (r: (
    bool,
    Vec<usize>,
))
    ensures
        final(links)@ == reconcile(old(links)@, parent, members@).links,
        r.0 == reconcile(old(links)@, parent, members@).inserted,
        r.1@ == reconcile(old(links)@, parent, members@).outdated,
{
    mark_outdated(links, parent);
    let ghost marked = links@;
    let mut inserted = false;
    let mut k: usize = 0;
    while k < members.len()
        invariant
            k <= members.len(),
            links@ == confirm_all(marked, parent, members@.take(k as int)).links,
            inserted == confirm_all(marked, parent, members@.take(k as int)).inserted,
        decreases members.len() - k,
    {
        proof {
            assert(members@.take(k + 1).drop_last() =~= members@.take(k as int));
        }
        let added = confirm_link(links, parent, members[k]);
        inserted = inserted || added;
        k += 1;
    }
    assert(members@.take(k as int) =~= members@);
    let rows = outdated_rows(links, parent);
    (inserted, rows)
}

/// Whether `row` is among `rows`.
pub fn contains_row(rows: &Vec<usize>, row: usize) -> (r: bool)
    ensures
        r == rows@.contains(row),
{
    let mut i: usize = 0;
    while i < rows.len()
        invariant
            i <= rows.len(),
            forall|j: int| 0 <= j < i ==> rows@[j] != row,
        decreases rows.len() - i,
    {
        if rows[i] == row {
            return true;
        }
        i += 1;
    }
    false
}

/// Deletes the rows whose index is in `dead`; the others keep their order.
pub fn delete_rows<T: Copy>(rows: &mut Vec<T>, dead: &Vec<usize>)
    ensures
        final(rows)@ == without_rows(old(rows)@, dead@),
{
    let mut kept: Vec<T> = Vec::new();
    let mut i: usize = 0;
    while i < rows.len()
        invariant
            i <= rows.len(),
            rows@ == old(rows)@,
            kept@ == without_rows(rows@.take(i as int), dead@),
        decreases rows.len() - i,
    {
        proof {
            assert(rows@.take(i + 1).drop_last() =~= rows@.take(i as int));
        }
        if !contains_row(dead, i) {
            kept.push(rows[i]);
        }
        i += 1;
    }
    assert(rows@.take(i as int) =~= rows@);
    *rows = kept;
}

} // verus!

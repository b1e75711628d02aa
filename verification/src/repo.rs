//! Repositories, named `<organization>/<name>`.

use vstd::prelude::*;
use crate::table::{first_index, lemma_first_index};

verus! {

/// A repository of the upstream service.
#[derive(Debug, PartialEq, Eq)]
pub struct Repo {
    pub organization: String,
    pub name: String,
}

/// What a [`Repo`] denotes: the two parts of its name.
pub struct RepoView {
    pub organization: Seq<char>,
    pub name: Seq<char>,
}

impl View for Repo {
    type V = RepoView;

    open spec fn view(&self) -> RepoView {
        RepoView { organization: self.organization@, name: self.name@ }
    }
}

impl Clone for Repo {
    fn clone(&self) -> (r: Self)
        ensures
            r == *self,
    {
        Repo { organization: self.organization.clone(), name: self.name.clone() }
    }
}

/// The character that separates the organization from the name.
pub open spec fn is_separator() -> spec_fn(char) -> bool {
    |c: char| c == '/'
}

impl RepoView {
    /// The text `<organization>/<name>`.
    pub open spec fn text(self) -> Seq<char> {
        self.organization + seq!['/'] + self.name
    }

    /// What `text` denotes, split at its first `/`; `None` where it has none.
    pub open spec fn parse(text: Seq<char>) -> Option<RepoView> {
        match first_index(text, is_separator()) {
            Some(i) => Some(
                RepoView {
                    organization: text.subrange(0, i),
                    name: text.subrange(i + 1, text.len() as int),
                },
            ),
            None => None,
        }
    }
}

impl Repo {
    /// Splits `s` at its first `/` into organization and name. A text without
    /// `/` names no repository.
    pub fn from_str(s: &str) -> (r: Result<Repo, ()>)
        ensures
            match r {
                Ok(repo) => RepoView::parse(s@) == Some(repo@),
                Err(_) => RepoView::parse(s@) is None,
            },
    {
        let len = s.unicode_len();
        let mut i: usize = 0;
        while i < len
            invariant
                len == s@.len(),
                i <= len,
                forall|j: int| 0 <= j < i ==> s@[j] != '/',
            decreases len - i,
        {
            if s.get_char(i) == '/' {
                proof {
                    lemma_first_index(s@, is_separator());
                }
                let organization = s.substring_char(0, i).to_owned();
                let name = s.substring_char(i + 1, len).to_owned();
                return Ok(Repo { organization, name });
            }
            i += 1;
        }
        proof {
            lemma_first_index(s@, is_separator());
        }
        Err(())
    }

    /// Whether `self` and `other` name the same repository.
    pub fn same_as(&self, other: &Repo) -> (r: bool)
        ensures
            r == (self@ == other@),
    {
        self.organization == other.organization && self.name == other.name
    }

    /// The text `<organization>/<name>`.
    pub fn to_string(&self) -> (r: String)
        ensures
            r@ == self@.text(),
    {
        let mut r = self.organization.clone();
        r.append("/");
        r.append(self.name.as_str());
        proof {
            reveal_strlit("/");
            assert("/"@ =~= seq!['/']);
        }
        r
    }
}

/// A repository's text names that repository again, provided that the
/// organization holds no `/`.
pub proof fn lemma_parse_text(repo: RepoView)
    requires
        forall|j: int| 0 <= j < repo.organization.len() ==> repo.organization[j] != '/',
    ensures
        RepoView::parse(repo.text()) == Some(repo),
{
    let text = repo.text();
    let i = repo.organization.len() as int;
    assert(text[i] == '/');
    assert forall|j: int| 0 <= j < i implies !is_separator()(#[trigger] text[j]) by {
        assert(text[j] == repo.organization[j]);
    }
    crate::table::lemma_first_index_is(text, is_separator(), i);
    assert(text.subrange(0, i) =~= repo.organization);
    assert(text.subrange(i + 1, text.len() as int) =~= repo.name);
}

} // verus!

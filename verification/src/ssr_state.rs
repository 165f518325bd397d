//! The server-side view of the cache that pages are rendered from.
use vstd::prelude::*;
use std::collections::HashMap;
use crate::model::{Commit, RepoState, Section};

verus! {

broadcast use vstd::std_specs::hash::group_hash_axioms;

/// A data store & interface that allows components to use server side date.
///
/// * sections: a map of repo ids to the repo's documentation overview
///   (its `section`s are top level directories of the repo's `docs/`)
pub struct SSRState {
    pub repos: Vec<RepoState>,
    pub commits: Vec<Commit>,
    pub sections: HashMap<u64, Section>,
}

/// The id of the first repository named `name`, if any.
pub open spec fn first_repo_id(repos: Seq<RepoState>, name: Seq<char>) -> Option<u64>
    decreases repos.len(),
{
    if repos.len() == 0 {
        None
    } else if repos[0].name@ == name {
        Some(repos[0].id)
    } else {
        first_repo_id(repos.drop_first(), name)
    }
}

impl SSRState {
    /// An empty state: no repositories, commits or documentation.
    pub fn new() -> (s: SSRState)
        ensures
            s.repos@.len() == 0,
            s.commits@.len() == 0,
            s.sections@ == Map::<u64, Section>::empty(),
    {
        SSRState { repos: Vec::new(), commits: Vec::new(), sections: HashMap::new() }
    }

    /// The id of the first repository named `repo_name`, if any.
    pub fn repo_id(&self, repo_name: String) -> (id: Option<u64>)
        ensures
            id == first_repo_id(self.repos@, repo_name@),
    {
        let n = self.repos.len();
        assert(self.repos@.skip(0) =~= self.repos@);
        for i in 0..n
            invariant
                n == self.repos@.len(),
                first_repo_id(self.repos@, repo_name@) == first_repo_id(self.repos@.skip(i as int), repo_name@),
        {
            let ghost rest = self.repos@.skip(i as int);
            assert(rest.drop_first() =~= self.repos@.skip(i + 1));
            assert(rest[0] == self.repos@[i as int]);
            if repo_name == self.repos[i].name {
                return Some(self.repos[i].id);
            }
        }
        assert(self.repos@.skip(n as int).len() == 0);
        None
    }

    /// The documentation overview of the first repository named
    /// `repo_name`, if that repository has one.
    pub fn sections_for(&self, repo_name: String) -> (s: Option<&Section>)
        ensures
            s == (match first_repo_id(self.repos@, repo_name@) {
                Some(id) => if self.sections@.contains_key(id) {
                    Some(&self.sections@[id])
                } else {
                    None
                },
                None => None,
            }),
    {
        match self.repo_id(repo_name) {
            Some(id) => self.sections.get(&id),
            None => None,
        }
    }

    /// Installs freshly read repositories and commits.
    pub fn set_repos_and_commits(&mut self, commits: Vec<Commit>, repos: Vec<RepoState>)
        ensures
            final(self).commits == commits,
            final(self).repos == repos,
            final(self).sections == old(self).sections,
    {
        self.commits = commits;
        self.repos = repos;
    }

    /// Installs a freshly read documentation overview of a repository.
    pub fn set_sections(&mut self, repo_id: u64, sections: Section)
        ensures
            final(self).sections@ == old(self).sections@.insert(repo_id, sections),
            final(self).repos == old(self).repos,
            final(self).commits == old(self).commits,
    {
        self.sections.insert(repo_id, sections);
    }

    /// Replaces every documentation overview with those found, each under
    /// its repository's id (a later one for the same id wins).
    pub fn replace_sections(&mut self, found: Vec<(u64, Section)>)
        ensures
            final(self).sections@ == found_overviews(found@),
            final(self).repos == old(self).repos,
            final(self).commits == old(self).commits,
    {
        let mut map: HashMap<u64, Section> = HashMap::new();
        let mut found = found;
        let ghost all = found@;
        let mut rest: Vec<(u64, Section)> = Vec::new();
        // Keep the order of `found`: take them from the back, then insert from the front.
        while found.len() > 0
            invariant
                found@ + rest@.reverse() == all,
            decreases found@.len(),
        {
            let x = found.pop().unwrap();
            let ghost f = found@;
            let ghost r = rest@;
            rest.push(x);
            assert(found@ + rest@.reverse() =~= all) by {
                assert(rest@.reverse() =~= seq![x] + r.reverse());
            }
        }
        assert(rest@.reverse() =~= all);
        let ghost order = rest@.reverse();
        while rest.len() > 0
            invariant
                map@ == found_overviews(order.take(order.len() - rest@.len())),
                rest@.reverse() == order.skip(order.len() - rest@.len()),
                rest@.len() <= order.len(),
            decreases rest@.len(),
        {
            let ghost before = rest@;
            let (id, s) = rest.pop().unwrap();
            let ghost k = order.len() - before.len();
            assert(order[k] == (id, s)) by {
                assert(before.reverse()[0] == before[before.len() - 1]);
                assert(order.skip(k)[0] == order[k]);
            }
            assert(order.take(k + 1).drop_last() =~= order.take(k));
            assert(rest@.reverse() =~= order.skip(k + 1)) by {
                assert forall|j: int| 0 <= j < rest@.len() implies rest@.reverse()[j] == order.skip(k + 1)[j] by {
                    assert(order.skip(k + 1)[j] == order.skip(k)[j + 1]);
                    assert(before.reverse()[j + 1] == before[before.len() - 1 - (j + 1)]);
                }
            }
            map.insert(id, s);
        }
        assert(order.take(order.len() as int) =~= all);
        self.sections = map;
    }
}

/// The overviews found, each under its repository's id; where an id occurs
/// more than once, the last one wins.
pub open spec fn found_overviews(found: Seq<(u64, Section)>) -> Map<u64, Section>
    decreases found.len(),
{
    if found.len() == 0 {
        Map::empty()
    } else {
        found_overviews(found.drop_last()).insert(found.last().0, found.last().1)
    }
}

} // verus!

//! What the cache does with a GitHub push event, and how cached commits and
//! repository states are read back.
use vstd::prelude::*;
use crate::keys::state_channel_spec;
use crate::model::{Author, Commit, PushEvent, Repo, RepoState, copy_opt, same_commit, same_opt_commit};
use crate::text::{decimal, push_decimal};

verus! {

/// A copy of a list of strings.
pub fn copy_strings(v: &Vec<String>) -> (c: Vec<String>)
    ensures
        c@ == v@,
{
    let mut c: Vec<String> = Vec::new();
    let n = v.len();
    for i in 0..n
        invariant
            n == v@.len(),
            c@ == v@.take(i as int),
    {
        c.push(v[i].clone());
        assert(c@ =~= v@.take(i + 1));
    }
    assert(v@.take(n as int) =~= v@);
    c
}

/// A copy of a commit.
pub fn copy_commit(c: &Commit) -> (d: Commit)
    ensures
        same_commit(d, *c),
{
    Commit {
        id: c.id.clone(),
        repo_name: c.repo_name.clone(),
        timestamp: c.timestamp,
        author: Author { username: c.author.username.clone(), email: c.author.email.clone() },
        distinct: c.distinct,
        message: c.message.clone(),
        added: copy_strings(&c.added),
        modified: copy_strings(&c.modified),
        removed: copy_strings(&c.removed),
    }
}

/// A copy of a repository record.
pub fn copy_repo(r: &Repo) -> (d: Repo)
    ensures
        d == *r,
{
    Repo {
        id: r.id,
        name: r.name.clone(),
        full_name: r.full_name.clone(),
        description: copy_opt(&r.description),
        language: copy_opt(&r.language),
        default_branch: r.default_branch.clone(),
    }
}

/// The characters `refs/heads/`.
pub open spec fn heads_prefix() -> Seq<char> {
    seq!['r', 'e', 'f', 's', '/', 'h', 'e', 'a', 'd', 's', '/']
}

/// The push is to the repository's default branch.
pub open spec fn is_default_branch_push(e: PushEvent) -> bool {
    e.git_ref@ == heads_prefix() + e.repository.default_branch@
}

/// The bound of the commit logs: a push trims each log to its ranks below
/// `COMMIT_LOG_CAP - 1`, so that a log keeps its `COMMIT_LOG_CAP - 1`
/// newest commits.
pub const COMMIT_LOG_CAP: isize = 50;

/// The key of a repository's commit log, under which a push writes it and
/// from which it is read back: `{repo_id}:commits`.
pub open spec fn repo_commit_log_key(repo_id: u64) -> Seq<char> {
    decimal(repo_id as nat) + seq![':', 'c', 'o', 'm', 'm', 'i', 't', 's']
}

/// The key of a repository's commit log (see [`repo_commit_log_key`]).
pub fn commit_log_key(repo_id: u64) -> (k: String)
    ensures
        k@ == repo_commit_log_key(repo_id),
{
    let mut k = String::new();
    push_decimal(&mut k, repo_id);
    k.append(":commits");
    proof {
        reveal_strlit(":commits");
    }
    assert(k@ =~= repo_commit_log_key(repo_id));
    k
}

/// The keys of the commit logs of the repositories `ids`, in order.
pub open spec fn commit_log_keys(ids: Seq<u64>) -> Seq<Seq<char>> {
    ids.map_values(|id: u64| repo_commit_log_key(id))
}

/// What the cache stores for a push to the default branch.
pub struct CacheUpdate {
    /// The repository's new state, stored under its id in `repos:states`.
    pub state: RepoState,
    /// The pushed commits with their scores (the negated commit time in
    /// seconds, so that the newest ranks first), added to the repository's
    /// log and to the log of all repositories.
    pub scored_commits: Vec<(i64, Commit)>,
    /// The key of the repository's commit log.
    pub commit_log_key: String,
    /// Each log keeps its ranks below this one (`0..keep_ranks`) and drops
    /// the rest.
    pub keep_ranks: isize,
    /// The channel on which the change is announced.
    pub channel: String,
    /// The repository, for reconciling its documentation.
    pub repository: Repo,
    /// The pushed commits, each naming the repository, for reconciling its
    /// documentation.
    pub commits: Vec<Commit>,
}

/// The commit, naming the repository `repo_name`.
pub open spec fn named_commit(c: Commit, repo_name: String) -> Commit {
    Commit { repo_name, ..c }
}

/// `s` is commit `c`, naming the repository `repo_name`, scored by its
/// negated commit time in seconds.
pub open spec fn is_scored_commit(s: (i64, Commit), c: Commit, repo_name: String) -> bool {
    s.0 == -c.timestamp.secs && same_commit(s.1, named_commit(c, repo_name))
}

/// `u` is what the cache stores for the push `e` to the default branch.
pub open spec fn is_cache_update(u: CacheUpdate, e: PushEvent) -> bool {
    let repo = e.repository;
    &&& u.state.id == repo.id
    &&& u.state.language == repo.language
    &&& u.state.name == repo.name
    &&& u.state.description == repo.description
    &&& same_opt_commit(u.state.head_commit, e.head_commit)
    &&& u.commits@.len() == e.commits@.len()
    &&& forall|i: int| 0 <= i < e.commits@.len() ==> same_commit(#[trigger] u.commits@[i], named_commit(e.commits@[i], repo.name))
    &&& u.scored_commits@.len() == e.commits@.len()
    &&& forall|i: int|
        0 <= i < e.commits@.len() ==> #[trigger] is_scored_commit(u.scored_commits@[i], e.commits@[i], repo.name)
    &&& u.commit_log_key@ == repo_commit_log_key(repo.id)
    &&& u.keep_ranks == COMMIT_LOG_CAP - 1
    &&& u.channel@ == state_channel_spec(repo.id)
    &&& u.repository == repo
}

/// Update a repo state and the commit log in response to a webhook event.
///
/// Only events on the default branch are considered: for any other
/// push there is nothing to store.
pub fn plan_cache_event(event: PushEvent) -> (u: Option<CacheUpdate>)
    requires
        forall|i: int| 0 <= i < event.commits@.len() ==> #[trigger] event.commits@[i].timestamp.secs > i64::MIN,
    ensures
        match u {
            Some(u) => is_default_branch_push(event) && is_cache_update(u, event),
            None => !is_default_branch_push(event),
        },
{
    let mut expected = String::new();
    expected.append("refs/heads/");
    expected.append(event.repository.default_branch.as_str());
    proof {
        reveal_strlit("refs/heads/");
        assert(expected@ =~= heads_prefix() + event.repository.default_branch@);
    }
    if event.git_ref != expected {
        return None;
    }
    let repo = &event.repository;
    let state = RepoState {
        id: repo.id,
        language: copy_opt(&repo.language),
        name: repo.name.clone(),
        description: copy_opt(&repo.description),
        head_commit: match &event.head_commit {
            Some(c) => Some(copy_commit(c)),
            None => None,
        },
    };
    let mut scored: Vec<(i64, Commit)> = Vec::new();
    let mut commits: Vec<Commit> = Vec::new();
    let n = event.commits.len();
    for i in 0..n
        invariant
            n == event.commits@.len(),
            *repo == event.repository,
            forall|i: int| 0 <= i < event.commits@.len() ==> #[trigger] event.commits@[i].timestamp.secs > i64::MIN,
            commits@.len() == i,
            scored@.len() == i,
            forall|k: int| 0 <= k < i ==> same_commit(#[trigger] commits@[k], named_commit(event.commits@[k], repo.name)),
            forall|k: int|
                0 <= k < i ==> #[trigger] is_scored_commit(scored@[k], event.commits@[k], repo.name),
    {
        let mut c = copy_commit(&event.commits[i]);
        c.repo_name = repo.name.clone();
        let score: i64 = -c.timestamp.secs;
        scored.push((score, copy_commit(&c)));
        commits.push(c);
    }
    let key = commit_log_key(repo.id);
    Some(CacheUpdate {
        state,
        scored_commits: scored,
        commit_log_key: key,
        keep_ranks: COMMIT_LOG_CAP - 1,
        channel: crate::keys::state_channel(repo.id),
        repository: copy_repo(repo),
        commits,
    })
}

/// How cached commits are read.
pub enum CommitsQuery {
    /// Nothing to read: an empty result.
    Nothing,
    /// Read the ranks `0..=stop` of each of these per-repository logs, in
    /// turn: each log's newest commits, newest first.
    Repos { keys: Vec<String>, stop: isize },
    /// Read the ranks `0..=stop` of the log of all repositories (`commits`):
    /// its newest commits, newest first, which are reported oldest first
    /// (see [`arrange_commits`]).
    All { stop: isize },
}

/// Get up to the cache limit of the most recent commits from a repo in
/// reverse chronological order: which logs to read, and up to which rank.
/// With an empty list of repositories there is nothing to read; without a
/// list the log of all repositories is read.
pub fn plan_commits_query(ids: Option<Vec<u64>>, limit: isize) -> (q: CommitsQuery)
    requires
        limit > isize::MIN,
    ensures
        match ids {
            None => q == CommitsQuery::All { stop: (limit - 1) as isize },
            Some(v) => if v@.len() == 0 {
                q is Nothing
            } else {
                match q {
                    CommitsQuery::Repos { keys, stop } => stop == limit - 1 && keys@.map_values(|k: String| k@)
                        == commit_log_keys(v@),
                    _ => false,
                }
            },
        },
{
    let stop = limit - 1;
    match ids {
        None => CommitsQuery::All { stop },
        Some(v) => {
            if v.len() == 0 {
                return CommitsQuery::Nothing;
            }
            let mut keys: Vec<String> = Vec::new();
            let n = v.len();
            for i in 0..n
                invariant
                    n == v@.len(),
                    keys@.map_values(|k: String| k@) == commit_log_keys(v@.take(i as int)),
            {
                let ghost before = keys@.map_values(|k: String| k@);
                keys.push(commit_log_key(v[i]));
                assert(keys@.map_values(|k: String| k@) =~= commit_log_keys(v@.take(i + 1))) by {
                    assert(keys@.map_values(|k: String| k@) =~= before.push(repo_commit_log_key(v@[i as int])));
                    assert(v@.take(i + 1) =~= v@.take(i as int).push(v@[i as int]));
                }
            }
            assert(v@.take(n as int) =~= v@);
            CommitsQuery::Repos { keys, stop }
        },
    }
}

/// The commits in the opposite order: the last first.
pub open spec fn oldest_first(s: Seq<Commit>) -> Seq<Commit> {
    Seq::new(s.len(), |i: int| s[s.len() - 1 - i])
}

/// The present values, in order.
pub open spec fn present<T>(s: Seq<Option<T>>) -> Seq<T>
    decreases s.len(),
{
    if s.len() == 0 {
        Seq::empty()
    } else {
        match s.last() {
            Some(v) => present(s.drop_last()).push(v),
            None => present(s.drop_last()),
        }
    }
}

/// The values that were read successfully, in order (a cached value that
/// does not parse is dropped).
pub fn keep_parsed<T>(values: Vec<Option<T>>) -> (kept: Vec<T>)
    ensures
        kept@ == present(values@),
{
    let mut kept: Vec<T> = Vec::new();
    let ghost vals = values@;
    for x in it: values.into_iter()
        invariant
            it.seq() == vals,
            kept@ == present(vals.take(it.index() as int)),
    {
        let ghost k = it.index();
        assert(vals.take(k + 1).drop_last() =~= vals.take(k as int));
        match x {
            Some(v) => kept.push(v),
            None => {},
        }
    }
    assert(vals.take(vals.len() as int) =~= vals);
    kept
}

/// The commits read for `query`, as they are reported: the values that
/// parsed, in the order read for a per-repository query (newest first), and
/// in the opposite order for the log of all repositories (oldest first).
pub fn arrange_commits(query: &CommitsQuery, values: Vec<Option<Commit>>) -> (commits: Vec<Commit>)
    ensures
        match query {
            CommitsQuery::All { .. } => commits@ == oldest_first(present(values@)),
            _ => commits@ == present(values@),
        },
{
    let mut kept = keep_parsed(values);
    match query {
        CommitsQuery::All { .. } => {
            let ghost p = kept@;
            let mut out: Vec<Commit> = Vec::new();
            while kept.len() > 0
                invariant
                    kept@ == p.take(kept@.len() as int),
                    kept@.len() <= p.len(),
                    out@.len() == p.len() - kept@.len(),
                    forall|i: int| 0 <= i < out@.len() ==> #[trigger] out@[i] == p[p.len() - 1 - i],
                decreases kept@.len(),
            {
                let ghost k = kept@.len();
                let c = kept.pop().unwrap();
                assert(c == p[k - 1]);
                out.push(c);
                assert(kept@ =~= p.take(k - 1));
            }
            assert(out@ =~= oldest_first(p));
            out
        },
        _ => kept,
    }
}

} // verus!

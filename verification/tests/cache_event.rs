use site::cache_event::{arrange_commits, keep_parsed, plan_cache_event, plan_commits_query, CommitsQuery, COMMIT_LOG_CAP};
use site::model::{Author, Commit, PushEvent, Repo, Timestamp};

fn commit(id: &str, secs: i64) -> Commit {
    Commit {
        id: id.into(),
        repo_name: String::new(),
        timestamp: Timestamp { secs, nanos: 0 },
        author: Author { username: "ph-onix".into(), email: "e@x".into() },
        distinct: true,
        message: "chore".into(),
        added: vec![],
        modified: vec!["README.md".into()],
        removed: vec![],
    }
}

fn event(git_ref: &str) -> PushEvent {
    PushEvent {
        git_ref: git_ref.into(),
        repository: Repo {
            id: 1055909254,
            name: "nvim".into(),
            full_name: "ph-onix/nvim".into(),
            description: None,
            language: Some("Lua".into()),
            default_branch: "main".into(),
        },
        commits: vec![commit("a1", 1784068154), commit("b2", 1784068160)],
        head_commit: Some(commit("b2", 1784068160)),
    }
}

#[test]
fn pushes_to_other_branches_are_ignored() {
    assert!(plan_cache_event(event("refs/heads/dev")).is_none());
    assert!(plan_cache_event(event("refs/tags/main")).is_none());
    assert!(plan_cache_event(event("refs/heads/main/x")).is_none());
}

#[test]
fn default_branch_pushes_update_state_and_logs() {
    let u = plan_cache_event(event("refs/heads/main")).unwrap();
    assert_eq!(u.state.id, 1055909254);
    assert_eq!(u.state.name, "nvim");
    assert_eq!(u.state.language.as_deref(), Some("Lua"));
    assert_eq!(u.state.description, None);
    assert_eq!(u.state.head_commit.as_ref().map(|c| c.id.as_str()), Some("b2"));
    // the head commit keeps the repository name it came with
    assert_eq!(u.state.head_commit.as_ref().map(|c| c.repo_name.as_str()), Some(""));
    let scores: Vec<i64> = u.scored_commits.iter().map(|(s, _)| *s).collect();
    assert_eq!(scores, vec![-1784068154, -1784068160]);
    assert!(u.scored_commits.iter().all(|(_, c)| c.repo_name == "nvim"));
    assert!(u.commits.iter().all(|c| c.repo_name == "nvim"));
    assert_eq!(u.commits[1].id, "b2");
    assert_eq!(u.commit_log_key, "1055909254:commits");
    assert_eq!(u.keep_ranks, COMMIT_LOG_CAP - 1);
    assert_eq!(u.keep_ranks, 49);
    assert_eq!(u.channel, "repos:1055909254:state");
    assert_eq!(u.repository.full_name, "ph-onix/nvim");
}

#[test]
fn commit_queries() {
    match plan_commits_query(None, 7) {
        CommitsQuery::All { stop } => assert_eq!(stop, 6),
        _ => panic!("expected the log of all repositories"),
    }
    assert!(matches!(plan_commits_query(Some(vec![]), 7), CommitsQuery::Nothing));
    match plan_commits_query(Some(vec![3, 11]), 50) {
        CommitsQuery::Repos { keys, stop } => {
            assert_eq!(keys, vec!["3:commits".to_string(), "11:commits".to_string()]);
            assert_eq!(stop, 49);
        }
        _ => panic!("expected per-repository logs"),
    }
    match plan_commits_query(None, 0) {
        CommitsQuery::All { stop } => assert_eq!(stop, -1),
        _ => panic!("expected the log of all repositories"),
    }
}

#[test]
fn malformed_cached_values_are_dropped() {
    assert_eq!(keep_parsed(vec![Some(1), None, Some(3), None]), vec![1, 3]);
    assert_eq!(keep_parsed::<u8>(vec![None]), Vec::<u8>::new());
}

#[test]
fn newest_commit_ranks_first() {
    let u = plan_cache_event(event("refs/heads/main")).unwrap();
    // b2 was made after a1, so it is stored with the lower score
    assert!(u.scored_commits[1].0 < u.scored_commits[0].0);
    assert_eq!(u.scored_commits[1].1.id, "b2");
}

#[test]
fn a_repository_log_is_read_where_the_push_wrote_it() {
    let u = plan_cache_event(event("refs/heads/main")).unwrap();
    match plan_commits_query(Some(vec![1055909254]), 7) {
        CommitsQuery::Repos { keys, .. } => assert_eq!(keys, vec![u.commit_log_key.clone()]),
        _ => panic!("expected per-repository logs"),
    }
}

#[test]
fn all_repositories_come_oldest_first() {
    // read by rank: newest (lowest score) first, one value that did not parse
    let read = vec![Some(commit("c3", 30)), None, Some(commit("c2", 20)), Some(commit("c1", 10))];
    let all = plan_commits_query(None, 7);
    let got: Vec<String> = arrange_commits(&all, read).into_iter().map(|c| c.id).collect();
    assert_eq!(got, vec!["c1", "c2", "c3"]);
    let read = vec![Some(commit("c3", 30)), None, Some(commit("c2", 20))];
    let one = plan_commits_query(Some(vec![1]), 7);
    let got: Vec<String> = arrange_commits(&one, read).into_iter().map(|c| c.id).collect();
    assert_eq!(got, vec!["c3", "c2"]);
    assert!(arrange_commits(&all, vec![]).is_empty());
}

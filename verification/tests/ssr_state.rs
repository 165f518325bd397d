use site::model::{RepoState, Section};
use site::ssr_state::SSRState;

fn repo(id: u64, name: &str) -> RepoState {
    RepoState { id, name: name.into(), language: None, description: None, head_commit: None }
}

fn overview(title: &str) -> Section {
    Section { title: Some(title.into()), source: None, items: None, html: None, headings: None }
}

#[test]
fn repository_ids_are_found_by_name() {
    let mut s = SSRState::new();
    assert_eq!(s.repo_id("claw".into()), None);
    s.set_repos_and_commits(vec![], vec![repo(1, "personal-site"), repo(2, "claw"), repo(3, "claw")]);
    assert_eq!(s.repo_id("claw".into()), Some(2));
    assert_eq!(s.repo_id("dotfiles".into()), None);
}

#[test]
fn sections_are_listed_for_known_repositories() {
    let mut s = SSRState::new();
    s.set_repos_and_commits(vec![], vec![repo(1, "a"), repo(2, "b")]);
    s.set_sections(2, overview("B docs"));
    assert_eq!(s.sections_for("b".into()).and_then(|x| x.title.clone()), Some("B docs".to_string()));
    assert!(s.sections_for("a".into()).is_none());
    assert!(s.sections_for("zzz".into()).is_none());
}

#[test]
fn replacing_sections_keeps_the_last_per_repository() {
    let mut s = SSRState::new();
    s.set_sections(9, overview("old"));
    s.replace_sections(vec![(1, overview("one")), (2, overview("two")), (1, overview("uno"))]);
    assert_eq!(s.sections.len(), 2);
    assert_eq!(s.sections[&1].title.as_deref(), Some("uno"));
    assert_eq!(s.sections[&2].title.as_deref(), Some("two"));
    assert!(!s.sections.contains_key(&9));
}

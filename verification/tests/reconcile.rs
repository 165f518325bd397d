use site::model::{Author, Commit, Repo, Section, Timestamp};
use site::reconcile::{split_front_matter_of, DocsSync, PageFetch, SyncAction, SyncError, SyncEvent};

fn repo() -> Repo {
    Repo {
        id: 7,
        name: "nvim".into(),
        full_name: "ph-onix/nvim".into(),
        description: None,
        language: None,
        default_branch: "main".into(),
    }
}

fn commit(id: &str, modified: &[&str]) -> Commit {
    Commit {
        id: id.into(),
        repo_name: "nvim".into(),
        timestamp: Timestamp { secs: 1, nanos: 0 },
        author: Author { username: String::new(), email: String::new() },
        distinct: true,
        message: String::new(),
        added: vec![],
        modified: modified.iter().map(|s| s.to_string()).collect(),
        removed: vec![],
    }
}

fn file(source: &str) -> Section {
    Section { title: Some(source.to_uppercase()), source: Some(source.into()), items: None, html: None, headings: None }
}

fn front_matter() -> Section {
    Section {
        title: Some("nvim".into()),
        source: None,
        items: Some(vec![Section {
            title: Some("Guides".into()),
            source: Some("guides".into()),
            items: Some(vec![file("intro.md"), file("setup")]),
            html: None,
            headings: None,
        }]),
        html: None,
        headings: None,
    }
}

#[test]
fn front_matter_is_split_at_the_first_delimiter() {
    assert_eq!(
        split_front_matter_of(&"{\"a\":1}---# Home\n---\nmore".to_string()),
        Some(("{\"a\":1}".to_string(), "# Home\n---\nmore".to_string()))
    );
    assert_eq!(split_front_matter_of(&"--".to_string()), None);
    assert_eq!(split_front_matter_of(&"---".to_string()), Some((String::new(), String::new())));
    assert_eq!(split_front_matter_of(&"a----b".to_string()), Some(("a".to_string(), "-b".to_string())));
}

#[test]
fn no_commits_nothing_to_sync() {
    let (state, action) = DocsSync::start(&repo(), vec![]);
    assert!(matches!(state, DocsSync::Done));
    assert!(matches!(action, SyncAction::Finish(Ok(()))));
}

#[test]
fn a_full_sync() {
    let commits = vec![commit("aaa", &[]), commit("bbb", &["docs/guides/intro.md", "docs/guides/setup.md"])];
    let (state, action) = DocsSync::start(&repo(), commits);
    match &action {
        SyncAction::FetchOverview { url } => {
            assert_eq!(url, "https://raw.githubusercontent.com/ph-onix/nvim/bbb/docs/overview.md")
        }
        _ => panic!("expected the overview to be fetched"),
    }
    let body = "{\"title\":\"nvim\"}---\n# Home\n\n## Start\n".to_string();
    let (state, action) = state.step(SyncEvent::Overview(PageFetch::Body(body)));
    match &action {
        SyncAction::ParseFrontMatter { json } => assert_eq!(json, "{\"title\":\"nvim\"}"),
        _ => panic!("expected the front matter to be read"),
    }
    let (state, action) = state.step(SyncEvent::FrontMatter(Some(front_matter())));
    match &action {
        SyncAction::StoreOverview { overview, key, channel } => {
            assert_eq!(key, "7:docs:overview.md");
            assert_eq!(channel, "repos:7:docs");
            assert_eq!(overview.title.as_deref(), Some("nvim"));
            assert!(overview.html.as_ref().unwrap().contains("Home"));
            let hs = overview.headings.as_ref().unwrap();
            assert_eq!(hs[0].slug, "home");
            assert_eq!(hs[0].items.as_ref().unwrap()[0].slug, "start");
            assert_eq!(overview.items.as_ref().unwrap()[0].items.as_ref().unwrap().len(), 2);
        }
        _ => panic!("expected the overview to be stored"),
    }
    // the cached overview registered only `intro.md`; `setup` is new
    let cached = vec![Section {
        title: None,
        source: Some("guides".into()),
        items: Some(vec![file("intro.md")]),
        html: None,
        headings: None,
    }];
    let (state, action) = state.step(SyncEvent::OverviewStored(Some(cached)));
    match &action {
        SyncAction::CacheFiles { files } => {
            let mut got: Vec<(String, String)> = files.iter().map(|f| (f.url.clone(), f.key.clone())).collect();
            got.sort();
            assert_eq!(
                got,
                vec![
                    (
                        "https://raw.githubusercontent.com/ph-onix/nvim/bbb/docs/guides/intro.md".to_string(),
                        "7:docs:guides:intro.md".to_string()
                    ),
                    (
                        "https://raw.githubusercontent.com/ph-onix/nvim/bbb/docs/guides/setup.md".to_string(),
                        "7:docs:guides:setup.md".to_string()
                    ),
                ]
            );
        }
        _ => panic!("expected files to be cached"),
    }
    let (state, action) = state.step(SyncEvent::FilesCached);
    assert!(matches!(state, DocsSync::Done));
    assert!(matches!(action, SyncAction::Finish(Ok(()))));
}

#[test]
fn early_ends() {
    let start = || DocsSync::start(&repo(), vec![commit("c", &[])]).0;
    assert!(matches!(start().step(SyncEvent::Overview(PageFetch::NotOk)).1, SyncAction::Finish(Ok(()))));
    assert!(matches!(
        start().step(SyncEvent::Overview(PageFetch::Failed)).1,
        SyncAction::Finish(Err(SyncError::Http))
    ));
    assert!(matches!(
        start().step(SyncEvent::Overview(PageFetch::Body("# no front matter".into()))).1,
        SyncAction::Finish(Ok(()))
    ));
    assert!(matches!(start().step(SyncEvent::Failed(SyncError::Redis)).1, SyncAction::Finish(Err(SyncError::Redis))));
    let (s, _) = start().step(SyncEvent::Overview(PageFetch::Body("{}---x".into())));
    assert!(matches!(s.step(SyncEvent::FrontMatter(None)).1, SyncAction::Finish(Err(SyncError::BadJson))));
    let (s, _) = start().step(SyncEvent::Overview(PageFetch::Body("{}---x".into())));
    let bare = Section { title: None, source: None, items: None, html: None, headings: None };
    let (s, a) = s.step(SyncEvent::FrontMatter(Some(bare)));
    assert!(matches!(a, SyncAction::StoreOverview { .. }));
    // an overview that lists no sections ends the sync once it is stored
    assert!(matches!(s.step(SyncEvent::OverviewStored(None)).1, SyncAction::Finish(Ok(()))));
}

#[test]
fn a_documentation_page_is_rendered_on_its_own() {
    let s = site::reconcile::render_doc_page("# Title\n\ntext\n").unwrap();
    assert!(s.title.is_none() && s.source.is_none() && s.items.is_none());
    assert_eq!(s.html.as_deref(), Some("<h1 id=\"title\">Title<a href=\"#title\" aria-label=\"Link to heading 'Title'\" data-heading-content=\"Title\" class=\"anchor\"></a></h1>\n<p>text</p>\n"));
    assert_eq!(s.headings.unwrap()[0].slug, "title");
}

#[test]
fn an_unexpected_event_ends_the_sync() {
    let start = || DocsSync::start(&repo(), vec![commit("c", &[])]).0;
    let (s, a) = start().step(SyncEvent::FrontMatter(Some(front_matter())));
    assert!(matches!(s, DocsSync::Done));
    assert!(matches!(a, SyncAction::Finish(Ok(()))));
    let (s, a) = start().step(SyncEvent::OverviewStored(None));
    assert!(matches!(s, DocsSync::Done));
    assert!(matches!(a, SyncAction::Finish(Ok(()))));
    let (s, a) = DocsSync::Done.step(SyncEvent::Overview(PageFetch::Body("{}---x".into())));
    assert!(matches!(s, DocsSync::Done));
    assert!(matches!(a, SyncAction::Finish(Ok(()))));
}

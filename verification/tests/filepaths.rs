use chrono::{DateTime, TimeZone, Utc};
use site::docs_sync::filepaths_to_update;
use site::model::{copy_sections, Author, Commit, Section, Timestamp};
use std::collections::HashSet;

fn file(source: &str) -> Section {
    Section {
        title: None,
        source: Some(source.into()),
        items: None,
        html: None,
        headings: None,
    }
}

fn dir(source: &str, children: Vec<Section>) -> Section {
    Section {
        title: None,
        source: Some(source.into()),
        items: Some(children),
        html: None,
        headings: None,
    }
}

fn at(ts: DateTime<Utc>) -> Timestamp {
    Timestamp {
        secs: ts.timestamp(),
        nanos: ts.timestamp_subsec_nanos(),
    }
}

fn commit_at(ts: DateTime<Utc>, added: &[&str], modified: &[&str], removed: &[&str]) -> Commit {
    Commit {
        id: String::new(),
        repo_name: String::new(),
        timestamp: at(ts),
        author: Author {
            username: String::new(),
            email: String::new(),
        },
        distinct: true,
        message: String::new(),
        added: added.iter().map(|s| s.to_string()).collect(),
        modified: modified.iter().map(|s| s.to_string()).collect(),
        removed: removed.iter().map(|s| s.to_string()).collect(),
    }
}

fn run(head: Vec<Section>, cached: Option<Vec<Section>>, commits: Vec<Commit>) -> HashSet<String> {
    filepaths_to_update(head, cached, commits)
        .map(|it| it.into_iter().collect())
        .unwrap_or_default()
}

fn set(paths: &[&str]) -> HashSet<String> {
    paths.iter().map(|s| s.to_string()).collect()
}

#[test]
fn only_collects_files_registered_in_frontmatter() {
    // cached: what the previous overview.md registered
    let cached = vec![
        dir("guides", vec![file("intro.md"), file("setup")]), // `setup` is extension-less (B2)
        dir("api", vec![file("auth.md")]),
    ];
    // head: adds a brand-new registration `webhooks.md` under `api`
    let head = vec![
        dir("guides", vec![file("intro.md"), file("setup")]),
        dir("api", vec![file("auth.md"), file("webhooks.md")]), // new vs cached
    ];

    let older = commit_at(
        Utc.with_ymd_and_hms(2026, 7, 20, 9, 0, 0).unwrap(),
        &[],
        &[
            "docs/guides/intro.md", // registered, not later removed -> included (happy path)
            "docs/api/auth.md",     // modified here, but removed in `newer` -> excluded (shadow)
        ],
        &[],
    );
    let newer = commit_at(
        Utc.with_ymd_and_hms(2026, 7, 20, 12, 0, 0).unwrap(),
        &[],
        &[
            "docs/guides/setup.md",  // registered as ext-less `setup` -> included (B2)
            "docs/archive/auth.md",  // registered *filename*, UNregistered dir -> excluded (B1)
            "README.md",             // not under docs/ -> excluded
            "docs/guides/notes.txt", // not .md -> excluded
            "docs/guides/draft.md",  // .md under docs/, unregistered -> excluded
        ],
        &["docs/api/auth.md"], // shadows the older modify -> auth.md excluded
    );

    let got = run(head, Some(cached), vec![newer, older]);

    // Labeled guards so a failure names the bug directly:
    assert!(
        got.contains("docs/guides/setup.md"),
        "B2: extension-less registration dropped on modify"
    );
    assert!(
        !got.contains("docs/archive/auth.md"),
        "B1: filename-only match pulled in an unregistered dir"
    );
    assert!(
        !got.contains("docs/api/auth.md"),
        "shadow: modified-then-removed file was collected"
    );
    assert!(
        got.contains("docs/api/webhooks.md"),
        "diff: newly registered doc missing"
    );
    assert!(
        got.contains("docs/guides/intro.md"),
        "happy path: registered modify dropped"
    );

    // Full contract: exactly these, nothing extra.
    let want = set(&["docs/guides/intro.md", "docs/guides/setup.md", "docs/api/webhooks.md"]);
    assert_eq!(got, want);
}

#[test]
fn only_collects_files_registered_in_frontmatter_with_a_empty_cache() {
    let head = vec![
        dir("guides", vec![file("intro.md"), file("setup")]), // ext-less -> `.md` appended
        dir("api", vec![file("auth.md")]),
        // dir with no children contributes nothing
        Section {
            title: None,
            source: Some("orphan".into()),
            items: None,
            html: None,
            headings: None,
        },
        // dir with no source name is skipped entirely
        Section {
            title: None,
            source: None,
            items: Some(vec![file("ghost.md")]),
            html: None,
            headings: None,
        },
    ];
    // Cold cache MUST ignore commits: this modify/remove pair changes nothing.
    let commits = vec![commit_at(
        Utc.with_ymd_and_hms(2026, 7, 20, 12, 0, 0).unwrap(),
        &[],
        &["docs/guides/intro.md"],
        &["docs/api/auth.md"],
    )];

    let got = run(head, None, commits);

    let want = set(&["docs/guides/intro.md", "docs/guides/setup.md", "docs/api/auth.md"]);
    assert_eq!(got, want);
}

#[test]
fn paths_are_listed_once() {
    let head = vec![
        dir("guides", vec![file("intro.md"), file("intro")]),
        dir("guides", vec![file("intro.md")]),
    ];
    let got = filepaths_to_update(head, None, vec![]).unwrap();
    assert_eq!(got, vec!["docs/guides/intro.md".to_string()]);
}

#[test]
fn cold_cache_with_no_commits_still_lists_every_registered_file() {
    let head = vec![dir("a", vec![file("x"), file("y.md")]), dir("b", vec![])];
    let got = run(head, None, vec![]);
    assert_eq!(got, set(&["docs/a/x.md", "docs/a/y.md"]));
}

#[test]
fn unchanged_overview_and_no_commits_update_nothing() {
    let head = vec![dir("a", vec![file("x"), file("y.md")])];
    let cached = vec![dir("a", vec![file("x"), file("y.md")])];
    let got = run(head, Some(cached), vec![]);
    assert!(got.is_empty());
}

#[test]
fn added_files_are_collected_like_modified_ones() {
    let head = vec![dir("a", vec![file("x")])];
    let cached = vec![dir("a", vec![file("x")])];
    let c = commit_at(Utc.with_ymd_and_hms(2026, 1, 1, 0, 0, 0).unwrap(), &["docs/a/x.md"], &[], &[]);
    assert_eq!(run(head, Some(cached), vec![c]), set(&["docs/a/x.md"]));
}

#[test]
fn a_removal_before_a_modification_does_not_shadow_it() {
    let head = vec![dir("a", vec![file("x")])];
    let cached = vec![dir("a", vec![file("x")])];
    let removed = commit_at(Utc.with_ymd_and_hms(2026, 1, 1, 0, 0, 0).unwrap(), &[], &[], &["docs/a/x.md"]);
    let readded = commit_at(Utc.with_ymd_and_hms(2026, 1, 2, 0, 0, 0).unwrap(), &["docs/a/x.md"], &[], &[]);
    // the list order does not matter: the commit times do
    assert_eq!(
        run(copy_sections(&head), Some(copy_sections(&cached)), vec![readded.clone(), removed.clone()]),
        set(&["docs/a/x.md"])
    );
    assert_eq!(run(head, Some(cached), vec![removed, readded]), set(&["docs/a/x.md"]));
}

#[test]
fn a_removal_in_the_same_commit_does_not_shadow_its_modification() {
    let head = vec![dir("a", vec![file("x")])];
    let cached = vec![dir("a", vec![file("x")])];
    let c = commit_at(Utc.with_ymd_and_hms(2026, 1, 1, 0, 0, 0).unwrap(), &[], &["docs/a/x.md"], &["docs/a/x.md"]);
    assert_eq!(run(head, Some(cached), vec![c]), set(&["docs/a/x.md"]));
}

#[test]
fn among_commits_of_the_same_time_the_later_listed_one_is_newer() {
    let head = vec![dir("a", vec![file("x")])];
    let cached = vec![dir("a", vec![file("x")])];
    let t = Utc.with_ymd_and_hms(2026, 1, 1, 0, 0, 0).unwrap();
    let modify = commit_at(t, &[], &["docs/a/x.md"], &[]);
    let remove = commit_at(t, &[], &[], &["docs/a/x.md"]);
    assert!(run(copy_sections(&head), Some(copy_sections(&cached)), vec![modify.clone(), remove.clone()]).is_empty());
    assert_eq!(run(head, Some(cached), vec![remove, modify]), set(&["docs/a/x.md"]));
}

#[test]
fn sub_second_times_order_commits() {
    let head = vec![dir("a", vec![file("x")])];
    let cached = vec![dir("a", vec![file("x")])];
    let t = Utc.with_ymd_and_hms(2026, 1, 1, 0, 0, 0).unwrap();
    let mut modify = commit_at(t, &[], &["docs/a/x.md"], &[]);
    modify.timestamp.nanos = 500;
    let remove = commit_at(t, &[], &[], &["docs/a/x.md"]);
    // the modification is half a microsecond later than the removal
    assert_eq!(run(head, Some(cached), vec![modify, remove]), set(&["docs/a/x.md"]));
}

#[test]
fn renamed_section_counts_as_newly_registered() {
    let head = vec![dir("guide", vec![file("intro.md")])];
    let cached = vec![dir("guides", vec![file("intro.md")])];
    assert_eq!(run(head, Some(cached), vec![]), set(&["docs/guide/intro.md"]));
}


#[test]
fn commit_order_does_not_matter_with_distinct_times() {
    let head = vec![dir("guides", vec![file("intro.md"), file("setup.md")])];
    let cached = vec![dir("guides", vec![file("intro.md"), file("setup.md")])];
    let t = |s: u32| Utc.with_ymd_and_hms(2026, 1, 20, 12, 0, s).unwrap();
    let a = commit_at(t(1), &[], &["docs/guides/intro.md"], &[]);
    let b = commit_at(t(2), &[], &[], &["docs/guides/intro.md"]);
    let c = commit_at(t(3), &["docs/guides/setup.md"], &[], &[]);
    let orders = vec![
        vec![a.clone(), b.clone(), c.clone()],
        vec![c.clone(), b.clone(), a.clone()],
        vec![b.clone(), c.clone(), a.clone()],
    ];
    for commits in orders {
        assert_eq!(run(copy_sections(&head), Some(copy_sections(&cached)), commits), set(&["docs/guides/setup.md"]));
    }
}

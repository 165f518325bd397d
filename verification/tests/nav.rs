use site::model::Section;
use site::nav::{crumbs, is_current_route, repo_docs_href, sections_nav, trim_md_ext, Crumb};

fn page(title: Option<&str>, source: Option<&str>) -> Section {
    Section { title: title.map(String::from), source: source.map(String::from), items: None, html: None, headings: None }
}

#[test]
fn repository_docs_address() {
    assert_eq!(repo_docs_href(&"nvim".to_string()), "/docs/nvim");
    assert!(is_current_route("/docs/nvim/guides/intro", "/docs/nvim"));
    assert!(!is_current_route("/docs", "/docs/nvim"));
}

#[test]
fn trailing_md_is_trimmed_as_often_as_it_occurs() {
    assert_eq!(trim_md_ext(&"intro.md".to_string()), "intro");
    assert_eq!(trim_md_ext(&"intro".to_string()), "intro");
    assert_eq!(trim_md_ext(&"a.md.md".to_string()), "a");
    assert_eq!(trim_md_ext(&".md".to_string()), "");
    assert_eq!(trim_md_ext(&"a.mdx".to_string()), "a.mdx");
}

#[test]
fn menu_links_titled_files_of_each_section() {
    let sections = Some(vec![
        Section {
            title: Some("Guides".into()),
            source: Some("guides".into()),
            items: Some(vec![
                page(Some("Intro"), Some("intro.md")),
                page(None, Some("hidden.md")),
                page(Some("Setup"), Some("setup")),
                page(Some("Nameless"), None),
            ]),
            html: None,
            headings: None,
        },
        Section { title: None, source: None, items: Some(vec![page(Some("Orphan"), Some("o.md"))]), html: None, headings: None },
        page(Some("Empty"), Some("empty")),
    ]);
    let groups = sections_nav(&sections, &"nvim".to_string());
    assert_eq!(groups.len(), 3);
    assert_eq!(groups[0].title.as_deref(), Some("Guides"));
    let links: Vec<(&str, &str)> = groups[0].links.iter().map(|l| (l.title.as_str(), l.href.as_str())).collect();
    assert_eq!(
        links,
        vec![("Intro", "/docs/nvim/guides/intro"), ("Setup", "/docs/nvim/guides/setup"), ("Nameless", "")]
    );
    assert_eq!(groups[1].title, None);
    assert_eq!(groups[1].links[0].href, "");
    assert!(groups[2].links.is_empty());
    assert!(sections_nav(&None, &"nvim".to_string()).is_empty());
}

fn show(trail: &[Crumb]) -> Vec<String> {
    trail
        .iter()
        .map(|c| match c {
            Crumb::Link { label, href } => format!("link {label} {href}"),
            Crumb::Text { label } => format!("text {label}"),
            Crumb::Current { label } => format!("current {label}"),
        })
        .collect()
}

#[test]
fn breadcrumbs_of_the_root_are_home_alone() {
    assert_eq!(show(&crumbs("/", &vec![])), vec!["current home"]);
    assert_eq!(show(&crumbs("", &vec![])), vec!["current home"]);
    assert_eq!(show(&crumbs("docs", &vec![])), vec!["current home"]);
}

#[test]
fn breadcrumbs_link_known_pages() {
    let links = vec!["/docs/nvim".to_string()];
    assert_eq!(
        show(&crumbs("/docs/nvim/guides/intro/", &links)),
        vec!["link home /", "text docs", "link nvim /docs/nvim", "text guides", "current intro"]
    );
    assert_eq!(show(&crumbs("/docs", &links)), vec!["link home /", "current docs"]);
    assert_eq!(show(&crumbs("//docs//nvim", &links)), vec!["link home /", "text docs", "current nvim"]);
}

use site::model::{copy_heading, copy_section, Heading, Section};

fn leaf(text: &str, slug: &str) -> Heading {
    Heading { text: text.into(), slug: slug.into(), items: None }
}

fn page(name: &str) -> Section {
    Section {
        title: Some(format!("{name} title")),
        source: Some(format!("{name}.md")),
        items: None,
        html: Some(format!("<h1>{name}</h1>")),
        headings: Some(vec![Heading {
            text: "Top".into(),
            slug: "top".into(),
            items: Some(vec![leaf("Child", "child")]),
        }]),
    }
}

#[test]
fn copies_are_deep() {
    let tree = Section {
        title: Some("Guides".into()),
        source: Some("guides".into()),
        items: Some(vec![Section {
            title: None,
            source: Some("nested".into()),
            items: Some(vec![page("deep")]),
            html: None,
            headings: None,
        }]),
        html: None,
        headings: None,
    };
    let c = copy_section(&tree);
    assert_eq!(c.title.as_deref(), Some("Guides"));
    assert_eq!(c.source.as_deref(), Some("guides"));
    let nested = &c.items.as_ref().unwrap()[0];
    assert_eq!(nested.source.as_deref(), Some("nested"));
    assert!(nested.title.is_none());
    let deep = &nested.items.as_ref().unwrap()[0];
    assert_eq!(deep.title.as_deref(), Some("deep title"));
    assert_eq!(deep.source.as_deref(), Some("deep.md"));
    assert_eq!(deep.html.as_deref(), Some("<h1>deep</h1>"));
    let h = &deep.headings.as_ref().unwrap()[0];
    assert_eq!((h.text.as_str(), h.slug.as_str()), ("Top", "top"));
    let child = &h.items.as_ref().unwrap()[0];
    assert_eq!((child.text.as_str(), child.slug.as_str()), ("Child", "child"));
    assert!(child.items.is_none());
}

#[test]
fn heading_copies_keep_children() {
    let h = Heading { text: "A".into(), slug: "a".into(), items: Some(vec![leaf("B", "b"), leaf("C", "c-1")]) };
    let c = copy_heading(&h);
    let kids: Vec<(&str, &str)> = c.items.as_ref().unwrap().iter().map(|k| (k.text.as_str(), k.slug.as_str())).collect();
    assert_eq!(kids, vec![("B", "b"), ("C", "c-1")]);
}

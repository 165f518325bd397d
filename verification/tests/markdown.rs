use site::markdown::{outline_headings, to_html_with_headings, GfmOptions, HeadingEntry};
use site::model::Heading;
use std::collections::HashSet;

struct Expected {
    text: &'static str,
    children: &'static [&'static str],
}

struct Case {
    name: &'static str,
    md: &'static str,
    /// Value for `header_id_prefix`; `Some("")` is what production uses.
    prefix: Option<&'static str>,
    want: &'static [Expected],
}

struct Rendered {
    level: u32,
    id: String,
    text: String,
}

const CASES: &[Case] = &[
    Case {
        name: "control: sibling h1s with no nesting",
        md: "# Alpha\n\n# Beta\n",
        prefix: Some(""),
        want: &[
            Expected { text: "Alpha", children: &[] },
            Expected { text: "Beta", children: &[] },
        ],
    },
    Case {
        name: "h2s belong to the h1 above them & all non h1s preceding the first h1 are ignored",
        md: "## Orphan\n\n# Alpha\n\n## A-one\n\n# Beta\n\n## B-one\n",
        prefix: Some(""),
        want: &[
            Expected { text: "Alpha", children: &["A-one"] },
            Expected { text: "Beta", children: &["B-one"] },
        ],
    },
    Case {
        name: "anchorizer: a duplicate h3 must not shift the next h1's slug suffix",
        md: "# Intro\n\n### Intro\n\n# Intro\n",
        prefix: Some(""),
        want: &[
            Expected { text: "Intro", children: &[] },
            Expected { text: "Intro", children: &[] },
        ],
    },
    Case {
        name: "text: a code span contributes its literal to the label and the slug",
        md: "# The `docs/` convention\n",
        prefix: Some(""),
        want: &[Expected { text: "The docs/ convention", children: &[] }],
    },
    Case {
        name: "text: a setext soft break is a word boundary",
        md: "Deploy and\nrollback\n==========\n",
        prefix: Some(""),
        want: &[Expected { text: "Deploy and rollback", children: &[] }],
    },
    Case {
        // Flip this expectation if quoted headings should stay out of the nav.
        name: "containers: a heading inside a blockquote is still addressable",
        md: "# Alpha\n\n> ## Quoted\n",
        prefix: Some(""),
        want: &[Expected { text: "Alpha", children: &["Quoted"] }],
    },
    Case {
        name: "empty slug: a heading that anchorizes to nothing is not listed",
        md: "# Alpha\n\n## 🚀\n\n# Beta\n",
        prefix: Some(""),
        want: &[
            Expected { text: "Alpha", children: &[] },
            Expected { text: "Beta", children: &[] },
        ],
    },
];

fn opts(prefix: Option<&str>) -> GfmOptions {
    GfmOptions {
        strikethrough: true,
        table: true,
        autolink: true,
        tasklist: true,
        tagfilter: true,
        footnotes: true,
        header_id_prefix: prefix.map(String::from),
    }
}

fn attr(fragment: &str, name: &str) -> Option<String> {
    let needle = format!(" {name}=\"");
    let start = fragment.find(&needle)? + needle.len();
    let end = start + fragment[start..].find('"')?;
    Some(fragment[start..end].to_string())
}

fn unescape(v: &str) -> String {
    v.replace("&quot;", "\"")
        .replace("&lt;", "<")
        .replace("&gt;", ">")
        .replace("&amp;", "&")
}

fn strip_tags(fragment: &str) -> String {
    let mut out = String::new();
    let mut depth = 0usize;
    for c in fragment.chars() {
        match c {
            '<' => depth += 1,
            '>' => depth = depth.saturating_sub(1),
            _ if depth == 0 => out.push(c),
            _ => {}
        }
    }
    unescape(&out)
}

fn rendered_headings(html: &str) -> Vec<Rendered> {
    let mut out = Vec::new();
    let mut i = 0;
    while let Some(rel) = html[i..].find("<h") {
        let start = i + rel;
        let level = match html[start + 2..].chars().next().and_then(|c| c.to_digit(10)) {
            Some(l) if (1..=6).contains(&l) => l,
            _ => {
                i = start + 2;
                continue;
            }
        };
        let Some(tag_end) = html[start..].find('>').map(|r| start + r) else {
            break;
        };
        let id = attr(&html[start..tag_end], "id").unwrap_or_default();
        let close = format!("</h{level}>");
        let Some(content_end) = html[tag_end..].find(&close).map(|r| tag_end + r) else {
            break;
        };
        let content = &html[tag_end + 1..content_end];
        let text = match attr(content, "data-heading-content") {
            Some(v) => unescape(&v),
            None => strip_tags(content),
        };
        out.push(Rendered { level, id, text });
        i = content_end + close.len();
    }
    out
}

/// Flatten the returned heading tree into (level, slug, text) in document order.
fn flatten(headings: &Option<Vec<Heading>>) -> Vec<(u32, String, String)> {
    let mut out = Vec::new();
    for h in headings.iter().flatten() {
        out.push((1, h.slug.clone(), h.text.clone()));
        for c in h.items.iter().flatten() {
            out.push((2, c.slug.clone(), c.text.clone()));
        }
    }
    out
}

fn flatten_want(want: &[Expected]) -> Vec<(u32, String)> {
    want.iter()
        .flat_map(|e| std::iter::once((1, e.text.to_string())).chain(e.children.iter().map(|c| (2, c.to_string()))))
        .collect()
}

fn check(case: &Case) -> Result<(), String> {
    let (html, headings) = to_html_with_headings(case.md, &opts(case.prefix)).map_err(|e| format!("render: {e}"))?;

    let actual = flatten(&headings);
    let labels: Vec<(u32, String)> = actual.iter().map(|(l, _, t)| (*l, t.clone())).collect();
    let want = flatten_want(case.want);
    if labels != want {
        return Err(format!("toc shape/labels\n    want: {want:?}\n    got:  {labels:?}"));
    }

    let rendered: Vec<Rendered> = rendered_headings(&html).into_iter().filter(|r| r.level <= 2).collect();
    let mut cursor = 0;
    for (_, slug, text) in &actual {
        let Some(offset) = rendered[cursor..].iter().position(|r| &r.text == text) else {
            return Err(format!(
                "heading {text:?} is in the toc but not in the rendered html at or after position {cursor}"
            ));
        };
        let found = &rendered[cursor + offset];
        if &found.id != slug {
            return Err(format!("heading {text:?} has slug {slug:?} but the rendered id is {:?}", found.id));
        }
        cursor += offset + 1;
    }

    let mut seen = HashSet::new();
    for (_, slug, text) in &actual {
        if slug.is_empty() {
            return Err(format!("heading {text:?} produced an empty slug"));
        }
        if !seen.insert(slug.clone()) {
            return Err(format!("slug {slug:?} is used by more than one heading"));
        }
    }
    Ok(())
}

#[test]
fn to_html_with_headings_contract() {
    let failures: Vec<String> = CASES
        .iter()
        .filter_map(|c| check(c).err().map(|e| format!("  {}\n    {e}", c.name)))
        .collect();
    assert!(
        failures.is_empty(),
        "{} of {} cases failed:\n\n{}\n",
        failures.len(),
        CASES.len(),
        failures.join("\n\n"),
    );
}

#[test]
fn page_without_headings_has_no_outline() {
    let (html, headings) = to_html_with_headings("just a paragraph\n", &opts(Some(""))).unwrap();
    assert_eq!(html, "<p>just a paragraph</p>\n");
    assert!(headings.is_none());
}

#[test]
fn duplicate_headings_get_numbered_slugs() {
    let (_, headings) = to_html_with_headings("# Intro\n\n### Intro\n\n# Intro\n", &opts(Some(""))).unwrap();
    let hs = headings.unwrap();
    let slugs: Vec<&str> = hs.iter().map(|h| h.slug.as_str()).collect();
    // the h3 took `intro-1`
    assert_eq!(slugs, vec!["intro", "intro-2"]);
}

#[test]
fn slugs_are_lower_case_and_dashed() {
    let (_, headings) = to_html_with_headings("# Ticks aren't in\n\n## Sub Part\n", &opts(Some(""))).unwrap();
    let hs = headings.unwrap();
    assert_eq!(hs[0].slug, "ticks-arent-in");
    assert_eq!(hs[0].text, "Ticks aren't in");
    let kids = hs[0].items.as_ref().unwrap();
    assert_eq!(kids[0].slug, "sub-part");
    assert!(kids[0].items.is_none());
}

#[test]
fn without_a_prefix_headings_get_no_id() {
    let (html, headings) = to_html_with_headings("# Alpha\n", &opts(None)).unwrap();
    assert_eq!(html, "<h1>Alpha</h1>\n");
    assert_eq!(headings.unwrap()[0].slug, "alpha");
}

fn entry(level: u8, text: &str, slug: &str) -> HeadingEntry {
    HeadingEntry { level, text: text.into(), slug: slug.into() }
}

#[test]
fn outline_groups_second_level_headings_under_the_first_level_one_before_them() {
    let entries = vec![
        entry(2, "Orphan", "orphan"),
        entry(1, "A", "a"),
        entry(2, "A1", "a1"),
        entry(3, "Deep", "deep"),
        entry(2, "A2", "a2"),
        entry(1, "B", "b"),
    ];
    let hs = outline_headings(&entries).unwrap();
    assert_eq!(hs.len(), 2);
    assert_eq!(hs[0].text, "A");
    let kids: Vec<&str> = hs[0].items.as_ref().unwrap().iter().map(|k| k.slug.as_str()).collect();
    assert_eq!(kids, vec!["a1", "a2"]);
    assert_eq!(hs[1].slug, "b");
    assert!(hs[1].items.as_ref().unwrap().is_empty());
}

#[test]
fn a_first_level_heading_without_a_slug_closes_the_group_before_it() {
    let entries = vec![entry(1, "A", "a"), entry(1, "🚀", ""), entry(2, "Lost", "lost")];
    let hs = outline_headings(&entries).unwrap();
    assert_eq!(hs.len(), 1);
    assert!(hs[0].items.as_ref().unwrap().is_empty());
}

#[test]
fn an_outline_of_no_first_level_heading_is_none() {
    assert!(outline_headings(&vec![entry(2, "x", "x"), entry(3, "y", "y")]).is_none());
    assert!(outline_headings(&vec![]).is_none());
}

#[test]
fn site_default_options() {
    let o = GfmOptions::site_default();
    assert!(o.strikethrough && o.table && o.autolink && o.tasklist && o.tagfilter && o.footnotes);
    assert_eq!(o.header_id_prefix.as_deref(), Some(""));
}

#[test]
fn outline_groups_second_level_headings_under_first_level_ones() {
    let md = "## before\n\n# One\n\n## a\n\n### deep\n\n## b\n\n# !!!\n\n## orphan\n\n# Two\n\n## c\n";
    let (_, headings) = to_html_with_headings(md, &opts(Some(""))).unwrap();
    let got = flatten(&headings);
    let want: Vec<(u32, String, String)> = vec![
        (1, "one".into(), "One".into()),
        (2, "a".into(), "a".into()),
        (2, "b".into(), "b".into()),
        (1, "two".into(), "Two".into()),
        (2, "c".into(), "c".into()),
    ];
    assert_eq!(got, want);
}

#[test]
fn outline_anchors_are_the_ids_of_the_html() {
    let (html, headings) = to_html_with_headings("# Intro\n\n## Intro\n\n# Intro\n", &opts(Some("p-"))).unwrap();
    let got = flatten(&headings);
    for (_, slug, _) in &got {
        assert!(html.contains(&format!("id=\"p-{slug}\"")), "{slug} missing in {html}");
    }
    let slugs: Vec<&str> = got.iter().map(|(_, s, _)| s.as_str()).collect();
    assert_eq!(slugs, vec!["intro", "intro-1", "intro-2"]);
    let (html, _) = to_html_with_headings("# Intro\n", &opts(None)).unwrap();
    assert!(!html.contains(" id=\""));
}

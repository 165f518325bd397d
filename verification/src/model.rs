//! The records the site caches: repositories, commits, and the
//! documentation tree declared in a repository's `docs/overview.md`.
use vstd::prelude::*;

verus! {

/// A point in time, as the UTC instant a commit was made: whole seconds
/// since the Unix epoch and the nanoseconds within that second.
/// Instants are ordered by seconds, then by nanoseconds.
#[derive(Clone, Copy, Debug, PartialEq, Eq)]
pub struct Timestamp {
    pub secs: i64,
    pub nanos: u32,
}

/// A repository as GitHub describes it in a push event.
#[derive(Clone, Debug, PartialEq)]
pub struct Repo {
    pub id: u64,
    pub name: String,
    pub full_name: String,
    pub description: Option<String>,
    pub language: Option<String>,
    pub default_branch: String,
}

/// The author of a commit.
#[derive(Clone, Debug, PartialEq)]
pub struct Author {
    pub username: String,
    pub email: String,
}

/// One commit of a push event, with the paths it touched.
#[derive(Clone, Debug, PartialEq)]
pub struct Commit {
    pub id: String,
    pub repo_name: String,
    pub timestamp: Timestamp,
    pub author: Author,
    pub distinct: bool,
    pub message: String,
    pub added: Vec<String>,
    pub modified: Vec<String>,
    pub removed: Vec<String>,
}

/// What the site shows of a repository: its description and latest commit.
#[derive(Clone, Debug, PartialEq)]
pub struct RepoState {
    pub id: u64,
    pub name: String,
    pub language: Option<String>,
    pub description: Option<String>,
    pub head_commit: Option<Commit>,
}

/// The convention for a section md file or child directory in `docs/`.
///
/// * html: raw html string parsed from the source md
/// * headings: extracted heading hierarchy in source order
#[derive(Debug)]
pub struct Section {
    pub title: Option<String>,
    pub source: Option<String>,
    pub items: Option<Vec<Section>>,
    pub html: Option<String>,
    pub headings: Option<Vec<Heading>>,
}

/// A heading of a rendered page, with the anchor it is reachable at and,
/// for a top-level heading, the second-level headings under it.
#[derive(Debug)]
pub struct Heading {
    pub text: String,
    pub slug: String,
    pub items: Option<Vec<Heading>>,
}

/// A GitHub `push` event, as far as the site reads it.
#[derive(Clone, Debug, PartialEq)]
pub struct PushEvent {
    pub git_ref: String,
    pub repository: Repo,
    pub commits: Vec<Commit>,
    pub head_commit: Option<Commit>,
}

/// The two commits hold the same values.
pub open spec fn same_commit(a: Commit, b: Commit) -> bool {
    &&& a.id == b.id
    &&& a.repo_name == b.repo_name
    &&& a.timestamp == b.timestamp
    &&& a.author == b.author
    &&& a.distinct == b.distinct
    &&& a.message == b.message
    &&& a.added@ == b.added@
    &&& a.modified@ == b.modified@
    &&& a.removed@ == b.removed@
}

/// The two optional commits hold the same values.
pub open spec fn same_opt_commit(a: Option<Commit>, b: Option<Commit>) -> bool {
    match (a, b) {
        (Some(x), Some(y)) => same_commit(x, y),
        (None, None) => true,
        _ => false,
    }
}

/// A heading tree as plain values.
pub struct HeadingView {
    pub text: Seq<char>,
    pub slug: Seq<char>,
    pub items: Option<Seq<HeadingView>>,
}

/// The heading tree as plain values.
pub open spec fn heading_view(h: Heading) -> HeadingView
    decreases h,
{
    HeadingView {
        text: h.text@,
        slug: h.slug@,
        items: match h.items {
            Some(v) => Some(headings_view(v@)),
            None => None,
        },
    }
}

/// The heading trees as plain values, in order.
pub open spec fn headings_view(s: Seq<Heading>) -> Seq<HeadingView>
    decreases s,
{
    if s.len() == 0 {
        Seq::empty()
    } else {
        headings_view(s.subrange(0, s.len() - 1)).push(heading_view(s[s.len() - 1]))
    }
}

/// A documentation tree as plain values.
pub struct SectionView {
    pub title: Option<Seq<char>>,
    pub source: Option<Seq<char>>,
    pub items: Option<Seq<SectionView>>,
    pub html: Option<Seq<char>>,
    pub headings: Option<Seq<HeadingView>>,
}

/// The optional string as plain characters.
pub open spec fn opt_chars(s: Option<String>) -> Option<Seq<char>> {
    match s {
        Some(v) => Some(v@),
        None => None,
    }
}

/// The documentation tree as plain values.
pub open spec fn section_view(s: Section) -> SectionView
    decreases s,
{
    SectionView {
        title: opt_chars(s.title),
        source: opt_chars(s.source),
        items: match s.items {
            Some(v) => Some(sections_view(v@)),
            None => None,
        },
        html: opt_chars(s.html),
        headings: match s.headings {
            Some(v) => Some(headings_view(v@)),
            None => None,
        },
    }
}

/// The documentation trees as plain values, in order.
pub open spec fn sections_view(s: Seq<Section>) -> Seq<SectionView>
    decreases s,
{
    if s.len() == 0 {
        Seq::empty()
    } else {
        sections_view(s.subrange(0, s.len() - 1)).push(section_view(s[s.len() - 1]))
    }
}

/// The view of a list holds the view of each tree, in order.
pub proof fn lemma_sections_view_index(s: Seq<Section>)
    ensures
        sections_view(s).len() == s.len(),
        forall|i: int| 0 <= i < s.len() ==> #[trigger] sections_view(s)[i] == section_view(s[i]),
    decreases s.len(),
{
    if s.len() > 0 {
        let front = s.subrange(0, s.len() - 1);
        lemma_sections_view_index(front);
        assert forall|i: int| 0 <= i < s.len() implies #[trigger] sections_view(s)[i] == section_view(s[i]) by {
            if i < s.len() - 1 {
                assert(front[i] == s[i]);
            }
        }
    }
}

/// A copy of an optional string.
pub fn copy_opt(s: &Option<String>) -> (c: Option<String>)
    ensures
        c == *s,
{
    match s {
        Some(t) => Some(t.clone()),
        None => None,
    }
}

/// A copy of a heading tree.
pub fn copy_heading(h: &Heading) -> (c: Heading)
    ensures
        heading_view(c) == heading_view(*h),
    decreases h, 1nat,
{
    let items = match &h.items {
        Some(v) => Some(copy_headings(v)),
        None => None,
    };
    Heading { text: h.text.clone(), slug: h.slug.clone(), items }
}

/// A copy of a list of heading trees.
pub fn copy_headings(v: &Vec<Heading>) -> (c: Vec<Heading>)
    ensures
        headings_view(c@) == headings_view(v@),
    decreases v, 0nat,
{
    let mut c: Vec<Heading> = Vec::new();
    let n = v.len();
    assert(headings_view(c@) =~= headings_view(v@.take(0)));
    for i in 0..n
        invariant
            n == v@.len(),
            c@.len() == i,
            headings_view(c@) == headings_view(v@.take(i as int)),
    {
        proof {
            assert(decreases_to!(v => v@[i as int]));
        }
        let ghost before = c@;
        c.push(copy_heading(&v[i]));
        assert(c@.subrange(0, c@.len() - 1) =~= before);
        assert(v@.take(i + 1).subrange(0, i as int) =~= v@.take(i as int));
        assert(v@.take(i + 1)[i as int] == v@[i as int]);
    }
    assert(v@.take(n as int) =~= v@);
    c
}

/// A copy of a documentation tree.
pub fn copy_section(s: &Section) -> (c: Section)
    ensures
        section_view(c) == section_view(*s),
    decreases s, 1nat,
{
    let items = match &s.items {
        Some(v) => Some(copy_sections(v)),
        None => None,
    };
    let headings = match &s.headings {
        Some(v) => Some(copy_headings(v)),
        None => None,
    };
    Section { title: copy_opt(&s.title), source: copy_opt(&s.source), items, html: copy_opt(&s.html), headings }
}

/// A copy of a list of documentation trees.
pub fn copy_sections(v: &Vec<Section>) -> (c: Vec<Section>)
    ensures
        sections_view(c@) == sections_view(v@),
    decreases v, 0nat,
{
    let mut c: Vec<Section> = Vec::new();
    let n = v.len();
    assert(sections_view(c@) =~= sections_view(v@.take(0)));
    for i in 0..n
        invariant
            n == v@.len(),
            c@.len() == i,
            sections_view(c@) == sections_view(v@.take(i as int)),
    {
        proof {
            assert(decreases_to!(v => v@[i as int]));
        }
        let ghost before = c@;
        c.push(copy_section(&v[i]));
        assert(c@.subrange(0, c@.len() - 1) =~= before);
        assert(v@.take(i + 1).subrange(0, i as int) =~= v@.take(i as int));
        assert(v@.take(i + 1)[i as int] == v@[i as int]);
    }
    assert(v@.take(n as int) =~= v@);
    c
}

} // verus!

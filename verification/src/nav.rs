//! Site navigation derived from the cached repositories and documentation.
use vstd::prelude::*;
use crate::docs_sync::md_ext;
use crate::model::{Section, copy_opt, opt_chars};
use crate::text::{split_on, split_chars, string_set, chars_between, chars_of, chars_start_with, ends_with, starts_with, string_from_chars};

verus! {

/// The characters `/docs/`.
pub open spec fn docs_route() -> Seq<char> {
    seq!['/', 'd', 'o', 'c', 's', '/']
}

/// The address of a repository's documentation: `/docs/{name}`.
pub open spec fn repo_docs_href_spec(name: Seq<char>) -> Seq<char> {
    docs_route() + name
}

/// `/docs/{name}`.
pub fn repo_docs_href(name: &String) -> (h: String)
    ensures
        h@ == repo_docs_href_spec(name@),
{
    let mut h = String::new();
    h.append("/docs/");
    h.append(name.as_str());
    proof {
        reveal_strlit("/docs/");
    }
    assert(h@ =~= repo_docs_href_spec(name@));
    h
}

/// A menu row is the current one when the current path starts with its address.
pub fn is_current_route(pathname: &str, href: &str) -> (b: bool)
    ensures
        b == starts_with(pathname@, href@),
{
    chars_start_with(&chars_of(pathname), &chars_of(href))
}

/// `s` without any number of trailing `.md` (as `str::trim_end_matches(".md")`).
pub open spec fn trim_md(s: Seq<char>) -> Seq<char>
    decreases s.len(),
{
    if ends_with(s, md_ext()) {
        trim_md(s.subrange(0, s.len() - 3))
    } else {
        s
    }
}

/// The name without any number of trailing `.md`.
pub fn trim_md_ext(name: &String) -> (t: String)
    ensures
        t@ == trim_md(name@),
{
    let mut chars = chars_of(name.as_str());
    let ext = crate::docs_sync::md_ext_chars();
    while crate::text::chars_end_with(&chars, &ext)
        invariant
            ext@ == md_ext(),
            trim_md(chars@) == trim_md(name@),
        decreases chars@.len(),
    {
        let ghost before = chars@;
        chars.pop();
        chars.pop();
        chars.pop();
        assert(chars@ =~= before.subrange(0, before.len() - 3));
    }
    string_from_chars(&chars)
}

/// The address of a documentation page in the navigation:
/// `/docs/{repo}/{section}/{file without .md}`, or empty when the section or
/// the file has no name.
pub open spec fn page_href(repo: Seq<char>, section: Option<Seq<char>>, file: Option<Seq<char>>) -> Seq<char> {
    match (section, file) {
        (Some(s), Some(f)) => docs_route() + repo + seq!['/'] + s + seq!['/'] + trim_md(f),
        _ => Seq::empty(),
    }
}

/// A link of the documentation menu.
pub struct NavLink {
    pub title: String,
    pub href: String,
}

/// A section of the documentation menu: its title and its page links.
pub struct NavGroup {
    pub title: Option<String>,
    pub links: Vec<NavLink>,
}

/// The links (title, address) of a section's files: one per file that has a
/// title, in order.
pub open spec fn section_links(repo: Seq<char>, section: Option<Seq<char>>, files: Seq<Section>) -> Seq<(Seq<char>, Seq<char>)>
    decreases files.len(),
{
    if files.len() == 0 {
        Seq::empty()
    } else {
        let rest = section_links(repo, section, files.drop_last());
        match files.last().title {
            Some(t) => rest.push((t@, page_href(repo, section, opt_chars(files.last().source)))),
            None => rest,
        }
    }
}

/// The menu group `g` is section `parent` of repository `repo`.
pub open spec fn is_nav_group(g: NavGroup, repo: Seq<char>, parent: Section) -> bool {
    let files = match parent.items {
        Some(v) => v@,
        None => Seq::empty(),
    };
    &&& opt_chars(g.title) == opt_chars(parent.title)
    &&& g.links@.map_values(|l: NavLink| (l.title@, l.href@)) == section_links(repo, opt_chars(parent.source), files)
}

/// The address of a documentation page (see [`page_href`]).
fn page_href_of(repo: &String, section: &Option<String>, file: &Option<String>) -> (h: String)
    ensures
        h@ == page_href(repo@, opt_chars(*section), opt_chars(*file)),
{
    match (section, file) {
        (Some(s), Some(f)) => {
            let mut h = String::new();
            h.append("/docs/");
            h.append(repo.as_str());
            h.append("/");
            h.append(s.as_str());
            h.append("/");
            let t = trim_md_ext(f);
            h.append(t.as_str());
            proof {
                reveal_strlit("/docs/");
                reveal_strlit("/");
            }
            assert(h@ =~= page_href(repo@, opt_chars(*section), opt_chars(*file)));
            h
        },
        _ => String::new(),
    }
}

/// The documentation menu of a repository: one group per section, with a
/// link to each titled file of it.
pub fn sections_nav(sections: &Option<Vec<Section>>, repo_name: &String) -> (groups: Vec<NavGroup>)
    ensures
        groups@.len() == (match sections {
            Some(v) => v@.len(),
            None => 0,
        }),
        forall|i: int| 0 <= i < groups@.len() ==> #[trigger] is_nav_group(groups@[i], repo_name@, sections->0@[i]),
{
    let mut groups: Vec<NavGroup> = Vec::new();
    match sections {
        None => groups,
        Some(parents) => {
            let n = parents.len();
            for i in 0..n
                invariant
                    n == parents@.len(),
                    *sections == Some(*parents),
                    groups@.len() == i,
                    forall|k: int| 0 <= k < i ==> #[trigger] is_nav_group(groups@[k], repo_name@, parents@[k]),
            {
                let parent = &parents[i];
                let mut links: Vec<NavLink> = Vec::new();
                match &parent.items {
                    Some(files) => {
                        let m = files.len();
                        for j in 0..m
                            invariant
                                m == files@.len(),
                                links@.map_values(|l: NavLink| (l.title@, l.href@)) == section_links(
                                    repo_name@,
                                    opt_chars(parent.source),
                                    files@.take(j as int),
                                ),
                        {
                            let ghost before = links@.map_values(|l: NavLink| (l.title@, l.href@));
                            assert(files@.take(j + 1).drop_last() =~= files@.take(j as int));
                            assert(files@.take(j + 1).last() == files@[j as int]);
                            let file = &files[j];
                            match &file.title {
                                Some(t) => {
                                    let l = NavLink { title: t.clone(), href: page_href_of(repo_name, &parent.source, &file.source) };
                                    links.push(l);
                                    assert(links@.map_values(|l: NavLink| (l.title@, l.href@)) =~= before.push((l.title@, l.href@)));
                                },
                                None => {},
                            }
                        }
                        assert(files@.take(m as int) =~= files@);
                    },
                    None => {
                        assert(links@.map_values(|l: NavLink| (l.title@, l.href@)) =~= Seq::<(Seq<char>, Seq<char>)>::empty());
                    },
                }
                let g = NavGroup { title: copy_opt(&parent.title), links };
                assert(is_nav_group(g, repo_name@, parents@[i as int]));
                groups.push(g);
                assert forall|k: int| 0 <= k < i + 1 implies #[trigger] is_nav_group(groups@[k], repo_name@, parents@[k]) by {
                    if k < i {
                        assert(groups@[k] == groups@.drop_last()[k]);
                    }
                }
            }
            groups
        },
    }
}

/// `s` without its trailing `/`s (as `str::trim_end_matches('/')`).
pub open spec fn trim_slashes(s: Seq<char>) -> Seq<char>
    decreases s.len(),
{
    if s.len() > 0 && s.last() == '/' {
        trim_slashes(s.drop_last())
    } else {
        s
    }
}

/// The position of the last `/` of `s`, if any.
pub open spec fn last_slash(s: Seq<char>) -> Option<int>
    decreases s.len(),
{
    if s.len() == 0 {
        None
    } else if s.last() == '/' {
        Some(s.len() - 1)
    } else {
        last_slash(s.drop_last())
    }
}

/// The fields of `s` separated by `/` (as `str::split('/')` gives them).
pub open spec fn slash_fields(s: Seq<char>) -> Seq<Seq<char>> {
    split_on(s, '/')
}

/// The non-empty `/`-separated segments of a path.
pub open spec fn segments(s: Seq<char>) -> Seq<Seq<char>> {
    slash_fields(s).filter(|f: Seq<char>| f.len() > 0)
}

/// The address of the first `n` segments: `/{segment}` for each, in order.
pub open spec fn segments_href(segs: Seq<Seq<char>>, n: int) -> Seq<char>
    decreases n,
{
    if n <= 0 {
        Seq::empty()
    } else {
        segments_href(segs, n - 1) + seq!['/'] + segs[n - 1]
    }
}

/// A step of the breadcrumb trail.
pub enum Crumb {
    /// A step that has a page: its label and address.
    Link { label: String, href: String },
    /// A step without a page of its own.
    Text { label: String },
    /// The page being shown.
    Current { label: String },
}

/// [`Crumb`] as plain values.
pub enum CrumbView {
    Link { label: Seq<char>, href: Seq<char> },
    Text { label: Seq<char> },
    Current { label: Seq<char> },
}

impl View for Crumb {
    type V = CrumbView;

    open spec fn view(&self) -> CrumbView {
        match self {
            Crumb::Link { label, href } => CrumbView::Link { label: label@, href: href@ },
            Crumb::Text { label } => CrumbView::Text { label: label@ },
            Crumb::Current { label } => CrumbView::Current { label: label@ },
        }
    }
}

/// The characters `home`.
pub open spec fn home() -> Seq<char> {
    seq!['h', 'o', 'm', 'e']
}

/// The step of segment `i`: a link to the address of the segments up to it
/// when that address is a known page, and plain text otherwise.
pub open spec fn segment_crumb(segs: Seq<Seq<char>>, i: int, links: Set<Seq<char>>) -> CrumbView {
    let href = segments_href(segs, i + 1);
    if links.contains(href) {
        CrumbView::Link { label: segs[i], href }
    } else {
        CrumbView::Text { label: segs[i] }
    }
}

/// The breadcrumb trail of a path: `home` alone for the root; otherwise a
/// link home, a step for each segment before the last, and the last
/// segment as the current page.
pub open spec fn breadcrumbs(path: Seq<char>, links: Set<Seq<char>>) -> Seq<CrumbView> {
    let t = trim_slashes(path);
    match last_slash(t) {
        None => seq![CrumbView::Current { label: home() }],
        Some(k) => {
            let active = t.subrange(k + 1, t.len() as int);
            if active.len() == 0 {
                seq![CrumbView::Current { label: home() }]
            } else {
                let segs = segments(t.subrange(0, k));
                seq![CrumbView::Link { label: home(), href: seq!['/'] }] + Seq::new(
                    segs.len(),
                    |i: int| segment_crumb(segs, i, links),
                ) + seq![CrumbView::Current { label: active }]
            }
        },
    }
}

proof fn lemma_segments_href_push(s: Seq<Seq<char>>, f: Seq<char>, n: int)
    requires
        0 <= n <= s.len(),
    ensures
        segments_href(s.push(f), n) == segments_href(s, n),
    decreases n,
{
    if n > 0 {
        lemma_segments_href_push(s, f, n - 1);
        assert(s.push(f)[n - 1] == s[n - 1]);
    }
}

proof fn lemma_filter_step(fs: Seq<Seq<char>>, j: int)
    requires
        0 <= j < fs.len(),
    ensures
        fs.take(j + 1).filter(|f: Seq<char>| f.len() > 0) == (if fs[j].len() > 0 {
            fs.take(j).filter(|f: Seq<char>| f.len() > 0).push(fs[j])
        } else {
            fs.take(j).filter(|f: Seq<char>| f.len() > 0)
        }),
{
    reveal(Seq::filter);
    assert(fs.take(j + 1).drop_last() =~= fs.take(j));
    assert(fs.take(j + 1).last() == fs[j]);
}

/// The steps of the segments of `before` (see [`breadcrumbs`]), after a
/// link home.
fn segment_crumbs(before: &Vec<char>, links: &Vec<String>) -> (crumbs: Vec<Crumb>)
    ensures
        crumbs@.map_values(|c: Crumb| c@) == seq![CrumbView::Link { label: home(), href: seq!['/'] }] + Seq::new(
            segments(before@).len(),
            |i: int| segment_crumb(segments(before@), i, string_set(links@)),
        ),
{
    let fields = split_chars(before, '/');
    let ghost fs = fields@.map_values(|f: Vec<char>| f@);
    let ghost ls = string_set(links@);
    let mut crumbs: Vec<Crumb> = Vec::new();
    let mut home_label = String::new();
    home_label.append("home");
    let mut root = String::new();
    root.append("/");
    proof {
        reveal_strlit("home");
        reveal_strlit("/");
    }
    crumbs.push(Crumb::Link { label: home_label, href: root });
    let mut href = String::new();
    let n = fields.len();
    proof {
        reveal(Seq::filter);
        assert(fs.take(0) =~= Seq::<Seq<char>>::empty());
        assert(fs.take(0).filter(|f: Seq<char>| f.len() > 0).len() == 0);
        assert(home_label@ =~= home());
        assert(root@ =~= seq!['/']);
        assert(crumbs@.map_values(|c: Crumb| c@) =~= seq![CrumbView::Link { label: home(), href: seq!['/'] }] + Seq::new(
            fs.take(0).filter(|f: Seq<char>| f.len() > 0).len(),
            |i: int| segment_crumb(fs.take(0).filter(|f: Seq<char>| f.len() > 0), i, ls),
        ));
    }
    for j in 0..n
        invariant
            n == fields@.len(),
            fs == fields@.map_values(|f: Vec<char>| f@),
            ls == string_set(links@),
            href@ == segments_href(fs.take(j as int).filter(|f: Seq<char>| f.len() > 0), fs.take(j as int).filter(|f: Seq<char>| f.len() > 0).len() as int),
            crumbs@.map_values(|c: Crumb| c@) == seq![CrumbView::Link { label: home(), href: seq!['/'] }] + Seq::new(
                fs.take(j as int).filter(|f: Seq<char>| f.len() > 0).len(),
                |i: int| segment_crumb(fs.take(j as int).filter(|f: Seq<char>| f.len() > 0), i, ls),
            ),
    {
        let ghost segs = fs.take(j as int).filter(|f: Seq<char>| f.len() > 0);
        proof {
            lemma_filter_step(fs, j as int);
        }
        if fields[j].len() > 0 {
            let ghost f = fields@[j as int]@;
            let ghost segs2 = segs.push(f);
            crate::text::push_char(&mut href, '/');
            crate::text::push_chars(&mut href, &fields[j]);
            assert(href@ == segments_href(segs2, segs2.len() as int)) by {
                lemma_segments_href_push(segs, f, segs.len() as int);
                assert(segs2[segs2.len() - 1] == f);
            }
            let label = string_from_chars(&fields[j]);
            let ghost before_crumbs = crumbs@.map_values(|c: Crumb| c@);
            let c = if crate::text::contains_string(links, &href) {
                Crumb::Link { label, href: href.clone() }
            } else {
                Crumb::Text { label }
            };
            assert(c@ == segment_crumb(segs2, segs.len() as int, ls));
            crumbs.push(c);
            assert forall|i: int| 0 <= i < segs.len() implies #[trigger] segment_crumb(segs2, i, ls) == segment_crumb(segs, i, ls) by {
                lemma_segments_href_push(segs, f, i + 1);
                assert(segs2[i] == segs[i]);
            }
            assert(crumbs@.map_values(|c: Crumb| c@) =~= seq![CrumbView::Link { label: home(), href: seq!['/'] }] + Seq::new(
                segs2.len(),
                |i: int| segment_crumb(segs2, i, ls),
            )) by {
                assert(crumbs@.map_values(|c: Crumb| c@) =~= before_crumbs.push(c@));
            }
        }
    }
    assert(fs.take(n as int) =~= fs);
    crumbs
}

/// Only the current page, `home`.
fn home_only() -> (crumbs: Vec<Crumb>)
    ensures
        crumbs@.map_values(|c: Crumb| c@) == seq![CrumbView::Current { label: home() }],
{
    let mut label = String::new();
    label.append("home");
    proof {
        reveal_strlit("home");
    }
    assert(label@ =~= home());
    let mut crumbs: Vec<Crumb> = Vec::new();
    crumbs.push(Crumb::Current { label });
    assert(crumbs@.map_values(|c: Crumb| c@) =~= seq![CrumbView::Current { label: home() }]);
    crumbs
}

/// The breadcrumb trail of the current path, where `links` are the
/// addresses that have a page (see [`breadcrumbs`]).
pub fn crumbs(pathname: &str, links: &Vec<String>) -> (trail: Vec<Crumb>)
    ensures
        trail@.map_values(|c: Crumb| c@) == breadcrumbs(pathname@, string_set(links@)),
{
    let mut chars = chars_of(pathname);
    while chars.len() > 0 && chars[chars.len() - 1] == '/'
        invariant
            trim_slashes(chars@) == trim_slashes(pathname@),
        decreases chars@.len(),
    {
        let ghost before = chars@;
        chars.pop();
        assert(chars@ =~= before.drop_last());
    }
    let ghost t = chars@;
    assert(trim_slashes(t) == t);
    let n = chars.len();
    let mut last: Option<usize> = None;
    for i in 0..n
        invariant
            n == chars@.len(),
            t == chars@,
            last_slash(t.take(i as int)) == match last {
                Some(k) => Some(k as int),
                None => None::<int>,
            },
            match last {
                Some(k) => k < i,
                None => true,
            },
    {
        assert(t.take(i + 1).drop_last() =~= t.take(i as int));
        if chars[i] == '/' {
            last = Some(i);
        }
    }
    assert(t.take(n as int) =~= t);
    match last {
        None => home_only(),
        Some(k) => {
            let active = chars_between(&chars, k + 1, n);
            if active.len() == 0 {
                return home_only();
            }
            let before = chars_between(&chars, 0, k);
            let mut trail = segment_crumbs(&before, links);
            let ghost segs = trail@.map_values(|c: Crumb| c@);
            let label = string_from_chars(&active);
            trail.push(Crumb::Current { label });
            assert(trail@.map_values(|c: Crumb| c@) =~= segs.push(CrumbView::Current { label: active@ }));
            trail
        },
    }
}

} // verus!

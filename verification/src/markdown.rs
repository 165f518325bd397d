//! Rendering a GitHub-flavoured markdown page, and the outline of its
//! headings that the page navigation shows.
use vstd::prelude::*;
use crate::model::Heading;
use crate::text::decimal;
use comrak::nodes::NodeValue;
use comrak::{format_html, parse_document, Arena, Options};

verus! {

/// The rendering options of a page: the GFM extensions that are on, and the
/// prefix given to the `id` of each heading (`None`: headings get no `id`).
pub struct GfmOptions {
    pub strikethrough: bool,
    pub table: bool,
    pub autolink: bool,
    pub tasklist: bool,
    pub tagfilter: bool,
    pub footnotes: bool,
    pub header_id_prefix: Option<String>,
}

/// [`GfmOptions`] as plain values.
pub struct GfmOptionsView {
    pub strikethrough: bool,
    pub table: bool,
    pub autolink: bool,
    pub tasklist: bool,
    pub tagfilter: bool,
    pub footnotes: bool,
    pub header_id_prefix: Option<Seq<char>>,
}

impl View for GfmOptions {
    type V = GfmOptionsView;

    open spec fn view(&self) -> GfmOptionsView {
        GfmOptionsView {
            strikethrough: self.strikethrough,
            table: self.table,
            autolink: self.autolink,
            tasklist: self.tasklist,
            tagfilter: self.tagfilter,
            footnotes: self.footnotes,
            header_id_prefix: match &self.header_id_prefix {
                Some(p) => Some(p@),
                None => None,
            },
        }
    }
}

impl GfmOptions {
    /// The options the site renders documentation with: strikethrough,
    /// tables, autolinks, task lists, the tag filter and footnotes, and
    /// heading ids without a prefix.
    pub fn site_default() -> (o: GfmOptions)
        ensures
            o@ == crate::reconcile::site_options(),
    {
        let o = GfmOptions {
            strikethrough: true,
            table: true,
            autolink: true,
            tasklist: true,
            tagfilter: true,
            footnotes: true,
            header_id_prefix: Some(String::new()),
        };
        assert(o@.header_id_prefix =~= Some(Seq::<char>::empty()));
        o
    }
}

/// A node of a parsed markdown document, in document order: a heading with
/// its level and its text, or any other node.
pub enum MdNode {
    Heading { level: u8, text: String },
    Other,
}

/// [`MdNode`] as plain values.
pub enum MdNodeView {
    Heading { level: u8, text: Seq<char> },
    Other,
}

impl View for MdNode {
    type V = MdNodeView;

    open spec fn view(&self) -> MdNodeView {
        match self {
            MdNode::Heading { level, text } => MdNodeView::Heading { level: *level, text: text@ },
            MdNode::Other => MdNodeView::Other,
        }
    }
}

/// The nodes of `md` parsed by comrak under `options`, in document order.
pub uninterp spec fn gfm_document_nodes(md: Seq<char>, options: GfmOptionsView) -> Seq<MdNodeView>;

/// The HTML that comrak renders for `md` under `options`; `None` where the
/// renderer reports a formatting error.
pub uninterp spec fn gfm_html_output(md: Seq<char>, options: GfmOptionsView) -> Option<Seq<char>>;

/// The anchor comrak's `Anchorizer` derives from a heading text before it
/// makes the anchor unique (lower-cased, spaces turned into dashes, other
/// characters that are not letters, marks, numbers or connectors dropped).
pub uninterp spec fn gfm_anchor_base(text: Seq<char>) -> Seq<char>;

/// The anchors a `comrak::Anchorizer` has handed out so far.
pub uninterp spec fn anchorizer_ids(a: comrak::Anchorizer) -> Set<Seq<char>>;

#[verifier::external_type_specification]
#[verifier::external_body]
pub struct ExAnchorizer(comrak::Anchorizer);

#[verifier::external_type_specification]
#[verifier::external_body]
pub struct ExFmtError(std::fmt::Error);

/// The characters ` id="`.
pub open spec fn id_attribute() -> Seq<char> {
    seq![' ', 'i', 'd', '=', '"']
}

/// A heading start tag with an `id` opens at position `i` of `html`:
/// `<h`, a level digit from 1 to 6, and ` id="`.
pub open spec fn heading_id_opens(html: Seq<char>, i: int) -> bool {
    &&& 0 <= i
    &&& i + 8 <= html.len()
    &&& html[i] == '<'
    &&& html[i + 1] == 'h'
    &&& '1' <= html[i + 2] <= '6'
    &&& html.subrange(i + 3, i + 8) == id_attribute()
}

/// The `id` values of the heading start tags of `html` from position `i`
/// on, in order; `cur` is the part of a value read so far, if `i` is
/// inside one.
pub open spec fn heading_ids_from(html: Seq<char>, i: int, cur: Option<Seq<char>>) -> Seq<Seq<char>>
    decreases html.len() - i,
{
    if i < 0 || i >= html.len() {
        Seq::empty()
    } else {
        match cur {
            Some(v) => if html[i] == '"' {
                seq![v] + heading_ids_from(html, i + 1, None)
            } else {
                heading_ids_from(html, i + 1, Some(v.push(html[i])))
            },
            None => if heading_id_opens(html, i) {
                heading_ids_from(html, i + 8, Some(Seq::empty()))
            } else {
                heading_ids_from(html, i + 1, None)
            },
        }
    }
}

/// The `id` values of the heading start tags (`<h1 id="...">` to
/// `<h6 id="...">`) of `html`, in order.
pub open spec fn html_heading_ids(html: Seq<char>) -> Seq<Seq<char>> {
    heading_ids_from(html, 0, None)
}

/// The heading ids of `html`, rendered from the nodes `nodes` under
/// `options`: none without an id prefix; with a prefix `p` that holds no
/// `"`, `p` followed by the anchor a fresh anchorizer hands out for each
/// heading, in document order.
pub open spec fn heading_ids_anchored(nodes: Seq<MdNodeView>, options: GfmOptionsView, html: Seq<char>) -> bool {
    match options.header_id_prefix {
        None => html_heading_ids(html) == Seq::<Seq<char>>::empty(),
        Some(p) => !p.contains('"') ==> exists|slugs: Seq<Seq<char>>|
            #[trigger] anchored(heading_texts(heading_nodes(nodes)), slugs) && html_heading_ids(html) == prefixed(p, slugs),
    }
}

/// The anchors prefixed with `p`.
pub open spec fn prefixed(p: Seq<char>, slugs: Seq<Seq<char>>) -> Seq<Seq<char>> {
    slugs.map_values(|s: Seq<char>| p + s)
}

/// Parses `md` with `comrak::parse_document`, lists the descendants of the
/// document root (`Node::descendants`: the root first, in document order),
/// each heading with its level and `Node::collect_text`, and renders the
/// document with `comrak::format_html` into a `String`. The nodes and the
/// output (or the formatting error) are taken to depend on `md` and the
/// options alone.
///
/// The heading ids of the output are as comrak's `render_heading` writes
/// them: with no id prefix, a heading start tag has no `id`; with the prefix
/// `p` (holding no `"`), each heading, in document order, gets
/// `id="{p}{anchor}"`, where the anchor is what a fresh `Anchorizer` hands
/// out for the heading's `collect_text`. No other text of the output can
/// take that form: every other option is comrak's default, under which raw
/// HTML is omitted and text is escaped.
#[verifier::external_body]
fn gfm_render(md: &str, options: &GfmOptions) -> (r: (Vec<MdNode>, Result<String, std::fmt::Error>))
    ensures
        r.0@.map_values(|n: MdNode| n@) == gfm_document_nodes(md@, options@),
        match r.1 {
            Ok(h) => gfm_html_output(md@, options@) == Some(h@),
            Err(_) => gfm_html_output(md@, options@) is None,
        },
        r.1 matches Ok(h) ==> heading_ids_anchored(gfm_document_nodes(md@, options@), options@, h@),
{
    let mut o = Options::default();
    let e = &mut o.extension;
    (e.strikethrough, e.table, e.autolink, e.tasklist, e.tagfilter, e.footnotes) = (options.strikethrough,
        options.table, options.autolink, options.tasklist, options.tagfilter, options.footnotes);
    e.header_id_prefix = options.header_id_prefix.clone();
    let arena = Arena::new();
    let root = parse_document(&arena, md, &o);
    let mut out = String::new();
    (root.descendants().map(|n| match &n.data().value {
        NodeValue::Heading(h) => MdNode::Heading { level: h.level, text: n.collect_text() },
        _ => MdNode::Other,
    }).collect(), format_html(root, &o, &mut out).map(|_| out))
}

/// A fresh `comrak::Anchorizer::new()`, which has handed out no anchor.
#[verifier::external_body]
fn new_anchorizer() -> (a: comrak::Anchorizer)
    ensures
        anchorizer_ids(a) == Set::<Seq<char>>::empty(),
{
    comrak::Anchorizer::new()
}

/// The base anchor followed by `-` and the decimal notation of `k`.
pub open spec fn suffixed_anchor(base: Seq<char>, k: nat) -> Seq<char> {
    base + seq!['-'] + decimal(k)
}

/// `comrak::Anchorizer::anchorize`: the anchor it returns was not handed
/// out before and is recorded as handed out; it is the base anchor of the
/// text where that was not handed out yet, and otherwise the base anchor
/// followed by `-` and the least positive number that gives an anchor not
/// handed out yet.
#[verifier::external_body]
fn anchorize(a: &mut comrak::Anchorizer, text: &str) -> (slug: String)
    ensures
        !anchorizer_ids(*old(a)).contains(slug@),
        anchorizer_ids(*final(a)) == anchorizer_ids(*old(a)).insert(slug@),
        !anchorizer_ids(*old(a)).contains(gfm_anchor_base(text@)) ==> slug@ == gfm_anchor_base(text@),
        anchorizer_ids(*old(a)).contains(gfm_anchor_base(text@)) ==> exists|k: nat|
            k >= 1 && slug@ == suffixed_anchor(gfm_anchor_base(text@), k) && forall|j: nat|
                1 <= j < k ==> anchorizer_ids(*old(a)).contains(#[trigger] suffixed_anchor(gfm_anchor_base(text@), j)),
{
    a.anchorize(text)
}

/// The heading texts among the nodes, in document order, with their levels.
pub open spec fn heading_nodes(nodes: Seq<MdNodeView>) -> Seq<(u8, Seq<char>)>
    decreases nodes.len(),
{
    if nodes.len() == 0 {
        Seq::empty()
    } else {
        let rest = heading_nodes(nodes.drop_last());
        match nodes.last() {
            MdNodeView::Heading { level, text } => rest.push((level, text)),
            MdNodeView::Other => rest,
        }
    }
}

/// `slug` is the anchor a fresh anchorizer hands out for `text` after
/// handing out `earlier`: it is new; it is the base anchor of the text where
/// no earlier anchor is that base, and otherwise the base followed by `-`
/// and the least positive number that gives a new anchor.
pub open spec fn anchor_after(text: Seq<char>, slug: Seq<char>, earlier: Seq<Seq<char>>) -> bool {
    let base = gfm_anchor_base(text);
    &&& !earlier.contains(slug)
    &&& !earlier.contains(base) ==> slug == base
    &&& earlier.contains(base) ==> exists|k: nat|
        k >= 1 && slug == suffixed_anchor(base, k) && forall|j: nat|
            1 <= j < k ==> earlier.contains(#[trigger] suffixed_anchor(base, j))
}

/// `slugs` are the anchors a fresh anchorizer hands out for `texts`, in order.
pub open spec fn anchored(texts: Seq<Seq<char>>, slugs: Seq<Seq<char>>) -> bool {
    &&& texts.len() == slugs.len()
    &&& forall|i: int| 0 <= i < slugs.len() ==> #[trigger] anchor_after(texts[i], slugs[i], slugs.take(i))
}

/// One anchor per text, handed out in order by a fresh anchorizer.
pub fn anchorize_all(texts: &Vec<String>) -> (slugs: Vec<String>)
    ensures
        anchored(texts@.map_values(|t: String| t@), slugs@.map_values(|s: String| s@)),
{
    let mut a = new_anchorizer();
    let mut slugs: Vec<String> = Vec::new();
    let n = texts.len();
    let ghost tv = texts@.map_values(|t: String| t@);
    for i in 0..n
        invariant
            n == texts@.len(),
            tv == texts@.map_values(|t: String| t@),
            slugs@.len() == i,
            anchorizer_ids(a) == slugs@.map_values(|s: String| s@).to_set(),
            anchored(tv.take(i as int), slugs@.map_values(|s: String| s@)),
    {
        let ghost before = slugs@.map_values(|s: String| s@);
        let ghost ids = anchorizer_ids(a);
        let slug = anchorize(&mut a, texts[i].as_str());
        let ghost sv = slug@;
        slugs.push(slug);
        proof {
            let after = slugs@.map_values(|s: String| s@);
            assert(after =~= before.push(sv));
            assert(after.take(i as int) =~= before);
            assert(tv.take(i + 1).take(i as int) =~= tv.take(i as int));
            assert(tv[i as int] == texts@[i as int]@);
            assert forall|x: Seq<char>| ids.contains(x) <==> before.contains(x) by {
                if before.contains(x) {
                    let k = choose|k: int| 0 <= k < before.len() && before[k] == x;
                    assert(before.to_set().contains(before[k]));
                }
            }
            assert(after.to_set() =~= ids.insert(sv)) by {
                assert forall|x: Seq<char>| after.to_set().contains(x) <==> ids.insert(sv).contains(x) by {
                    if after.contains(x) {
                        let k = choose|k: int| 0 <= k < after.len() && after[k] == x;
                        if k < i {
                            assert(before[k] == x);
                        }
                    }
                    if before.contains(x) {
                        let k = choose|k: int| 0 <= k < before.len() && before[k] == x;
                        assert(after[k] == x);
                    }
                    if x == sv {
                        assert(after[i as int] == x);
                    }
                }
            }
            let t2 = tv.take(i + 1);
            let base = gfm_anchor_base(tv[i as int]);
            assert(t2[i as int] == tv[i as int]);
            assert(after.take(i as int) =~= before);
            if before.contains(base) {
                assert(ids.contains(base));
                let k = choose|k: nat|
                    k >= 1 && sv == suffixed_anchor(base, k) && forall|j: nat|
                        1 <= j < k ==> ids.contains(#[trigger] suffixed_anchor(base, j));
                assert forall|j: nat| 1 <= j < k implies before.contains(#[trigger] suffixed_anchor(base, j)) by {
                    assert(ids.contains(suffixed_anchor(base, j)));
                }
                assert(after[i as int] == suffixed_anchor(base, k));
            } else {
                assert(!ids.contains(base));
                assert(after[i as int] == base);
            }
            assert(!before.contains(sv));
            assert(anchor_after(t2[i as int], after[i as int], after.take(i as int)));
            assert forall|m: int| 0 <= m < after.len() implies #[trigger] anchor_after(t2[m], after[m], after.take(m)) by {
                if m < i {
                    assert(after.take(m) =~= before.take(m));
                    assert(after[m] == before[m]);
                    assert(t2[m] == tv.take(i as int)[m]);
                    assert(anchor_after(tv.take(i as int)[m], before[m], before.take(m)));
                }
            }
            assert(anchored(t2, after));
        }
    }
    assert(tv.take(n as int) =~= tv);
    slugs
}

/// A heading of a page, with its level, its text and its anchor.
pub struct HeadingEntry {
    pub level: u8,
    pub text: String,
    pub slug: String,
}

/// [`HeadingEntry`] as plain values: level, text, anchor.
pub open spec fn entry_view(e: HeadingEntry) -> (u8, Seq<char>, Seq<char>) {
    (e.level, e.text@, e.slug@)
}

/// A top-level heading of an outline, with the second-level headings
/// (text, anchor) listed under it.
pub struct OutlineItem {
    pub text: Seq<char>,
    pub slug: Seq<char>,
    pub children: Seq<(Seq<char>, Seq<char>)>,
}

/// The outline of a page built heading by heading, and whether its last
/// top-level heading still takes second-level headings.
///
/// A first-level heading with an anchor starts a new top-level heading; one
/// without an anchor closes the last one. A second-level heading with an
/// anchor goes under the open top-level heading, if any. Every other heading
/// (deeper levels, headings before the first listed top-level heading, and
/// headings without an anchor) is left out.
pub open spec fn outline_state(entries: Seq<(u8, Seq<char>, Seq<char>)>) -> (Seq<OutlineItem>, bool)
    decreases entries.len(),
{
    if entries.len() == 0 {
        (Seq::empty(), false)
    } else {
        let (items, open) = outline_state(entries.drop_last());
        let (level, text, slug) = entries.last();
        if level == 1 {
            if slug.len() > 0 {
                (items.push(OutlineItem { text, slug, children: Seq::empty() }), true)
            } else {
                (items, false)
            }
        } else if level == 2 && open && slug.len() > 0 && items.len() > 0 {
            let last = items.last();
            (items.update(items.len() - 1, OutlineItem { children: last.children.push((text, slug)), ..last }), true)
        } else {
            (items, open)
        }
    }
}

/// The outline of a page (see [`outline_state`]).
pub open spec fn outline(entries: Seq<(u8, Seq<char>, Seq<char>)>) -> Seq<OutlineItem> {
    outline_state(entries).0
}

/// The positions of the headings an outline lists at its top level: the
/// first-level headings with an anchor, in document order.
pub open spec fn top_positions(entries: Seq<(u8, Seq<char>, Seq<char>)>) -> Seq<int>
    decreases entries.len(),
{
    if entries.len() == 0 {
        Seq::empty()
    } else {
        let rest = top_positions(entries.drop_last());
        if entries.last().0 == 1 && entries.last().2.len() > 0 {
            rest.push(entries.len() - 1)
        } else {
            rest
        }
    }
}

/// The heading at `j` is listed under the top-level heading at `t`: it is a
/// second-level heading with an anchor that comes after `t`, with no
/// first-level heading between the two.
pub open spec fn listed_under(entries: Seq<(u8, Seq<char>, Seq<char>)>, t: int, j: int) -> bool {
    &&& t < j < entries.len()
    &&& entries[j].0 == 2
    &&& entries[j].2.len() > 0
    &&& forall|m: int| t < m < j ==> #[trigger] entries[m].0 != 1
}

/// The (text, anchor) of the headings listed under the heading at `t`, in
/// document order.
pub open spec fn children_under(entries: Seq<(u8, Seq<char>, Seq<char>)>, t: int) -> Seq<(Seq<char>, Seq<char>)>
    decreases entries.len(),
{
    if entries.len() == 0 {
        Seq::empty()
    } else {
        let rest = children_under(entries.drop_last(), t);
        if listed_under(entries, t, entries.len() - 1) {
            rest.push((entries.last().1, entries.last().2))
        } else {
            rest
        }
    }
}

/// The heading `h` is the second-level heading (text, anchor) `c`.
pub open spec fn is_child_heading(h: Heading, c: (Seq<char>, Seq<char>)) -> bool {
    h.text@ == c.0 && h.slug@ == c.1 && h.items is None
}

/// The headings `hs` are the second-level headings `cs`.
pub open spec fn are_child_headings(hs: Seq<Heading>, cs: Seq<(Seq<char>, Seq<char>)>) -> bool {
    &&& hs.len() == cs.len()
    &&& forall|j: int| 0 <= j < cs.len() ==> #[trigger] is_child_heading(hs[j], cs[j])
}

/// The heading `h` is the top-level heading `o`, with its children.
pub open spec fn is_outline_heading(h: Heading, o: OutlineItem) -> bool {
    &&& h.text@ == o.text
    &&& h.slug@ == o.slug
    &&& h.items is Some
    &&& are_child_headings(h.items->0@, o.children)
}

/// The result of outlining a page is the outline `items`: `None` when it
/// lists no heading.
pub open spec fn is_page_outline(r: Option<Vec<Heading>>, items: Seq<OutlineItem>) -> bool {
    match r {
        Some(hs) => items.len() > 0 && is_outline(hs@, items),
        None => items.len() == 0,
    }
}

/// The headings `hs` are the outline `os`.
pub open spec fn is_outline(hs: Seq<Heading>, os: Seq<OutlineItem>) -> bool {
    &&& hs.len() == os.len()
    &&& forall|i: int| 0 <= i < os.len() ==> #[trigger] is_outline_heading(hs[i], os[i])
}

proof fn lemma_outline_open_nonempty(entries: Seq<(u8, Seq<char>, Seq<char>)>)
    ensures
        outline_state(entries).1 ==> outline_state(entries).0.len() > 0,
    decreases entries.len(),
{
    if entries.len() > 0 {
        lemma_outline_open_nonempty(entries.drop_last());
    }
}

/// While grouping: the finished headings `done`, the open top-level
/// heading (text, anchor) with its children so far, and the outline of the
/// headings read so far agree.
pub open spec fn grouping_state(
    done: Seq<Heading>,
    pending: Option<(String, String)>,
    children: Seq<Heading>,
    items: Seq<OutlineItem>,
) -> bool {
    match pending {
        None => is_outline(done, items) && children.len() == 0,
        Some((t, sl)) => {
            &&& items.len() == done.len() + 1
            &&& is_outline(done, items.drop_last())
            &&& t@ == items.last().text
            &&& sl@ == items.last().slug
            &&& are_child_headings(children, items.last().children)
        },
    }
}

proof fn lemma_close_group(done: Seq<Heading>, t: String, sl: String, children: Vec<Heading>, items: Seq<OutlineItem>)
    requires
        grouping_state(done, Some((t, sl)), children@, items),
    ensures
        is_outline(done.push(Heading { text: t, slug: sl, items: Some(children) }), items),
{
    let h = Heading { text: t, slug: sl, items: Some(children) };
    let d2 = done.push(h);
    assert(is_outline_heading(h, items.last()));
    assert forall|k: int| 0 <= k < items.len() implies #[trigger] is_outline_heading(d2[k], items[k]) by {
        if k < done.len() {
            assert(d2[k] == done[k]);
            assert(items.drop_last()[k] == items[k]);
        }
    }
}

/// Groups the headings of a page into its outline: the first-level headings
/// with an anchor, each with the anchored second-level headings that follow
/// it up to the next first-level heading. `None` when no heading is listed.
pub fn outline_headings(entries: &Vec<HeadingEntry>) -> (r: Option<Vec<Heading>>)
    ensures
        is_page_outline(r, outline(entries@.map_values(|e: HeadingEntry| entry_view(e)))),
{
    let ghost ev = entries@.map_values(|e: HeadingEntry| entry_view(e));
    let mut done: Vec<Heading> = Vec::new();
    let mut pending: Option<(String, String)> = None;
    let mut children: Vec<Heading> = Vec::new();
    let n = entries.len();
    let mut i: usize = 0;
    assert(ev.take(0) =~= Seq::<(u8, Seq<char>, Seq<char>)>::empty());
    while i < n
        invariant
            n == entries@.len(),
            i <= n,
            ev == entries@.map_values(|e: HeadingEntry| entry_view(e)),
            outline_state(ev.take(i as int)).1 == pending is Some,
            grouping_state(done@, pending, children@, outline(ev.take(i as int))),
        decreases n - i,
    {
        let e = &entries[i];
        let ghost prev = ev.take(i as int);
        let ghost prev_items = outline(prev);
        let ghost next_items = outline(ev.take(i + 1));
        proof {
            assert(ev.take(i + 1).drop_last() =~= prev);
            assert(ev.take(i + 1).last() == entry_view(*e));
            lemma_outline_open_nonempty(prev);
        }
        if e.level == 1 {
            match pending {
                Some((t, sl)) => {
                    proof {
                        lemma_close_group(done@, t, sl, children, prev_items);
                    }
                    done.push(Heading { text: t, slug: sl, items: Some(children) });
                    children = Vec::new();
                },
                None => {},
            }
            if !e.slug.as_str().is_empty() {
                pending = Some((e.text.clone(), e.slug.clone()));
                proof {
                    assert(next_items.drop_last() =~= prev_items);
                    assert(are_child_headings(children@, next_items.last().children));
                }
            } else {
                pending = None;
            }
        } else if e.level == 2 && pending.is_some() && !e.slug.as_str().is_empty() {
            let ghost before = children@;
            children.push(Heading { text: e.text.clone(), slug: e.slug.clone(), items: None });
            proof {
                let pl = prev_items.last();
                let nl = next_items.last();
                assert(next_items.len() == prev_items.len());
                assert(nl.children =~= pl.children.push((e.text@, e.slug@)));
                assert(next_items.drop_last() =~= prev_items.drop_last());
                assert forall|j: int| 0 <= j < nl.children.len() implies #[trigger] is_child_heading(children@[j], nl.children[j]) by {
                    if j < before.len() {
                        assert(children@[j] == before[j]);
                        assert(nl.children[j] == pl.children[j]);
                    }
                }
            }
        }
        i = i + 1;
    }
    let ghost all = outline(ev.take(n as int));
    match pending {
        Some((t, sl)) => {
            proof {
                lemma_close_group(done@, t, sl, children, all);
            }
            done.push(Heading { text: t, slug: sl, items: Some(children) });
        },
        None => {},
    }
    assert(ev.take(n as int) =~= ev);
    if done.len() > 0 {
        Some(done)
    } else {
        None
    }
}

/// The headings (level, text) of a page, each with its anchor.
pub open spec fn with_anchors(hs: Seq<(u8, Seq<char>)>, slugs: Seq<Seq<char>>) -> Seq<(u8, Seq<char>, Seq<char>)> {
    Seq::new(hs.len(), |i: int| (hs[i].0, hs[i].1, slugs[i]))
}

/// The texts of the headings (level, text) of a page.
pub open spec fn heading_texts(hs: Seq<(u8, Seq<char>)>) -> Seq<Seq<char>> {
    hs.map_values(|h: (u8, Seq<char>)| h.1)
}

/// What rendering `md` gives: comrak's HTML, whose heading ids are the
/// anchors a fresh anchorizer hands out for the page's headings in document
/// order (see [`heading_ids_anchored`]), and the outline of the page's
/// headings under those anchors.
pub open spec fn rendered_page(md: Seq<char>, options: GfmOptionsView, html: Seq<char>, headings: Option<Vec<Heading>>) -> bool {
    &&& gfm_html_output(md, options) == Some(html)
    &&& outlined(gfm_document_nodes(md, options), headings)
    &&& heading_ids_anchored(gfm_document_nodes(md, options), options, html)
}

/// `headings` is the outline of a page with the nodes `nodes`, under the
/// anchors a fresh anchorizer hands out for its headings in document order.
pub open spec fn outlined(nodes: Seq<MdNodeView>, headings: Option<Vec<Heading>>) -> bool {
    let hs = heading_nodes(nodes);
    exists|slugs: Seq<Seq<char>>|
        anchored(heading_texts(hs), slugs) && #[trigger] is_page_outline(headings, outline(with_anchors(hs, slugs)))
}

/// The outline of a page with the nodes `nodes`: its headings, anchored in
/// document order by a fresh anchorizer, grouped (see [`outline_headings`]).
pub fn page_outline(nodes: &Vec<MdNode>) -> (r: Option<Vec<Heading>>)
    ensures
        outlined(nodes@.map_values(|n: MdNode| n@), r),
{
    let ghost nv = nodes@.map_values(|n: MdNode| n@);
    let mut levels: Vec<u8> = Vec::new();
    let mut texts: Vec<String> = Vec::new();
    let n = nodes.len();
    for k in 0..n
        invariant
            n == nodes@.len(),
            nv == nodes@.map_values(|n: MdNode| n@),
            levels@.len() == texts@.len(),
            heading_nodes(nv.take(k as int)) == Seq::new(levels@.len(), |j: int| (levels@[j], texts@[j]@)),
    {
        proof {
            assert(nv.take(k + 1).drop_last() =~= nv.take(k as int));
            assert(nv.take(k + 1).last() == nodes@[k as int]@);
        }
        match &nodes[k] {
            MdNode::Heading { level, text } => {
                levels.push(*level);
                texts.push(text.clone());
                assert(heading_nodes(nv.take(k + 1)) =~= Seq::new(levels@.len(), |j: int| (levels@[j], texts@[j]@)));
            },
            MdNode::Other => {},
        }
    }
    assert(nv.take(n as int) =~= nv);
    let ghost hs = heading_nodes(nv);
    assert(heading_texts(hs) =~= texts@.map_values(|t: String| t@));
    let slugs = anchorize_all(&texts);
    let ghost sv = slugs@.map_values(|s: String| s@);
    let mut entries: Vec<HeadingEntry> = Vec::new();
    let m = texts.len();
    for j in 0..m
        invariant
            m == texts@.len(),
            m == levels@.len(),
            m == slugs@.len(),
            entries@.map_values(|e: HeadingEntry| entry_view(e)) == with_anchors(hs, sv).take(j as int),
            hs == Seq::new(levels@.len(), |j: int| (levels@[j], texts@[j]@)),
            sv == slugs@.map_values(|s: String| s@),
    {
        let ghost before = entries@.map_values(|e: HeadingEntry| entry_view(e));
        let en = HeadingEntry { level: levels[j], text: texts[j].clone(), slug: slugs[j].clone() };
        assert(entry_view(en) == with_anchors(hs, sv)[j as int]);
        entries.push(en);
        assert(entries@.map_values(|e: HeadingEntry| entry_view(e)) =~= before.push(entry_view(en)));
        assert(entries@.map_values(|e: HeadingEntry| entry_view(e)) =~= with_anchors(hs, sv).take(j + 1));
    }
    assert(with_anchors(hs, sv).take(m as int) =~= with_anchors(hs, sv));
    let headings = outline_headings(&entries);
    assert(is_page_outline(headings, outline(with_anchors(hs, sv))));
    headings
}

/// Parse a GFM file into html and return the top level slugified headings.
pub fn to_html_with_headings(md: &str, options: &GfmOptions) -> (r: Result<(String, Option<Vec<Heading>>), std::fmt::Error>)
    ensures
        match r {
            Ok((html, headings)) => rendered_page(md@, options@, html@, headings),
            Err(_) => gfm_html_output(md@, options@) is None,
        },
{
    let (nodes, html) = gfm_render(md, options);
    let headings = page_outline(&nodes);
    match html {
        Ok(html) => Ok((html, headings)),
        Err(e) => Err(e),
    }
}

} // verus!

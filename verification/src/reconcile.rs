//! Keeping the cached documentation of a repository in step with its
//! default branch, as a state machine: the caller performs each action
//! (fetching a page, parsing JSON, writing to the cache) and hands back
//! what came of it.
//!
//! 1. optimistically update the json frontmatter string in the cache and
//!    publish the change so the servers have fresh routes
//! 2. collect all the file paths that need to be cached or recached
//! 3. for each file path, fetch the raw utf8 file contents, parse the GFM to
//!    html and cache the result
use vstd::prelude::*;
use crate::docs_sync::{filepaths_to_update, paths_to_update, registered_pairs, is_entry, entry_pair};
use crate::keys::{doc_key, doc_key_spec, docs_channel, docs_channel_spec, doc_file_key, file_cache_key};
use crate::markdown::{GfmOptions, rendered_page, to_html_with_headings, gfm_html_output};
use crate::model::{Commit, Repo, Section, copy_sections, lemma_sections_view_index, section_view, sections_view};
use crate::text::{chars_between, chars_of, distinct_strings, string_set, string_from_chars};

verus! {

/// Why a documentation sync stopped early.
#[derive(Debug, PartialEq, Eq, Clone, Copy)]
pub enum SyncError {
    /// A page could not be fetched.
    Http,
    /// A value could not be read from or written as JSON.
    BadJson,
    /// The cache could not be read or written.
    Redis,
    /// A page could not be rendered.
    Markdown,
}

/// What came of fetching a page.
pub enum PageFetch {
    /// The request or the reading of the body failed.
    Failed,
    /// The server answered with another status than 200.
    NotOk,
    /// The body of a 200 answer.
    Body(String),
}

/// What the caller hands back after performing an action.
pub enum SyncEvent {
    /// The outcome of fetching the overview page.
    Overview(PageFetch),
    /// The front matter read as JSON; `None` where it is not valid.
    FrontMatter(Option<Section>),
    /// The overview was stored and announced; with the files it listed
    /// before (`None` where there was no cached overview, or it did not
    /// parse, or it listed no sections).
    OverviewStored(Option<Vec<Section>>),
    /// The files were cached (each one's failure is only logged).
    FilesCached,
    /// The action failed.
    Failed(SyncError),
}

/// A documentation file to fetch, render and cache.
pub struct FileJob {
    pub url: String,
    pub key: String,
}

/// What the caller is asked to do next.
pub enum SyncAction {
    /// Fetch the overview page.
    FetchOverview { url: String },
    /// Read the front matter as a documentation tree.
    ParseFrontMatter { json: String },
    /// Read the cached overview (`hget repos:docs key`), then store this
    /// one in its place and publish on `channel`.
    StoreOverview { overview: Section, key: String, channel: String },
    /// Fetch each file, render it and store it under its key in `repos:docs`.
    CacheFiles { files: Vec<FileJob> },
    /// Stop, with this outcome.
    Finish(Result<(), SyncError>),
}

/// Where a documentation sync stands.
pub enum DocsSync {
    AwaitOverview { repo_id: u64, base_url: String, commits: Vec<Commit> },
    AwaitFrontMatter { repo_id: u64, base_url: String, commits: Vec<Commit>, md: String },
    AwaitStored { repo_id: u64, base_url: String, commits: Vec<Commit>, head_items: Option<Vec<Section>> },
    AwaitFiles,
    Done,
}

/// The characters `https://raw.githubusercontent.com/`.
pub open spec fn raw_host() -> Seq<char> {
    seq![
        'h', 't', 't', 'p', 's', ':', '/', '/', 'r', 'a', 'w', '.', 'g', 'i', 't', 'h', 'u', 'b', 'u', 's', 'e', 'r',
        'c', 'o', 'n', 't', 'e', 'n', 't', '.', 'c', 'o', 'm', '/',
    ]
}

/// Where the files of a commit of a repository are served:
/// `https://raw.githubusercontent.com/{full_name}/{commit}`.
pub open spec fn raw_base_url(full_name: Seq<char>, commit_id: Seq<char>) -> Seq<char> {
    raw_host() + full_name + seq!['/'] + commit_id
}

/// The characters `/docs/overview.md`.
pub open spec fn overview_path() -> Seq<char> {
    seq!['/', 'd', 'o', 'c', 's', '/', 'o', 'v', 'e', 'r', 'v', 'i', 'e', 'w', '.', 'm', 'd']
}

/// The characters `---`, which end the front matter.
pub open spec fn front_matter_end() -> Seq<char> {
    seq!['-', '-', '-']
}

/// `---` occurs in `t` at position `i`.
pub open spec fn delimiter_at(t: Seq<char>, i: int) -> bool {
    0 <= i && i + 3 <= t.len() && t.subrange(i, i + 3) == front_matter_end()
}

/// `t` split at the first `---` (as `str::split_once("---")`): the front
/// matter before it and the markdown after it.
pub open spec fn split_front_matter(t: Seq<char>) -> Option<(Seq<char>, Seq<char>)> {
    if exists|i: int| delimiter_at(t, i) {
        let i = choose|i: int| delimiter_at(t, i) && forall|j: int| 0 <= j < i ==> !delimiter_at(t, j);
        Some((t.subrange(0, i), t.subrange(i + 3, t.len() as int)))
    } else {
        None
    }
}

/// The job for the file at `path`: fetched from `{base}/{path}` and cached
/// under the repository's key for it.
pub open spec fn is_job_for(job: FileJob, repo_id: u64, base: Seq<char>, path: Seq<char>) -> bool {
    job.url@ == base + seq!['/'] + path && job.key@ == file_cache_key(repo_id, path)
}

/// The job is the job for some path of `paths`.
pub open spec fn is_job_in(job: FileJob, repo_id: u64, base: Seq<char>, paths: Set<Seq<char>>) -> bool {
    exists|p: Seq<char>| paths.contains(p) && #[trigger] is_job_for(job, repo_id, base, p)
}

/// The jobs are one per path of `paths`.
pub open spec fn jobs_for(files: Seq<FileJob>, repo_id: u64, base: Seq<char>, paths: Set<Seq<char>>) -> bool {
    &&& forall|i: int| 0 <= i < files.len() ==> #[trigger] is_job_in(files[i], repo_id, base, paths)
    &&& forall|p: Seq<char>| paths.contains(p) ==> exists|i: int| 0 <= i < files.len() && #[trigger] is_job_for(files[i], repo_id, base, p)
    &&& forall|i: int, j: int| 0 <= i < j < files.len() ==> #[trigger] files[i].url@ != #[trigger] files[j].url@
}

/// The optional list of sections as plain sequences.
pub open spec fn opt_sections(s: Option<Vec<Section>>) -> Option<Seq<Section>> {
    match s {
        Some(v) => Some(v@),
        None => None,
    }
}

/// `t` split at the first `---` (see [`split_front_matter`]).
pub fn split_front_matter_of(t: &String) -> (r: Option<(String, String)>)
    ensures
        match r {
            Some((fm, md)) => split_front_matter(t@) == Some((fm@, md@)),
            None => split_front_matter(t@) is None,
        },
{
    let chars = chars_of(t.as_str());
    let n = chars.len();
    let mut i: usize = 0;
    while i < n && n - i >= 3
        invariant
            i <= n,
            n == chars@.len(),
            chars@ == t@,
            forall|j: int| 0 <= j < i ==> !delimiter_at(t@, j),
        decreases n - i,
    {
        if chars[i] == '-' && chars[i + 1] == '-' && chars[i + 2] == '-' {
            assert(delimiter_at(t@, i as int)) by {
                assert(t@.subrange(i as int, i + 3) =~= front_matter_end());
            }
            proof {
                let k = choose|k: int| delimiter_at(t@, k) && forall|j: int| 0 <= j < k ==> !delimiter_at(t@, j);
                assert(k == i) by {
                    if k < i {
                        assert(!delimiter_at(t@, k));
                    } else if k > i {
                        assert(!delimiter_at(t@, i as int));
                    }
                }
            }
            let fm = string_from_chars(&chars_between(&chars, 0, i));
            let md = string_from_chars(&chars_between(&chars, i + 3, n));
            return Some((fm, md));
        }
        assert(!delimiter_at(t@, i as int)) by {
            if delimiter_at(t@, i as int) {
                assert(t@.subrange(i as int, i + 3)[0] == t@[i as int]);
                assert(t@.subrange(i as int, i + 3)[1] == t@[i + 1]);
                assert(t@.subrange(i as int, i + 3)[2] == t@[i + 2]);
            }
        }
        i = i + 1;
    }
    None
}

proof fn lemma_prefix_cancel(b: Seq<char>, x: Seq<char>, y: Seq<char>)
    requires
        b + x == b + y,
    ensures
        x == y,
{
    assert((b + x).len() == b.len() + x.len());
    assert((b + y).len() == b.len() + y.len());
    assert(x.len() == y.len());
    assert forall|k: int| 0 <= k < x.len() implies x[k] == y[k] by {
        assert((b + x)[b.len() + k] == x[k]);
        assert((b + y)[b.len() + k] == y[k]);
    }
    assert(x =~= y);
}

/// One job per path: fetched from `{base}/{path}` and cached under the
/// repository's key for the path.
fn file_jobs(repo_id: u64, base: &String, paths: &Vec<String>) -> (files: Vec<FileJob>)
    requires
        distinct_strings(paths@),
    ensures
        jobs_for(files@, repo_id, base@, string_set(paths@)),
{
    let mut files: Vec<FileJob> = Vec::new();
    let n = paths.len();
    for i in 0..n
        invariant
            n == paths@.len(),
            distinct_strings(paths@),
            files@.len() == i,
            forall|k: int| 0 <= k < i ==> #[trigger] is_job_for(files@[k], repo_id, base@, paths@[k]@),
    {
        let mut url = base.clone();
        url.append("/");
        url.append(paths[i].as_str());
        proof {
            reveal_strlit("/");
        }
        assert(url@ =~= base@ + seq!['/'] + paths@[i as int]@);
        let key = doc_file_key(repo_id, &paths[i]);
        files.push(FileJob { url, key });
    }
    let ghost ps = string_set(paths@);
    assert forall|i: int| 0 <= i < files@.len() implies #[trigger] is_job_in(files@[i], repo_id, base@, ps) by {
        assert(is_job_for(files@[i], repo_id, base@, paths@[i]@));
        assert(ps.contains(paths@[i]@));
    }
    assert forall|p: Seq<char>| ps.contains(p) implies exists|i: int| 0 <= i < files@.len() && #[trigger] is_job_for(files@[i], repo_id, base@, p) by {
        let k = choose|k: int| 0 <= k < paths@.len() && #[trigger] paths@[k]@ == p;
        assert(is_job_for(files@[k], repo_id, base@, paths@[k]@));
    }
    assert forall|i: int, j: int| 0 <= i < j < files@.len() implies #[trigger] files@[i].url@ != #[trigger] files@[j].url@ by {
        assert(is_job_for(files@[i], repo_id, base@, paths@[i]@));
        assert(is_job_for(files@[j], repo_id, base@, paths@[j]@));
        if files@[i].url@ == files@[j].url@ {
            lemma_prefix_cancel(base@ + seq!['/'], paths@[i]@, paths@[j]@);
            assert(paths@[i]@ != paths@[j]@);
        }
    }
    assert(jobs_for(files@, repo_id, base@, ps));
    files
}

/// A documentation page of its own: its html and headings, and no title,
/// name or files.
pub fn render_doc_page(md: &str) -> (r: Result<Section, std::fmt::Error>)
    ensures
        match r {
            Ok(s) => {
                &&& s.title is None
                &&& s.source is None
                &&& s.items is None
                &&& s.html is Some
                &&& rendered_page(md@, site_options(), s.html->0@, s.headings)
            },
            Err(_) => gfm_html_output(md@, site_options()) is None,
        },
{
    let options = GfmOptions::site_default();
    match to_html_with_headings(md, &options) {
        Ok((html, headings)) => Ok(Section { html: Some(html), headings, title: None, source: None, items: None }),
        Err(e) => Err(e),
    }
}

/// The options documentation is rendered with (see [`GfmOptions::site_default`]).
pub open spec fn site_options() -> crate::markdown::GfmOptionsView {
    crate::markdown::GfmOptionsView {
        strikethrough: true,
        table: true,
        autolink: true,
        tasklist: true,
        tagfilter: true,
        footnotes: true,
        header_id_prefix: Some(Seq::empty()),
    }
}

/// Listings with the same plain values register the same files.
proof fn lemma_same_listing_pairs(x: Seq<Section>, y: Seq<Section>)
    requires
        sections_view(x) == sections_view(y),
    ensures
        registered_pairs(x) == registered_pairs(y),
{
    lemma_sections_view_index(x);
    lemma_sections_view_index(y);
    assert forall|i: int, j: int| #![trigger is_entry(x, i, j)] #![trigger is_entry(y, i, j)]
        0 <= i < x.len() ==> (is_entry(x, i, j) <==> is_entry(y, i, j)) && (is_entry(x, i, j) ==> entry_pair(x, i, j)
            == entry_pair(y, i, j)) by {
        if 0 <= i < x.len() {
            assert(x.len() == y.len());
            assert(sections_view(x)[i] == section_view(x[i]));
            assert(sections_view(y)[i] == section_view(y[i]));
            assert(section_view(x[i]) == section_view(y[i]));
            if x[i].items is Some && y[i].items is Some {
                let (xs, ys) = (x[i].items->0@, y[i].items->0@);
                lemma_sections_view_index(xs);
                lemma_sections_view_index(ys);
                if 0 <= j < xs.len() {
                    assert(sections_view(xs)[j] == sections_view(ys)[j]);
                }
            }
        }
    }
    assert forall|pr: (Seq<char>, Seq<char>)| registered_pairs(x).contains(pr) <==> registered_pairs(y).contains(pr) by {
        if registered_pairs(x).contains(pr) {
            let (i, j) = choose|i: int, j: int| is_entry(x, i, j) && #[trigger] entry_pair(x, i, j) == pr;
            assert(is_entry(y, i, j));
        }
        if registered_pairs(y).contains(pr) {
            let (i, j) = choose|i: int, j: int| is_entry(y, i, j) && #[trigger] entry_pair(y, i, j) == pr;
            assert(is_entry(x, i, j));
        }
    }
    assert(registered_pairs(x) =~= registered_pairs(y));
}

/// The outcome of a step: the sync is over and the caller is asked to stop
/// with `outcome`.
pub open spec fn finishes(next: DocsSync, a: SyncAction, outcome: Result<(), SyncError>) -> bool {
    next is Done && a == SyncAction::Finish(outcome)
}

/// What one step of the sync does with the event `e` it waits for:
///
/// * a failed action ends the sync with that failure;
/// * an overview that could not be fetched ends it with an HTTP failure,
///   one that is not there ends it, and one without front matter ends it;
///   otherwise its front matter is to be read;
/// * front matter that is not JSON ends it with a JSON failure; markdown
///   that does not render ends it with a rendering failure; otherwise the
///   front matter, with the rendered page and its headings, is to be stored
///   as the repository's overview and announced;
/// * once stored, an overview that lists no sections ends it; otherwise the
///   files to update (see [`paths_to_update`]) are to be cached;
/// * once they are, it ends;
/// * an event that the sync does not wait for where it stands ends it.
pub open spec fn is_step(s: DocsSync, e: SyncEvent, next: DocsSync, a: SyncAction) -> bool {
    match e {
        SyncEvent::Failed(err) => finishes(next, a, Err(err)),
        SyncEvent::Overview(PageFetch::Failed) => finishes(next, a, Err(SyncError::Http)),
        SyncEvent::Overview(PageFetch::NotOk) => finishes(next, a, Ok(())),
        SyncEvent::Overview(PageFetch::Body(t)) => match s {
            DocsSync::AwaitOverview { repo_id, base_url, commits } => match split_front_matter(t@) {
                None => finishes(next, a, Ok(())),
                Some((fm, md)) => {
                    &&& next matches DocsSync::AwaitFrontMatter { repo_id: i2, base_url: b2, commits: c2, md: m2 }
                        && i2 == repo_id && b2 == base_url && c2 == commits && m2@ == md
                    &&& a matches SyncAction::ParseFrontMatter { json } && json@ == fm
                },
            },
            _ => finishes(next, a, Ok(())),
        },
        SyncEvent::FrontMatter(None) => finishes(next, a, Err(SyncError::BadJson)),
        SyncEvent::FrontMatter(Some(fm)) => match s {
            DocsSync::AwaitFrontMatter { repo_id, base_url, commits, md } => if gfm_html_output(
                md@,
                site_options(),
            ) is None {
                finishes(next, a, Err(SyncError::Markdown))
            } else {
                &&& next matches DocsSync::AwaitStored { repo_id: i2, base_url: b2, commits: c2, head_items }
                    && i2 == repo_id && b2 == base_url && c2 == commits && match (fm.items, head_items) {
                    (Some(x), Some(y)) => sections_view(y@) == sections_view(x@) && registered_pairs(y@) == registered_pairs(x@),
                    (None, None) => true,
                    _ => false,
                }
                &&& a matches SyncAction::StoreOverview { overview, key, channel }
                    && overview.title == fm.title && overview.source == fm.source && overview.items == fm.items
                    && overview.html is Some && rendered_page(md@, site_options(), overview.html->0@, overview.headings)
                    && key@ == doc_key_spec(repo_id, None, None) && channel@ == docs_channel_spec(repo_id)
            },
            _ => finishes(next, a, Ok(())),
        },
        SyncEvent::OverviewStored(cached) => match s {
            DocsSync::AwaitStored { repo_id, base_url, commits, head_items } => match head_items {
                None => finishes(next, a, Ok(())),
                Some(items) => {
                    &&& next is AwaitFiles
                    &&& a matches SyncAction::CacheFiles { files } && jobs_for(
                        files@,
                        repo_id,
                        base_url@,
                        paths_to_update(items@, opt_sections(cached), commits@),
                    )
                },
            },
            _ => finishes(next, a, Ok(())),
        },
        SyncEvent::FilesCached => finishes(next, a, Ok(())),
    }
}

/// How a sync of `repo`'s documentation after a push of `commits` starts:
/// without commits it is over at once; otherwise its files are read from
/// the tree of the last pushed commit, starting with the overview.
pub open spec fn starts_sync(repo: Repo, commits: Vec<Commit>, s: DocsSync, a: SyncAction) -> bool {
    &&& commits@.len() == 0 ==> finishes(s, a, Ok(()))
    &&& commits@.len() > 0 ==> {
        &&& s matches DocsSync::AwaitOverview { repo_id, base_url, commits: c }
            && repo_id == repo.id && c == commits
            && base_url@ == raw_base_url(repo.full_name@, commits@.last().id@)
        &&& a matches SyncAction::FetchOverview { url }
            && url@ == raw_base_url(repo.full_name@, commits@.last().id@) + overview_path()
    }
}

impl DocsSync {
    /// Starts syncing the documentation of `repo` after a push of `commits`:
    /// its files are read at the last commit, starting with the overview.
    /// Without commits there is nothing to sync.
    pub fn start(repo: &Repo, commits: Vec<Commit>) -> (r: (DocsSync, SyncAction))
        ensures
            starts_sync(*repo, commits, r.0, r.1),
    {
        if commits.len() == 0 {
            return (DocsSync::Done, SyncAction::Finish(Ok(())));
        }
        let last = &commits[commits.len() - 1];
        let mut base_url = String::new();
        base_url.append("https://raw.githubusercontent.com/");
        base_url.append(repo.full_name.as_str());
        base_url.append("/");
        base_url.append(last.id.as_str());
        let mut url = base_url.clone();
        url.append("/docs/overview.md");
        proof {
            reveal_strlit("https://raw.githubusercontent.com/");
            reveal_strlit("/");
            reveal_strlit("/docs/overview.md");
        }
        assert(base_url@ =~= raw_base_url(repo.full_name@, commits@.last().id@));
        assert(url@ =~= raw_base_url(repo.full_name@, commits@.last().id@) + overview_path());
        (DocsSync::AwaitOverview { repo_id: repo.id, base_url, commits }, SyncAction::FetchOverview { url })
    }

    /// One step of the sync (see [`is_step`]).
    pub fn step(self, e: SyncEvent) -> (r: (DocsSync, SyncAction))
        ensures
            is_step(self, e, r.0, r.1),
    {
        match e {
            SyncEvent::Failed(err) => (DocsSync::Done, SyncAction::Finish(Err(err))),
            SyncEvent::Overview(PageFetch::Failed) => (DocsSync::Done, SyncAction::Finish(Err(SyncError::Http))),
            SyncEvent::Overview(PageFetch::NotOk) => (DocsSync::Done, SyncAction::Finish(Ok(()))),
            SyncEvent::Overview(PageFetch::Body(t)) => match self {
                DocsSync::AwaitOverview { repo_id, base_url, commits } => match split_front_matter_of(&t) {
                    None => (DocsSync::Done, SyncAction::Finish(Ok(()))),
                    Some((fm, md)) => (
                        DocsSync::AwaitFrontMatter { repo_id, base_url, commits, md },
                        SyncAction::ParseFrontMatter { json: fm },
                    ),
                },
                _ => (DocsSync::Done, SyncAction::Finish(Ok(()))),
            },
            SyncEvent::FrontMatter(None) => (DocsSync::Done, SyncAction::Finish(Err(SyncError::BadJson))),
            SyncEvent::FrontMatter(Some(fm)) => match self {
                DocsSync::AwaitFrontMatter { repo_id, base_url, commits, md } => {
                    let options = GfmOptions::site_default();
                    match to_html_with_headings(md.as_str(), &options) {
                        Err(_) => (DocsSync::Done, SyncAction::Finish(Err(SyncError::Markdown))),
                        Ok((html, headings)) => {
                            let head_items = match &fm.items {
                                Some(v) => {
                                    let c = copy_sections(v);
                                    proof {
                                        lemma_same_listing_pairs(v@, c@);
                                    }
                                    Some(c)
                                },
                                None => None,
                            };
                            let overview = Section { html: Some(html), headings, ..fm };
                            let key = doc_key(repo_id, &None, &None);
                            let channel = docs_channel(repo_id);
                            (
                                DocsSync::AwaitStored { repo_id, base_url, commits, head_items },
                                SyncAction::StoreOverview { overview, key, channel },
                            )
                        },
                    }
                },
                _ => (DocsSync::Done, SyncAction::Finish(Ok(()))),
            },
            SyncEvent::OverviewStored(cached) => match self {
                DocsSync::AwaitStored { repo_id, base_url, commits, head_items } => match head_items {
                    None => (DocsSync::Done, SyncAction::Finish(Ok(()))),
                    Some(items) => {
                        let paths = filepaths_to_update(items, cached, commits);
                        let paths = match paths {
                            Some(p) => p,
                            None => Vec::new(),
                        };
                        let files = file_jobs(repo_id, &base_url, &paths);
                        (DocsSync::AwaitFiles, SyncAction::CacheFiles { files })
                    },
                },
                _ => (DocsSync::Done, SyncAction::Finish(Ok(()))),
            },
            SyncEvent::FilesCached => (DocsSync::Done, SyncAction::Finish(Ok(()))),
        }
    }
}

} // verus!

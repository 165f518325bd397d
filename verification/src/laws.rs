//! Properties that hold across the library's operations.
use vstd::prelude::*;
use crate::docs_sync::{applied_after, instant_before, changed_paths, doc_path, md_ext, newly_registered_paths, paths_to_update, registered_paths,
    registered_pairs, removed_later, touches};
use crate::cache_event::{commit_log_keys, is_cache_update, is_default_branch_push, oldest_first};
use crate::keys::{doc_key_spec, file_cache_key, slashes_to_colons};
use crate::markdown::{html_heading_ids, prefixed, suffixed_anchor, gfm_anchor_base, children_under, listed_under, top_positions, GfmOptionsView, OutlineItem, anchored, anchor_after, gfm_document_nodes, heading_nodes, heading_texts, is_page_outline, outline, outline_state, rendered_page, with_anchors};
use crate::model::{Commit, Heading, PushEvent, Section};
use crate::nav::{breadcrumbs, home, last_slash, segments, segments_href, trim_md, trim_slashes, CrumbView};
use crate::reconcile::{starts_sync, is_job_for, is_step, DocsSync, SyncAction, SyncEvent};
use crate::ssr_state::first_repo_id;
use crate::model::{Repo, RepoState};
use crate::text::{ends_with, string_set};
use crate::webhook::{delivery_headers, hex_decoded, hmac_sha256, sha256_prefix, webhook_verdict, GithubEvent};

verus! {

/// Only files that the new overview registers are ever (re)cached.
pub proof fn lemma_updates_are_registered(head: Seq<Section>, cached: Option<Seq<Section>>, commits: Seq<Commit>)
    ensures
        paths_to_update(head, cached, commits).subset_of(registered_paths(head)),
{
    match cached {
        None => {},
        Some(c) => {
            assert forall|p: Seq<char>| #[trigger] paths_to_update(head, cached, commits).contains(p) implies registered_paths(head).contains(p) by {
                if newly_registered_paths(head, c).contains(p) {
                    let x = choose|x: (Seq<char>, Seq<char>)|
                        #[trigger] registered_pairs(head).difference(registered_pairs(c)).contains(x) && p == doc_path(x.0, x.1);
                    assert(registered_pairs(head).contains(x));
                }
            }
        },
    }
}

/// Without a cached overview, every registered file is cached, whatever the
/// pushed commits are.
pub proof fn lemma_cold_cache_ignores_commits(head: Seq<Section>, commits: Seq<Commit>, others: Seq<Commit>)
    ensures
        paths_to_update(head, None, commits) == registered_paths(head),
        paths_to_update(head, None, commits) == paths_to_update(head, None, others),
{
}

/// A file that the new overview registers and the cached one does not is
/// cached, whatever the pushed commits are.
pub proof fn lemma_new_registrations_are_updated(head: Seq<Section>, cached: Seq<Section>, commits: Seq<Commit>, dir: Seq<char>, file: Seq<char>)
    requires
        registered_pairs(head).contains((dir, file)),
        !registered_pairs(cached).contains((dir, file)),
    ensures
        paths_to_update(head, Some(cached), commits).contains(doc_path(dir, file)),
{
    assert(registered_pairs(head).difference(registered_pairs(cached)).contains((dir, file)));
    assert(newly_registered_paths(head, cached).contains(doc_path(dir, file)));
}

/// With a cached overview, a file that every pushed commit touching it is
/// followed by one removing it, and that is not newly registered, is not
/// cached again.
pub proof fn lemma_removal_shadows_changes(head: Seq<Section>, cached: Seq<Section>, commits: Seq<Commit>, p: Seq<char>)
    requires
        forall|k: int| 0 <= k < commits.len() && #[trigger] touches(commits[k], p) ==> removed_later(commits, k, p),
        !newly_registered_paths(head, cached).contains(p),
    ensures
        !paths_to_update(head, Some(cached), commits).contains(p),
{
}

/// With a cached overview, a registered file that a pushed commit touches,
/// and that no commit applied after that one removes, is cached again.
pub proof fn lemma_changes_are_updated(head: Seq<Section>, cached: Seq<Section>, commits: Seq<Commit>, k: int, p: Seq<char>)
    requires
        registered_paths(head).contains(p),
        0 <= k < commits.len(),
        touches(commits[k], p),
        !removed_later(commits, k, p),
    ensures
        paths_to_update(head, Some(cached), commits).contains(p),
{
    assert(changed_paths(head, commits).contains(p));
}

/// The slugs of an outline, in order: each top-level heading's, then those
/// of its children.
pub open spec fn outline_slugs(items: Seq<OutlineItem>) -> Seq<Seq<char>>
    decreases items.len(),
{
    if items.len() == 0 {
        Seq::empty()
    } else {
        outline_slugs(items.drop_last()) + seq![items.last().slug] + items.last().children.map_values(
            |c: (Seq<char>, Seq<char>)| c.1,
        )
    }
}

proof fn lemma_outline_step(entries: Seq<(u8, Seq<char>, Seq<char>)>)
    requires
        entries.len() > 0,
    ensures
        ({
            let before = outline_slugs(outline(entries.drop_last()));
            let after = outline_slugs(outline(entries));
            after == before || (after == before.push(entries.last().2) && entries.last().2.len() > 0)
        }),
{
    let prev = entries.drop_last();
    let (items, open) = outline_state(prev);
    let (level, text, slug) = entries.last();
    if level == 1 {
        if slug.len() > 0 {
            let n = items.push(OutlineItem { text, slug, children: Seq::empty() });
            assert(n.drop_last() =~= items);
            assert(outline_slugs(n) =~= outline_slugs(items).push(slug));
        }
    } else if level == 2 && open && slug.len() > 0 && items.len() > 0 {
        let last = items.last();
        let n = items.update(items.len() - 1, OutlineItem { children: last.children.push((text, slug)), ..last });
        assert(n.drop_last() =~= items.drop_last());
        assert(n.last().children.map_values(|c: (Seq<char>, Seq<char>)| c.1) =~= last.children.map_values(
            |c: (Seq<char>, Seq<char>)| c.1,
        ).push(slug));
        assert(outline_slugs(n) =~= outline_slugs(items).push(slug));
    }
}

/// The slugs an outline lists are slugs of its headings, none is empty, and
/// where the headings' slugs are distinct, so are the listed ones.
pub proof fn lemma_outline_slugs(entries: Seq<(u8, Seq<char>, Seq<char>)>)
    ensures
        forall|s: Seq<char>| #[trigger] outline_slugs(outline(entries)).contains(s) ==> s.len() > 0
            && entries.map_values(|e: (u8, Seq<char>, Seq<char>)| e.2).contains(s),
        entries.map_values(|e: (u8, Seq<char>, Seq<char>)| e.2).no_duplicates() ==> outline_slugs(
            outline(entries),
        ).no_duplicates(),
    decreases entries.len(),
{
    let all = entries.map_values(|e: (u8, Seq<char>, Seq<char>)| e.2);
    if entries.len() == 0 {
        assert(outline(entries) =~= Seq::<OutlineItem>::empty());
        assert(outline_slugs(outline(entries)) =~= Seq::<Seq<char>>::empty());
    } else {
        let prev = entries.drop_last();
        let pall = prev.map_values(|e: (u8, Seq<char>, Seq<char>)| e.2);
        assert(all =~= pall.push(entries.last().2));
        lemma_outline_slugs(prev);
        lemma_outline_step(entries);
        let before = outline_slugs(outline(prev));
        let after = outline_slugs(outline(entries));
        assert forall|s: Seq<char>| #[trigger] after.contains(s) implies s.len() > 0 && all.contains(s) by {
            if before.contains(s) {
                let k = choose|k: int| 0 <= k < pall.len() && pall[k] == s;
                assert(all[k] == s);
            } else {
                assert(after[after.len() - 1] == s) by {
                    let k = choose|k: int| 0 <= k < after.len() && after[k] == s;
                    if k < before.len() {
                        assert(before[k] == s);
                    }
                }
                assert(all[all.len() - 1] == s);
            }
        }
        if all.no_duplicates() {
            assert(pall.no_duplicates()) by {
                assert forall|i: int, j: int| 0 <= i < pall.len() && 0 <= j < pall.len() && i != j implies pall[i] != pall[j] by {
                    assert(all[i] == pall[i] && all[j] == pall[j]);
                }
            }
            if after != before {
                let x = entries.last().2;
                assert(!before.contains(x)) by {
                    if before.contains(x) {
                        let k = choose|k: int| 0 <= k < pall.len() && pall[k] == x;
                        assert(all[k] == all[all.len() - 1]);
                    }
                }
                assert forall|i: int, j: int| 0 <= i < after.len() && 0 <= j < after.len() && i != j implies after[i] != after[j] by {
                    if i < before.len() && j < before.len() {
                        assert(after[i] == before[i] && after[j] == before[j]);
                    } else if i < before.len() {
                        assert(after[i] == before[i]);
                    } else if j < before.len() {
                        assert(after[j] == before[j]);
                    }
                }
            }
        }
    }
}

/// A fresh anchorizer hands out distinct anchors.
pub proof fn lemma_anchors_distinct(texts: Seq<Seq<char>>, slugs: Seq<Seq<char>>)
    requires
        anchored(texts, slugs),
    ensures
        slugs.no_duplicates(),
{
    assert forall|i: int, j: int| 0 <= i < slugs.len() && 0 <= j < slugs.len() && i != j implies slugs[i] != slugs[j] by {
        if i < j {
            assert(anchor_after(texts[j], slugs[j], slugs.take(j)));
            assert(slugs.take(j)[i] == slugs[i]);
        } else {
            assert(anchor_after(texts[i], slugs[i], slugs.take(i)));
            assert(slugs.take(i)[j] == slugs[j]);
        }
    }
}

/// The headings a rendered page lists are anchored by distinct, non-empty
/// slugs.
pub proof fn lemma_page_anchors_distinct(md: Seq<char>, options: GfmOptionsView, html: Seq<char>, headings: Option<Vec<Heading>>)
    requires
        rendered_page(md, options, html, headings),
    ensures
        exists|items: Seq<OutlineItem>| {
            &&& #[trigger] is_page_outline(headings, items)
            &&& outline_slugs(items).no_duplicates()
            &&& forall|s: Seq<char>| #[trigger] outline_slugs(items).contains(s) ==> s.len() > 0
        },
{
    let hs = heading_nodes(gfm_document_nodes(md, options));
    let slugs = choose|slugs: Seq<Seq<char>>|
        anchored(heading_texts(hs), slugs) && #[trigger] is_page_outline(headings, outline(with_anchors(hs, slugs)));
    lemma_anchors_distinct(heading_texts(hs), slugs);
    let entries = with_anchors(hs, slugs);
    assert(entries.map_values(|e: (u8, Seq<char>, Seq<char>)| e.2) =~= slugs);
    lemma_outline_slugs(entries);
    assert(is_page_outline(headings, outline(entries)));
}

/// A documentation file registered as `file` in section `dir`, whose names
/// hold no `/` and that does not end with `.md.md`, is read from the key it
/// was cached under when the page of it that the navigation links to is
/// requested: the navigation drops the trailing `.md` of its name and the
/// page's key adds it back.
pub proof fn lemma_linked_page_reads_cached_file(repo_id: u64, dir: Seq<char>, file: Seq<char>)
    requires
        !dir.contains('/'),
        !file.contains('/'),
        !ends_with(file, seq!['.', 'm', 'd', '.', 'm', 'd']),
    ensures
        file_cache_key(repo_id, doc_path(dir, file)) == doc_key_spec(repo_id, Some(dir), Some(trim_md(file))),
{
    let ext = md_ext();
    let with_ext = file + (if ends_with(file, ext) { Seq::<char>::empty() } else { ext });
    assert(trim_md(file) + ext == with_ext) by {
        if ends_with(file, ext) {
            let stem = file.subrange(0, file.len() - 3);
            assert(!ends_with(stem, ext)) by {
                if ends_with(stem, ext) {
                    assert(file.subrange(file.len() - 6, file.len() as int) =~= seq!['.', 'm', 'd', '.', 'm', 'd']) by {
                        assert(stem.subrange(stem.len() - 3, stem.len() as int) == ext);
                        assert(file.subrange(file.len() - 3, file.len() as int) == ext);
                    }
                }
            }
            assert(trim_md(stem) == stem);
            assert(trim_md(file) == trim_md(stem));
            assert(stem + ext =~= file) by {
                assert(file.subrange(file.len() - 3, file.len() as int) == ext);
            }
        } else {
            assert(trim_md(file) == file);
        }
    }
    lemma_no_slash_unchanged(dir);
    lemma_no_slash_unchanged(with_ext);
    let path = doc_path(dir, file);
    assert(path =~= seq!['d', 'o', 'c', 's', '/'] + dir + seq!['/'] + with_ext);
    assert(slashes_to_colons(path) =~= seq!['d', 'o', 'c', 's', ':'] + dir + seq![':'] + with_ext) by {
        assert(slashes_to_colons(dir) == dir);
        assert(slashes_to_colons(with_ext) == with_ext);
    }
    assert(file_cache_key(repo_id, path) =~= doc_key_spec(repo_id, Some(dir), Some(trim_md(file))));
}

proof fn lemma_no_slash_unchanged(s: Seq<char>)
    ensures
        !s.contains('/') ==> slashes_to_colons(s) == s,
{
    if !s.contains('/') {
        assert forall|k: int| 0 <= k < s.len() implies slashes_to_colons(s)[k] == s[k] by {
            assert(s[k] != '/') by {
                if s[k] == '/' {
                    assert(s.contains('/'));
                }
            }
        }
        assert(slashes_to_colons(s) =~= s);
    }
}

/// A delivery is accepted only when its signature header is `sha256=`
/// followed by the hex HMAC-SHA256 of its body under the webhook secret.
pub proof fn lemma_accepted_deliveries_are_signed(
    event: Option<Seq<char>>,
    signature: Option<Seq<char>>,
    secret: Seq<u8>,
    body: Seq<u8>,
)
    ensures
        webhook_verdict(event, signature, secret, body) is Ok ==> (signature matches Some(sig)
            && crate::text::starts_with(sig, sha256_prefix()) && hex_decoded(sig.skip(7)) == Some(
            hmac_sha256(secret, body),
        )),
{
}

/// The commit logs rank the newest commits first: of two pushed commits, the
/// one made at a later second is stored with the lower score.
pub proof fn lemma_newest_commits_rank_first(e: PushEvent, u: crate::cache_event::CacheUpdate, i: int, j: int)
    requires
        is_default_branch_push(e),
        is_cache_update(u, e),
        0 <= i < e.commits@.len(),
        0 <= j < e.commits@.len(),
        e.commits@[j].timestamp.secs < e.commits@[i].timestamp.secs,
    ensures
        u.scored_commits@[i].0 < u.scored_commits@[j].0,
{
    assert(crate::cache_event::is_scored_commit(u.scored_commits@[i], e.commits@[i], e.repository.name));
    assert(crate::cache_event::is_scored_commit(u.scored_commits@[j], e.commits@[j], e.repository.name));
}

/// The commits a push stores for a repository are read back from its log:
/// the key a query for a list of repositories reads for that repository is
/// the key the push wrote.
pub proof fn lemma_commit_log_read_back(e: PushEvent, u: crate::cache_event::CacheUpdate, ids: Seq<u64>, i: int)
    requires
        is_cache_update(u, e),
        0 <= i < ids.len(),
        ids[i] == e.repository.id,
    ensures
        commit_log_keys(ids)[i] == u.commit_log_key@,
{
}

/// The log of all repositories is reported in chronological order: read by
/// rank, that is by ascending score (the negated commit time), and reported
/// in the opposite order, its commits come oldest first.
pub proof fn lemma_all_commits_chronological(ranked: Seq<Commit>)
    requires
        forall|i: int, j: int|
            0 <= i <= j < ranked.len() ==> -ranked[i].timestamp.secs <= -ranked[j].timestamp.secs,
    ensures
        forall|i: int, j: int|
            0 <= i <= j < ranked.len() ==> #[trigger] oldest_first(ranked)[i].timestamp.secs
                <= #[trigger] oldest_first(ranked)[j].timestamp.secs,
{
    assert forall|i: int, j: int| 0 <= i <= j < ranked.len() implies #[trigger] oldest_first(ranked)[i].timestamp.secs
        <= #[trigger] oldest_first(ranked)[j].timestamp.secs by {
        let n = ranked.len() as int;
        assert(oldest_first(ranked)[i] == ranked[n - 1 - i]);
        assert(oldest_first(ranked)[j] == ranked[n - 1 - j]);
    }
}

/// The registered path `p` is changed by some commit of `commits` that no
/// later-made commit of `commits` removes it after.
pub open spec fn changed_among(commits: Seq<Commit>, p: Seq<char>) -> bool {
    exists|x: Commit|
        #[trigger] commits.contains(x) && touches(x, p) && !(exists|y: Commit|
            #[trigger] commits.contains(y) && instant_before(x.timestamp, y.timestamp) && string_set(y.removed@).contains(p))
}

/// No two commits of the list were made at the same instant.
pub open spec fn distinct_times(commits: Seq<Commit>) -> bool {
    forall|i: int, j: int| 0 <= i < j < commits.len() ==> #[trigger] commits[i].timestamp != #[trigger] commits[j].timestamp
}

proof fn lemma_changed_among(head: Seq<Section>, commits: Seq<Commit>, p: Seq<char>)
    requires
        distinct_times(commits),
    ensures
        changed_paths(head, commits).contains(p) <==> (registered_paths(head).contains(p) && changed_among(commits, p)),
{
    if changed_paths(head, commits).contains(p) {
        let k = choose|k: int| 0 <= k < commits.len() && #[trigger] touches(commits[k], p) && !removed_later(commits, k, p);
        let x = commits[k];
        assert(commits.contains(x));
        assert forall|y: Commit| #[trigger] commits.contains(y) && instant_before(x.timestamp, y.timestamp) implies !string_set(
            y.removed@,
        ).contains(p) by {
            let k2 = choose|k2: int| 0 <= k2 < commits.len() && commits[k2] == y;
            assert(applied_after(commits, k2, k));
        }
        assert(changed_among(commits, p));
    }
    if registered_paths(head).contains(p) && changed_among(commits, p) {
        let x = choose|x: Commit|
            #[trigger] commits.contains(x) && touches(x, p) && !(exists|y: Commit|
                #[trigger] commits.contains(y) && instant_before(x.timestamp, y.timestamp) && string_set(y.removed@).contains(p));
        let k = choose|k: int| 0 <= k < commits.len() && commits[k] == x;
        assert(!removed_later(commits, k, p)) by {
            if removed_later(commits, k, p) {
                let k2 = choose|k2: int|
                    0 <= k2 < commits.len() && #[trigger] applied_after(commits, k2, k) && string_set(commits[k2].removed@).contains(p);
                if k < k2 {
                    assert(commits[k].timestamp != commits[k2].timestamp);
                } else if k2 < k {
                    assert(commits[k2].timestamp != commits[k].timestamp);
                }
                assert(commits.contains(commits[k2]));
            }
        }
        assert(touches(commits[k], p));
        assert(changed_paths(head, commits).contains(p));
    }
}

/// With commits made at distinct instants, the files to update do not depend
/// on the order in which the commits are listed.
pub proof fn lemma_commit_order_irrelevant(
    head: Seq<Section>,
    cached: Option<Seq<Section>>,
    commits: Seq<Commit>,
    reordered: Seq<Commit>,
)
    requires
        reordered.to_multiset() == commits.to_multiset(),
        distinct_times(commits),
        distinct_times(reordered),
    ensures
        paths_to_update(head, cached, commits) == paths_to_update(head, cached, reordered),
{
    commits.to_multiset_ensures();
    reordered.to_multiset_ensures();
    assert forall|x: Commit| commits.contains(x) <==> reordered.contains(x) by {
        assert(commits.to_multiset().count(x) == reordered.to_multiset().count(x));
        assert(commits.contains(x) <==> commits.to_multiset().count(x) > 0);
        assert(reordered.contains(x) <==> reordered.to_multiset().count(x) > 0);
    }
    assert forall|p: Seq<char>| changed_paths(head, commits).contains(p) <==> changed_paths(head, reordered).contains(p) by {
        lemma_changed_among(head, commits, p);
        lemma_changed_among(head, reordered, p);
        assert(changed_among(commits, p) <==> changed_among(reordered, p));
    }
    assert(changed_paths(head, commits) =~= changed_paths(head, reordered));
}

proof fn lemma_no_children_past_end(entries: Seq<(u8, Seq<char>, Seq<char>)>, t: int)
    requires
        entries.len() <= t + 1,
    ensures
        children_under(entries, t) == Seq::<(Seq<char>, Seq<char>)>::empty(),
    decreases entries.len(),
{
    if entries.len() > 0 {
        lemma_no_children_past_end(entries.drop_last(), t);
    }
}

/// The outline built heading by heading, described directly (and whether
/// its last top-level heading is still open).
proof fn lemma_outline_state_groups(entries: Seq<(u8, Seq<char>, Seq<char>)>)
    ensures
        ({
            let (o, open) = outline_state(entries);
            let t = top_positions(entries);
            &&& o.len() == t.len()
            &&& forall|i: int| 0 <= i < t.len() ==> 0 <= #[trigger] t[i] < entries.len() && entries[t[i]].0 == 1
                && entries[t[i]].2.len() > 0
            &&& forall|i: int, j: int| 0 <= i < j < t.len() ==> #[trigger] t[i] < #[trigger] t[j]
            &&& forall|i: int| #![trigger o[i]] 0 <= i < t.len() ==> o[i].text == entries[t[i]].1 && o[i].slug == entries[t[i]].2
                && o[i].children == children_under(entries, t[i])
            &&& open <==> (t.len() > 0 && forall|m: int| t.last() < m < entries.len() ==> #[trigger] entries[m].0 != 1)
        }),
    decreases entries.len(),
{
    if entries.len() > 0 {
        let prev = entries.drop_last();
        lemma_outline_state_groups(prev);
        let n = prev.len() as int;
        let (o0, open0) = outline_state(prev);
        let t0 = top_positions(prev);
        let (o, open) = outline_state(entries);
        let t = top_positions(entries);
        let (level, text, slug) = entries.last();
        assert(entries.drop_last() =~= prev);
        assert forall|m: int| 0 <= m < n implies #[trigger] entries[m] == prev[m] by {}
        // the children of the earlier top-level headings, but the last, gain nothing
        assert forall|i: int| 0 <= i < t0.len() - 1 implies !listed_under(entries, #[trigger] t0[i], n) by {
            let last = t0[t0.len() - 1];
            assert(t0[i] < last);
            assert(entries[last].0 == 1);
        }
        if level == 1 && slug.len() > 0 {
            assert(t =~= t0.push(n));
            assert(o == o0.push(crate::markdown::OutlineItem { text, slug, children: Seq::empty() }));
            lemma_no_children_past_end(entries, n);
            assert forall|i: int| 0 <= i < t.len() implies #[trigger] o[i].text == entries[t[i]].1 && o[i].slug == entries[t[i]].2
                && o[i].children == children_under(entries, t[i]) by {
                if i < t0.len() {
                    assert(!listed_under(entries, t0[i], n));
                    assert(o[i] == o0[i]);
                    assert(children_under(entries, t0[i]) == children_under(prev, t0[i]));
                }
            }
        } else {
            assert(t =~= t0);
            if level == 2 && open0 && slug.len() > 0 && o0.len() > 0 {
                let li = t0.len() - 1;
                assert(listed_under(entries, t0[li], n));
                assert(children_under(entries, t0[li]) == children_under(prev, t0[li]).push((text, slug)));
                let last = o0.last();
                assert(o == o0.update(li, crate::markdown::OutlineItem { children: last.children.push((text, slug)), ..last }));
                assert forall|i: int| 0 <= i < t.len() implies #[trigger] o[i].text == entries[t[i]].1 && o[i].slug == entries[t[i]].2
                    && o[i].children == children_under(entries, t[i]) by {
                    if i < li {
                        assert(!listed_under(entries, t0[i], n));
                        assert(children_under(entries, t0[i]) == children_under(prev, t0[i]));
                        assert(o[i] == o0[i]);
                    }
                }
                assert forall|m: int| t.last() < m < entries.len() implies #[trigger] entries[m].0 != 1 by {
                    if m < n {
                        assert(prev[m].0 != 1);
                    }
                }
            } else {
                assert forall|i: int| 0 <= i < t.len() implies !listed_under(entries, #[trigger] t[i], n) by {
                    if i == t0.len() - 1 && level == 2 && slug.len() > 0 {
                        assert(!open0);
                        if forall|m: int| t0.last() < m < n ==> #[trigger] prev[m].0 != 1 {
                            assert(false);
                        }
                    }
                }
                assert(o == o0);
                assert forall|i: int| 0 <= i < t.len() implies #[trigger] o[i].children == children_under(entries, t[i]) by {
                    assert(!listed_under(entries, t[i], n));
                    assert(o0[i] == o[i]);
                    assert(children_under(entries, t[i]) == children_under(prev, t[i]));
                }
                if level != 1 && t.len() > 0 {
                    if open0 {
                        assert forall|m: int| t.last() < m < entries.len() implies #[trigger] entries[m].0 != 1 by {
                            if m < n {
                                assert(prev[m].0 != 1);
                            }
                        }
                    }
                    if forall|m: int| t.last() < m < entries.len() ==> #[trigger] entries[m].0 != 1 {
                        assert forall|m: int| t0.last() < m < n implies #[trigger] prev[m].0 != 1 by {
                            assert(entries[m].0 != 1);
                        }
                    }
                } else if t.len() > 0 {
                    assert(entries[n].0 == 1);
                }
            }
        }
    }
}

/// The outline a page lists, described directly: one top-level heading per
/// first-level heading with an anchor, in document order, each with the
/// second-level headings with an anchor that follow it before the next
/// first-level heading. No other heading appears.
pub proof fn lemma_outline_groups(entries: Seq<(u8, Seq<char>, Seq<char>)>)
    ensures
        outline(entries).len() == top_positions(entries).len(),
        forall|i: int| 0 <= i < top_positions(entries).len() ==> {
            let t = #[trigger] top_positions(entries)[i];
            &&& entries[t].0 == 1
            &&& entries[t].2.len() > 0
            &&& outline(entries)[i].text == entries[t].1
            &&& outline(entries)[i].slug == entries[t].2
            &&& outline(entries)[i].children == children_under(entries, t)
        },
        forall|i: int, j: int| 0 <= i < j < top_positions(entries).len() ==> #[trigger] top_positions(entries)[i]
            < #[trigger] top_positions(entries)[j],
{
    lemma_outline_state_groups(entries);
}

/// The headings `to_html_with_headings` lists for a page: `None` when no
/// first-level heading of the page has an anchor; otherwise one heading per
/// first-level heading with an anchor, in document order, holding the
/// second-level headings with an anchor that follow it before the next
/// first-level heading (headings of deeper levels, and second-level
/// headings before the first listed one, never appear).
pub proof fn lemma_page_outline_groups(md: Seq<char>, options: GfmOptionsView, html: Seq<char>, headings: Option<Vec<Heading>>)
    requires
        rendered_page(md, options, html, headings),
    ensures
        exists|slugs: Seq<Seq<char>>| {
            let entries = with_anchors(heading_nodes(gfm_document_nodes(md, options)), slugs);
            let t = top_positions(entries);
            &&& #[trigger] anchored(heading_texts(heading_nodes(gfm_document_nodes(md, options))), slugs)
            &&& (headings is None <==> t.len() == 0)
            &&& (headings matches Some(hs) ==> hs@.len() == t.len() && forall|i: int| 0 <= i < t.len() ==> {
                &&& (#[trigger] hs@[i]).text@ == entries[t[i]].1
                &&& hs@[i].slug@ == entries[t[i]].2
                &&& hs@[i].items is Some
                &&& crate::markdown::are_child_headings(hs@[i].items->0@, children_under(entries, t[i]))
            })
        },
{
    let hs = heading_nodes(gfm_document_nodes(md, options));
    let slugs = choose|slugs: Seq<Seq<char>>|
        anchored(heading_texts(hs), slugs) && #[trigger] is_page_outline(headings, outline(with_anchors(hs, slugs)));
    let entries = with_anchors(hs, slugs);
    lemma_outline_groups(entries);
    let t = top_positions(entries);
    if let Some(v) = headings {
        assert forall|i: int| 0 <= i < t.len() implies {
            &&& (#[trigger] v@[i]).text@ == entries[t[i]].1
            &&& v@[i].slug@ == entries[t[i]].2
            &&& v@[i].items is Some
            &&& crate::markdown::are_child_headings(v@[i].items->0@, children_under(entries, t[i]))
        } by {
            assert(crate::markdown::is_outline_heading(v@[i], outline(entries)[i]));
        }
    }
}

proof fn lemma_anchored_prefix(texts: Seq<Seq<char>>, a: Seq<Seq<char>>, b: Seq<Seq<char>>, k: int)
    requires
        anchored(texts, a),
        anchored(texts, b),
        0 <= k <= a.len(),
    ensures
        a.take(k) == b.take(k),
    decreases k,
{
    if k > 0 {
        lemma_anchored_prefix(texts, a, b, k - 1);
        let i = k - 1;
        let earlier = a.take(i);
        assert(anchor_after(texts[i], a[i], a.take(i)));
        assert(anchor_after(texts[i], b[i], b.take(i)));
        let base = gfm_anchor_base(texts[i]);
        if earlier.contains(base) {
            let ka = choose|ka: nat| ka >= 1 && a[i] == suffixed_anchor(base, ka) && forall|j: nat|
                1 <= j < ka ==> earlier.contains(#[trigger] suffixed_anchor(base, j));
            let kb = choose|kb: nat| kb >= 1 && b[i] == suffixed_anchor(base, kb) && forall|j: nat|
                1 <= j < kb ==> earlier.contains(#[trigger] suffixed_anchor(base, j));
            if ka < kb {
                assert(earlier.contains(suffixed_anchor(base, ka)));
            } else if kb < ka {
                assert(earlier.contains(suffixed_anchor(base, kb)));
            }
        }
        assert(a.take(k) =~= a.take(i).push(a[i]));
        assert(b.take(k) =~= b.take(i).push(b[i]));
    }
}

/// A fresh anchorizer hands out one sequence of anchors for given texts.
pub proof fn lemma_anchored_unique(texts: Seq<Seq<char>>, a: Seq<Seq<char>>, b: Seq<Seq<char>>)
    requires
        anchored(texts, a),
        anchored(texts, b),
    ensures
        a == b,
{
    lemma_anchored_prefix(texts, a, b, a.len() as int);
    assert(a.take(a.len() as int) =~= a);
    assert(b.take(b.len() as int) =~= b);
}

/// The anchors a rendered page's outline lists are ids of its HTML: with the
/// id prefix `p` (holding no `"`), each listed anchor, after `p`, is the
/// `id` of a heading start tag of the page's HTML.
pub proof fn lemma_outline_anchors_are_html_ids(
    md: Seq<char>,
    options: GfmOptionsView,
    html: Seq<char>,
    headings: Option<Vec<Heading>>,
    p: Seq<char>,
)
    requires
        rendered_page(md, options, html, headings),
        options.header_id_prefix == Some(p),
        !p.contains('"'),
    ensures
        exists|items: Seq<OutlineItem>| {
            &&& #[trigger] is_page_outline(headings, items)
            &&& forall|s: Seq<char>| #[trigger] outline_slugs(items).contains(s) ==> html_heading_ids(html).contains(p + s)
        },
{
    let hs = heading_nodes(gfm_document_nodes(md, options));
    let a = choose|slugs: Seq<Seq<char>>|
        anchored(heading_texts(hs), slugs) && #[trigger] is_page_outline(headings, outline(with_anchors(hs, slugs)));
    let b = choose|slugs: Seq<Seq<char>>|
        #[trigger] anchored(heading_texts(hs), slugs) && html_heading_ids(html) == prefixed(p, slugs);
    lemma_anchored_unique(heading_texts(hs), a, b);
    let entries = with_anchors(hs, a);
    assert(entries.map_values(|e: (u8, Seq<char>, Seq<char>)| e.2) =~= a);
    lemma_outline_slugs(entries);
    let items = outline(entries);
    assert forall|s: Seq<char>| #[trigger] outline_slugs(items).contains(s) implies html_heading_ids(html).contains(p + s) by {
        assert(entries.map_values(|e: (u8, Seq<char>, Seq<char>)| e.2).contains(s));
        let k = choose|k: int| 0 <= k < a.len() && a[k] == s;
        assert(prefixed(p, a)[k] == p + s);
    }
    assert(is_page_outline(headings, items));
}

/// With a cached overview, once the overview is stored the sync caches
/// every registered file that some pushed commit (any of them, the oldest
/// included) adds or modifies and that no commit applied after it removes:
/// the files to cache hold a job fetching it from the pushed tree and
/// storing it under the repository's key for it.
pub proof fn lemma_stored_sync_caches_changed_files(
    s: DocsSync,
    cached: Vec<Section>,
    next: DocsSync,
    a: SyncAction,
    k: int,
    p: Seq<char>,
)
    requires
        is_step(s, SyncEvent::OverviewStored(Some(cached)), next, a),
        s matches DocsSync::AwaitStored { head_items: Some(items), commits, .. } && registered_paths(items@).contains(p)
            && 0 <= k < commits@.len() && touches(commits@[k], p) && !removed_later(commits@, k, p),
    ensures
        a matches SyncAction::CacheFiles { files } && exists|i: int|
            0 <= i < files@.len() && #[trigger] is_job_for(files@[i], s->AwaitStored_repo_id, s->AwaitStored_base_url@, p),
{
    let items = s->AwaitStored_head_items->0;
    let commits = s->AwaitStored_commits;
    assert(changed_paths(items@, commits@).contains(p));
    assert(paths_to_update(items@, Some(cached@), commits@).contains(p));
}

/// The breadcrumb trail of a path whose last segment is a page: a link home
/// first, the current page last, and in between one step per earlier
/// segment, each one (the last included) a link to the address of the
/// segments up to it exactly when that address is a known page, and plain
/// text otherwise.
pub proof fn lemma_crumbs_link_known_pages(path: Seq<char>, links: Set<Seq<char>>, k: int, i: int)
    requires
        last_slash(trim_slashes(path)) == Some(k),
        k + 1 < trim_slashes(path).len(),
        0 <= i < segments(trim_slashes(path).subrange(0, k)).len(),
    ensures
        ({
            let t = trim_slashes(path);
            let segs = segments(t.subrange(0, k));
            let href = segments_href(segs, i + 1);
            let trail = breadcrumbs(path, links);
            &&& trail.len() == segs.len() + 2
            &&& trail[0] == CrumbView::Link { label: home(), href: seq!['/'] }
            &&& trail[segs.len() as int + 1] == CrumbView::Current { label: t.subrange(k + 1, t.len() as int) }
            &&& links.contains(href) ==> trail[i + 1] == CrumbView::Link { label: segs[i], href }
            &&& !links.contains(href) ==> trail[i + 1] == CrumbView::Text { label: segs[i] }
        }),
{
    let t = trim_slashes(path);
    lemma_last_slash_in_range(t);
    let segs = segments(t.subrange(0, k));
    let active = t.subrange(k + 1, t.len() as int);
    assert(active.len() > 0);
    let mid = Seq::new(segs.len(), |j: int| crate::nav::segment_crumb(segs, j, links));
    let trail = seq![CrumbView::Link { label: home(), href: seq!['/'] }] + mid + seq![CrumbView::Current { label: active }];
    assert(breadcrumbs(path, links) == trail);
    assert(trail[i + 1] == mid[i]);
    assert(trail[segs.len() as int + 1] == CrumbView::Current { label: active });
}

proof fn lemma_last_slash_in_range(s: Seq<char>)
    ensures
        last_slash(s) matches Some(k) ==> 0 <= k < s.len(),
    decreases s.len(),
{
    if s.len() > 0 {
        lemma_last_slash_in_range(s.drop_last());
    }
}

/// The repository found by name is the first one whose name is exactly the
/// requested name, character for character; none is found when no name is
/// equal to it.
pub proof fn lemma_repo_lookup_exact(repos: Seq<RepoState>, name: Seq<char>)
    ensures
        first_repo_id(repos, name) matches Some(id) ==> exists|i: int|
            0 <= i < repos.len() && #[trigger] repos[i].name@ == name && repos[i].id == id && forall|j: int|
                0 <= j < i ==> repos[j].name@ != name,
        first_repo_id(repos, name) is None ==> forall|i: int| 0 <= i < repos.len() ==> #[trigger] repos[i].name@ != name,
    decreases repos.len(),
{
    if repos.len() > 0 {
        let rest = repos.drop_first();
        lemma_repo_lookup_exact(rest, name);
        if repos[0].name@ != name {
            if first_repo_id(repos, name) is Some {
                let id = first_repo_id(repos, name)->0;
                let i = choose|i: int|
                    0 <= i < rest.len() && #[trigger] rest[i].name@ == name && rest[i].id == id && forall|j: int|
                        0 <= j < i ==> rest[j].name@ != name;
                assert(repos[i + 1] == rest[i]);
                assert forall|j: int| 0 <= j < i + 1 implies repos[j].name@ != name by {
                    if j > 0 {
                        assert(repos[j] == rest[j - 1]);
                    }
                }
                assert(repos[i + 1].name@ == name);
            } else {
                assert forall|i: int| 0 <= i < repos.len() implies #[trigger] repos[i].name@ != name by {
                    if i > 0 {
                        assert(repos[i] == rest[i - 1]);
                    }
                }
            }
        } else {
            assert(repos[0].name@ == name);
        }
    }
}

/// A push counts as one to the default branch only when its ref is exactly
/// `refs/heads/` followed by the default branch's name; so of two pushes to
/// repositories with the same default branch, both count only when their
/// refs are equal.
pub proof fn lemma_default_branch_ref_exact(e: PushEvent, f: PushEvent)
    ensures
        is_default_branch_push(e) <==> e.git_ref@ == seq!['r', 'e', 'f', 's', '/', 'h', 'e', 'a', 'd', 's', '/']
            + e.repository.default_branch@,
        is_default_branch_push(e) && is_default_branch_push(f) && e.repository.default_branch@
            == f.repository.default_branch@ ==> e.git_ref@ == f.git_ref@,
{
}

/// The characters `e` start with `w`.
pub open spec fn begins_with(e: Seq<char>, w: Seq<char>) -> bool {
    w.len() <= e.len() && e.subrange(0, w.len() as int) =~= w
}

/// Only push and ping deliveries get past their headers, and a delivery is
/// accepted only then: its `X-GitHub-Event` header starts with `push` (a
/// push) or with `ping` (a ping).
pub proof fn lemma_only_push_and_ping_accepted(
    event: Option<Seq<char>>,
    signature: Option<Seq<char>>,
    secret: Seq<u8>,
    body: Seq<u8>,
)
    ensures
        delivery_headers(event, signature) is Ok ==> (event matches Some(e) && (begins_with(e, seq!['p', 'u', 's', 'h'])
            || begins_with(e, seq!['p', 'i', 'n', 'g']))),
        delivery_headers(event, signature) matches Ok((kind, _)) ==> (kind == GithubEvent::Push <==> begins_with(
            event->0,
            seq!['p', 'u', 's', 'h'],
        )),
        webhook_verdict(event, signature, secret, body) matches Ok(kind) ==> (event matches Some(e) && (kind
            == GithubEvent::Push && begins_with(e, seq!['p', 'u', 's', 'h']) || kind == GithubEvent::Ping
            && begins_with(e, seq!['p', 'i', 'n', 'g']) && !begins_with(e, seq!['p', 'u', 's', 'h']))),
{
}

/// The file at `p` must be (re)cached after a push of `commits` whose new
/// overview lists `items`: the new overview registers it and, when there is
/// a cached overview `cached`, a pushed commit adds or modifies it and no
/// commit applied after that one removes it, or its (section, file) pair is
/// one the cached overview did not register.
pub open spec fn must_recache(items: Seq<Section>, cached: Option<Seq<Section>>, commits: Seq<Commit>, p: Seq<char>) -> bool {
    &&& registered_paths(items).contains(p)
    &&& match cached {
        None => true,
        Some(c) => (exists|k: int| 0 <= k < commits.len() && #[trigger] touches(commits[k], p) && !removed_later(commits, k, p))
            || exists|d: Seq<char>, f: Seq<char>|
            #[trigger] registered_pairs(items).contains((d, f)) && !registered_pairs(c).contains((d, f)) && p == doc_path(d, f),
    }
}

/// The job fetches, from the pushed tree at `base`, a file that must be
/// re-cached, and stores it under the repository's key for it.
pub open spec fn fetches_needed_file(
    job: crate::reconcile::FileJob,
    id: u64,
    base: Seq<char>,
    items: Seq<Section>,
    cached: Option<Seq<Section>>,
    commits: Seq<Commit>,
) -> bool {
    exists|p: Seq<char>| #[trigger] is_job_for(job, id, base, p) && must_recache(items, cached, commits, p)
}

proof fn lemma_update_paths_must_recache(items: Seq<Section>, cached: Option<Seq<Section>>, commits: Seq<Commit>, p: Seq<char>)
    requires
        paths_to_update(items, cached, commits).contains(p),
    ensures
        must_recache(items, cached, commits, p),
{
    lemma_updates_are_registered(items, cached, commits);
    if let Some(c) = cached {
        if newly_registered_paths(items, c).contains(p) {
            let x = choose|x: (Seq<char>, Seq<char>)|
                #[trigger] registered_pairs(items).difference(registered_pairs(c)).contains(x) && p == doc_path(x.0, x.1);
            assert(registered_pairs(items).contains((x.0, x.1)));
        }
    }
}

/// Once the overview is stored, every job of the sync fetches a file that
/// must be re-cached (see [`must_recache`]), no two jobs fetch the same
/// address, and every file whose (section, file) pair is newly registered
/// (every registered file, without a cached overview) has a job.
pub proof fn lemma_stored_sync_jobs_are_needed(
    s: DocsSync,
    cached: Option<Vec<Section>>,
    next: DocsSync,
    a: SyncAction,
)
    requires
        is_step(s, SyncEvent::OverviewStored(cached), next, a),
        s matches DocsSync::AwaitStored { head_items: Some(_), .. },
    ensures
        a is CacheFiles,
        forall|i: int| 0 <= i < a->CacheFiles_files@.len() ==> #[trigger] fetches_needed_file(
            a->CacheFiles_files@[i],
            s->AwaitStored_repo_id,
            s->AwaitStored_base_url@,
            s->AwaitStored_head_items->0@,
            crate::reconcile::opt_sections(cached),
            s->AwaitStored_commits@,
        ),
        forall|i: int, j: int| 0 <= i < j < a->CacheFiles_files@.len() ==> #[trigger] a->CacheFiles_files@[i].url@
            != #[trigger] a->CacheFiles_files@[j].url@,
        forall|d: Seq<char>, f: Seq<char>| #[trigger] registered_pairs(s->AwaitStored_head_items->0@).contains((d, f)) && (
        match cached {
            None => true,
            Some(c) => !registered_pairs(c@).contains((d, f)),
        }) ==> exists|i: int|
            0 <= i < a->CacheFiles_files@.len() && #[trigger] is_job_for(
                a->CacheFiles_files@[i],
                s->AwaitStored_repo_id,
                s->AwaitStored_base_url@,
                doc_path(d, f),
            ),
{
    let items = s->AwaitStored_head_items->0@;
    let commits = s->AwaitStored_commits@;
    let id = s->AwaitStored_repo_id;
    let base = s->AwaitStored_base_url@;
    let files = a->CacheFiles_files@;
    let oc = crate::reconcile::opt_sections(cached);
    let paths = paths_to_update(items, oc, commits);
    assert(crate::reconcile::jobs_for(files, id, base, paths));
    assert forall|i: int| 0 <= i < files.len() implies #[trigger] fetches_needed_file(files[i], id, base, items, oc, commits) by {
        assert(crate::reconcile::is_job_in(files[i], id, base, paths));
        let p = choose|p: Seq<char>| paths.contains(p) && #[trigger] is_job_for(files[i], id, base, p);
        lemma_update_paths_must_recache(items, oc, commits, p);
    }
    assert forall|d: Seq<char>, f: Seq<char>| #[trigger] registered_pairs(items).contains((d, f)) && (match cached {
        None => true,
        Some(c) => !registered_pairs(c@).contains((d, f)),
    }) implies exists|i: int| 0 <= i < files.len() && #[trigger] is_job_for(files[i], id, base, doc_path(d, f)) by {
        match cached {
            None => {
                assert(crate::docs_sync::paths_of(registered_pairs(items)).contains(doc_path(d, f)));
            },
            Some(c) => {
                lemma_new_registrations_are_updated(items, c@, commits, d, f);
            },
        }
        assert(paths.contains(doc_path(d, f)));
    }
}

/// A sync starts by fetching `docs/overview.md` from GitHub's raw file host
/// at the tree of the newest pushed commit (the last of the push), and it
/// keeps every pushed commit for working out which files changed.
pub proof fn lemma_sync_reads_the_pushed_head(repo: Repo, commits: Vec<Commit>, s: DocsSync, a: SyncAction)
    requires
        starts_sync(repo, commits, s, a),
        commits@.len() > 0,
    ensures
        a matches SyncAction::FetchOverview { url } && url@ == seq![
            'h', 't', 't', 'p', 's', ':', '/', '/', 'r', 'a', 'w', '.', 'g', 'i', 't', 'h', 'u', 'b', 'u', 's', 'e', 'r',
            'c', 'o', 'n', 't', 'e', 'n', 't', '.', 'c', 'o', 'm', '/',
        ] + repo.full_name@ + seq!['/'] + commits@[commits@.len() - 1].id@ + seq![
            '/', 'd', 'o', 'c', 's', '/', 'o', 'v', 'e', 'r', 'v', 'i', 'e', 'w', '.', 'm', 'd',
        ],
        s matches DocsSync::AwaitOverview { repo_id, commits: c, .. } && repo_id == repo.id && c@ == commits@,
{
}

/// The trail of a path without a page segment (the root, or only slashes) is
/// the current page `home` alone.
pub proof fn lemma_root_crumbs(path: Seq<char>, links: Set<Seq<char>>)
    requires
        forall|i: int| 0 <= i < path.len() ==> path[i] == '/',
    ensures
        breadcrumbs(path, links) == seq![CrumbView::Current { label: seq!['h', 'o', 'm', 'e'] }],
{
    lemma_all_slashes_trim(path);
}

proof fn lemma_all_slashes_trim(path: Seq<char>)
    requires
        forall|i: int| 0 <= i < path.len() ==> path[i] == '/',
    ensures
        trim_slashes(path).len() == 0,
    decreases path.len(),
{
    if path.len() > 0 {
        lemma_all_slashes_trim(path.drop_last());
    }
}

} // verus!

//! Which documentation files of a repository must be (re)cached after a push.
//!
//! `docs/overview.md` registers, in its front matter, the sections (directories
//! of `docs/`) and the markdown files within them that the site publishes. Only
//! registered files are ever cached.
use vstd::prelude::*;
use crate::model::{Commit, Section, Timestamp};
use crate::text::{chars_end_with, chars_of, distinct_strings, ends_with, push_unique, string_set, contains_string};

verus! {

/// The characters `.md`.
pub open spec fn md_ext() -> Seq<char> {
    seq!['.', 'm', 'd']
}

/// The repository path of file `file` of section `dir`: `docs/{dir}/{file}`,
/// with `.md` appended when the name does not already end with it.
pub open spec fn doc_path(dir: Seq<char>, file: Seq<char>) -> Seq<char> {
    seq!['d', 'o', 'c', 's', '/'] + dir + seq!['/'] + file + (if ends_with(file, md_ext()) {
        Seq::<char>::empty()
    } else {
        md_ext()
    })
}

/// The characters `.md`, as a list.
pub fn md_ext_chars() -> (v: Vec<char>)
    ensures
        v@ == md_ext(),
{
    let mut v: Vec<char> = Vec::new();
    v.push('.');
    v.push('m');
    v.push('d');
    assert(v@ =~= md_ext());
    v
}

/// Whether the name ends with `.md`.
pub fn has_md_ext(name: &String) -> (b: bool)
    ensures
        b == ends_with(name@, md_ext()),
{
    let chars = chars_of(name.as_str());
    let ext = md_ext_chars();
    chars_end_with(&chars, &ext)
}

/// The repository path of file `file` of section `dir` (see [`doc_path`]).
pub fn doc_path_of(dir: &String, file: &String) -> (p: String)
    ensures
        p@ == doc_path(dir@, file@),
{
    let mut p = String::new();
    p.append("docs/");
    p.append(dir.as_str());
    p.append("/");
    p.append(file.as_str());
    if !has_md_ext(file) {
        p.append(".md");
    }
    proof {
        reveal_strlit("docs/");
        reveal_strlit("/");
        reveal_strlit(".md");
    }
    assert(p@ =~= doc_path(dir@, file@));
    p
}

/// File `j` of section `i` is registered: the section has a name and a
/// list of files, and that file has a name.
pub open spec fn is_entry(sections: Seq<Section>, i: int, j: int) -> bool {
    &&& 0 <= i < sections.len()
    &&& sections[i].source is Some
    &&& sections[i].items is Some
    &&& 0 <= j < sections[i].items->0@.len()
    &&& sections[i].items->0@[j].source is Some
}

/// The (section name, file name) pair of an entry.
pub open spec fn entry_pair(sections: Seq<Section>, i: int, j: int) -> (Seq<char>, Seq<char>) {
    (sections[i].source->0@, sections[i].items->0@[j].source->0@)
}

/// Every (section name, file name) pair that an overview registers.
pub open spec fn registered_pairs(sections: Seq<Section>) -> Set<(Seq<char>, Seq<char>)> {
    Set::new(
        |x: (Seq<char>, Seq<char>)|
            exists|i: int, j: int| is_entry(sections, i, j) && #[trigger] entry_pair(sections, i, j) == x,
    )
}

/// The registered pairs of the sections before section `i`, and of the
/// files before file `j` of section `i`.
pub open spec fn registered_pairs_upto(sections: Seq<Section>, i: int, j: int) -> Set<(Seq<char>, Seq<char>)> {
    Set::new(
        |x: (Seq<char>, Seq<char>)|
            exists|i2: int, j2: int|
                (i2 < i || (i2 == i && j2 < j)) && is_entry(sections, i2, j2) && #[trigger] entry_pair(sections, i2, j2) == x,
    )
}

/// The set of pairs held by a list of string pairs.
pub open spec fn pair_set(v: Seq<(String, String)>) -> Set<(Seq<char>, Seq<char>)> {
    Set::new(|x: (Seq<char>, Seq<char>)| exists|k: int| 0 <= k < v.len() && (#[trigger] v[k].0@, v[k].1@) == x)
}

/// Every path that an overview registers (see [`doc_path`]).
pub open spec fn registered_paths(sections: Seq<Section>) -> Set<Seq<char>> {
    paths_of(registered_pairs(sections))
}

proof fn lemma_pair_set_push(v: Seq<(String, String)>, e: (String, String))
    ensures
        pair_set(v.push(e)) == pair_set(v).insert((e.0@, e.1@)),
{
    let w = v.push(e);
    assert forall|x: (Seq<char>, Seq<char>)| pair_set(v).contains(x) implies pair_set(w).contains(x) by {
        let k = choose|k: int| 0 <= k < v.len() && (#[trigger] v[k].0@, v[k].1@) == x;
        assert(w[k] == v[k]);
    }
    assert forall|x: (Seq<char>, Seq<char>)| pair_set(w).contains(x) implies pair_set(v).insert((e.0@, e.1@)).contains(x) by {
        let k = choose|k: int| 0 <= k < w.len() && (#[trigger] w[k].0@, w[k].1@) == x;
        if k < v.len() {
            assert(w[k] == v[k]);
        }
    }
    assert(w[v.len() as int] == e);
    assert(pair_set(w) =~= pair_set(v).insert((e.0@, e.1@)));
}

/// The (section name, file name) pairs that an overview registers, in order.
pub fn registered_pairs_of(sections: &Vec<Section>) -> (pairs: Vec<(String, String)>)
    ensures
        pair_set(pairs@) == registered_pairs(sections@),
{
    let mut pairs: Vec<(String, String)> = Vec::new();
    let n = sections.len();
    assert(pair_set(pairs@) =~= registered_pairs_upto(sections@, 0, 0));
    for i in 0..n
        invariant
            n == sections@.len(),
            pair_set(pairs@) == registered_pairs_upto(sections@, i as int, 0),
    {
        let dir = &sections[i];
        match (&dir.source, &dir.items) {
            (Some(d), Some(files)) => {
                let m = files.len();
                for j in 0..m
                    invariant
                        n == sections@.len(),
                        0 <= i < n,
                        sections@[i as int].source == Some(*d),
                        sections@[i as int].items == Some(*files),
                        m == files@.len(),
                        pair_set(pairs@) == registered_pairs_upto(sections@, i as int, j as int),
                {
                    let ghost before = pairs@;
                    match &files[j].source {
                        Some(f) => {
                            let e = (d.clone(), f.clone());
                            pairs.push(e);
                            proof {
                                lemma_pair_set_push(before, e);
                                assert(entry_pair(sections@, i as int, j as int) == (e.0@, e.1@));
                            }
                        },
                        None => {},
                    }
                    assert(registered_pairs_upto(sections@, i as int, j + 1) =~= pair_set(pairs@));
                }
                assert(registered_pairs_upto(sections@, i + 1, 0) =~= registered_pairs_upto(sections@, i as int, m as int));
            },
            _ => {
                assert(registered_pairs_upto(sections@, i + 1, 0) =~= registered_pairs_upto(sections@, i as int, 0));
            },
        }
    }
    assert(registered_pairs(sections@) =~= registered_pairs_upto(sections@, n as int, 0));
    pairs
}

/// The paths of a set of (section name, file name) pairs.
pub open spec fn paths_of(pairs: Set<(Seq<char>, Seq<char>)>) -> Set<Seq<char>> {
    Set::new(|p: Seq<char>| exists|x: (Seq<char>, Seq<char>)| #[trigger] pairs.contains(x) && p == doc_path(x.0, x.1))
}

proof fn lemma_paths_of_insert(pairs: Set<(Seq<char>, Seq<char>)>, x: (Seq<char>, Seq<char>))
    ensures
        paths_of(pairs.insert(x)) == paths_of(pairs).insert(doc_path(x.0, x.1)),
{
    assert forall|p: Seq<char>| paths_of(pairs.insert(x)).contains(p) implies paths_of(pairs).insert(doc_path(x.0, x.1)).contains(p) by {
        let y = choose|y: (Seq<char>, Seq<char>)| #[trigger] pairs.insert(x).contains(y) && p == doc_path(y.0, y.1);
        if y != x {
            assert(pairs.contains(y));
        }
    }
    assert forall|p: Seq<char>| paths_of(pairs).insert(doc_path(x.0, x.1)).contains(p) implies paths_of(pairs.insert(x)).contains(p) by {
        if p == doc_path(x.0, x.1) {
            assert(pairs.insert(x).contains(x));
        } else {
            let y = choose|y: (Seq<char>, Seq<char>)| #[trigger] pairs.contains(y) && p == doc_path(y.0, y.1);
            assert(pairs.insert(x).contains(y));
        }
    }
    assert(paths_of(pairs.insert(x)) =~= paths_of(pairs).insert(doc_path(x.0, x.1)));
}

/// The paths of the given pairs, each once.
fn paths_of_pairs(pairs: &Vec<(String, String)>) -> (out: Vec<String>)
    ensures
        distinct_strings(out@),
        string_set(out@) == paths_of(pair_set(pairs@)),
{
    let mut out: Vec<String> = Vec::new();
    let n = pairs.len();
    assert(string_set(out@) =~= paths_of(pair_set(pairs@.take(0))));
    for k in 0..n
        invariant
            n == pairs@.len(),
            distinct_strings(out@),
            string_set(out@) == paths_of(pair_set(pairs@.take(k as int))),
    {
        let p = doc_path_of(&pairs[k].0, &pairs[k].1);
        let ghost pv = p@;
        push_unique(&mut out, p);
        proof {
            assert(pairs@.take(k + 1) =~= pairs@.take(k as int).push(pairs@[k as int]));
            lemma_pair_set_push(pairs@.take(k as int), pairs@[k as int]);
            let x = (pairs@[k as int].0@, pairs@[k as int].1@);
            lemma_paths_of_insert(pair_set(pairs@.take(k as int)), x);
        }
    }
    assert(pairs@.take(n as int) =~= pairs@);
    out
}

/// `a` is an earlier instant than `b`.
pub open spec fn instant_before(a: Timestamp, b: Timestamp) -> bool {
    a.secs < b.secs || (a.secs == b.secs && a.nanos < b.nanos)
}

/// Commit `later` is applied after commit `earlier`: it was made at a later
/// instant, or at the same instant and comes later in the list.
pub open spec fn applied_after(commits: Seq<Commit>, later: int, earlier: int) -> bool {
    instant_before(commits[earlier].timestamp, commits[later].timestamp) || (
    commits[earlier].timestamp == commits[later].timestamp && earlier < later)
}

/// The commit adds or modifies the path.
pub open spec fn touches(c: Commit, p: Seq<char>) -> bool {
    string_set(c.modified@).contains(p) || string_set(c.added@).contains(p)
}

/// A commit applied after commit `k` removes the path.
pub open spec fn removed_later(commits: Seq<Commit>, k: int, p: Seq<char>) -> bool {
    exists|k2: int|
        0 <= k2 < commits.len() && #[trigger] applied_after(commits, k2, k) && string_set(
            commits[k2].removed@,
        ).contains(p)
}

/// The registered paths that some commit adds or modifies and that no
/// commit applied after it removes.
pub open spec fn changed_paths(head: Seq<Section>, commits: Seq<Commit>) -> Set<Seq<char>> {
    Set::new(
        |p: Seq<char>|
            registered_paths(head).contains(p) && exists|k: int|
                0 <= k < commits.len() && #[trigger] touches(commits[k], p) && !removed_later(commits, k, p),
    )
}

/// The paths of the pairs that the new overview registers and the cached
/// one does not.
pub open spec fn newly_registered_paths(head: Seq<Section>, cached: Seq<Section>) -> Set<Seq<char>> {
    paths_of(registered_pairs(head).difference(registered_pairs(cached)))
}

/// The paths to (re)cache. Without a cached overview: every registered path.
/// With one: the registered paths changed by the pushed commits, and the
/// paths newly registered since the cached overview.
pub open spec fn paths_to_update(head: Seq<Section>, cached: Option<Seq<Section>>, commits: Seq<Commit>) -> Set<Seq<char>> {
    match cached {
        None => registered_paths(head),
        Some(c) => changed_paths(head, commits).union(newly_registered_paths(head, c)),
    }
}

/// Whether `a` is an earlier instant than `b`.
pub fn is_instant_before(a: Timestamp, b: Timestamp) -> (r: bool)
    ensures
        r == instant_before(a, b),
{
    a.secs < b.secs || (a.secs == b.secs && a.nanos < b.nanos)
}

/// Whether commit `later` is applied after commit `earlier`.
fn is_applied_after(commits: &Vec<Commit>, later: usize, earlier: usize) -> (r: bool)
    requires
        later < commits@.len(),
        earlier < commits@.len(),
    ensures
        r == applied_after(commits@, later as int, earlier as int),
{
    let a = commits[earlier].timestamp;
    let b = commits[later].timestamp;
    is_instant_before(a, b) || (a.secs == b.secs && a.nanos == b.nanos && earlier < later)
}

/// Whether a commit applied after commit `k` removes the path.
fn is_removed_later(commits: &Vec<Commit>, k: usize, p: &String) -> (r: bool)
    requires
        k < commits@.len(),
    ensures
        r == removed_later(commits@, k as int, p@),
{
    let n = commits.len();
    for k2 in 0..n
        invariant
            n == commits@.len(),
            k < n,
            forall|j: int|
                0 <= j < k2 ==> !(#[trigger] applied_after(commits@, j, k as int) && string_set(
                    commits@[j].removed@,
                ).contains(p@)),
    {
        if is_applied_after(commits, k2, k) && contains_string(&commits[k2].removed, p) {
            return true;
        }
    }
    false
}

/// The paths of `list` that are registered and not removed after commit `k`.
pub open spec fn kept_paths(list: Seq<String>, registered: Set<Seq<char>>, commits: Seq<Commit>, k: int) -> Set<Seq<char>> {
    Set::new(
        |p: Seq<char>| string_set(list).contains(p) && registered.contains(p) && !removed_later(commits, k, p),
    )
}

/// Adds to `out` the paths of `list` that are registered and not removed
/// after commit `k`.
fn collect_kept(list: &Vec<String>, registered: &Vec<String>, commits: &Vec<Commit>, k: usize, out: &mut Vec<String>)
    requires
        k < commits@.len(),
        distinct_strings(old(out)@),
    ensures
        distinct_strings(final(out)@),
        string_set(final(out)@) == string_set(old(out)@).union(
            kept_paths(list@, string_set(registered@), commits@, k as int),
        ),
{
    let n = list.len();
    let ghost reg = string_set(registered@);
    assert(string_set(out@) =~= string_set(old(out)@).union(kept_paths(list@.take(0), reg, commits@, k as int)));
    for i in 0..n
        invariant
            n == list@.len(),
            k < commits@.len(),
            reg == string_set(registered@),
            distinct_strings(out@),
            string_set(out@) == string_set(old(out)@).union(
                kept_paths(list@.take(i as int), reg, commits@, k as int),
            ),
    {
        let p = &list[i];
        proof {
            assert(list@.take(i + 1) =~= list@.take(i as int).push(list@[i as int]));
            assert forall|q: Seq<char>| string_set(list@.take(i + 1)).contains(q) <==> (string_set(list@.take(i as int)).contains(q) || q == p@) by {
                if string_set(list@.take(i + 1)).contains(q) {
                    let j = choose|j: int| 0 <= j < list@.take(i + 1).len() && #[trigger] list@.take(i + 1)[j]@ == q;
                    if j < i {
                        assert(list@.take(i as int)[j] == list@.take(i + 1)[j]);
                    }
                }
                if string_set(list@.take(i as int)).contains(q) {
                    let j = choose|j: int| 0 <= j < list@.take(i as int).len() && #[trigger] list@.take(i as int)[j]@ == q;
                    assert(list@.take(i as int)[j] == list@.take(i + 1)[j]);
                }
                if q == p@ {
                    assert(list@.take(i + 1)[i as int]@ == q);
                }
            }
        }
        if contains_string(registered, p) && !is_removed_later(commits, k, p) {
            let ghost mid = string_set(out@);
            push_unique(out, p.clone());
            assert(string_set(out@) == mid.insert(p@));
            assert(reg.contains(p@));
            assert(!removed_later(commits@, k as int, p@));
            assert forall|q: Seq<char>| #[trigger] kept_paths(list@.take(i + 1), reg, commits@, k as int).contains(q)
                <==> kept_paths(list@.take(i as int), reg, commits@, k as int).insert(p@).contains(q) by {
                assert(string_set(list@.take(i + 1)).contains(q) <==> (string_set(list@.take(i as int)).contains(q) || q == p@));
            }
            assert(kept_paths(list@.take(i + 1), reg, commits@, k as int) =~= kept_paths(list@.take(i as int), reg, commits@, k as int).insert(p@));
            assert(string_set(out@) =~= string_set(old(out)@).union(
                kept_paths(list@.take(i + 1), reg, commits@, k as int),
            ));
        } else {
            assert(string_set(out@) =~= string_set(old(out)@).union(
                kept_paths(list@.take(i + 1), reg, commits@, k as int),
            ));
        }
    }
    assert(list@.take(n as int) =~= list@);
}

/// The paths of `registered` that a commit before commit `k` adds or
/// modifies and that no commit applied after that one removes.
pub open spec fn changed_upto(registered: Set<Seq<char>>, commits: Seq<Commit>, k: int) -> Set<Seq<char>> {
    Set::new(
        |p: Seq<char>|
            registered.contains(p) && exists|k2: int|
                0 <= k2 < k && #[trigger] touches(commits[k2], p) && !removed_later(commits, k2, p),
    )
}

/// The registered paths that the commits change (see [`changed_paths`]).
fn collect_changed(registered: &Vec<String>, commits: &Vec<Commit>) -> (out: Vec<String>)
    ensures
        distinct_strings(out@),
        string_set(out@) == changed_upto(string_set(registered@), commits@, commits@.len() as int),
{
    let mut out: Vec<String> = Vec::new();
    let n = commits.len();
    let ghost reg = string_set(registered@);
    assert(string_set(out@) =~= changed_upto(reg, commits@, 0));
    for k in 0..n
        invariant
            n == commits@.len(),
            reg == string_set(registered@),
            distinct_strings(out@),
            string_set(out@) == changed_upto(reg, commits@, k as int),
    {
        let ghost before = string_set(out@);
        collect_kept(&commits[k].modified, registered, commits, k, &mut out);
        collect_kept(&commits[k].added, registered, commits, k, &mut out);
        let ghost c = commits@[k as int];
        assert forall|p: Seq<char>| #[trigger] changed_upto(reg, commits@, k + 1).contains(p) <==> string_set(out@).contains(p) by {
            if changed_upto(reg, commits@, k + 1).contains(p) {
                let k2 = choose|k2: int| 0 <= k2 < k + 1 && #[trigger] touches(commits@[k2], p) && !removed_later(commits@, k2, p);
                if k2 < k {
                    assert(changed_upto(reg, commits@, k as int).contains(p));
                } else {
                    assert(kept_paths(c.modified@, reg, commits@, k as int).contains(p) || kept_paths(c.added@, reg, commits@, k as int).contains(p));
                }
            }
            if string_set(out@).contains(p) {
                if before.contains(p) {
                    let k2 = choose|k2: int| 0 <= k2 < k && #[trigger] touches(commits@[k2], p) && !removed_later(commits@, k2, p);
                    assert(changed_upto(reg, commits@, k + 1).contains(p));
                } else {
                    assert(touches(commits@[k as int], p));
                    assert(changed_upto(reg, commits@, k + 1).contains(p));
                }
            }
        }
        assert(changed_upto(reg, commits@, k + 1) =~= string_set(out@));
    }
    out
}

/// Whether the list holds the pair (`d`, `f`).
fn contains_pair(v: &Vec<(String, String)>, d: &String, f: &String) -> (b: bool)
    ensures
        b == pair_set(v@).contains((d@, f@)),
{
    let n = v.len();
    for k in 0..n
        invariant
            n == v@.len(),
            forall|j: int| 0 <= j < k ==> (#[trigger] v@[j].0@, v@[j].1@) != (d@, f@),
    {
        if v[k].0 == *d && v[k].1 == *f {
            assert((v@[k as int].0@, v@[k as int].1@) == (d@, f@));
            return true;
        }
    }
    false
}

/// Adds to `out` the paths of the pairs of `head` that `cached` lacks.
fn collect_new_pairs(head: &Vec<(String, String)>, cached: &Vec<(String, String)>, out: &mut Vec<String>)
    requires
        distinct_strings(old(out)@),
    ensures
        distinct_strings(final(out)@),
        string_set(final(out)@) == string_set(old(out)@).union(
            paths_of(pair_set(head@).difference(pair_set(cached@))),
        ),
{
    let n = head.len();
    let ghost cs = pair_set(cached@);
    assert(pair_set(head@.take(0)).difference(cs) =~= Set::empty());
    assert(paths_of(Set::<(Seq<char>, Seq<char>)>::empty()) =~= Set::empty());
    assert(string_set(out@) =~= string_set(old(out)@).union(paths_of(pair_set(head@.take(0)).difference(cs))));
    for t in 0..n
        invariant
            n == head@.len(),
            cs == pair_set(cached@),
            distinct_strings(out@),
            string_set(out@) == string_set(old(out)@).union(
                paths_of(pair_set(head@.take(t as int)).difference(cs)),
            ),
    {
        let ghost x = (head@[t as int].0@, head@[t as int].1@);
        let ghost before = pair_set(head@.take(t as int)).difference(cs);
        proof {
            assert(head@.take(t + 1) =~= head@.take(t as int).push(head@[t as int]));
            lemma_pair_set_push(head@.take(t as int), head@[t as int]);
        }
        if !contains_pair(cached, &head[t].0, &head[t].1) {
            let p = doc_path_of(&head[t].0, &head[t].1);
            let ghost mid = string_set(out@);
            push_unique(out, p);
            proof {
                assert(pair_set(head@.take(t + 1)).difference(cs) =~= before.insert(x));
                lemma_paths_of_insert(before, x);
            }
            assert(string_set(out@) =~= string_set(old(out)@).union(
                paths_of(pair_set(head@.take(t + 1)).difference(cs)),
            ));
        } else {
            assert(pair_set(head@.take(t + 1)).difference(cs) =~= before);
        }
    }
    assert(head@.take(n as int) =~= head@);
}

/// Extract the set of files that need to be cached or recached.
///
/// The JSON front matter of `docs/overview.md` is the source of truth for
/// which markdown files are eligible for caching.
/// Commits are considered newest first (by timestamp; among equal timestamps,
/// the later one in the list first): a file that a newer commit removes is not
/// collected from an older commit that modified it.
pub fn filepaths_to_update(
    head_overview: Vec<Section>,
    cached_overview: Option<Vec<Section>>,
    commits: Vec<Commit>,
) -> (paths: Option<Vec<String>>)
    ensures
        paths is Some,
        distinct_strings(paths->0@),
        string_set(paths->0@) == paths_to_update(
            head_overview@,
            match cached_overview {
                Some(c) => Some(c@),
                None => None,
            },
            commits@,
        ),
{
    let head_pairs = registered_pairs_of(&head_overview);
    let registered = paths_of_pairs(&head_pairs);
    match cached_overview {
        None => Some(registered),
        Some(cached) => {
            let mut update = collect_changed(&registered, &commits);
            proof {
                assert(changed_upto(string_set(registered@), commits@, commits@.len() as int) =~= changed_paths(head_overview@, commits@));
            }
            let cached_pairs = registered_pairs_of(&cached);
            collect_new_pairs(&head_pairs, &cached_pairs, &mut update);
            Some(update)
        },
    }
}

} // verus!

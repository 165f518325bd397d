//! The names under which the cache stores repository data, and the pub/sub
//! channels on which it announces changes.
use vstd::prelude::*;
use crate::text::{split_on, split_chars, lemma_split_on_nonempty, chars_of, decimal, digit_value, lemma_decimal_digits, lemma_parse_decimal, parse_u64, parse_u64_of, push_decimal};

verus! {

/// `{repo_id}:docs:` — the start of every documentation key of a repository.
pub open spec fn docs_key_prefix(repo_id: u64) -> Seq<char> {
    decimal(repo_id as nat) + seq![':', 'd', 'o', 'c', 's', ':']
}

/// The characters `overview.md`.
pub open spec fn overview_md() -> Seq<char> {
    seq!['o', 'v', 'e', 'r', 'v', 'i', 'e', 'w', '.', 'm', 'd']
}

/// The key (in the `repos:docs` hash) of a cached documentation page:
/// `{repo_id}:docs:{section}:{file}.md`, `{repo_id}:docs:{section}:overview.md`,
/// `{repo_id}:docs:{file}.md`, or `{repo_id}:docs:overview.md`.
pub open spec fn doc_key_spec(repo_id: u64, section_name: Option<Seq<char>>, file_name: Option<Seq<char>>) -> Seq<char> {
    match (section_name, file_name) {
        (Some(s), Some(f)) => docs_key_prefix(repo_id) + s + seq![':'] + f + seq!['.', 'm', 'd'],
        (Some(s), None) => docs_key_prefix(repo_id) + s + seq![':'] + overview_md(),
        (None, Some(f)) => docs_key_prefix(repo_id) + f + seq!['.', 'm', 'd'],
        (None, None) => docs_key_prefix(repo_id) + overview_md(),
    }
}

/// The key of a cached documentation page (see [`doc_key_spec`]).
pub fn doc_key(repo_id: u64, section_name: &Option<String>, file_name: &Option<String>) -> (k: String)
    ensures
        k@ == doc_key_spec(
            repo_id,
            match section_name {
                Some(s) => Some(s@),
                None => None,
            },
            match file_name {
                Some(f) => Some(f@),
                None => None,
            },
        ),
{
    let mut k = String::new();
    push_decimal(&mut k, repo_id);
    k.append(":docs:");
    match (section_name, file_name) {
        (Some(s), Some(f)) => {
            k.append(s.as_str());
            k.append(":");
            k.append(f.as_str());
            k.append(".md");
        },
        (Some(s), None) => {
            k.append(s.as_str());
            k.append(":overview.md");
        },
        (None, Some(f)) => {
            k.append(f.as_str());
            k.append(".md");
        },
        (None, None) => {
            k.append("overview.md");
        },
    }
    proof {
        reveal_strlit(":docs:");
        reveal_strlit(":");
        reveal_strlit(".md");
        reveal_strlit(":overview.md");
        reveal_strlit("overview.md");
    }
    assert(k@ =~= doc_key_spec(
        repo_id,
        match section_name {
            Some(s) => Some(s@),
            None => None,
        },
        match file_name {
            Some(f) => Some(f@),
            None => None,
        },
    ));
    k
}

/// `s` with every `/` replaced by `:`.
pub open spec fn slashes_to_colons(s: Seq<char>) -> Seq<char> {
    s.map_values(|c: char| if c == '/' { ':' } else { c })
}

/// The key under which a documentation file of the repository is cached:
/// `{repo_id}:` followed by its path with `/` replaced by `:`.
pub open spec fn file_cache_key(repo_id: u64, path: Seq<char>) -> Seq<char> {
    decimal(repo_id as nat) + seq![':'] + slashes_to_colons(path)
}

/// The key under which the documentation file at `path` is cached.
pub fn doc_file_key(repo_id: u64, path: &String) -> (k: String)
    ensures
        k@ == file_cache_key(repo_id, path@),
{
    let mut k = String::new();
    push_decimal(&mut k, repo_id);
    crate::text::push_char(&mut k, ':');
    let chars = chars_of(path.as_str());
    let ghost start = k@;
    let n = chars.len();
    for i in 0..n
        invariant
            n == chars@.len(),
            chars@ == path@,
            k@ == start + slashes_to_colons(path@).take(i as int),
    {
        let c = chars[i];
        crate::text::push_char(&mut k, if c == '/' { ':' } else { c });
        assert(slashes_to_colons(path@).take(i + 1) =~= slashes_to_colons(path@).take(i as int).push(
            if c == '/' { ':' } else { c },
        ));
    }
    assert(slashes_to_colons(path@).take(n as int) =~= slashes_to_colons(path@));
    k
}

/// The characters `repos:`.
pub open spec fn repos_prefix() -> Seq<char> {
    seq!['r', 'e', 'p', 'o', 's', ':']
}

/// The characters `state`.
pub open spec fn state_word() -> Seq<char> {
    seq!['s', 't', 'a', 't', 'e']
}

/// The characters `docs`.
pub open spec fn docs_word() -> Seq<char> {
    seq!['d', 'o', 'c', 's']
}

/// The channel on which a change of a repository's state is announced:
/// `repos:{repo_id}:state`.
pub open spec fn state_channel_spec(repo_id: u64) -> Seq<char> {
    repos_prefix() + decimal(repo_id as nat) + seq![':'] + state_word()
}

/// The channel on which a change of a repository's documentation is
/// announced: `repos:{repo_id}:docs`.
pub open spec fn docs_channel_spec(repo_id: u64) -> Seq<char> {
    repos_prefix() + decimal(repo_id as nat) + seq![':'] + docs_word()
}

/// `repos:{repo_id}:state`.
pub fn state_channel(repo_id: u64) -> (c: String)
    ensures
        c@ == state_channel_spec(repo_id),
{
    let mut c = String::new();
    c.append("repos:");
    push_decimal(&mut c, repo_id);
    c.append(":state");
    proof {
        reveal_strlit("repos:");
        reveal_strlit(":state");
    }
    assert(c@ =~= state_channel_spec(repo_id));
    c
}

/// `repos:{repo_id}:docs`.
pub fn docs_channel(repo_id: u64) -> (c: String)
    ensures
        c@ == docs_channel_spec(repo_id),
{
    let mut c = String::new();
    c.append("repos:");
    push_decimal(&mut c, repo_id);
    c.append(":docs");
    proof {
        reveal_strlit("repos:");
        reveal_strlit(":docs");
    }
    assert(c@ =~= docs_channel_spec(repo_id));
    c
}

/// The fields of `s` separated by `:` (as `str::split(':')` gives them).
pub open spec fn colon_fields(s: Seq<char>) -> Seq<Seq<char>> {
    split_on(s, ':')
}

/// A change announced on a repository channel.
#[derive(Debug, PartialEq, Eq)]
pub enum RepoChange {
    /// The repository's state (and commit log) changed.
    State(u64),
    /// The repository's documentation changed.
    Docs(u64),
}

/// What a channel name announces: its second `:`-separated field must be a
/// repository id and its third `state` or `docs`; anything else announces
/// nothing.
pub open spec fn channel_change(channel: Seq<char>) -> Option<RepoChange> {
    let fields = colon_fields(channel);
    if fields.len() < 3 {
        None
    } else {
        match parse_u64(fields[1]) {
            None => None,
            Some(id) => if fields[2] == state_word() {
                Some(RepoChange::State(id))
            } else if fields[2] == docs_word() {
                Some(RepoChange::Docs(id))
            } else {
                None
            },
        }
    }
}

/// Whether the characters are exactly `word`.
fn is_word(chars: &Vec<char>, word: &str) -> (b: bool)
    ensures
        b == (chars@ == word@),
{
    let w = chars_of(word);
    if w.len() != chars.len() {
        return false;
    }
    let n = w.len();
    for i in 0..n
        invariant
            n == w@.len(),
            n == chars@.len(),
            w@ == word@,
            forall|j: int| 0 <= j < i ==> chars@[j] == w@[j],
    {
        if chars[i] != w[i] {
            return false;
        }
    }
    assert(chars@ =~= word@);
    true
}

/// What a repository channel name announces (see [`channel_change`]).
pub fn parse_channel(channel: &str) -> (r: Option<RepoChange>)
    ensures
        r == channel_change(channel@),
{
    let chars = chars_of(channel);
    let fields = split_chars(&chars, ':');
    if fields.len() < 3 {
        return None;
    }
    assert(fields@[1]@ == colon_fields(channel@)[1]);
    assert(fields@[2]@ == colon_fields(channel@)[2]);
    match parse_u64_of(&fields[1]) {
        None => None,
        Some(id) => {
            proof {
                reveal_strlit("state");
                reveal_strlit("docs");
                assert("state"@ =~= state_word());
                assert("docs"@ =~= docs_word());
            }
            if is_word(&fields[2], "state") {
                Some(RepoChange::State(id))
            } else if is_word(&fields[2], "docs") {
                Some(RepoChange::Docs(id))
            } else {
                None
            }
        },
    }
}

proof fn lemma_colon_fields_join(x: Seq<char>, y: Seq<char>)
    ensures
        colon_fields(x + seq![':'] + y) == colon_fields(x) + colon_fields(y),
    decreases y.len(),
{
    if y.len() == 0 {
        assert((x + seq![':'] + y).drop_last() =~= x);
        assert(x + seq![':'] + y =~= x + seq![':']);
        assert(colon_fields(x + seq![':'] + y) =~= colon_fields(x) + colon_fields(y));
    } else {
        let yp = y.drop_last();
        lemma_colon_fields_join(x, yp);
        lemma_split_on_nonempty(yp, ':');
        lemma_split_on_nonempty(x, ':');
        assert((x + seq![':'] + y).drop_last() =~= x + seq![':'] + yp);
        assert((x + seq![':'] + y).last() == y.last());
        assert(colon_fields(x + seq![':'] + y) =~= colon_fields(x) + colon_fields(y));
    }
}

proof fn lemma_colon_fields_single(w: Seq<char>)
    requires
        !w.contains(':'),
    ensures
        colon_fields(w) == seq![w],
    decreases w.len(),
{
    if w.len() > 0 {
        let wp = w.drop_last();
        assert(!wp.contains(':')) by {
            if wp.contains(':') {
                let k = choose|k: int| 0 <= k < wp.len() && wp[k] == ':';
                assert(w[k] == ':');
            }
        }
        lemma_colon_fields_single(wp);
        assert(w.last() != ':') by {
            assert(w[w.len() - 1] == w.last());
        }
        assert(wp.push(w.last()) =~= w);
        assert(colon_fields(w) =~= seq![w]);
    } else {
        assert(w =~= Seq::<char>::empty());
        assert(colon_fields(w) =~= seq![w]);
    }
}

proof fn lemma_decimal_has_no_colon(n: nat)
    ensures
        !decimal(n).contains(':'),
{
    lemma_decimal_digits(n);
    if decimal(n).contains(':') {
        let k = choose|k: int| 0 <= k < decimal(n).len() && decimal(n)[k] == ':';
        assert(digit_value(decimal(n)[k]) is Some);
    }
}

/// The three fields of `repos:{repo_id}:{word}`.
proof fn lemma_channel_fields(repo_id: u64, word: Seq<char>)
    requires
        !word.contains(':'),
    ensures
        colon_fields(repos_prefix() + decimal(repo_id as nat) + seq![':'] + word) == seq![
            seq!['r', 'e', 'p', 'o', 's'],
            decimal(repo_id as nat),
            word,
        ],
{
    let repos = seq!['r', 'e', 'p', 'o', 's'];
    let d = decimal(repo_id as nat);
    assert(!repos.contains(':')) by {
        if repos.contains(':') {
            let k = choose|k: int| 0 <= k < repos.len() && repos[k] == ':';
        }
    }
    lemma_decimal_has_no_colon(repo_id as nat);
    lemma_colon_fields_single(repos);
    lemma_colon_fields_single(d);
    lemma_colon_fields_single(word);
    lemma_colon_fields_join(d, word);
    lemma_colon_fields_join(repos, d + seq![':'] + word);
    assert(repos_prefix() + d + seq![':'] + word =~= repos + seq![':'] + (d + seq![':'] + word));
    assert(colon_fields(repos_prefix() + d + seq![':'] + word) =~= seq![repos, d, word]);
}

/// A state change announced on `repos:{repo_id}:state` is read back as a
/// state change of that repository, and a documentation change announced
/// on `repos:{repo_id}:docs` as a documentation change of it.
pub proof fn lemma_channels_round_trip(repo_id: u64)
    ensures
        channel_change(state_channel_spec(repo_id)) == Some(RepoChange::State(repo_id)),
        channel_change(docs_channel_spec(repo_id)) == Some(RepoChange::Docs(repo_id)),
{
    assert(!state_word().contains(':')) by {
        if state_word().contains(':') {
            let k = choose|k: int| 0 <= k < state_word().len() && state_word()[k] == ':';
        }
    }
    assert(!docs_word().contains(':')) by {
        if docs_word().contains(':') {
            let k = choose|k: int| 0 <= k < docs_word().len() && docs_word()[k] == ':';
        }
    }
    lemma_channel_fields(repo_id, state_word());
    lemma_channel_fields(repo_id, docs_word());
    lemma_parse_decimal(repo_id);
    assert(state_word() != docs_word()) by {
        assert(state_word().len() != docs_word().len());
    }
}

} // verus!

use site::docs_sync::doc_path_of;
use site::nav::trim_md_ext;
use site::keys::{doc_file_key, doc_key, docs_channel, parse_channel, state_channel, RepoChange};

#[test]
fn doc_keys_name_the_page_under_the_repository() {
    assert_eq!(doc_key(7, &Some("guides".into()), &Some("intro".into())), "7:docs:guides:intro.md");
    assert_eq!(doc_key(7, &Some("guides".into()), &None), "7:docs:guides:overview.md");
    assert_eq!(doc_key(7, &None, &Some("intro".into())), "7:docs:intro.md");
    assert_eq!(doc_key(1055909254, &None, &None), "1055909254:docs:overview.md");
}

#[test]
fn cached_files_are_keyed_by_their_path_with_colons() {
    assert_eq!(doc_file_key(7, &"docs/guides/intro.md".to_string()), "7:docs:guides:intro.md");
    assert_eq!(doc_file_key(0, &"docs/a/b/c.md".to_string()), "0:docs:a:b:c.md");
}

#[test]
fn channels_name_the_repository() {
    assert_eq!(state_channel(42), "repos:42:state");
    assert_eq!(docs_channel(u64::MAX), "repos:18446744073709551615:docs");
}

#[test]
fn channels_are_read_back() {
    assert_eq!(parse_channel(&state_channel(42)), Some(RepoChange::State(42)));
    assert_eq!(parse_channel(&docs_channel(0)), Some(RepoChange::Docs(0)));
    assert_eq!(parse_channel("repos:18446744073709551615:docs"), Some(RepoChange::Docs(u64::MAX)));
}

#[test]
fn channel_ids_read_as_u64_from_str_does() {
    assert_eq!(parse_channel("repos:+42:state"), Some(RepoChange::State(42)));
    assert_eq!(parse_channel("repos:007:docs"), Some(RepoChange::Docs(7)));
    assert_eq!(parse_channel("repos:-1:docs"), None);
    assert_eq!(parse_channel("repos:+:docs"), None);
    assert_eq!(parse_channel("repos::docs"), None);
    assert_eq!(parse_channel("repos:18446744073709551616:docs"), None);
    assert_eq!(parse_channel("repos:4x2:state"), None);
}

#[test]
fn other_channels_announce_nothing() {
    assert_eq!(parse_channel("repos:42"), None);
    assert_eq!(parse_channel("repos:42:commits"), None);
    assert_eq!(parse_channel("repos:42:stateful"), None);
    assert_eq!(parse_channel(""), None);
    // only the second and third fields count
    assert_eq!(parse_channel("x:42:docs:more:fields"), Some(RepoChange::Docs(42)));
}

#[test]
fn a_linked_page_is_read_from_the_key_its_file_was_cached_under() {
    for (dir, file) in [("guides", "intro.md"), ("guides", "setup"), ("api", "auth.md")] {
        let (dir, file) = (dir.to_string(), file.to_string());
        let written = doc_file_key(7, &doc_path_of(&dir, &file));
        let read = doc_key(7, &Some(dir.clone()), &Some(trim_md_ext(&file)));
        assert_eq!(written, read);
    }
    // a name ending in `.md.md` loses both suffixes in the link
    let (dir, file) = ("guides".to_string(), "a.md.md".to_string());
    assert_eq!(doc_file_key(7, &doc_path_of(&dir, &file)), "7:docs:guides:a.md.md");
    assert_eq!(doc_key(7, &Some(dir), &Some(trim_md_ext(&file))), "7:docs:guides:a.md");
}

#[test]
fn the_overview_is_read_where_it_is_stored() {
    assert_eq!(doc_key(7, &None, &None), "7:docs:overview.md");
}

use zip_cracker::error::SetupError;
use zip_cracker::member::{is_directory_name, resolve_member, MemberEntry};
use zip_cracker::search::prepare_search;

fn entry(name: &str, is_dir: bool) -> MemberEntry {
    MemberEntry { name: name.to_string(), is_dir }
}

fn sample_listing() -> Vec<MemberEntry> {
    vec![
        entry("docs/", true),
        entry("docs/a.txt", false),
        entry("b.txt", false),
        entry("b.txt", false),
    ]
}

#[test]
fn resolve_defaults_to_first_file() {
    assert_eq!(resolve_member(&sample_listing(), None), Ok(1));
}

#[test]
fn resolve_explicit_name_picks_first_match() {
    assert_eq!(resolve_member(&sample_listing(), Some("b.txt")), Ok(2));
}

#[test]
fn resolve_explicit_name_skips_directories() {
    let listing = vec![entry("x/", true), entry("y", false)];
    assert_eq!(resolve_member(&listing, Some("x/")), Err(SetupError::MemberNotFound));
}

#[test]
fn resolve_missing_member_fails() {
    assert_eq!(
        resolve_member(&sample_listing(), Some("missing.txt")),
        Err(SetupError::MemberNotFound)
    );
}

#[test]
fn resolve_name_must_match_exactly() {
    assert_eq!(
        resolve_member(&sample_listing(), Some("b.tx")),
        Err(SetupError::MemberNotFound)
    );
    assert_eq!(
        resolve_member(&sample_listing(), Some("B.txt")),
        Err(SetupError::MemberNotFound)
    );
}

#[test]
fn resolve_only_directories_is_empty_archive() {
    let listing = vec![entry("a/", true), entry("a/b/", true)];
    assert_eq!(resolve_member(&listing, None), Err(SetupError::EmptyArchive));
    assert_eq!(resolve_member(&Vec::new(), None), Err(SetupError::EmptyArchive));
}

#[test]
fn resolve_twice_gives_same_index() {
    let listing = sample_listing();
    let first = resolve_member(&listing, Some("b.txt"));
    let second = resolve_member(&listing, Some("b.txt"));
    assert_eq!(first, second);
    assert_eq!(resolve_member(&listing, None), resolve_member(&listing, None));
}

#[test]
fn directory_names() {
    assert!(is_directory_name("docs/"));
    assert!(is_directory_name("docs\\"));
    assert!(!is_directory_name("docs"));
    assert!(!is_directory_name(""));
    assert!(!is_directory_name("a/b.txt"));
}

#[test]
fn setup_error_messages_differ() {
    assert_ne!(SetupError::EmptyWordlist.message(), SetupError::MemberNotFound.message());
    assert_eq!(SetupError::EmptyWordlist.message(), "wordlist is empty");
}

#[test]
fn setup_missing_member_fails_before_search() {
    let r = prepare_search(&sample_listing(), Some("missing.txt"), 3, 2);
    assert!(matches!(r, Err(SetupError::MemberNotFound)));
}

#[test]
fn setup_empty_wordlist_fails() {
    let r = prepare_search(&sample_listing(), None, 0, 2);
    assert!(matches!(r, Err(SetupError::EmptyWordlist)));
}

#[test]
fn setup_zero_workers_fails_first() {
    let r = prepare_search(&sample_listing(), Some("missing.txt"), 0, 0);
    assert!(matches!(r, Err(SetupError::InvalidConcurrency)));
}

#[test]
fn setup_member_error_precedes_wordlist_error() {
    let only_dirs = vec![entry("a/", true)];
    let r = prepare_search(&only_dirs, None, 0, 1);
    assert!(matches!(r, Err(SetupError::EmptyArchive)));
}

#[test]
fn setup_success_gives_index_and_fresh_state() {
    let (index, state) = prepare_search(&sample_listing(), Some("b.txt"), 3, 8).ok().unwrap();
    assert_eq!(index, 2);
    assert!(state.should_attempt());
    assert_eq!(state.winner(), None);
    assert_eq!(state.error_len(), 0);
}

use lucio_core::profile::resolve;
use lucio_core::{Error, ProfileInfo};

fn profile(dir: &str, name: &str) -> ProfileInfo {
    ProfileInfo {
        dir: dir.to_owned(),
        name: name.to_owned(),
        avatar_icon: None,
        is_using_default_avatar: true,
    }
}

#[test]
fn resolves_by_display_name_case_insensitively() {
    let profiles = vec![profile("Default", "Privat"), profile("Profile 1", "Work")];
    assert_eq!(resolve(&profiles, "privat").unwrap().dir, "Default");
    assert_eq!(resolve(&profiles, "WORK").unwrap().dir, "Profile 1");
}

#[test]
fn resolves_by_directory_name() {
    let profiles = vec![profile("Default", "Privat"), profile("Profile 1", "Work")];
    assert_eq!(resolve(&profiles, "Profile 1").unwrap().name, "Work");
}

#[test]
fn directory_match_beats_name_collision() {
    let profiles = vec![
        profile("Default", "Profile 1"),
        profile("Profile 1", "Work"),
    ];
    assert_eq!(resolve(&profiles, "Profile 1").unwrap().dir, "Profile 1");
}

#[test]
fn ambiguous_name_errors() {
    let profiles = vec![profile("Default", "Dup"), profile("Profile 1", "dup")];
    let err = resolve(&profiles, "dup").unwrap_err();
    assert!(matches!(err, Error::AmbiguousProfile { .. }));
}

#[test]
fn missing_errors() {
    let profiles = vec![profile("Default", "Privat")];
    assert!(matches!(
        resolve(&profiles, "nope").unwrap_err(),
        Error::ProfileNotFound(_)
    ));
}

#[test]
fn ambiguous_error_names_the_query_and_matching_dirs_in_order() {
    let profiles = vec![
        profile("Default", "Dup"),
        profile("Profile 1", "Other"),
        profile("Profile 2", "DUP"),
    ];
    match resolve(&profiles, "dup") {
        Err(Error::AmbiguousProfile { query, matches }) => {
            assert_eq!(query, "dup");
            assert_eq!(matches, ["Default", "Profile 2"]);
        }
        other => panic!("unexpected {other:?}"),
    }
}

#[test]
fn missing_error_carries_the_query() {
    match resolve(&[], "ghost") {
        Err(Error::ProfileNotFound(q)) => assert_eq!(q, "ghost"),
        other => panic!("unexpected {other:?}"),
    }
}

#[test]
fn directory_lookup_is_case_sensitive() {
    let profiles = vec![profile("Default", "Privat")];
    assert!(matches!(resolve(&profiles, "default"), Err(Error::ProfileNotFound(_))));
}

#[test]
fn matches_by_dir_or_case_folded_name() {
    let p = profile("Profile 3", "Straße Work");
    assert!(p.matches("Profile 3"));
    assert!(p.matches("straße work"));
    assert!(!p.matches("profile 3"));
    // Only ASCII letters are folded.
    assert!(!p.matches("STRASSE WORK"));
    assert!(!p.matches("Straße"));
}

#[test]
fn first_exact_directory_wins() {
    let profiles = vec![profile("Default", "A"), profile("Default", "B")];
    assert_eq!(resolve(&profiles, "Default").unwrap().name, "A");
}

use lucio_core::json::Json;
use lucio_core::local_state::LocalState;
use lucio_core::manifest::default_entries;
use lucio_core::staging::commit_registration;
use lucio_core::{CloneOptions, CloneOutcome, CloneReport, Error, ProfileInfo, StagedClone};

fn obj(members: Vec<(&str, Json)>) -> Json {
    Json::Object(members.into_iter().map(|(k, v)| (k.to_owned(), v)).collect())
}

fn options(categories: &[&str]) -> CloneOptions {
    CloneOptions {
        source: "Privat".to_owned(),
        new_name: "Work".to_owned(),
        categories: categories.iter().map(|c| (*c).to_owned()).collect(),
        dry_run: false,
    }
}

fn source() -> ProfileInfo {
    ProfileInfo {
        dir: "Default".to_owned(),
        name: "Privat".to_owned(),
        avatar_icon: Some("chrome://theme/IDR_PROFILE_AVATAR_26".to_owned()),
        is_using_default_avatar: false,
    }
}

fn report() -> CloneReport {
    CloneReport { items: vec!["Preferences".to_owned()], files: 2, skipped: 0, bytes: 10 }
}

fn sample_state() -> LocalState {
    LocalState::new(
        "/u/Local State".to_owned(),
        obj(vec![(
            "profile",
            obj(vec![
                (
                    "info_cache",
                    obj(vec![(
                        "Default",
                        obj(vec![("name", Json::text("Privat")), ("metrics_bucket_index", Json::from_u64(3))]),
                    )]),
                ),
                ("profiles_created", Json::from_u64(1)),
            ]),
        )]),
    )
}

#[test]
fn no_categories_means_the_default_entries() {
    assert_eq!(options(&[]).entries(), default_entries());
}

#[test]
fn chosen_categories_give_their_entries() {
    assert_eq!(options(&["notes", "settings"]).entries(), ["Notes", "Preferences", "Secure Preferences"]);
    assert!(options(&["unknown"]).entries().is_empty());
}

#[test]
fn staged_clone_inherits_the_source_avatar() {
    let staged = StagedClone::new(&source(), "Profile 1".to_owned(), "Work".to_owned(), report());
    assert_eq!(staged.new_dir, "Profile 1");
    assert_eq!(staged.new_name, "Work");
    assert_eq!(staged.avatar_icon.as_deref(), Some("chrome://theme/IDR_PROFILE_AVATAR_26"));
    assert!(!staged.is_using_default_avatar);
    assert_eq!(staged.report.files, 2);
}

#[test]
fn dry_run_outcome_has_bucket_zero() {
    let staged = StagedClone::new(&source(), "Profile 1".to_owned(), "Work".to_owned(), report());
    let outcome = CloneOutcome::dry_run(staged);
    assert!(outcome.dry_run);
    assert_eq!(outcome.metrics_bucket_index, 0);
    assert_eq!(outcome.new_dir, "Profile 1");
    assert_eq!(outcome.report.bytes, 10);
}

#[test]
fn commit_registers_with_a_fresh_bucket() {
    let mut state = sample_state();
    assert!(state.can_commit("Profile 1"));
    let staged = StagedClone::new(&source(), "Profile 1".to_owned(), "Work".to_owned(), report());
    let outcome = commit_registration(&mut state, staged).unwrap();
    assert!(!outcome.dry_run);
    assert_eq!(outcome.metrics_bucket_index, 4);
    assert_eq!(outcome.new_name, "Work");
    let listed = state.resolve_profile("work").unwrap();
    assert_eq!(listed.dir, "Profile 1");
    assert_eq!(listed.avatar_icon.as_deref(), Some("chrome://theme/IDR_PROFILE_AVATAR_26"));
    assert_eq!(state.next_bucket_index(), 5);
    assert_eq!(state.first_profile_number(), 2);
    assert_eq!(state.path(), "/u/Local State");
}

#[test]
fn commit_reports_a_malformed_registry() {
    let mut state = LocalState::new("/u/Local State".to_owned(), Json::Bool(true));
    assert!(state.can_commit("Profile 1"));
    let staged = StagedClone::new(&source(), "Profile 1".to_owned(), "Work".to_owned(), report());
    assert!(matches!(
        commit_registration(&mut state, staged),
        Err(Error::MalformedLocalState(m)) if m == "top level is not a JSON object"
    ));
}

#[test]
fn counters_at_their_limits_cannot_be_committed() {
    let state = LocalState::new(
        "/u/Local State".to_owned(),
        obj(vec![(
            "profile",
            obj(vec![("metrics", obj(vec![("next_bucket_index", Json::from_i64(i64::MAX))]))]),
        )]),
    );
    assert!(!state.can_commit("Profile 1"));
    let state = LocalState::new(
        "/u/Local State".to_owned(),
        obj(vec![(
            "profile",
            obj(vec![(
                "info_cache",
                obj(vec![("A", obj(vec![("metrics_bucket_index", Json::from_i64(i64::MAX))]))]),
            )]),
        )]),
    );
    assert!(!state.can_commit("Profile 1"));
    assert!(!sample_state().can_commit("Profile 18446744073709551615"));
    assert!(sample_state().can_commit("Custom"));
}

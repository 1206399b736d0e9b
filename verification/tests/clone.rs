use lucio_core::clone::{is_volatile, plan_copy, sanitize_preferences, CopyPlan, FileCopy, Listing};
use lucio_core::json::Json;
use lucio_core::{CloneReport, Error};

fn obj(members: Vec<(&str, Json)>) -> Json {
    Json::Object(members.into_iter().map(|(k, v)| (k.to_owned(), v)).collect())
}

fn keys(j: &Json) -> Vec<String> {
    j.as_object().unwrap().iter().map(|(k, _)| k.clone()).collect()
}

fn listings(entries: Vec<(&str, Listing)>) -> Vec<(String, Listing)> {
    entries.into_iter().map(|(e, l)| (e.to_owned(), l)).collect()
}

fn pairs(plan: &CopyPlan) -> Vec<(String, String)> {
    plan.files.iter().map(|f| (f.src.clone(), f.dst.clone())).collect()
}

#[test]
fn sanitizes_name_and_clears_account() {
    // {"profile":{"name":"Old"},"account_info":[{"email":"x@y.z"}]}
    let mut root = obj(vec![
        ("profile", obj(vec![("name", Json::text("Old"))])),
        ("account_info", Json::Array(vec![obj(vec![("email", Json::text("x@y.z"))])])),
    ]);

    sanitize_preferences(&mut root, "Work");

    let profile = root.get("profile").unwrap();
    assert_eq!(profile.get("name").unwrap().as_str().unwrap(), "Work");
    assert_eq!(profile.get("is_using_default_name").unwrap().as_bool(), Some(false));
    assert!(root.get("account_info").is_none());
}

#[test]
fn sanitize_clears_signin_and_keeps_other_keys_in_place() {
    let mut root = obj(vec![
        ("account_info", Json::Array(vec![])),
        ("signin", obj(vec![("allowed", Json::Bool(true))])),
        ("browser", obj(vec![("theme", Json::text("dark"))])),
        ("profile", obj(vec![("name", Json::text("Old")), ("avatar_index", Json::from_u64(3))])),
    ]);
    sanitize_preferences(&mut root, "New");
    // `account_info` is swap-removed: the last member takes its place.
    assert_eq!(keys(&root), ["profile", "signin", "browser"]);
    assert!(root.get("signin").unwrap().as_object().unwrap().is_empty());
    let profile = root.get("profile").unwrap();
    assert_eq!(keys(profile), ["name", "avatar_index", "is_using_default_name"]);
    assert_eq!(profile.get("name").unwrap().as_str().unwrap(), "New");
    assert_eq!(root.get("browser").unwrap().get("theme").unwrap().as_str().unwrap(), "dark");
}

#[test]
fn sanitize_adds_a_missing_profile_and_leaves_odd_shapes_alone() {
    let mut root = obj(vec![("signin", Json::text("not an object"))]);
    sanitize_preferences(&mut root, "Fresh");
    assert_eq!(keys(&root), ["signin", "profile"]);
    assert_eq!(root.get("signin").unwrap().as_str().unwrap(), "not an object");
    assert_eq!(root.get("profile").unwrap().get("name").unwrap().as_str().unwrap(), "Fresh");

    let mut root = obj(vec![("profile", Json::from_u64(1))]);
    sanitize_preferences(&mut root, "Fresh");
    assert_eq!(root.get("profile").unwrap().as_u64(), Some(1));

    let mut not_an_object = Json::Array(vec![Json::Null]);
    sanitize_preferences(&mut not_an_object, "Fresh");
    assert!(matches!(not_an_object, Json::Array(ref v) if v.len() == 1));
}

#[test]
fn plan_copies_only_listed_entries_and_skips_volatile_files() {
    let ls = listings(vec![
        ("Preferences", Listing::File),
        ("Secure Preferences", Listing::File),
        (
            "Extensions",
            Listing::Dir(vec!["/u/Default/Extensions/abc/background.js".to_owned()]),
        ),
        ("Extension State", Listing::Absent),
        (
            "Local Extension Settings",
            Listing::Dir(vec![
                "/u/Default/Local Extension Settings/CURRENT".to_owned(),
                "/u/Default/Local Extension Settings/000003.log".to_owned(),
                "/u/Default/Local Extension Settings/LOCK".to_owned(),
                "/u/Default/Local Extension Settings/LOG".to_owned(),
                "/u/Default/Local Extension Settings/LOG.old".to_owned(),
            ]),
        ),
    ]);
    let plan = plan_copy("/u/Default", "/u/Profile 1", &ls).unwrap();
    assert_eq!(
        plan.items,
        ["Preferences", "Secure Preferences", "Extensions", "Local Extension Settings"]
    );
    let expected: Vec<(String, String)> = vec![
        ("/u/Default/Preferences", "/u/Profile 1/Preferences"),
        ("/u/Default/Secure Preferences", "/u/Profile 1/Secure Preferences"),
        (
            "/u/Default/Extensions/abc/background.js",
            "/u/Profile 1/Extensions/abc/background.js",
        ),
        (
            "/u/Default/Local Extension Settings/000003.log",
            "/u/Profile 1/Local Extension Settings/000003.log",
        ),
        (
            "/u/Default/Local Extension Settings/CURRENT",
            "/u/Profile 1/Local Extension Settings/CURRENT",
        ),
    ]
    .into_iter()
    .map(|(a, b)| (a.to_owned(), b.to_owned()))
    .collect();
    assert_eq!(pairs(&plan), expected);
}

#[test]
fn plan_refuses_a_walked_path_outside_the_source() {
    let ls = listings(vec![("Extensions", Listing::Dir(vec!["/elsewhere/x".to_owned()]))]);
    match plan_copy("/u/Default", "/u/Profile 1", &ls) {
        Err(Error::Io { path, source }) => {
            assert_eq!(path, "/elsewhere/x");
            assert_eq!(source, "walked path escaped source");
        }
        other => panic!("unexpected {other:?}"),
    }
}

#[test]
fn empty_listing_plans_nothing() {
    let plan = plan_copy("/u/Default", "/u/Profile 1", &Vec::new()).unwrap();
    assert!(plan.items.is_empty());
    assert!(plan.files.is_empty());
}

#[test]
fn volatile_names() {
    assert!(is_volatile("LOCK"));
    assert!(is_volatile("LOG"));
    assert!(is_volatile("LOG.old"));
    assert!(!is_volatile("LOG.older"));
    assert!(!is_volatile("lock"));
    assert!(!is_volatile("CURRENT"));
}

#[test]
fn report_counts_copies_and_vanished_files() {
    let ls = listings(vec![("Preferences", Listing::File), ("Bookmarks", Listing::File)]);
    let plan = plan_copy("/u/A", "/u/B", &ls).unwrap();
    let mut report = CloneReport::for_plan(&plan);
    assert_eq!(report.items, ["Preferences", "Bookmarks"]);
    assert_eq!((report.files, report.skipped, report.bytes), (0, 0, 0));
    report.record_copied(120);
    report.record_vanished();
    assert_eq!((report.files, report.skipped, report.bytes), (1, 1, 120));

    let mut dry = CloneReport::for_plan(&plan);
    dry.count_planned(&plan);
    assert_eq!(dry.files, 2);
    assert_eq!(dry.bytes, 0);

    let empty = CloneReport::default();
    assert!(empty.items.is_empty());
    assert_eq!((empty.files, empty.skipped, empty.bytes), (0, 0, 0));
}

#[test]
fn begin_gates_the_dry_run() {
    let ls = listings(vec![("Preferences", Listing::File), ("Notes", Listing::File)]);
    let plan = plan_copy("/u/A", "/u/B", &ls).unwrap();
    let (dry, copy) = CloneReport::begin(&plan, true);
    assert!(!copy);
    assert_eq!((dry.files, dry.skipped, dry.bytes), (2, 0, 0));
    let (real, copy) = CloneReport::begin(&plan, false);
    assert!(copy);
    assert_eq!(real.files, 0);
    assert_eq!(real.items, ["Preferences", "Notes"]);
}

#[test]
fn vanished_files_are_skipped_and_failures_stop_the_copy() {
    let mut report = CloneReport::default();
    assert!(report.can_record(&FileCopy::Copied(7)));
    assert!(report.record(FileCopy::Copied(7)));
    assert!(report.record(FileCopy::Missing));
    assert!(!report.record(FileCopy::Failed));
    assert_eq!((report.files, report.skipped, report.bytes), (1, 1, 7));
    let full = CloneReport { items: vec![], files: 0, skipped: 0, bytes: u64::MAX };
    assert!(!full.can_record(&FileCopy::Copied(1)));
    assert!(full.can_record(&FileCopy::Copied(0)));
    assert!(full.can_record(&FileCopy::Failed));
}

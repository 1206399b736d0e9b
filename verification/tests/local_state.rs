use lucio_core::json::Json;
use lucio_core::local_state::{dir_number, profile_dir_name, LocalState, NewProfile};
use lucio_core::Error;

fn obj(members: Vec<(&str, Json)>) -> Json {
    Json::Object(members.into_iter().map(|(k, v)| (k.to_owned(), v)).collect())
}

fn text(s: &str) -> Json {
    Json::text(s)
}

fn num(n: u64) -> Json {
    Json::from_u64(n)
}

fn sample() -> Json {
    obj(vec![(
        "profile",
        obj(vec![
            (
                "info_cache",
                obj(vec![
                    ("Default", obj(vec![("name", text("Privat")), ("metrics_bucket_index", num(1))])),
                    ("Profile 1", obj(vec![("name", text("Projekt P")), ("metrics_bucket_index", num(2))])),
                    ("Profile 3", obj(vec![("name", text("Vattenfall")), ("metrics_bucket_index", num(4))])),
                ]),
            ),
            (
                "profiles_order",
                Json::Array(vec![text("Default"), text("Profile 1"), text("Profile 3")]),
            ),
            ("profiles_created", num(4)),
            ("metrics", obj(vec![("next_bucket_index", num(5))])),
        ]),
    )])
}

fn state(root: Json) -> LocalState {
    LocalState::new("/tmp/Local State".to_owned(), root)
}

/// The directory search with nothing of that name on disk.
fn next_profile_dir(st: &LocalState) -> String {
    let mut n = st.first_profile_number();
    loop {
        match st.next_profile_dir_step(n, false) {
            Ok(dir) => return dir,
            Err(next) => n = next,
        }
    }
}

fn at<'a>(j: &'a Json, path: &[&str]) -> Option<&'a Json> {
    let mut cur = j;
    for k in path {
        cur = cur.get(k)?;
    }
    Some(cur)
}

fn str_at<'a>(j: &'a Json, path: &[&str]) -> Option<&'a str> {
    at(j, path).and_then(|v| v.as_str()).map(String::as_str)
}

#[test]
fn lists_profiles() {
    let st = state(sample());
    let names: Vec<_> = st.profiles().into_iter().map(|p| p.name).collect();
    assert_eq!(names, ["Privat", "Projekt P", "Vattenfall"]);
}

#[test]
fn next_dir_skips_the_deleted_gap_via_counter() {
    let st = state(sample());
    assert_eq!(next_profile_dir(&st), "Profile 4");
}

#[test]
fn next_bucket_is_unique_and_monotonic() {
    let st = state(sample());
    assert_eq!(st.next_bucket_index(), 5);
}

#[test]
fn register_inserts_entry_and_advances_counters() {
    let mut st = state(sample());
    let bucket = st.next_bucket_index();
    let dir = next_profile_dir(&st);
    st.register(&NewProfile {
        dir: &dir,
        name: "Work",
        avatar_icon: Some("chrome://theme/IDR_PROFILE_AVATAR_0"),
        is_using_default_avatar: true,
        metrics_bucket_index: bucket,
    })
    .unwrap();

    let root = st.root();
    let entry = at(root, &["profile", "info_cache", "Profile 4"]).unwrap();
    assert_eq!(str_at(entry, &["name"]), Some("Work"));
    assert_eq!(at(entry, &["metrics_bucket_index"]).unwrap().as_i64(), Some(5));
    assert_eq!(at(entry, &["is_using_default_name"]).unwrap().as_bool(), Some(false));
    assert!(entry.get("gaia_id").is_none());
    assert!(entry.get("user_name").is_none());

    assert_eq!(at(root, &["profile", "profiles_created"]).unwrap().as_u64(), Some(5));
    assert_eq!(at(root, &["profile", "metrics", "next_bucket_index"]).unwrap().as_u64(), Some(6));
    match at(root, &["profile", "profiles_order"]) {
        Some(Json::Array(order)) => assert_eq!(order.last().unwrap().as_str().unwrap(), "Profile 4"),
        other => panic!("unexpected {other:?}"),
    }
}

#[test]
fn register_into_empty_local_state() {
    let mut st = state(obj(vec![]));
    let dir = next_profile_dir(&st);
    assert_eq!(dir, "Profile 1");
    let bucket = st.next_bucket_index();
    st.register(&NewProfile {
        dir: &dir,
        name: "Fresh",
        avatar_icon: None,
        is_using_default_avatar: true,
        metrics_bucket_index: bucket,
    })
    .unwrap();
    assert_eq!(str_at(st.root(), &["profile", "info_cache", "Profile 1", "name"]), Some("Fresh"));
}

#[test]
fn registered_profile_is_listed_and_resolvable() {
    let mut st = state(sample());
    let bucket = st.next_bucket_index();
    st.register(&NewProfile {
        dir: "Profile 4",
        name: "Work",
        avatar_icon: Some("icon"),
        is_using_default_avatar: false,
        metrics_bucket_index: bucket,
    })
    .unwrap();
    let names: Vec<_> = st.profiles().into_iter().map(|p| p.name).collect();
    assert_eq!(names, ["Privat", "Projekt P", "Vattenfall", "Work"]);
    let p = st.resolve_profile("Profile 4").unwrap();
    assert_eq!(p.avatar_icon.as_deref(), Some("icon"));
    assert!(!p.is_using_default_avatar);
    // The bucket is not handed out again, and the directory counter moved on.
    assert_eq!(st.next_bucket_index(), 6);
    assert_eq!(st.first_profile_number(), 5);
}

#[test]
fn registering_an_existing_dir_replaces_its_entry_in_place() {
    let mut st = state(sample());
    st.register(&NewProfile {
        dir: "Profile 1",
        name: "Renamed",
        avatar_icon: None,
        is_using_default_avatar: true,
        metrics_bucket_index: 9,
    })
    .unwrap();
    let names: Vec<_> = st.profiles().into_iter().map(|p| p.name).collect();
    assert_eq!(names, ["Privat", "Renamed", "Vattenfall"]);
    match at(st.root(), &["profile", "profiles_order"]) {
        Some(Json::Array(order)) => assert_eq!(order.len(), 3),
        other => panic!("unexpected {other:?}"),
    }
    // The counter never goes backwards.
    assert_eq!(st.first_profile_number(), 4);
    assert_eq!(at(st.root(), &["profile", "metrics", "next_bucket_index"]).unwrap().as_u64(), Some(10));
}

#[test]
fn register_refuses_a_non_object_document() {
    let mut st = state(Json::Array(vec![]));
    let r = st.register(&NewProfile {
        dir: "Profile 1",
        name: "X",
        avatar_icon: None,
        is_using_default_avatar: true,
        metrics_bucket_index: 1,
    });
    match r {
        Err(Error::MalformedLocalState(m)) => assert_eq!(m, "top level is not a JSON object"),
        other => panic!("unexpected {other:?}"),
    }
}

#[test]
fn register_refuses_non_object_profile_and_info_cache() {
    let mut st = state(obj(vec![("profile", num(3))]));
    let new = NewProfile {
        dir: "Profile 1",
        name: "X",
        avatar_icon: None,
        is_using_default_avatar: true,
        metrics_bucket_index: 1,
    };
    assert!(matches!(st.register(&new), Err(Error::MalformedLocalState(m)) if m == "`profile` is not an object"));

    let mut st = state(obj(vec![("profile", obj(vec![("info_cache", Json::Array(vec![]))]))]));
    assert!(matches!(st.register(&new), Err(Error::MalformedLocalState(m)) if m == "`info_cache` is not an object"));

    let mut st = state(obj(vec![("profile", obj(vec![("profiles_order", obj(vec![]))]))]));
    assert!(matches!(st.register(&new), Err(Error::MalformedLocalState(m)) if m == "`profiles_order` is not an array"));

    let mut st = state(obj(vec![("profile", obj(vec![("metrics", text("m"))]))]));
    assert!(matches!(st.register(&new), Err(Error::MalformedLocalState(m)) if m == "`metrics` is not an object"));
}

#[test]
fn next_dir_skips_registered_and_on_disk_names() {
    let st = state(obj(vec![(
        "profile",
        obj(vec![
            ("info_cache", obj(vec![("Profile 2", obj(vec![]))])),
            ("profiles_created", num(2)),
        ]),
    )]));
    assert_eq!(st.first_profile_number(), 2);
    // Profile 2 is registered.
    assert_eq!(st.next_profile_dir_step(2, false), Err(3));
    // Profile 3 exists on disk.
    assert_eq!(st.next_profile_dir_step(3, true), Err(4));
    assert_eq!(st.next_profile_dir_step(4, false), Ok("Profile 4".to_owned()));
}

#[test]
fn counter_zero_or_missing_starts_at_one() {
    let st = state(obj(vec![("profile", obj(vec![("profiles_created", num(0))]))]));
    assert_eq!(st.first_profile_number(), 1);
    let st = state(obj(vec![("profile", obj(vec![("profiles_created", text("7"))]))]));
    assert_eq!(st.first_profile_number(), 1);
}

#[test]
fn next_bucket_exceeds_existing_buckets_and_is_at_least_one() {
    let st = state(obj(vec![(
        "profile",
        obj(vec![
            ("info_cache", obj(vec![("A", obj(vec![("metrics_bucket_index", num(9))]))])),
            ("metrics", obj(vec![("next_bucket_index", num(3))])),
        ]),
    )]));
    assert_eq!(st.max_bucket_index(), Some(9));
    assert_eq!(st.next_bucket_index(), 10);
    let st = state(obj(vec![(
        "profile",
        obj(vec![("metrics", obj(vec![("next_bucket_index", Json::from_i64(-4))]))]),
    )]));
    assert_eq!(st.next_bucket_index(), 1);
}

#[test]
fn profiles_default_missing_fields() {
    let st = state(obj(vec![(
        "profile",
        obj(vec![(
            "info_cache",
            obj(vec![("Default", obj(vec![("is_using_default_avatar", Json::Bool(false))])), ("X", num(1))]),
        )]),
    )]));
    let ps = st.profiles();
    assert_eq!(ps.len(), 2);
    assert_eq!(ps[0].name, "");
    assert!(!ps[0].is_using_default_avatar);
    assert_eq!(ps[1].dir, "X");
    assert!(ps[1].is_using_default_avatar);
    assert_eq!(ps[1].avatar_icon, None);
    assert!(state(Json::Null).profiles().is_empty());
}

#[test]
fn dir_numbers_round_trip() {
    assert_eq!(profile_dir_name(4), "Profile 4");
    assert_eq!(profile_dir_name(0), "Profile 0");
    assert_eq!(dir_number("Profile 17"), Some(17));
    assert_eq!(dir_number(&profile_dir_name(u64::MAX)), Some(u64::MAX));
    assert_eq!(dir_number("Default"), None);
    assert_eq!(dir_number("Profile "), None);
    assert_eq!(dir_number("Profile x"), None);
    assert_eq!(dir_number("Profile 18446744073709551616"), None);
    assert_eq!(dir_number("Profile +3"), Some(3));
}

#[test]
fn path_is_kept() {
    assert_eq!(state(Json::Null).path(), "/tmp/Local State");
}

#[test]
fn malformed_registry_is_reported_even_with_maximal_counters() {
    let new = NewProfile {
        dir: "Profile 18446744073709551615",
        name: "X",
        avatar_icon: None,
        is_using_default_avatar: true,
        metrics_bucket_index: i64::MAX,
    };
    let mut st = state(Json::Bool(false));
    assert!(matches!(st.register(&new), Err(Error::MalformedLocalState(m)) if m == "top level is not a JSON object"));
    let mut st = state(obj(vec![("profile", obj(vec![("info_cache", num(1))]))]));
    assert!(matches!(st.register(&new), Err(Error::MalformedLocalState(m)) if m == "`info_cache` is not an object"));
    // The directory counter is reached, the bucket counter is not.
    let mut st = state(obj(vec![("profile", obj(vec![("metrics", num(1))]))]));
    let near = NewProfile { dir: "Profile 7", ..new };
    assert!(matches!(st.register(&near), Err(Error::MalformedLocalState(m)) if m == "`metrics` is not an object"));
    assert_eq!(st.first_profile_number(), 8);
}

use lucio_core::manifest::{categories, category, default_category_ids, default_entries, entries_for};

#[test]
fn defaults_are_settings_and_extensions() {
    assert_eq!(
        default_category_ids(),
        ["settings", "extensions", "extension-options"]
    );
}

#[test]
fn default_entries_match_the_template_allowlist() {
    assert_eq!(
        default_entries(),
        [
            "Preferences",
            "Secure Preferences",
            "Extensions",
            "Extension State",
            "Extension Rules",
            "Extension Scripts",
            "DNR Extension Rules",
            "Local Extension Settings",
            "Sync Extension Settings",
            "Managed Extension Settings",
        ]
    );
}

#[test]
fn entries_for_unions_and_dedups_in_order() {
    let ids = vec!["settings".to_owned(), "bookmarks".to_owned()];
    assert_eq!(
        entries_for(&ids),
        [
            "Preferences",
            "Secure Preferences",
            "Bookmarks",
            "Bookmarks.bak"
        ]
    );
}

#[test]
fn entries_for_ignores_unknown_ids() {
    assert!(entries_for(&["nope".to_owned()]).is_empty());
}

#[test]
fn every_category_id_is_unique() {
    let mut ids: Vec<&str> = categories().iter().map(|c| c.id).collect();
    ids.sort_unstable();
    let len = ids.len();
    ids.dedup();
    assert_eq!(ids.len(), len);
}

#[test]
fn entries_for_repeated_ids_lists_each_entry_once() {
    let ids = vec![
        "bookmarks".to_owned(),
        "nope".to_owned(),
        "bookmarks".to_owned(),
        "notes".to_owned(),
    ];
    assert_eq!(entries_for(&ids), ["Bookmarks", "Bookmarks.bak", "Notes"]);
}

#[test]
fn entries_for_default_ids_is_the_default_set() {
    let ids: Vec<String> = default_category_ids().iter().map(|s| (*s).to_owned()).collect();
    assert_eq!(entries_for(&ids), default_entries());
}

#[test]
fn category_lookup_finds_known_ids_only() {
    let c = category("cookies").unwrap();
    assert_eq!(c.label, "Cookies");
    assert!(c.sensitive);
    assert!(!c.default_on);
    assert_eq!(c.entries, ["Cookies", "Cookies-journal", "Safe Browsing Cookies", "Safe Browsing Cookies-journal"]);
    assert!(category("Cookies").is_none());
    assert!(category("").is_none());
}

#[test]
fn catalogue_has_twelve_categories_and_defaults_carry_no_personal_data() {
    let cats = categories();
    assert_eq!(cats.len(), 12);
    assert!(cats.iter().filter(|c| c.default_on).all(|c| !c.sensitive));
    assert_eq!(cats[0].id, "settings");
    assert_eq!(cats[11].id, "mail");
}

#[test]
fn entries_for_a_then_b_starts_with_a_and_repeating_a_changes_nothing() {
    let a = vec!["bookmarks".to_owned(), "settings".to_owned()];
    let b = vec!["notes".to_owned(), "settings".to_owned(), "cookies".to_owned()];
    let ab: Vec<String> = a.iter().chain(b.iter()).cloned().collect();
    let aa: Vec<String> = a.iter().chain(a.iter()).cloned().collect();
    assert!(entries_for(&ab).starts_with(&entries_for(&a)));
    assert_eq!(
        entries_for(&ab),
        ["Bookmarks", "Bookmarks.bak", "Preferences", "Secure Preferences", "Notes", "Cookies", "Cookies-journal", "Safe Browsing Cookies", "Safe Browsing Cookies-journal"]
    );
    assert_eq!(entries_for(&aa), entries_for(&a));
}

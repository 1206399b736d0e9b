use lucio_core::summary::{default_log_filter, dir_column_width, human_size, lists_dir};
use lucio_core::ProfileInfo;

fn profile(dir: &str) -> ProfileInfo {
    ProfileInfo { dir: dir.to_owned(), name: String::new(), avatar_icon: None, is_using_default_avatar: true }
}

#[test]
fn sizes_below_a_kibibyte_are_plain_bytes() {
    assert_eq!(human_size(0), "0 B");
    assert_eq!(human_size(1023), "1023 B");
}

#[test]
fn sizes_use_the_largest_unit_with_one_truncated_decimal() {
    assert_eq!(human_size(1024), "1.0 KiB");
    assert_eq!(human_size(1536), "1.5 KiB");
    assert_eq!(human_size(1024 * 1024 - 1), "1023.9 KiB");
    assert_eq!(human_size(5 * 1024 * 1024 + 1024 * 1024 / 10 * 3), "5.2 MiB");
    assert_eq!(human_size(3 * 1024 * 1024 * 1024), "3.0 GiB");
    assert_eq!(human_size(u64::MAX), "17179869183.9 GiB");
}

#[test]
fn column_is_at_least_the_header_width() {
    assert_eq!(dir_column_width(&[]), 9);
    assert_eq!(dir_column_width(&[profile("Default"), profile("Profile 1")]), 9);
    assert_eq!(dir_column_width(&[profile("Default"), profile("Profile 10")]), 10);
    // Widths are in bytes.
    assert_eq!(dir_column_width(&[profile("Prófile 100")]), 12);
}

#[test]
fn listed_dirs() {
    let ps = vec![profile("Default"), profile("Profile 2")];
    assert!(lists_dir(&ps, "Profile 2"));
    assert!(!lists_dir(&ps, "profile 2"));
    assert!(!lists_dir(&[], "Default"));
}

#[test]
fn log_filters_by_verbosity() {
    assert_eq!(default_log_filter(0), "warn");
    assert_eq!(default_log_filter(1), "info");
    assert_eq!(default_log_filter(2), "debug");
    assert_eq!(default_log_filter(3), "trace");
    assert_eq!(default_log_filter(255), "trace");
}

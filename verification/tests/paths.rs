use lucio_core::paths::{
    atomic_temp_path, backup_path, default_user_data_dir, profile_launch_args, singleton_lock_name,
    vivaldi_app_bundles, windows_vivaldi_exe, Platform,
};
use lucio_core::Error;

#[test]
fn default_dirs_per_platform() {
    let config = Some("/home/u/.config");
    let local = Some("/data/local");
    assert_eq!(default_user_data_dir(Platform::Linux, config, local).unwrap(), "/home/u/.config/vivaldi");
    assert_eq!(default_user_data_dir(Platform::MacOs, Some("/Users/u/Library/Application Support"), local).unwrap(), "/Users/u/Library/Application Support/Vivaldi");
    assert_eq!(default_user_data_dir(Platform::Windows, config, local).unwrap(), "/data/local/Vivaldi/User Data");
    assert!(matches!(default_user_data_dir(Platform::OtherUnix, config, local), Err(Error::UserDataDirNotFound)));
    assert!(matches!(default_user_data_dir(Platform::Other, config, local), Err(Error::UserDataDirNotFound)));
    assert!(matches!(default_user_data_dir(Platform::Linux, None, local), Err(Error::UserDataDirNotFound)));
    assert!(matches!(default_user_data_dir(Platform::Windows, config, None), Err(Error::UserDataDirNotFound)));
}

#[test]
fn singleton_locks() {
    assert_eq!(singleton_lock_name(Platform::Linux), Some("SingletonLock"));
    assert_eq!(singleton_lock_name(Platform::MacOs), Some("SingletonLock"));
    assert_eq!(singleton_lock_name(Platform::OtherUnix), Some("SingletonLock"));
    assert_eq!(singleton_lock_name(Platform::Windows), Some("lockfile"));
    assert_eq!(singleton_lock_name(Platform::Other), None);
}

#[test]
fn temp_file_sits_next_to_the_target() {
    assert_eq!(atomic_temp_path("/u/Local State", 42).unwrap(), "/u/.Local State.lucio-tmp-42");
    assert_eq!(atomic_temp_path("/u/..", 7).unwrap(), "/u/.state.lucio-tmp-7");
    match atomic_temp_path("/", 1) {
        Err(Error::Io { path, source }) => {
            assert_eq!(path, "/");
            assert_eq!(source, "path has no parent directory");
        }
        other => panic!("unexpected {other:?}"),
    }
}

#[test]
fn backup_is_timestamped() {
    assert_eq!(backup_path("/u/Local State", 1_700_000_000_123), "/u/Local State.lucio-backup-1700000000123");
    assert_eq!(backup_path("/u/Local State", u128::MAX), format!("/u/Local State.lucio-backup-{}", u128::MAX));
}

#[test]
fn launch_arguments() {
    assert_eq!(profile_launch_args("Profile 4", None), ["--profile-directory=Profile 4"]);
    assert_eq!(
        profile_launch_args("Profile 4", Some("/u")),
        ["--profile-directory=Profile 4", "--user-data-dir=/u"]
    );
}

#[test]
fn vivaldi_executable_locations() {
    assert_eq!(vivaldi_app_bundles(None), ["/Applications/Vivaldi.app"]);
    assert_eq!(
        vivaldi_app_bundles(Some("/Users/u")),
        ["/Applications/Vivaldi.app", "/Users/u/Applications/Vivaldi.app"]
    );
    assert_eq!(windows_vivaldi_exe("/d/local"), "/d/local/Vivaldi/Application/vivaldi.exe");
}

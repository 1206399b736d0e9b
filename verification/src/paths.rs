//! UTF-8 paths: the `camino` operations the library relies on, and where
//! Vivaldi keeps its data on each platform.
use vstd::prelude::*;

use crate::error::Error;
use crate::profile::opt_view;
use crate::text::{decimal, push_decimal, push_decimal_wide, string_views};

verus! {

/// `base.join(rel)` for UTF-8 paths.
pub uninterp spec fn utf8_path_join(base: Seq<char>, rel: Seq<char>) -> Seq<char>;

/// The final component of a UTF-8 path, if it has a normal one.
pub uninterp spec fn utf8_path_file_name(p: Seq<char>) -> Option<Seq<char>>;

/// `p` relative to `base`, if `base` is a prefix of `p` (by components).
pub uninterp spec fn utf8_path_strip_prefix(p: Seq<char>, base: Seq<char>) -> Option<Seq<char>>;

/// `camino::Utf8Path::join`: the path `rel` appended to `base`. The
/// contract claims only that the result is a function of the two paths,
/// named `utf8_path_join`.
#[verifier::external_body]
pub(crate) fn path_join(base: &str, rel: &str) -> (r: String)
    ensures
        r@ == utf8_path_join(base@, rel@),
{
    camino::Utf8Path::new(base).join(rel).into_string()
}

/// `camino::Utf8Path::file_name`: the final component of the path, `None`
/// when it ends in `..` or has none. The contract claims only that the
/// result is a function of the path, named `utf8_path_file_name`.
#[verifier::external_body]
pub(crate) fn path_file_name(p: &str) -> (r: Option<String>)
    ensures
        opt_view(r) == utf8_path_file_name(p@),
{
    match camino::Utf8Path::new(p).file_name() {
        Some(n) => Some(n.to_owned()),
        None => None,
    }
}

/// `camino::Utf8Path::strip_prefix`: the rest of `p` after the leading
/// components `base`, `None` when `base` is not a prefix of `p`. The
/// contract claims only that the result is a function of the two paths,
/// named `utf8_path_strip_prefix`.
#[verifier::external_body]
pub(crate) fn path_strip_prefix(p: &str, base: &str) -> (r: Option<String>)
    ensures
        opt_view(r) == utf8_path_strip_prefix(p@, base@),
{
    match camino::Utf8Path::new(p).strip_prefix(base) {
        Ok(rest) => Some(rest.as_str().to_owned()),
        Err(_) => None,
    }
}

/// The platform the program runs on, as far as Vivaldi's file layout differs.
#[derive(Clone, Copy, Debug, PartialEq, Eq, Structural)]
pub enum Platform {
    MacOs,
    Linux,
    Windows,
    /// A Unix other than macOS and Linux.
    OtherUnix,
    Other,
}

/// Where Vivaldi keeps its user data by default: under the configuration
/// directory on macOS (`Vivaldi`) and Linux (`vivaldi`), under the local
/// data directory on Windows (`Vivaldi/User Data`); `None` elsewhere or when
/// that base directory is unknown.
pub open spec fn default_dir_of(
    platform: Platform,
    config_dir: Option<Seq<char>>,
    data_local_dir: Option<Seq<char>>,
) -> Option<Seq<char>> {
    match platform {
        Platform::MacOs => match config_dir {
            Some(b) => Some(utf8_path_join(b, "Vivaldi"@)),
            None => None,
        },
        Platform::Linux => match config_dir {
            Some(b) => Some(utf8_path_join(b, "vivaldi"@)),
            None => None,
        },
        Platform::Windows => match data_local_dir {
            Some(b) => Some(utf8_path_join(utf8_path_join(b, "Vivaldi"@), "User Data"@)),
            None => None,
        },
        _ => None,
    }
}

/// The platform default Vivaldi user-data directory, from the platform's
/// configuration and local data directories. `UserDataDirNotFound` when the
/// base it needs is unknown or the platform has no default.
pub fn default_user_data_dir(
    platform: Platform,
    config_dir: Option<&str>,
    data_local_dir: Option<&str>,
) -> (r: Result<String, Error>)
    ensures
        match default_dir_of(
            platform,
            match config_dir { Some(c) => Some(c@), None => None },
            match data_local_dir { Some(d) => Some(d@), None => None },
        ) {
            Some(d) => r matches Ok(s) && s@ == d,
            None => r matches Err(e) && e is UserDataDirNotFound,
        },
{
    match platform {
        Platform::MacOs => match config_dir {
            Some(b) => Ok(path_join(b, "Vivaldi")),
            None => Err(Error::UserDataDirNotFound),
        },
        Platform::Linux => match config_dir {
            Some(b) => Ok(path_join(b, "vivaldi")),
            None => Err(Error::UserDataDirNotFound),
        },
        Platform::Windows => match data_local_dir {
            Some(b) => {
                let v = path_join(b, "Vivaldi");
                Ok(path_join(v.as_str(), "User Data"))
            },
            None => Err(Error::UserDataDirNotFound),
        },
        _ => Err(Error::UserDataDirNotFound),
    }
}

/// The name of Chromium's process-singleton lock at the user-data root: a
/// `SingletonLock` symlink on Unix, a `lockfile` on Windows; none elsewhere.
pub open spec fn lock_name_of(platform: Platform) -> Option<Seq<char>> {
    match platform {
        Platform::Windows => Some("lockfile"@),
        Platform::Other => None,
        _ => Some("SingletonLock"@),
    }
}

/// The lock whose presence at the user-data root means Vivaldi runs.
pub fn singleton_lock_name(platform: Platform) -> (r: Option<&'static str>)
    ensures
        match r {
            Some(n) => lock_name_of(platform) == Some(n@),
            None => lock_name_of(platform) is None,
        },
{
    match platform {
        Platform::Windows => Some("lockfile"),
        Platform::Other => None,
        _ => Some("SingletonLock"),
    }
}

/// The parent directory of a UTF-8 path, if it has one.
pub uninterp spec fn utf8_path_parent(p: Seq<char>) -> Option<Seq<char>>;

/// The UTF-8 path `p` with its final component replaced by `name`.
pub uninterp spec fn utf8_path_with_file_name(p: Seq<char>, name: Seq<char>) -> Seq<char>;

/// `camino::Utf8Path::parent`: the path without its final component, `None`
/// for a root or an empty path. The contract claims only that the result
/// is a function of the path, named `utf8_path_parent`.
#[verifier::external_body]
pub(crate) fn path_parent(p: &str) -> (r: Option<String>)
    ensures
        opt_view(r) == utf8_path_parent(p@),
{
    match camino::Utf8Path::new(p).parent() {
        Some(d) => Some(d.as_str().to_owned()),
        None => None,
    }
}

/// `camino::Utf8Path::with_file_name`: the path with its final component
/// replaced by `name`. The contract claims only that the result is a
/// function of the path and the name, named `utf8_path_with_file_name`.
#[verifier::external_body]
pub(crate) fn path_with_file_name(p: &str, name: &str) -> (r: String)
    ensures
        r@ == utf8_path_with_file_name(p@, name@),
{
    camino::Utf8Path::new(p).with_file_name(name).into_string()
}

/// The sibling temporary file an atomic write of `path` goes through:
/// `.<file name>.lucio-tmp-<pid>` next to it (`state` stands in for a
/// missing file name); `None` when `path` has no parent directory.
pub open spec fn temp_path_of(path: Seq<char>, pid: u32) -> Option<Seq<char>> {
    match utf8_path_parent(path) {
        Some(parent) => {
            let name = match utf8_path_file_name(path) {
                Some(n) => n,
                None => "state"@,
            };
            Some(utf8_path_join(parent, "."@ + name + ".lucio-tmp-"@ + decimal(pid as nat)))
        },
        None => None,
    }
}

/// `e` is an I/O error about `path` with the message `msg`.
pub open spec fn is_io_error(e: Error, path: Seq<char>, msg: Seq<char>) -> bool {
    e matches Error::Io { path: p, source: m } && p@ == path && m@ == msg
}

/// The temporary file to write before renaming it onto `path`, for the
/// process `pid`. A path without a parent directory is refused.
pub fn atomic_temp_path(path: &str, pid: u32) -> (r: Result<String, Error>)
    ensures
        match temp_path_of(path@, pid) {
            Some(t) => r matches Ok(s) && s@ == t,
            None => r matches Err(e) && is_io_error(e, path@, "path has no parent directory"@),
        },
{
    let parent = match path_parent(path) {
        Some(d) => d,
        None => {
            return Err(
                Error::Io { path: path.to_owned(), source: "path has no parent directory".to_owned() },
            );
        },
    };
    let mut name = ".".to_owned();
    match path_file_name(path) {
        Some(n) => name.append(n.as_str()),
        None => name.append("state"),
    }
    name.append(".lucio-tmp-");
    push_decimal(&mut name, pid as u64);
    Ok(path_join(parent.as_str(), name.as_str()))
}

/// Where the previous `Local State` at `path` is kept before it is
/// overwritten: `Local State.lucio-backup-<millis>` next to it.
pub open spec fn backup_path_of(path: Seq<char>, millis: u128) -> Seq<char> {
    utf8_path_with_file_name(path, "Local State.lucio-backup-"@ + decimal(millis as nat))
}

/// The timestamped backup of the `Local State` at `path`, taken at `millis`
/// milliseconds since the Unix epoch.
pub fn backup_path(path: &str, millis: u128) -> (r: String)
    ensures
        r@ == backup_path_of(path@, millis),
{
    let mut name = "Local State.lucio-backup-".to_owned();
    push_decimal_wide(&mut name, millis);
    path_with_file_name(path, name.as_str())
}

/// The arguments that open `profile_dir` in Vivaldi, with the user-data
/// directory passed along only when it was given explicitly.
pub open spec fn launch_args_of(profile_dir: Seq<char>, user_data_dir: Option<Seq<char>>) -> Seq<Seq<char>> {
    let a = seq!["--profile-directory="@ + profile_dir];
    match user_data_dir {
        Some(d) => a.push("--user-data-dir="@ + d),
        None => a,
    }
}

/// The command-line arguments that open `profile_dir` in a (running)
/// Vivaldi.
pub fn profile_launch_args(profile_dir: &str, user_data_dir: Option<&str>) -> (r: Vec<String>)
    ensures
        string_views(r@) == launch_args_of(
            profile_dir@,
            match user_data_dir { Some(d) => Some(d@), None => None },
        ),
{
    let mut out: Vec<String> = Vec::new();
    let mut a = "--profile-directory=".to_owned();
    a.append(profile_dir);
    out.push(a);
    match user_data_dir {
        Some(d) => {
            let mut b = "--user-data-dir=".to_owned();
            b.append(d);
            out.push(b);
        },
        None => {},
    }
    assert(string_views(out@) =~= launch_args_of(
        profile_dir@,
        match user_data_dir { Some(d) => Some(d@), None => None },
    ));
    out
}

/// Where the Vivaldi application bundle may be on macOS: the system
/// `Applications` folder, then the one in the home directory, if known.
pub open spec fn app_bundles_of(home: Option<Seq<char>>) -> Seq<Seq<char>> {
    let system = seq!["/Applications/Vivaldi.app"@];
    match home {
        Some(h) => system.push(utf8_path_join(utf8_path_join(h, "Applications"@), "Vivaldi.app"@)),
        None => system,
    }
}

/// The candidate locations of the macOS application bundle, in the order
/// they are tried.
pub fn vivaldi_app_bundles(home: Option<&str>) -> (r: Vec<String>)
    ensures
        string_views(r@) == app_bundles_of(
            match home { Some(h) => Some(h@), None => None },
        ),
{
    let mut out: Vec<String> = Vec::new();
    out.push("/Applications/Vivaldi.app".to_owned());
    match home {
        Some(h) => {
            let apps = path_join(h, "Applications");
            out.push(path_join(apps.as_str(), "Vivaldi.app"));
        },
        None => {},
    }
    assert(string_views(out@) =~= app_bundles_of(
        match home { Some(h) => Some(h@), None => None },
    ));
    out
}

/// The Vivaldi executable on Windows, below the local data directory.
pub fn windows_vivaldi_exe(data_local_dir: &str) -> (r: String)
    ensures
        r@ == utf8_path_join(
            utf8_path_join(utf8_path_join(data_local_dir@, "Vivaldi"@), "Application"@),
            "vivaldi.exe"@,
        ),
{
    let v = path_join(data_local_dir, "Vivaldi");
    let a = path_join(v.as_str(), "Application");
    path_join(a.as_str(), "vivaldi.exe")
}

} // verus!

//! The clone workflow: options, the staged (copied, not yet registered)
//! clone, and its registration in `Local State`.
//!
//! Copying only reads the source profile, so it is safe while Vivaldi runs.
//! Registration is deferred: a running Vivaldi keeps `Local State` in memory
//! and would overwrite it, so it is written once Vivaldi is closed.
use vstd::prelude::*;

use crate::clone::CloneReport;
use crate::error::Error;
use crate::local_state::{
    dir_number, lemma_can_register_fits, is_malformed, max_existing, next_bucket, profile_number, registered,
    LocalState, NewProfile, NewProfileView,
};
use crate::manifest::{
    catalogue, default_entries, default_entries_of, entries_for, entries_of_ids, str_views,
};
use crate::profile::{clone_opt_string, opt_view, ProfileInfo};
use crate::text::string_views;

verus! {

/// Options controlling a profile clone.
#[derive(Debug)]
pub struct CloneOptions {
    /// Source profile, by display name (case-insensitive) or directory name.
    pub source: String,
    /// Display name for the new profile.
    pub new_name: String,
    /// Category ids to carry over. Empty means the default isolated-template
    /// set.
    pub categories: Vec<String>,
    /// Plan the copy and report it without writing anything.
    pub dry_run: bool,
}

/// The profile entries a clone copies for the chosen category ids: the
/// default set when none is chosen.
pub open spec fn selected_entries(categories: Seq<Seq<char>>) -> Seq<Seq<char>> {
    if categories.len() == 0 {
        default_entries_of(catalogue())
    } else {
        entries_of_ids(categories)
    }
}

impl CloneOptions {
    /// The profile entries this clone copies.
    pub fn entries(&self) -> (r: Vec<&'static str>)
        ensures
            str_views(r@) == selected_entries(string_views(self.categories@)),
    {
        if self.categories.len() == 0 {
            default_entries()
        } else {
            entries_for(self.categories.as_slice())
        }
    }
}

/// The result of a clone.
#[derive(Debug)]
pub struct CloneOutcome {
    /// The new profile's on-disk directory name (e.g. `Profile 4`).
    pub new_dir: String,
    /// The new profile's display name.
    pub new_name: String,
    /// The unique metrics bucket index allocated to the new profile.
    pub metrics_bucket_index: i64,
    /// Whether this was a dry run (nothing written).
    pub dry_run: bool,
    /// What was (or, for a dry run, would be) copied.
    pub report: CloneReport,
}

/// A clone whose files have been copied but not yet registered in
/// `Local State`.
#[derive(Debug)]
pub struct StagedClone {
    /// The new profile's on-disk directory name (e.g. `Profile 4`).
    pub new_dir: String,
    /// The new profile's display name.
    pub new_name: String,
    /// What was copied.
    pub report: CloneReport,
    /// The avatar icon inherited from the source profile, if any.
    pub avatar_icon: Option<String>,
    /// Whether the inherited avatar is a stock (non-account) one.
    pub is_using_default_avatar: bool,
}

impl StagedClone {
    /// A clone of `source` copied into `new_dir` under the name `new_name`;
    /// it keeps the source's avatar.
    pub fn new(source: &ProfileInfo, new_dir: String, new_name: String, report: CloneReport) -> (r: StagedClone)
        ensures
            r.new_dir@ == new_dir@,
            r.new_name@ == new_name@,
            r.report == report,
            opt_view(r.avatar_icon) == source@.avatar_icon,
            r.is_using_default_avatar == source@.is_using_default_avatar,
    {
        StagedClone {
            new_dir,
            new_name,
            report,
            avatar_icon: clone_opt_string(&source.avatar_icon),
            is_using_default_avatar: source.is_using_default_avatar,
        }
    }

    /// What registering this clone with metrics bucket `bucket` writes.
    pub open spec fn registration(self, bucket: i64) -> NewProfileView {
        NewProfileView {
            dir: self.new_dir@,
            name: self.new_name@,
            avatar_icon: opt_view(self.avatar_icon),
            is_using_default_avatar: self.is_using_default_avatar,
            metrics_bucket_index: bucket,
        }
    }
}

impl CloneOutcome {
    /// The outcome of a dry run: nothing registered, bucket 0.
    pub fn dry_run(staged: StagedClone) -> (r: CloneOutcome)
        ensures
            r.new_dir == staged.new_dir,
            r.new_name == staged.new_name,
            r.metrics_bucket_index == 0,
            r.dry_run,
            r.report == staged.report,
    {
        CloneOutcome {
            new_dir: staged.new_dir,
            new_name: staged.new_name,
            metrics_bucket_index: 0,
            dry_run: true,
            report: staged.report,
        }
    }
}

/// Registering `dir` in `root` keeps every counter in range: the bucket to
/// allocate and the one after it fit in an `i64`, and the directory number
/// can be advanced past.
pub open spec fn commit_fits(root: crate::json::JsonValue, dir: Seq<char>) -> bool {
    &&& max_existing(root) < i64::MAX
    &&& next_bucket(root) < i64::MAX
    &&& profile_number(dir) != Some(u64::MAX)
}

impl LocalState {
    /// Whether registering a clone in directory `dir` keeps every counter in
    /// range.
    pub fn can_commit(&self, dir: &str) -> (r: bool)
        ensures
            r == commit_fits(self@.root, dir@),
    {
        let room = match self.max_bucket_index() {
            Some(b) => b < i64::MAX,
            None => true,
        };
        if !room {
            return false;
        }
        let bucket = self.next_bucket_index();
        if bucket == i64::MAX {
            return false;
        }
        match dir_number(dir) {
            Some(n) => n != u64::MAX,
            None => true,
        }
    }
}

/// Register a staged clone in `state`: allocate a fresh metrics bucket and
/// add the profile to `info_cache` and `profiles_order`, advancing the
/// counters. The registry's document is changed as
/// [`LocalState::register`] changes it; its structural errors are returned.
pub fn commit_registration(state: &mut LocalState, staged: StagedClone) -> (r: Result<CloneOutcome, Error>)
    requires
        commit_fits(old(state)@.root, staged.new_dir@),
    ensures
        final(state)@.path == old(state)@.path,
        final(state)@.root == registered(
            old(state)@.root,
            staged.registration(next_bucket(old(state)@.root) as i64),
        ).0,
        match registered(old(state)@.root, staged.registration(next_bucket(old(state)@.root) as i64)).1 {
            None => r matches Ok(o) && o.new_dir == staged.new_dir && o.new_name == staged.new_name
                && o.metrics_bucket_index == next_bucket(old(state)@.root) && !o.dry_run && o.report
                == staged.report,
            Some(msg) => r matches Err(e) && is_malformed(e, msg),
        },
{
    let bucket = state.next_bucket_index();
    let res = {
        let new = NewProfile {
            dir: staged.new_dir.as_str(),
            name: staged.new_name.as_str(),
            avatar_icon: match &staged.avatar_icon {
                Some(a) => Some(a.as_str()),
                None => None,
            },
            is_using_default_avatar: staged.is_using_default_avatar,
            metrics_bucket_index: bucket,
        };
        assert(new@ == staged.registration(bucket));
        proof {
            lemma_can_register_fits(state@.root, new@);
        }
        state.register(&new)
    };
    match res {
        Ok(()) => Ok(
            CloneOutcome {
                new_dir: staged.new_dir,
                new_name: staged.new_name,
                metrics_bucket_index: bucket,
                dry_run: false,
                report: staged.report,
            },
        ),
        Err(e) => Err(e),
    }
}

} // verus!

//! The profile-clone engine: allowlist copy planning and `Preferences`
//! sanitization.
//!
//! The copy only ever reads the source profile. `LevelDB` stores are copied
//! with their volatile `LOCK`/`LOG` files skipped and `CURRENT` copied last,
//! so it never points at a manifest that has not been copied yet.
use vstd::prelude::*;

use crate::error::Error;
use crate::json::{
    empty_object, ensured, find_key, has_key, key_pos, keys_unique, lemma_has_key_ensured,
    lemma_has_key_set_at, lemma_key_pos, lemma_member_ensured, lemma_member_set_at,
    lemma_member_with, lemma_without_member, member, put_member, remove_member, set_at,
    set_value, take_object, view_members, with_member, without_member, lemma_view_members,
    lemma_member_without, Json, Members,
    JsonValue,
};
use crate::profile::opt_view;
use crate::text::{same_text, string_views};
use crate::paths::{
    path_file_name, path_join, path_strip_prefix, utf8_path_file_name, utf8_path_join,
    utf8_path_strip_prefix,
};

verus! {

/// Per-directory files that are never copied: the `LevelDB` process lock and
/// the human-readable logs.
pub open spec fn is_volatile_name(n: Seq<char>) -> bool {
    n == "LOCK"@ || n == "LOG"@ || n == "LOG.old"@
}

/// Whether `name` is a volatile `LevelDB` file (`LOCK`, `LOG`, `LOG.old`).
pub fn is_volatile(name: &str) -> (r: bool)
    ensures
        r == is_volatile_name(name@),
{
    same_text(name, "LOCK") || same_text(name, "LOG") || same_text(name, "LOG.old")
}

/// What the user-data directory holds for one allowlisted entry.
#[derive(Debug)]
pub enum Listing {
    /// Nothing of that name.
    Absent,
    /// A file (anything but a directory).
    File,
    /// A directory, with the paths of the regular files found below it.
    Dir(Vec<String>),
}

pub enum ListingView {
    Absent,
    File,
    Dir(Seq<Seq<char>>),
}

impl View for Listing {
    type V = ListingView;

    open spec fn view(&self) -> ListingView {
        match self {
            Listing::Absent => ListingView::Absent,
            Listing::File => ListingView::File,
            Listing::Dir(w) => ListingView::Dir(string_views(w@)),
        }
    }
}

/// One file to copy: from `src` to `dst`.
#[derive(Debug)]
pub struct PlanItem {
    pub src: String,
    pub dst: String,
}

pub type PlanPair = (Seq<char>, Seq<char>);

impl View for PlanItem {
    type V = PlanPair;

    open spec fn view(&self) -> PlanPair {
        (self.src@, self.dst@)
    }
}

pub open spec fn plan_views(s: Seq<PlanItem>) -> Seq<PlanPair> {
    s.map_values(|p: PlanItem| p@)
}

pub open spec fn listing_views(s: Seq<(String, Listing)>) -> Seq<(Seq<char>, ListingView)> {
    s.map_values(|e: (String, Listing)| (e.0@, e.1@))
}

/// Whether a walked file is skipped for its volatile name.
pub open spec fn skipped_file(abs: Seq<char>) -> bool {
    match utf8_path_file_name(abs) {
        Some(n) => is_volatile_name(n),
        None => false,
    }
}

/// The copy plan for the files found below one directory entry, or the
/// first walked path that does not lie below `src_dir`.
pub open spec fn walk_plan(src_dir: Seq<char>, dst_dir: Seq<char>, walked: Seq<Seq<char>>) -> Result<
    Seq<PlanPair>,
    Seq<char>,
>
    decreases walked.len(),
{
    if walked.len() == 0 {
        Ok(Seq::empty())
    } else {
        match walk_plan(src_dir, dst_dir, walked.drop_last()) {
            Err(p) => Err(p),
            Ok(prev) => {
                let abs = walked.last();
                if skipped_file(abs) {
                    Ok(prev)
                } else {
                    match utf8_path_strip_prefix(abs, src_dir) {
                        Some(rel) => Ok(prev.push((abs, utf8_path_join(dst_dir, rel)))),
                        None => Err(abs),
                    }
                }
            },
        }
    }
}

/// The entries present in the source and the files to copy, in walk order,
/// or the first walked path that does not lie below `src_dir`.
pub open spec fn build_plan(src_dir: Seq<char>, dst_dir: Seq<char>, ls: Seq<(Seq<char>, ListingView)>) -> Result<
    (Seq<Seq<char>>, Seq<PlanPair>),
    Seq<char>,
>
    decreases ls.len(),
{
    if ls.len() == 0 {
        Ok((Seq::empty(), Seq::empty()))
    } else {
        match build_plan(src_dir, dst_dir, ls.drop_last()) {
            Err(p) => Err(p),
            Ok((items, files)) => {
                let (e, l) = ls.last();
                match l {
                    ListingView::Absent => Ok((items, files)),
                    ListingView::File => Ok(
                        (
                            items.push(e),
                            files.push((utf8_path_join(src_dir, e), utf8_path_join(dst_dir, e))),
                        ),
                    ),
                    ListingView::Dir(w) => match walk_plan(src_dir, dst_dir, w) {
                        Err(p) => Err(p),
                        Ok(fs) => Ok((items.push(e), files + fs)),
                    },
                }
            },
        }
    }
}

/// Whether a planned file is a `LevelDB` `CURRENT` pointer file.
pub open spec fn is_current(f: PlanPair) -> bool {
    utf8_path_file_name(f.0) == Some("CURRENT"@)
}

/// The planned files whose `is_current` is `want`, in order.
pub open spec fn with_current(files: Seq<PlanPair>, want: bool) -> Seq<PlanPair>
    decreases files.len(),
{
    if files.len() == 0 {
        Seq::empty()
    } else {
        let p = with_current(files.drop_last(), want);
        if is_current(files.last()) == want {
            p.push(files.last())
        } else {
            p
        }
    }
}

/// The plan in copy order: every `CURRENT` file after all others, each
/// group in its relative order (a stable sort on "is `CURRENT`").
pub open spec fn current_last(files: Seq<PlanPair>) -> Seq<PlanPair> {
    with_current(files, false) + with_current(files, true)
}

/// A planned copy: the entries present in the source and the files in copy order.
#[derive(Debug)]
pub struct CopyPlan {
    /// Top-level allowlist entries present in the source profile.
    pub items: Vec<String>,
    /// The files to copy, `CURRENT` files last.
    pub files: Vec<PlanItem>,
}

/// `e` is the I/O error for a walked path that escaped the source directory.
pub open spec fn is_escape_error(e: Error, path: Seq<char>) -> bool {
    e matches Error::Io { path: p, source: s } && p@ == path && s@ == "walked path escaped source"@
}

fn is_current_file(src: &str) -> (r: bool)
    ensures
        r == (utf8_path_file_name(src@) == Some("CURRENT"@)),
{
    match path_file_name(src) {
        Some(n) => same_text(n.as_str(), "CURRENT"),
        None => false,
    }
}

fn walk_files(src_dir: &str, dst_dir: &str, walked: &Vec<String>, files: &mut Vec<PlanItem>) -> (r: Result<(), Error>)
    ensures
        match walk_plan(src_dir@, dst_dir@, string_views(walked@)) {
            Ok(fs) => r is Ok && plan_views(final(files)@) == plan_views(old(files)@) + fs,
            Err(p) => r matches Err(e) && is_escape_error(e, p),
        },
{
    let ghost start = plan_views(files@);
    let n = walked.len();
    for i in 0..n
        invariant
            n == walked@.len(),
            walk_plan(src_dir@, dst_dir@, string_views(walked@).take(i as int)) matches Ok(fs)
                && plan_views(files@) == start + fs,
    {
        let ghost w = string_views(walked@);
        assert(w.take(i + 1).drop_last() =~= w.take(i as int));
        assert(w.take(i + 1).last() == walked@[i as int]@);
        let abs = &walked[i];
        let skip = match path_file_name(abs.as_str()) {
            Some(name) => is_volatile(name.as_str()),
            None => false,
        };
        if !skip {
            match path_strip_prefix(abs.as_str(), src_dir) {
                Some(rel) => {
                    let ghost before = plan_views(files@);
                    let item = PlanItem { src: abs.clone(), dst: path_join(dst_dir, rel.as_str()) };
                    files.push(item);
                    assert(plan_views(files@) =~= before.push(item@));
                },
                None => {
                    proof {
                        lemma_walk_plan_err_prefix(src_dir@, dst_dir@, w, i + 1);
                    }
                    return Err(
                        Error::Io { path: abs.clone(), source: "walked path escaped source".to_owned() },
                    );
                },
            }
        }
        assert(walk_plan(src_dir@, dst_dir@, w.take(i + 1)) matches Ok(fs) && plan_views(files@)
            =~= start + fs);
    }
    assert(string_views(walked@).take(n as int) =~= string_views(walked@));
    Ok(())
}

proof fn lemma_walk_plan_err_prefix(src_dir: Seq<char>, dst_dir: Seq<char>, w: Seq<Seq<char>>, k: int)
    requires
        0 <= k <= w.len(),
        walk_plan(src_dir, dst_dir, w.take(k)) is Err,
    ensures
        walk_plan(src_dir, dst_dir, w) == walk_plan(src_dir, dst_dir, w.take(k)),
    decreases w.len() - k,
{
    if k < w.len() {
        assert(w.take(k + 1).drop_last() =~= w.take(k));
        lemma_walk_plan_err_prefix(src_dir, dst_dir, w, k + 1);
    } else {
        assert(w.take(k) =~= w);
    }
}

proof fn lemma_build_plan_err_prefix(
    src_dir: Seq<char>,
    dst_dir: Seq<char>,
    ls: Seq<(Seq<char>, ListingView)>,
    k: int,
)
    requires
        0 <= k <= ls.len(),
        build_plan(src_dir, dst_dir, ls.take(k)) is Err,
    ensures
        build_plan(src_dir, dst_dir, ls) == build_plan(src_dir, dst_dir, ls.take(k)),
    decreases ls.len() - k,
{
    if k < ls.len() {
        assert(ls.take(k + 1).drop_last() =~= ls.take(k));
        lemma_build_plan_err_prefix(src_dir, dst_dir, ls, k + 1);
    } else {
        assert(ls.take(k) =~= ls);
    }
}

/// Puts the planned files in copy order: `CURRENT` pointer files last, each
/// group keeping its order.
fn order_current_last(files: Vec<PlanItem>) -> (r: Vec<PlanItem>)
    ensures
        plan_views(r@) == current_last(plan_views(files@)),
{
    let ghost fv = plan_views(files@);
    let mut first: Vec<PlanItem> = Vec::new();
    let mut last: Vec<PlanItem> = Vec::new();
    let ghost fs = files@;
    for item in it: files
        invariant
            it.seq() == fs,
            fv == plan_views(fs),
            plan_views(first@) == with_current(fv.take(it.index() as int), false),
            plan_views(last@) == with_current(fv.take(it.index() as int), true),
    {
        let ghost k = it.index() as int;
        assert(item@ == fv[k]);
        assert(fv.take(k + 1).drop_last() =~= fv.take(k));
        let ghost bf = plan_views(first@);
        let ghost bl = plan_views(last@);
        if is_current_file(item.src.as_str()) {
            last.push(item);
            assert(plan_views(last@) =~= bl.push(fv[k]));
        } else {
            first.push(item);
            assert(plan_views(first@) =~= bf.push(fv[k]));
        }
    }
    assert(fv.take(fv.len() as int) =~= fv);
    let ghost bf = plan_views(first@);
    let ghost bl = plan_views(last@);
    first.append(&mut last);
    assert(plan_views(first@) =~= bf + bl);
    first
}

/// Computes the copy plan from what the source profile holds for each
/// allowlisted entry (in allowlist order): the entries present, and the files
/// to copy with `CURRENT` files last. Files below a directory entry named
/// `LOCK`, `LOG` or `LOG.old` are skipped; a walked path that does not lie
/// below `src_dir` is an I/O error.
pub fn plan_copy(src_dir: &str, dst_dir: &str, listings: &Vec<(String, Listing)>) -> (r: Result<CopyPlan, Error>)
    ensures
        match build_plan(src_dir@, dst_dir@, listing_views(listings@)) {
            Ok((items, files)) => r matches Ok(plan) && string_views(plan.items@) == items
                && plan_views(plan.files@) == current_last(files),
            Err(p) => r matches Err(e) && is_escape_error(e, p),
        },
{
    let ghost ls = listing_views(listings@);
    let mut items: Vec<String> = Vec::new();
    let mut files: Vec<PlanItem> = Vec::new();
    let n = listings.len();
    for i in 0..n
        invariant
            n == listings@.len(),
            ls == listing_views(listings@),
            build_plan(src_dir@, dst_dir@, ls.take(i as int)) matches Ok((its, fs)) && string_views(
                items@,
            ) == its && plan_views(files@) == fs,
    {
        assert(ls.take(i + 1).drop_last() =~= ls.take(i as int));
        assert(ls.take(i + 1).last() == (listings@[i as int].0@, listings@[i as int].1@));
        let (entry, listing) = (&listings[i].0, &listings[i].1);
        let ghost bi = string_views(items@);
        let ghost bf = plan_views(files@);
        match listing {
            Listing::Absent => {},
            Listing::File => {
                items.push(entry.clone());
                let item = PlanItem { src: path_join(src_dir, entry.as_str()), dst: path_join(dst_dir, entry.as_str()) };
                files.push(item);
                assert(string_views(items@) =~= bi.push(entry@));
                assert(plan_views(files@) =~= bf.push(item@));
            },
            Listing::Dir(walked) => {
                items.push(entry.clone());
                assert(string_views(items@) =~= bi.push(entry@));
                match walk_files(src_dir, dst_dir, walked, &mut files) {
                    Ok(()) => {},
                    Err(e) => {
                        proof {
                            lemma_build_plan_err_prefix(src_dir@, dst_dir@, ls, i + 1);
                        }
                        return Err(e);
                    },
                }
            },
        }
    }
    assert(ls.take(n as int) =~= ls);
    let ordered = order_current_last(files);
    Ok(CopyPlan { items, files: ordered })
}

} // verus!

verus! {

proof fn lemma_with_current(files: Seq<PlanPair>, want: bool)
    ensures
        forall|i: int| 0 <= i < with_current(files, want).len() ==> #[trigger] is_current(with_current(files, want)[i]) == want,
        forall|i: int| 0 <= i < with_current(files, want).len() ==> files.contains(#[trigger] with_current(files, want)[i]),
    decreases files.len(),
{
    if files.len() > 0 {
        lemma_with_current(files.drop_last(), want);
        let p = with_current(files.drop_last(), want);
        assert forall|i: int| 0 <= i < with_current(files, want).len() implies files.contains(#[trigger] with_current(files, want)[i]) by {
            if i < p.len() {
                let x = p[i];
                assert(files.drop_last().contains(x));
                let k = choose|k: int| 0 <= k < files.drop_last().len() && files.drop_last()[k] == x;
                assert(files[k] == x);
            } else {
                assert(files[files.len() - 1] == files.last());
            }
        }
    }
}

proof fn lemma_with_current_multiset(files: Seq<PlanPair>)
    ensures
        with_current(files, false).to_multiset().add(with_current(files, true).to_multiset())
            =~= files.to_multiset(),
    decreases files.len(),
{
    broadcast use vstd::seq_lib::group_to_multiset_ensures;
    broadcast use vstd::multiset::group_multiset_axioms;

    if files.len() == 0 {
        assert(with_current(files, false) =~= Seq::<PlanPair>::empty());
        assert(files =~= Seq::<PlanPair>::empty());
    } else {
        lemma_with_current_multiset(files.drop_last());
        assert(files.drop_last().push(files.last()) =~= files);
    }
}

/// Copying in plan order copies exactly the planned files, and once a
/// `CURRENT` file is reached only `CURRENT` files follow; files of each kind
/// keep their relative order (by construction of the two groups).
pub proof fn lemma_current_last(files: Seq<PlanPair>)
    ensures
        current_last(files).to_multiset() =~= files.to_multiset(),
        current_last(files).len() == files.len(),
        forall|i: int, j: int|
            0 <= i < j < current_last(files).len() && is_current(#[trigger] current_last(files)[i])
                ==> is_current(#[trigger] current_last(files)[j]),
{
    broadcast use vstd::seq_lib::group_to_multiset_ensures;

    lemma_with_current(files, false);
    lemma_with_current(files, true);
    lemma_with_current_multiset(files);
    vstd::seq_lib::lemma_multiset_commutative(with_current(files, false), with_current(files, true));
    let a = with_current(files, false);
    let b = with_current(files, true);
    let r = current_last(files);
    assert(r.to_multiset().len() == files.to_multiset().len());
    assert forall|i: int, j: int|
        0 <= i < j < r.len() && is_current(#[trigger] r[i]) implies is_current(#[trigger] r[j]) by {
        if i < a.len() {
            assert(r[i] == a[i]);
        }
        assert(r[j] == b[j - a.len()]);
    }
}

/// `f` is a copy that the listings call for: a listed file entry copied to
/// the same name, or a non-volatile file found below a listed directory.
pub open spec fn called_for(
    src_dir: Seq<char>,
    dst_dir: Seq<char>,
    ls: Seq<(Seq<char>, ListingView)>,
    f: PlanPair,
) -> bool {
    exists|k: int|
        0 <= k < ls.len() && #[trigger] listed_copy(src_dir, dst_dir, ls[k], f)
}

pub open spec fn listed_copy(src_dir: Seq<char>, dst_dir: Seq<char>, l: (Seq<char>, ListingView), f: PlanPair) -> bool {
    match l.1 {
        ListingView::Absent => false,
        ListingView::File => f == (utf8_path_join(src_dir, l.0), utf8_path_join(dst_dir, l.0)),
        ListingView::Dir(w) => w.contains(f.0) && !skipped_file(f.0),
    }
}

proof fn lemma_walk_plan_files(src_dir: Seq<char>, dst_dir: Seq<char>, w: Seq<Seq<char>>)
    ensures
        walk_plan(src_dir, dst_dir, w) matches Ok(fs) ==> forall|i: int| 0 <= i < fs.len() ==> w.contains(#[trigger] fs[i].0) && !skipped_file(fs[i].0),
    decreases w.len(),
{
    if w.len() > 0 {
        lemma_walk_plan_files(src_dir, dst_dir, w.drop_last());
        if walk_plan(src_dir, dst_dir, w) is Ok {
            let fs = walk_plan(src_dir, dst_dir, w)->Ok_0;
            let prev = walk_plan(src_dir, dst_dir, w.drop_last())->Ok_0;
            assert forall|i: int| 0 <= i < fs.len() implies w.contains(#[trigger] fs[i].0) && !skipped_file(fs[i].0) by {
                if i < prev.len() {
                    assert(fs[i] == prev[i]);
                    let k = choose|k: int| 0 <= k < w.drop_last().len() && w.drop_last()[k] == fs[i].0;
                    assert(w[k] == fs[i].0);
                } else {
                    assert(w[w.len() - 1] == fs[i].0);
                }
            }
        }
    }
}

/// Only what the allowlisted entries call for is ever copied: a listed file
/// entry, or a file below a listed directory that is not a volatile `LOCK`
/// or `LOG` file. Nothing outside the listings reaches the plan.
pub proof fn lemma_plan_copies_only_listed(src_dir: Seq<char>, dst_dir: Seq<char>, ls: Seq<(Seq<char>, ListingView)>)
    ensures
        build_plan(src_dir, dst_dir, ls) matches Ok((items, fs)) ==> forall|i: int|
            0 <= i < fs.len() ==> called_for(src_dir, dst_dir, ls, #[trigger] fs[i]),
    decreases ls.len(),
{
    if ls.len() > 0 {
        let init = ls.drop_last();
        lemma_plan_copies_only_listed(src_dir, dst_dir, init);
        if build_plan(src_dir, dst_dir, ls) is Ok {
            let fs = build_plan(src_dir, dst_dir, ls)->Ok_0.1;
            let prev = build_plan(src_dir, dst_dir, init)->Ok_0.1;
            let l = ls.last();
            match l.1 {
                ListingView::Dir(w) => lemma_walk_plan_files(src_dir, dst_dir, w),
                _ => {},
            }
            assert forall|i: int| 0 <= i < fs.len() implies called_for(src_dir, dst_dir, ls, #[trigger] fs[i]) by {
                if i < prev.len() {
                    assert(fs[i] == prev[i]);
                    assert(called_for(src_dir, dst_dir, init, prev[i]));
                    let k = choose|k: int| 0 <= k < init.len() && #[trigger] listed_copy(src_dir, dst_dir, init[k], prev[i]);
                    assert(ls[k] == init[k]);
                    assert(listed_copy(src_dir, dst_dir, ls[k], fs[i]));
                } else {
                    assert(ls[ls.len() - 1] == l);
                    assert(listed_copy(src_dir, dst_dir, ls[ls.len() - 1], fs[i]));
                }
            }
        }
    }
}

/// `f` mirrors its source into `dst_dir`: its destination is `dst_dir`
/// joined with the source's path relative to `src_dir`, which is either the
/// name the source was joined from (a listed entry) or what stripping
/// `src_dir` off the walked source path leaves.
pub open spec fn mirrors_source(src_dir: Seq<char>, dst_dir: Seq<char>, f: PlanPair) -> bool {
    exists|rel: Seq<char>|
        (f.0 == utf8_path_join(src_dir, rel) || utf8_path_strip_prefix(f.0, src_dir) == Some(rel))
            && f.1 == #[trigger] utf8_path_join(dst_dir, rel)
}

proof fn lemma_walk_plan_targets(src_dir: Seq<char>, dst_dir: Seq<char>, w: Seq<Seq<char>>)
    ensures
        walk_plan(src_dir, dst_dir, w) matches Ok(fs) ==> forall|i: int|
            0 <= i < fs.len() ==> mirrors_source(src_dir, dst_dir, #[trigger] fs[i]),
    decreases w.len(),
{
    if w.len() > 0 {
        lemma_walk_plan_targets(src_dir, dst_dir, w.drop_last());
        if walk_plan(src_dir, dst_dir, w) is Ok {
            let fs = walk_plan(src_dir, dst_dir, w)->Ok_0;
            let prev = walk_plan(src_dir, dst_dir, w.drop_last())->Ok_0;
            assert forall|i: int| 0 <= i < fs.len() implies mirrors_source(src_dir, dst_dir, #[trigger] fs[i]) by {
                if i < prev.len() {
                    assert(fs[i] == prev[i]);
                } else {
                    let rel = utf8_path_strip_prefix(w.last(), src_dir)->Some_0;
                    assert(fs[i].0 == w.last());
                    assert(fs[i].1 == utf8_path_join(dst_dir, rel));
                }
            }
        }
    }
}

/// Every planned copy mirrors its source into the new profile's directory:
/// the destination is `dst_dir` joined with the path of the source relative
/// to `src_dir` (a listed entry's name, or the walked path with `src_dir`
/// stripped off).
pub proof fn lemma_plan_mirrors_sources(
    src_dir: Seq<char>,
    dst_dir: Seq<char>,
    ls: Seq<(Seq<char>, ListingView)>,
)
    ensures
        build_plan(src_dir, dst_dir, ls) matches Ok((items, fs)) ==> forall|i: int|
            0 <= i < fs.len() ==> mirrors_source(src_dir, dst_dir, #[trigger] fs[i]),
    decreases ls.len(),
{
    if ls.len() > 0 {
        let init = ls.drop_last();
        lemma_plan_mirrors_sources(src_dir, dst_dir, init);
        if build_plan(src_dir, dst_dir, ls) is Ok {
            let fs = build_plan(src_dir, dst_dir, ls)->Ok_0.1;
            let prev = build_plan(src_dir, dst_dir, init)->Ok_0.1;
            let l = ls.last();
            match l.1 {
                ListingView::Dir(w) => lemma_walk_plan_targets(src_dir, dst_dir, w),
                _ => {},
            }
            assert forall|i: int| 0 <= i < fs.len() implies mirrors_source(src_dir, dst_dir, #[trigger] fs[i]) by {
                if i < prev.len() {
                    assert(fs[i] == prev[i]);
                } else if l.1 is File {
                    assert(fs[i].0 == utf8_path_join(src_dir, l.0));
                    assert(fs[i].1 == utf8_path_join(dst_dir, l.0));
                } else {
                    let w = l.1->Dir_0;
                    let wf = walk_plan(src_dir, dst_dir, w)->Ok_0;
                    assert(fs[i] == wf[i - prev.len()]);
                }
            }
        }
    }
}

/// Sanitizing changes nothing but `account_info`, `signin` and `profile`:
/// every other setting of the `Preferences` object (the Vivaldi settings,
/// themes, shortcuts, extension settings, ...) keeps its value. Inside an
/// object `profile`, every member but `name` and `is_using_default_name`
/// keeps its value too.
pub proof fn lemma_sanitize_keeps_other_settings(m: Members, name: Seq<char>, k: Seq<char>)
    requires
        keys_unique(m),
    ensures
        k != "account_info"@ && k != "signin"@ && k != "profile"@ ==> member(
            sanitized(JsonValue::Object(m), name)->Object_0,
            k,
        ) == member(m, k),
        member(m, "profile"@) matches Some(JsonValue::Object(p)) ==> (member(
            sanitized(JsonValue::Object(m), name)->Object_0,
            "profile"@,
        ) matches Some(JsonValue::Object(p2)) && (k != "name"@ && k != "is_using_default_name"@
            ==> member(p2, k) == member(p, k))),
{
    lemma_preference_keys_distinct();
    let after = sanitized(JsonValue::Object(m), name)->Object_0;
    let m1 = without_member(m, "account_info"@);
    lemma_without_member(m, "account_info"@);
    lemma_member_without(m, "account_info"@, "profile"@);
    lemma_member_without(m, "account_info"@, "signin"@);
    if k != "account_info"@ {
        lemma_member_without(m, "account_info"@, k);
    }
    lemma_key_pos(m1, "signin"@);
    lemma_key_pos(m1, "profile"@);
    lemma_key_pos(m1, k);
    let m2 = match member(m1, "signin"@) {
        Some(JsonValue::Object(_)) => set_at(m1, key_pos(m1, "signin"@), empty_object()),
        _ => m1,
    };
    if member(m1, "signin"@) matches Some(JsonValue::Object(_)) {
        let sp = key_pos(m1, "signin"@);
        lemma_member_set_at(m1, sp, empty_object(), k);
        lemma_member_set_at(m1, sp, empty_object(), "profile"@);
        if has_key(m1, k) && key_pos(m1, k) == sp {
            assert(m1[sp].0 == k);
        }
        if has_key(m1, "profile"@) && key_pos(m1, "profile"@) == sp {
            assert(m1[sp].0 == "profile"@);
        }
    }
    let (m3, pp) = ensured(m2, "profile"@, empty_object());
    lemma_member_ensured(m2, "profile"@, empty_object(), k);
    lemma_member_ensured(m2, "profile"@, empty_object(), "profile"@);
    lemma_key_pos(m3, k);
    lemma_key_pos(m3, "profile"@);
    if m3[pp].1 is Object {
        let p = m3[pp].1->Object_0;
        let pn = with_member(p, "name"@, JsonValue::Str(name));
        let pv = JsonValue::Object(with_member(pn, "is_using_default_name"@, JsonValue::Bool(false)));
        assert(after == set_at(m3, pp, pv));
        lemma_member_set_at(m3, pp, pv, k);
        lemma_member_set_at(m3, pp, pv, "profile"@);
        if has_key(m3, k) && key_pos(m3, k) == pp {
            assert(m3[pp].0 == k);
        }
        lemma_member_with(p, "name"@, JsonValue::Str(name), k);
        lemma_member_with(pn, "is_using_default_name"@, JsonValue::Bool(false), k);
    } else {
        assert(after == m3);
    }
}

/// The name `n` is one of the volatile `LevelDB` files `LOCK`, `LOG`,
/// `LOG.old`.
pub open spec fn volatile_leveldb_name(n: Seq<char>) -> bool {
    n == "LOCK"@ || n == "LOG"@ || n == "LOG.old"@
}

proof fn lemma_walk_plan_complete(src_dir: Seq<char>, dst_dir: Seq<char>, w: Seq<Seq<char>>, j: int)
    requires
        walk_plan(src_dir, dst_dir, w) is Ok,
        0 <= j < w.len(),
        !(utf8_path_file_name(w[j]) matches Some(n) && volatile_leveldb_name(n)),
    ensures
        utf8_path_strip_prefix(w[j], src_dir) matches Some(rel) && walk_plan(src_dir, dst_dir, w)->Ok_0.contains(
            (w[j], utf8_path_join(dst_dir, rel)),
        ),
    decreases w.len(),
{
    let init = w.drop_last();
    let prev = walk_plan(src_dir, dst_dir, init)->Ok_0;
    let fs = walk_plan(src_dir, dst_dir, w)->Ok_0;
    if j < w.len() - 1 {
        assert(init[j] == w[j]);
        lemma_walk_plan_complete(src_dir, dst_dir, init, j);
        let rel = utf8_path_strip_prefix(w[j], src_dir)->Some_0;
        let x = (w[j], utf8_path_join(dst_dir, rel));
        let k = choose|k: int| 0 <= k < prev.len() && prev[k] == x;
        assert(fs[k] == x);
    } else {
        assert(w.last() == w[j]);
        assert(!skipped_file(w[j]));
        let rel = utf8_path_strip_prefix(w[j], src_dir)->Some_0;
        assert(fs[prev.len() as int] == (w[j], utf8_path_join(dst_dir, rel)));
    }
}

/// The plan leaves nothing out. Every listed entry that is present is
/// among the plan's entries; a listed file entry is copied to the same name
/// in `dst_dir`; and every file walked below a listed directory that is not
/// a volatile `LOCK`, `LOG` or `LOG.old` file is copied, to `dst_dir` joined
/// with its path relative to `src_dir`, whatever the order of the walk.
/// The copy order (`CURRENT` files last) keeps every planned file.
pub proof fn lemma_plan_copies_every_listed_file(
    src_dir: Seq<char>,
    dst_dir: Seq<char>,
    ls: Seq<(Seq<char>, ListingView)>,
    k: int,
    j: int,
)
    requires
        build_plan(src_dir, dst_dir, ls) is Ok,
        0 <= k < ls.len(),
    ensures
        !(ls[k].1 is Absent) ==> build_plan(src_dir, dst_dir, ls)->Ok_0.0.contains(ls[k].0),
        ls[k].1 is File ==> build_plan(src_dir, dst_dir, ls)->Ok_0.1.contains(
            (utf8_path_join(src_dir, ls[k].0), utf8_path_join(dst_dir, ls[k].0)),
        ),
        ls[k].1 matches ListingView::Dir(w) ==> (0 <= j < w.len() && !(utf8_path_file_name(w[j]) matches Some(n)
            && volatile_leveldb_name(n)) ==> (utf8_path_strip_prefix(w[j], src_dir) matches Some(rel)
            && build_plan(src_dir, dst_dir, ls)->Ok_0.1.contains((w[j], utf8_path_join(dst_dir, rel)))
            && current_last(build_plan(src_dir, dst_dir, ls)->Ok_0.1).contains(
            (w[j], utf8_path_join(dst_dir, rel)),
        ))),
    decreases ls.len(),
{
    broadcast use vstd::seq_lib::group_to_multiset_ensures;

    let init = ls.drop_last();
    let (items, fs) = build_plan(src_dir, dst_dir, ls)->Ok_0;
    let (pitems, prev) = build_plan(src_dir, dst_dir, init)->Ok_0;
    lemma_current_last(fs);
    if k < ls.len() - 1 {
        assert(init[k] == ls[k]);
        lemma_plan_copies_every_listed_file(src_dir, dst_dir, init, k, j);
        if !(ls[k].1 is Absent) {
            let a = choose|a: int| 0 <= a < pitems.len() && pitems[a] == ls[k].0;
            assert(items[a] == ls[k].0);
        }
        if ls[k].1 is File {
            let x = (utf8_path_join(src_dir, ls[k].0), utf8_path_join(dst_dir, ls[k].0));
            let a = choose|a: int| 0 <= a < prev.len() && prev[a] == x;
            assert(fs[a] == x);
        }
        if ls[k].1 is Dir {
            let w = ls[k].1->Dir_0;
            if 0 <= j < w.len() && !(utf8_path_file_name(w[j]) matches Some(n) && volatile_leveldb_name(n)) {
                let rel = utf8_path_strip_prefix(w[j], src_dir)->Some_0;
                let x = (w[j], utf8_path_join(dst_dir, rel));
                let a = choose|a: int| 0 <= a < prev.len() && prev[a] == x;
                assert(fs[a] == x);
                assert(fs.to_multiset().count(x) > 0);
            }
        }
    } else {
        assert(ls.last() == ls[k]);
        if !(ls[k].1 is Absent) {
            assert(items[pitems.len() as int] == ls[k].0);
        }
        if ls[k].1 is File {
            assert(fs[prev.len() as int] == (utf8_path_join(src_dir, ls[k].0), utf8_path_join(dst_dir, ls[k].0)));
        }
        if ls[k].1 is Dir {
            let w = ls[k].1->Dir_0;
            if 0 <= j < w.len() && !(utf8_path_file_name(w[j]) matches Some(n) && volatile_leveldb_name(n)) {
                lemma_walk_plan_complete(src_dir, dst_dir, w, j);
                let wf = walk_plan(src_dir, dst_dir, w)->Ok_0;
                let rel = utf8_path_strip_prefix(w[j], src_dir)->Some_0;
                let x = (w[j], utf8_path_join(dst_dir, rel));
                let a = choose|a: int| 0 <= a < wf.len() && wf[a] == x;
                assert(fs[prev.len() + a] == x);
                assert(fs.to_multiset().count(x) > 0);
            }
        }
    }
}

proof fn lemma_walk_plan_order(src_dir: Seq<char>, dst_dir: Seq<char>, w: Seq<Seq<char>>, j1: int, j2: int)
    requires
        walk_plan(src_dir, dst_dir, w) is Ok,
        0 <= j1 < j2 < w.len(),
        !(utf8_path_file_name(w[j1]) matches Some(n) && volatile_leveldb_name(n)),
        !(utf8_path_file_name(w[j2]) matches Some(n) && volatile_leveldb_name(n)),
    ensures
        exists|a: int, b: int|
            0 <= a < b < walk_plan(src_dir, dst_dir, w)->Ok_0.len() && #[trigger] walk_plan(src_dir, dst_dir, w)->Ok_0[a].0
                == w[j1] && #[trigger] walk_plan(src_dir, dst_dir, w)->Ok_0[b].0 == w[j2],
    decreases w.len(),
{
    let init = w.drop_last();
    let prev = walk_plan(src_dir, dst_dir, init)->Ok_0;
    let fs = walk_plan(src_dir, dst_dir, w)->Ok_0;
    assert(init[j1] == w[j1]);
    if j2 < w.len() - 1 {
        assert(init[j2] == w[j2]);
        lemma_walk_plan_order(src_dir, dst_dir, init, j1, j2);
        let (a, b) = choose|a: int, b: int|
            0 <= a < b < prev.len() && #[trigger] prev[a].0 == init[j1] && #[trigger] prev[b].0 == init[j2];
        assert(fs[a] == prev[a] && fs[b] == prev[b]);
        assert(fs[a].0 == w[j1] && fs[b].0 == w[j2]);
    } else {
        lemma_walk_plan_complete(src_dir, dst_dir, init, j1);
        let rel = utf8_path_strip_prefix(w[j1], src_dir)->Some_0;
        let a = choose|a: int| 0 <= a < prev.len() && prev[a] == (w[j1], utf8_path_join(dst_dir, rel));
        assert(w.last() == w[j2]);
        assert(!skipped_file(w[j2]));
        assert(fs[a] == prev[a]);
        assert(fs[prev.len() as int].0 == w[j2]);
        assert(fs[a].0 == w[j1]);
        assert(a < prev.len() < fs.len());
    }
}

/// The files below a listed directory are planned in the order the walk
/// found them: of two copied files, the one walked first is planned first.
pub proof fn lemma_plan_keeps_walk_order(
    src_dir: Seq<char>,
    dst_dir: Seq<char>,
    ls: Seq<(Seq<char>, ListingView)>,
    k: int,
    j1: int,
    j2: int,
)
    requires
        build_plan(src_dir, dst_dir, ls) is Ok,
        0 <= k < ls.len(),
        ls[k].1 is Dir,
        0 <= j1 < j2 < ls[k].1->Dir_0.len(),
        !(utf8_path_file_name(ls[k].1->Dir_0[j1]) matches Some(n) && volatile_leveldb_name(n)),
        !(utf8_path_file_name(ls[k].1->Dir_0[j2]) matches Some(n) && volatile_leveldb_name(n)),
    ensures
        exists|a: int, b: int|
            0 <= a < b < build_plan(src_dir, dst_dir, ls)->Ok_0.1.len()
                && #[trigger] build_plan(src_dir, dst_dir, ls)->Ok_0.1[a].0 == ls[k].1->Dir_0[j1]
                && #[trigger] build_plan(src_dir, dst_dir, ls)->Ok_0.1[b].0 == ls[k].1->Dir_0[j2],
    decreases ls.len(),
{
    let init = ls.drop_last();
    let fs = build_plan(src_dir, dst_dir, ls)->Ok_0.1;
    let prev = build_plan(src_dir, dst_dir, init)->Ok_0.1;
    let w = ls[k].1->Dir_0;
    if k < ls.len() - 1 {
        assert(init[k] == ls[k]);
        lemma_plan_keeps_walk_order(src_dir, dst_dir, init, k, j1, j2);
        let (a, b) = choose|a: int, b: int|
            0 <= a < b < prev.len() && #[trigger] prev[a].0 == w[j1] && #[trigger] prev[b].0 == w[j2];
        assert(fs[a] == prev[a] && fs[b] == prev[b]);
    } else {
        assert(ls.last() == ls[k]);
        lemma_walk_plan_order(src_dir, dst_dir, w, j1, j2);
        let wf = walk_plan(src_dir, dst_dir, w)->Ok_0;
        let (a, b) = choose|a: int, b: int| 0 <= a < b < wf.len() && #[trigger] wf[a].0 == w[j1] && #[trigger] wf[b].0 == w[j2];
        assert(fs[prev.len() + a] == wf[a] && fs[prev.len() + b] == wf[b]);
    }
}

} // verus!

verus! {

/// What a clone copied (or, for a dry run, what it would copy).
#[derive(Debug)]
pub struct CloneReport {
    /// Top-level allowlist entries that were present in the source profile.
    pub items: Vec<String>,
    /// Number of files copied.
    pub files: usize,
    /// Number of files skipped because they vanished mid-copy (live source).
    pub skipped: usize,
    /// Total bytes copied.
    pub bytes: u64,
}

impl Default for CloneReport {
    fn default() -> (r: CloneReport)
        ensures
            r.items@.len() == 0,
            r.files == 0,
            r.skipped == 0,
            r.bytes == 0,
    {
        CloneReport { items: Vec::new(), files: 0, skipped: 0, bytes: 0 }
    }
}

impl CloneReport {
    /// The report of a plan before anything is copied: its entries, no files yet.
    pub fn for_plan(plan: &CopyPlan) -> (r: CloneReport)
        ensures
            string_views(r.items@) == string_views(plan.items@),
            r.files == 0,
            r.skipped == 0,
            r.bytes == 0,
    {
        let mut items: Vec<String> = Vec::new();
        let n = plan.items.len();
        for i in 0..n
            invariant
                n == plan.items@.len(),
                string_views(items@) == string_views(plan.items@).take(i as int),
        {
            let ghost before = string_views(items@);
            items.push(plan.items[i].clone());
            assert(string_views(items@) =~= before.push(plan.items@[i as int]@));
            assert(string_views(plan.items@).take(i + 1) =~= string_views(plan.items@).take(i as int).push(plan.items@[i as int]@));
        }
        assert(string_views(plan.items@).take(n as int) =~= string_views(plan.items@));
        CloneReport { items, files: 0, skipped: 0, bytes: 0 }
    }

    /// A dry run reports the number of planned files as copied.
    pub fn count_planned(&mut self, plan: &CopyPlan)
        ensures
            final(self).files == plan.files@.len(),
            final(self).items == old(self).items,
            final(self).skipped == old(self).skipped,
            final(self).bytes == old(self).bytes,
    {
        self.files = plan.files.len();
    }

    /// One file copied, `bytes` long.
    pub fn record_copied(&mut self, bytes: u64)
        requires
            old(self).files < usize::MAX,
            old(self).bytes + bytes <= u64::MAX,
        ensures
            final(self).files == old(self).files + 1,
            final(self).bytes == old(self).bytes + bytes,
            final(self).skipped == old(self).skipped,
            final(self).items == old(self).items,
    {
        self.bytes = self.bytes + bytes;
        self.files = self.files + 1;
    }

    /// One file skipped because it vanished between planning and copying.
    pub fn record_vanished(&mut self)
        requires
            old(self).skipped < usize::MAX,
        ensures
            final(self).skipped == old(self).skipped + 1,
            final(self).files == old(self).files,
            final(self).bytes == old(self).bytes,
            final(self).items == old(self).items,
    {
        self.skipped = self.skipped + 1;
    }

    /// The report for `plan` before anything is copied, and whether files
    /// are to be copied at all: a dry run counts the planned files as
    /// copied and copies nothing.
    pub fn begin(plan: &CopyPlan, dry_run: bool) -> (r: (CloneReport, bool))
        ensures
            string_views(r.0.items@) == string_views(plan.items@),
            r.0.files == (if dry_run { plan.files@.len() } else { 0 }),
            r.0.skipped == 0,
            r.0.bytes == 0,
            r.1 == !dry_run,
    {
        let mut report = CloneReport::for_plan(plan);
        if dry_run {
            report.count_planned(plan);
        }
        (report, !dry_run)
    }

    /// Whether the totals have room for `c`.
    pub fn can_record(&self, c: &FileCopy) -> (r: bool)
        ensures
            r == record_fits(*self, *c),
    {
        match c {
            FileCopy::Copied(b) => self.files < usize::MAX && self.bytes <= u64::MAX - *b,
            FileCopy::Missing => self.skipped < usize::MAX,
            FileCopy::Failed => true,
        }
    }

    /// Account for the copy of one planned file. A copied file adds to the
    /// files and bytes; a file that vanished between planning and copying
    /// (as a `LevelDB` compaction in a live source does) is skipped and
    /// counted; any other failure leaves the report as it is and stops the
    /// copy (`false`).
    pub fn record(&mut self, c: FileCopy) -> (go_on: bool)
        requires
            record_fits(*old(self), c),
        ensures
            go_on == !(c is Failed),
            final(self).items == old(self).items,
            final(self).files == old(self).files + (if c is Copied { 1int } else { 0int }),
            final(self).bytes == old(self).bytes + match c {
                FileCopy::Copied(b) => b as int,
                _ => 0int,
            },
            final(self).skipped == old(self).skipped + (if c is Missing { 1int } else { 0int }),
    {
        match c {
            FileCopy::Copied(b) => {
                self.record_copied(b);
                true
            },
            FileCopy::Missing => {
                self.record_vanished();
                true
            },
            FileCopy::Failed => false,
        }
    }
}

/// How copying one planned file went.
#[derive(Clone, Copy, Debug, PartialEq, Eq, Structural)]
pub enum FileCopy {
    /// Copied, this many bytes.
    Copied(u64),
    /// The source file was not found any more.
    Missing,
    /// Any other failure.
    Failed,
}

/// The report's totals have room for `c`.
pub open spec fn record_fits(r: CloneReport, c: FileCopy) -> bool {
    match c {
        FileCopy::Copied(b) => r.files < usize::MAX && r.bytes + b <= u64::MAX,
        FileCopy::Missing => r.skipped < usize::MAX,
        FileCopy::Failed => true,
    }
}

/// The `Preferences` document after sanitizing: `account_info` removed,
/// `signin` emptied when it is an object, and `profile.name` set with
/// `profile.is_using_default_name` cleared. A document that is not an
/// object is left alone.
pub open spec fn sanitized(root: JsonValue, name: Seq<char>) -> JsonValue {
    match root {
        JsonValue::Object(m) => {
            let m1 = without_member(m, "account_info"@);
            let m2 = match member(m1, "signin"@) {
                Some(JsonValue::Object(_)) => set_at(m1, key_pos(m1, "signin"@), empty_object()),
                _ => m1,
            };
            let (m3, pp) = ensured(m2, "profile"@, empty_object());
            let m4 = match m3[pp].1 {
                JsonValue::Object(p) => set_at(
                    m3,
                    pp,
                    JsonValue::Object(
                        with_member(
                            with_member(p, "name"@, JsonValue::Str(name)),
                            "is_using_default_name"@,
                            JsonValue::Bool(false),
                        ),
                    ),
                ),
                _ => m3,
            };
            JsonValue::Object(m4)
        },
        _ => root,
    }
}

/// Set the clone's display name and strip sign-in/account identity from its
/// `Preferences` document, so it starts signed out.
pub fn sanitize_preferences(doc: &mut Json, new_name: &str)
    ensures
        final(doc)@ == sanitized(old(doc)@, new_name@),
{
    let mut d = Json::Null;
    std::mem::swap(&mut d, doc);
    match d {
        Json::Object(mut m) => {
            let ghost m0 = view_members(m@);
            remove_member(&mut m, "account_info");
            let ghost m1 = view_members(m@);
            proof {
                lemma_view_members(m@);
            }
            match find_key(&m, "signin") {
                Some(i) => {
                    let is_obj = m[i].1.as_object().is_some();
                    if is_obj {
                        set_value(&mut m, i, Json::empty_object());
                    }
                },
                None => {},
            }
            let ghost m2 = view_members(m@);
            assert(m2 == match member(m1, "signin"@) {
                Some(JsonValue::Object(_)) => set_at(m1, key_pos(m1, "signin"@), empty_object()),
                _ => m1,
            });
            match take_object(&mut m, "profile") {
                Some((pp, mut p)) => {
                    put_member(&mut p, "name".to_owned(), Json::text(new_name));
                    put_member(&mut p, "is_using_default_name".to_owned(), Json::Bool(false));
                    set_value(&mut m, pp, Json::Object(p));
                    let ghost m3 = ensured(m2, "profile"@, empty_object()).0;
                    assert(view_members(m@) =~= set_at(m3, pp as int, view_members(m@)[pp as int].1));
                },
                None => {},
            }
            *doc = Json::Object(m);
        },
        other => {
            *doc = other;
        },
    }
}

proof fn lemma_preference_keys_distinct()
    ensures
        "account_info"@ != "profile"@,
        "account_info"@ != "signin"@,
        "signin"@ != "profile"@,
        "name"@ != "is_using_default_name"@,
{
    reveal_strlit("account_info");
    reveal_strlit("profile");
    reveal_strlit("signin");
    reveal_strlit("name");
    reveal_strlit("is_using_default_name");
    assert("account_info"@[0] != "profile"@[0]);
    assert("account_info"@[0] != "signin"@[0]);
    assert("signin"@[0] != "profile"@[0]);
    assert("name"@[0] != "is_using_default_name"@[0]);
}

/// `signin` is absent, not an object, or an empty object.
pub open spec fn signin_cleared(m: Members) -> bool {
    match member(m, "signin"@) {
        Some(JsonValue::Object(s)) => s.len() == 0,
        _ => true,
    }
}

/// `profile` is absent or an object.
pub open spec fn profile_object_or_absent(m: Members) -> bool {
    match member(m, "profile"@) {
        None => true,
        Some(JsonValue::Object(_)) => true,
        _ => false,
    }
}

/// `profile` is an object that names the profile `name`, not by default.
pub open spec fn profile_named(m: Members, name: Seq<char>) -> bool {
    match member(m, "profile"@) {
        Some(JsonValue::Object(p)) => {
            &&& member(p, "name"@) == Some(JsonValue::Str(name))
            &&& member(p, "is_using_default_name"@) == Some(JsonValue::Bool(false))
        },
        _ => false,
    }
}

/// A sanitized `Preferences` object (whose keys were unique, as parsed JSON's
/// are) holds no `account_info`; its `signin` is cleared; and its `profile`,
/// when it was an object or absent, is an object that names the clone `name`
/// with `is_using_default_name` false.
pub proof fn lemma_sanitized_preferences(m: Members, name: Seq<char>)
    requires
        keys_unique(m),
    ensures
        !has_key(sanitized(JsonValue::Object(m), name)->Object_0, "account_info"@),
        signin_cleared(sanitized(JsonValue::Object(m), name)->Object_0),
        profile_object_or_absent(m) ==> profile_named(sanitized(JsonValue::Object(m), name)->Object_0, name),
{
    lemma_preference_keys_distinct();
    let m1 = without_member(m, "account_info"@);
    lemma_without_member(m, "account_info"@);
    lemma_member_without(m, "account_info"@, "signin"@);
    lemma_member_without(m, "account_info"@, "profile"@);
    lemma_key_pos(m1, "signin"@);
    lemma_key_pos(m1, "profile"@);
    let m2 = match member(m1, "signin"@) {
        Some(JsonValue::Object(_)) => set_at(m1, key_pos(m1, "signin"@), empty_object()),
        _ => m1,
    };
    if member(m1, "signin"@) matches Some(JsonValue::Object(_)) {
        let sp = key_pos(m1, "signin"@);
        lemma_has_key_set_at(m1, sp, empty_object(), "account_info"@);
        lemma_member_set_at(m1, sp, empty_object(), "signin"@);
        lemma_member_set_at(m1, sp, empty_object(), "profile"@);
        if has_key(m1, "profile"@) && key_pos(m1, "profile"@) == sp {
            assert(m1[sp].0 == "profile"@);
        }
    }
    let (m3, pp) = ensured(m2, "profile"@, empty_object());
    lemma_has_key_ensured(m2, "profile"@, empty_object(), "account_info"@);
    lemma_member_ensured(m2, "profile"@, empty_object(), "signin"@);
    lemma_member_ensured(m2, "profile"@, empty_object(), "profile"@);
    lemma_key_pos(m3, "signin"@);
    lemma_key_pos(m3, "profile"@);
    let after = sanitized(JsonValue::Object(m), name)->Object_0;
    if m3[pp].1 is Object {
        let p = m3[pp].1->Object_0;
        let pn = with_member(p, "name"@, JsonValue::Str(name));
        let pv = JsonValue::Object(with_member(pn, "is_using_default_name"@, JsonValue::Bool(false)));
        assert(after == set_at(m3, pp, pv));
        lemma_has_key_set_at(m3, pp, pv, "account_info"@);
        lemma_member_set_at(m3, pp, pv, "signin"@);
        lemma_member_set_at(m3, pp, pv, "profile"@);
        if has_key(m3, "signin"@) && key_pos(m3, "signin"@) == pp {
            assert(m3[pp].0 == "signin"@);
        }
        lemma_member_with(p, "name"@, JsonValue::Str(name), "name"@);
        lemma_member_with(pn, "is_using_default_name"@, JsonValue::Bool(false), "name"@);
        lemma_member_with(pn, "is_using_default_name"@, JsonValue::Bool(false), "is_using_default_name"@);
    } else {
        assert(after == m3);
    }
}

} // verus!

//! The profile model and source-profile resolution.
use vstd::prelude::*;

use crate::error::Error;
use crate::text::{
    eq_ignore_ascii_case, lemma_eq_ignore_ascii_case_letters, same_ignoring_ascii_case,
    same_text, same_up_to_ascii_case, string_views,
};

verus! {

/// Metadata about a single Vivaldi profile, as registered in `Local State`
/// under `profile.info_cache.<dir>`.
#[derive(Debug)]
pub struct ProfileInfo {
    /// On-disk directory name, e.g. `Default` or `Profile 1`.
    pub dir: String,
    /// Display name shown in the profile switcher, e.g. `Privat`.
    pub name: String,
    /// Avatar icon URL.
    pub avatar_icon: Option<String>,
    /// Whether the profile uses a stock (non-account) avatar.
    pub is_using_default_avatar: bool,
}

/// The mathematical content of a [`ProfileInfo`].
pub struct ProfileView {
    pub dir: Seq<char>,
    pub name: Seq<char>,
    pub avatar_icon: Option<Seq<char>>,
    pub is_using_default_avatar: bool,
}

pub open spec fn opt_view(o: Option<String>) -> Option<Seq<char>> {
    match o {
        Some(s) => Some(s@),
        None => None,
    }
}

impl View for ProfileInfo {
    type V = ProfileView;

    open spec fn view(&self) -> ProfileView {
        ProfileView {
            dir: self.dir@,
            name: self.name@,
            avatar_icon: opt_view(self.avatar_icon),
            is_using_default_avatar: self.is_using_default_avatar,
        }
    }
}

pub(crate) fn clone_opt_string(o: &Option<String>) -> (r: Option<String>)
    ensures
        opt_view(r) == opt_view(*o),
{
    match o {
        Some(s) => Some(s.clone()),
        None => None,
    }
}

impl Clone for ProfileInfo {
    fn clone(&self) -> (r: Self)
        ensures
            r@ == self@,
    {
        ProfileInfo {
            dir: self.dir.clone(),
            name: self.name.clone(),
            avatar_icon: clone_opt_string(&self.avatar_icon),
            is_using_default_avatar: self.is_using_default_avatar,
        }
    }
}

/// Whether `query` names the profile `p`: its directory exactly, or its
/// display name up to ASCII case.
pub open spec fn names_profile(p: ProfileView, query: Seq<char>) -> bool {
    p.dir == query || eq_ignore_ascii_case(p.name, query)
}

impl ProfileInfo {
    /// Returns `true` if `query` matches this profile by directory name
    /// (case-sensitive) or display name (ASCII case-insensitive).
    pub fn matches(&self, query: &str) -> (r: bool)
        ensures
            r == names_profile(self@, query@),
    {
        same_text(self.dir.as_str(), query) || same_ignoring_ascii_case(self.name.as_str(), query)
    }
}

pub open spec fn profile_views(s: Seq<ProfileInfo>) -> Seq<ProfileView> {
    s.map_values(|p: ProfileInfo| p@)
}

/// `i` is the first position of `ps` whose directory is `query`.
pub open spec fn first_dir_match(ps: Seq<ProfileView>, query: Seq<char>, i: int) -> bool {
    &&& 0 <= i < ps.len()
    &&& ps[i].dir == query
    &&& forall|j: int| 0 <= j < i ==> #[trigger] ps[j].dir != query
}

pub open spec fn has_dir(ps: Seq<ProfileView>, query: Seq<char>) -> bool {
    exists|i: int| 0 <= i < ps.len() && #[trigger] ps[i].dir == query
}

/// The positions of `ps` whose display name is `query` up to ASCII case, in order.
pub open spec fn name_matches(ps: Seq<ProfileView>, query: Seq<char>) -> Seq<int>
    decreases ps.len(),
{
    if ps.len() == 0 {
        Seq::empty()
    } else {
        let p = name_matches(ps.drop_last(), query);
        if eq_ignore_ascii_case(ps.last().name, query) {
            p.push(ps.len() - 1)
        } else {
            p
        }
    }
}

/// The directories of `ps` at the positions `idx`.
pub open spec fn dirs_at(ps: Seq<ProfileView>, idx: Seq<int>) -> Seq<Seq<char>> {
    idx.map_values(|i: int| ps[i].dir)
}

/// `e` is the error `ProfileNotFound(query)`.
pub open spec fn is_not_found(e: Error, query: Seq<char>) -> bool {
    e matches Error::ProfileNotFound(q) && q@ == query
}

/// `e` is the error `AmbiguousProfile { query, matches }` with these values.
pub open spec fn is_ambiguous(e: Error, query: Seq<char>, matches: Seq<Seq<char>>) -> bool {
    e matches Error::AmbiguousProfile { query: q, matches: m } && q@ == query && string_views(m@)
        == matches
}

/// What [`resolve`] answers: an exact directory match first; otherwise the one
/// profile whose display name matches up to ASCII case; otherwise an error.
pub open spec fn resolve_ok(ps: Seq<ProfileView>, query: Seq<char>, r: Result<ProfileView, Error>) -> bool {
    if has_dir(ps, query) {
        exists|i: int| first_dir_match(ps, query, i) && r == Ok::<ProfileView, Error>(ps[i])
    } else {
        let m = name_matches(ps, query);
        if m.len() == 0 {
            r matches Err(e) && is_not_found(e, query)
        } else if m.len() == 1 {
            r == Ok::<ProfileView, Error>(ps[m[0]])
        } else {
            r matches Err(e) && is_ambiguous(e, query, dirs_at(ps, m))
        }
    }
}

pub open spec fn resolved_view(r: Result<&ProfileInfo, Error>) -> Result<ProfileView, Error> {
    match r {
        Ok(p) => Ok(p@),
        Err(e) => Err(e),
    }
}

proof fn lemma_name_matches(ps: Seq<ProfileView>, query: Seq<char>)
    ensures
        forall|k: int| 0 <= k < name_matches(ps, query).len() ==> 0 <= #[trigger] name_matches(ps, query)[k] < ps.len()
            && eq_ignore_ascii_case(ps[name_matches(ps, query)[k]].name, query),
        forall|k: int, l: int| 0 <= k < l < name_matches(ps, query).len() ==> #[trigger] name_matches(ps, query)[k] < #[trigger] name_matches(ps, query)[l],
    decreases ps.len(),
{
    if ps.len() > 0 {
        lemma_name_matches(ps.drop_last(), query);
    }
}

/// Resolve a single profile from `profiles` given a user `query`.
///
/// An exact directory-name match wins immediately; otherwise ASCII
/// case-insensitive display-name matches are considered. No match gives
/// `ProfileNotFound`, more than one gives `AmbiguousProfile` with the matching
/// directories in order.
pub fn resolve<'a>(profiles: &'a [ProfileInfo], query: &str) -> (r: Result<&'a ProfileInfo, Error>)
    ensures
        resolve_ok(profile_views(profiles@), query@, resolved_view(r)),
{
    let ghost ps = profile_views(profiles@);
    let n = profiles.len();
    for i in 0..n
        invariant
            n == profiles@.len(),
            ps == profile_views(profiles@),
            forall|j: int| 0 <= j < i ==> #[trigger] ps[j].dir != query@,
    {
        assert(ps[i as int] == profiles@[i as int]@);
        if same_text(profiles[i].dir.as_str(), query) {
            assert(first_dir_match(ps, query@, i as int));
            return Ok(&profiles[i]);
        }
    }
    assert(!has_dir(ps, query@));
    // Collect the positions whose display name matches.
    let mut found: Vec<usize> = Vec::new();
    for i in 0..n
        invariant
            n == profiles@.len(),
            ps == profile_views(profiles@),
            found@.map_values(|k: usize| k as int) == name_matches(ps.take(i as int), query@),
    {
        assert(ps.take(i + 1).drop_last() =~= ps.take(i as int));
        assert(ps[i as int] == profiles@[i as int]@);
        let ghost before = found@;
        if same_ignoring_ascii_case(profiles[i].name.as_str(), query) {
            found.push(i);
            assert(found@.map_values(|k: usize| k as int) =~= before.map_values(|k: usize| k as int).push(i as int));
        }
    }
    assert(ps.take(n as int) =~= ps);
    let ghost m = name_matches(ps, query@);
    assert(found@.map_values(|k: usize| k as int) == m);
    if found.len() == 0 {
        Err(Error::ProfileNotFound(query.to_owned()))
    } else if found.len() == 1 {
        assert(m[0] == found@[0] as int);
        proof {
            lemma_name_matches(ps, query@);
        }
        Ok(&profiles[found[0]])
    } else {
        proof {
            lemma_name_matches(ps, query@);
        }
        let mut dirs: Vec<String> = Vec::new();
        for i in 0..n
            invariant
                n == profiles@.len(),
                ps == profile_views(profiles@),
                !has_dir(ps, query@),
                string_views(dirs@) == dirs_at(ps, name_matches(ps.take(i as int), query@)),
        {
            assert(ps.take(i + 1).drop_last() =~= ps.take(i as int));
            assert(ps[i as int] == profiles@[i as int]@);
            let ghost before = dirs@;
            assert(ps[i as int].dir != query@);
            if profiles[i].matches(query) {
                dirs.push(profiles[i].dir.clone());
                assert(string_views(dirs@) =~= string_views(before).push(ps[i as int].dir));
            }
            proof {
                let a = name_matches(ps.take(i + 1), query@);
                let b = name_matches(ps.take(i as int), query@);
                assert(forall|k: int| 0 <= k < b.len() ==> ps.take(i as int)[b[k]] == ps[b[k]]) by {
                    lemma_name_matches(ps.take(i as int), query@);
                }
                if eq_ignore_ascii_case(ps[i as int].name, query@) {
                    assert(a == b.push(i as int));
                    assert(dirs_at(ps, a) =~= dirs_at(ps, b).push(ps[i as int].dir));
                } else {
                    assert(a == b);
                }
            }
        }
        assert(ps.take(n as int) =~= ps);
        Err(Error::AmbiguousProfile { query: query.to_owned(), matches: dirs })
    }
}

proof fn lemma_name_matches_complete(ps: Seq<ProfileView>, query: Seq<char>, i: int)
    requires
        0 <= i < ps.len(),
        eq_ignore_ascii_case(ps[i].name, query),
    ensures
        name_matches(ps, query).contains(i),
    decreases ps.len(),
{
    let m = name_matches(ps, query);
    if i < ps.len() - 1 {
        assert(ps.drop_last()[i] == ps[i]);
        lemma_name_matches_complete(ps.drop_last(), query, i);
        let p = name_matches(ps.drop_last(), query);
        let k = choose|k: int| 0 <= k < p.len() && p[k] == i;
        assert(m[k] == i);
    } else {
        assert(m[m.len() - 1] == i);
    }
}

/// What resolving `query` answers, in terms of the profiles alone:
/// - a profile whose directory is `query` always wins, the first such;
/// - otherwise the answer is the one profile whose display name equals
///   `query` up to ASCII case, when there is exactly one;
/// - `ProfileNotFound(query)` only when no directory and no display name
///   matches;
/// - `AmbiguousProfile` only when no directory matches and two different
///   profiles' display names do;
/// - every profile handed back is one of `ps` and matches `query`.
pub proof fn lemma_resolve_answers(ps: Seq<ProfileView>, query: Seq<char>, r: Result<ProfileView, Error>)
    requires
        resolve_ok(ps, query, r),
    ensures
        r matches Ok(p) ==> (exists|i: int| 0 <= i < ps.len() && ps[i] == p) && (p.dir == query
            || eq_ignore_ascii_case(p.name, query)),
        forall|i: int|
            0 <= i < ps.len() && ps[i].dir == query && (forall|j: int| 0 <= j < i ==> #[trigger] ps[j].dir != query)
                ==> r == Ok::<ProfileView, Error>(#[trigger] ps[i]),
        forall|i: int|
            0 <= i < ps.len() && (forall|j: int| 0 <= j < ps.len() ==> #[trigger] ps[j].dir != query)
                && eq_ignore_ascii_case(ps[i].name, query) && (forall|j: int|
                0 <= j < ps.len() && j != i ==> !eq_ignore_ascii_case(#[trigger] ps[j].name, query))
                ==> r == Ok::<ProfileView, Error>(#[trigger] ps[i]),
        r matches Err(e) ==> (e is ProfileNotFound || e is AmbiguousProfile),
        r matches Err(Error::ProfileNotFound(q)) ==> q@ == query && forall|i: int|
            0 <= i < ps.len() ==> #[trigger] ps[i].dir != query && !eq_ignore_ascii_case(ps[i].name, query),
        r matches Err(Error::AmbiguousProfile { query: q, matches }) ==> q@ == query && (forall|i: int|
            0 <= i < ps.len() ==> #[trigger] ps[i].dir != query) && exists|i: int, j: int|
            0 <= i < j < ps.len() && eq_ignore_ascii_case(#[trigger] ps[i].name, query)
                && eq_ignore_ascii_case(#[trigger] ps[j].name, query),
{
    lemma_name_matches(ps, query);
    let m = name_matches(ps, query);
    if has_dir(ps, query) {
        let i = choose|i: int| first_dir_match(ps, query, i) && r == Ok::<ProfileView, Error>(ps[i]);
        assert forall|i2: int|
            0 <= i2 < ps.len() && ps[i2].dir == query && (forall|j: int| 0 <= j < i2 ==> #[trigger] ps[j].dir != query)
                implies r == Ok::<ProfileView, Error>(#[trigger] ps[i2]) by {
            if i2 < i {
                assert(ps[i2].dir != query);
            } else if i < i2 {
                assert(ps[i].dir != query);
            }
        }
    } else {
        assert forall|i: int| 0 <= i < ps.len() implies #[trigger] ps[i].dir != query by {}
        assert forall|i: int|
            0 <= i < ps.len() && eq_ignore_ascii_case(ps[i].name, query) && (forall|j: int|
                0 <= j < ps.len() && j != i ==> !eq_ignore_ascii_case(#[trigger] ps[j].name, query))
                implies r == Ok::<ProfileView, Error>(#[trigger] ps[i]) by {
            lemma_name_matches_complete(ps, query, i);
            let k = choose|k: int| 0 <= k < m.len() && m[k] == i;
            if m.len() > 1 {
                let other = if k == 0 { 1int } else { 0int };
                assert(m[other] != m[k]);
                assert(eq_ignore_ascii_case(ps[m[other]].name, query));
            }
        }
        if m.len() == 0 {
            assert forall|i: int| 0 <= i < ps.len() implies #[trigger] ps[i].dir != query && !eq_ignore_ascii_case(
                ps[i].name,
                query,
            ) by {
                if eq_ignore_ascii_case(ps[i].name, query) {
                    lemma_name_matches_complete(ps, query, i);
                }
            }
        } else if m.len() == 1 {
        } else {
            assert(m[0] < m[1]);
            assert(eq_ignore_ascii_case(ps[m[0]].name, query));
            assert(eq_ignore_ascii_case(ps[m[1]].name, query));
        }
    }
}

/// A profile matches a query when its directory is the query exactly, or
/// its display name is the query with ASCII letters' case ignored: the same
/// length, and at each position the same character or the other case of
/// the same ASCII letter.
pub proof fn lemma_matches_by_dir_or_name(p: ProfileView, query: Seq<char>)
    ensures
        names_profile(p, query) <==> (p.dir == query || (p.name.len() == query.len() && forall|i: int|
            0 <= i < query.len() ==> #[trigger] same_up_to_ascii_case(p.name[i], query[i]))),
{
    lemma_eq_ignore_ascii_case_letters(p.name, query);
}

} // verus!

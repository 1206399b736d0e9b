//! Reading and editing Vivaldi's `Local State` profile registry.
//!
//! `Local State` is a JSON document at the user-data root. The profile
//! switcher is driven by `profile.info_cache` (keyed by directory name),
//! ordered by `profile.profiles_order`, with `profile.profiles_created` acting
//! as the directory-number counter and `profile.metrics.next_bucket_index`
//! allocating unique per-profile metrics buckets. Only the keys this module
//! cares about are touched; every other member keeps its value and position.
use vstd::prelude::*;

use crate::error::Error;
use crate::json::{
    empty_array, empty_object, ensured, find_key, has_key, is_first_key, key_pos, lemma_key_pos,
    keys_unique, lemma_member_ensured, lemma_member_set_at, lemma_member_with, lemma_unique_pos,
    lemma_view_items,
    lemma_view_members, member, number_as_i64,
    number_from_i64, put_member, set_at, set_value, take_array, take_object, then_bool, then_get,
    then_i64, then_object, then_str, then_u64, view_items, view_json, view_members, with_member, Json,
    JsonNumber, JsonValue, Members,
};
use crate::profile::{first_dir_match, has_dir, profile_views, ProfileInfo, ProfileView, resolve, resolve_ok};
use crate::text::{
    chars_of, decimal, lemma_parse_decimal, parse_decimal_from, parse_u64, push_decimal, same_text,
};

verus! {

/// File name of the user-data-root registry.
pub const LOCAL_STATE_FILE: &'static str = "Local State";

/// An in-memory, editable view of `Local State`.
#[derive(Debug)]
pub struct LocalState {
    path: String,
    root: Json,
}

/// The mathematical content of a [`LocalState`].
pub struct LocalStateView {
    pub path: Seq<char>,
    pub root: JsonValue,
}

impl View for LocalState {
    type V = LocalStateView;

    closed spec fn view(&self) -> LocalStateView {
        LocalStateView { path: self.path@, root: self.root@ }
    }
}

/// The `profile` object of the registry.
pub open spec fn profile_obj(root: JsonValue) -> Option<Members> {
    then_object(root.get("profile"@))
}

/// The `profile.info_cache` object of the registry.
pub open spec fn info_cache(root: JsonValue) -> Option<Members> {
    match profile_obj(root) {
        Some(p) => then_object(member(p, "info_cache"@)),
        None => None,
    }
}

/// The profile described by the `info_cache` entry `dir: v`.
pub open spec fn profile_of(dir: Seq<char>, v: JsonValue) -> ProfileView {
    ProfileView {
        dir,
        name: match then_str(v.get("name"@)) {
            Some(s) => s,
            None => Seq::empty(),
        },
        avatar_icon: then_str(v.get("avatar_icon"@)),
        is_using_default_avatar: match then_bool(v.get("is_using_default_avatar"@)) {
            Some(b) => b,
            None => true,
        },
    }
}

/// All registered profiles, in `info_cache` order.
pub open spec fn profiles_of(root: JsonValue) -> Seq<ProfileView> {
    match info_cache(root) {
        Some(ic) => ic.map_values(|e: (Seq<char>, JsonValue)| profile_of(e.0, e.1)),
        None => Seq::empty(),
    }
}

/// The directory name of profile number `n`: `Profile n`.
pub open spec fn profile_dir_of(n: u64) -> Seq<char> {
    "Profile "@ + decimal(n as nat)
}

/// The number of a `Profile N` directory name.
pub open spec fn profile_number(dir: Seq<char>) -> Option<u64> {
    if dir.len() >= "Profile "@.len() && dir.take("Profile "@.len() as int) == "Profile "@ {
        parse_u64(dir.skip("Profile "@.len() as int))
    } else {
        None
    }
}

/// Whether a profile with directory `dir` is registered.
pub open spec fn is_registered(root: JsonValue, dir: Seq<char>) -> bool {
    exists|i: int| 0 <= i < profiles_of(root).len() && #[trigger] profiles_of(root)[i].dir == dir
}

/// The first directory number to try: the `profiles_created` counter, at least 1.
pub open spec fn first_candidate(root: JsonValue) -> u64 {
    let c = match profile_obj(root) {
        Some(p) => match then_u64(member(p, "profiles_created"@)) {
            Some(n) => n,
            None => 1,
        },
        None => 1,
    };
    if c < 1 { 1 } else { c }
}

/// The directory name `Profile n`.
pub fn profile_dir_name(n: u64) -> (r: String)
    ensures
        r@ == profile_dir_of(n),
{
    let mut s = "Profile ".to_owned();
    push_decimal(&mut s, n);
    s
}

/// Parse the trailing integer of a `Profile N` directory name.
pub fn dir_number(dir: &str) -> (r: Option<u64>)
    ensures
        r == profile_number(dir@),
{
    proof {
        reveal_strlit("Profile ");
    }
    let cs = chars_of(dir);
    let prefix = chars_of("Profile ");
    let k = prefix.len();
    if cs.len() < k {
        return None;
    }
    for i in 0..k
        invariant
            k == prefix@.len(),
            k <= cs@.len(),
            prefix@ == "Profile "@,
            cs@ == dir@,
            forall|j: int| 0 <= j < i ==> cs@[j] == prefix@[j],
    {
        if cs[i] != prefix[i] {
            assert(dir@.take(k as int)[i as int] != "Profile "@[i as int]);
            return None;
        }
    }
    assert(dir@.take(k as int) =~= "Profile "@);
    parse_decimal_from(&cs, k)
}

/// The number of the directory `Profile n` is `n`: the directory names the
/// search hands out are read back as the numbers they were made from.
pub proof fn lemma_profile_dir_round_trip(n: u64)
    ensures
        profile_number(profile_dir_of(n)) == Some(n),
{
    reveal_strlit("Profile ");
    let d = profile_dir_of(n);
    assert(d.take("Profile "@.len() as int) =~= "Profile "@);
    assert(d.skip("Profile "@.len() as int) =~= decimal(n as nat));
    lemma_parse_decimal(n);
}

/// Whether some entry of `profiles` has directory `dir`.
fn has_profile_dir(profiles: &Vec<ProfileInfo>, dir: &String) -> (r: bool)
    ensures
        r == exists|i: int| 0 <= i < profiles@.len() && #[trigger] profiles@[i].dir@ == dir@,
{
    let n = profiles.len();
    for i in 0..n
        invariant
            n == profiles@.len(),
            forall|j: int| 0 <= j < i ==> #[trigger] profiles@[j].dir@ != dir@,
    {
        if profiles[i].dir == *dir {
            return true;
        }
    }
    false
}

impl LocalState {
    /// A registry loaded from `path` with document `root`.
    pub fn new(path: String, root: Json) -> (r: LocalState)
        ensures
            r@.path == path@,
            r@.root == root@,
    {
        LocalState { path, root }
    }

    /// The path this state was loaded from.
    pub fn path(&self) -> (r: &str)
        ensures
            r@ == self@.path,
    {
        self.path.as_str()
    }

    /// The whole document.
    pub fn root(&self) -> (r: &Json)
        ensures
            r@ == self@.root,
    {
        &self.root
    }

    fn info_cache(&self) -> (r: Option<&Vec<(String, Json)>>)
        ensures
            match r {
                Some(m) => info_cache(self@.root) == Some(view_members(m@)),
                None => info_cache(self@.root) is None,
            },
    {
        match self.root.get("profile") {
            Some(p) => match p.as_object() {
                Some(pm) => {
                    proof {
                        lemma_view_members(pm@);
                    }
                    let pj = p;
                    match pj.get("info_cache") {
                        Some(ic) => ic.as_object(),
                        None => None,
                    }
                },
                None => None,
            },
            None => None,
        }
    }

    /// All registered profiles, in `info_cache` order. Empty if the registry
    /// has no `info_cache` yet.
    pub fn profiles(&self) -> (r: Vec<ProfileInfo>)
        ensures
            profile_views(r@) == profiles_of(self@.root),
    {
        let mut out: Vec<ProfileInfo> = Vec::new();
        let ic = match self.info_cache() {
            Some(ic) => ic,
            None => {
                assert(profile_views(out@) =~= profiles_of(self@.root));
                return out;
            },
        };
        let ghost vm = view_members(ic@);
        proof {
            lemma_view_members(ic@);
        }
        let n = ic.len();
        for i in 0..n
            invariant
                n == ic@.len(),
                vm == view_members(ic@),
                vm.len() == n,
                forall|j: int| 0 <= j < n ==> #[trigger] vm[j] == (ic@[j].0@, view_json(ic@[j].1)),
                info_cache(self@.root) == Some(vm),
                profile_views(out@) =~= profiles_of(self@.root).take(i as int),
        {
            let (dir, value) = (&ic[i].0, &ic[i].1);
            let name = match value.get("name") {
                Some(v) => match v.as_str() {
                    Some(s) => s.clone(),
                    None => String::new(),
                },
                None => String::new(),
            };
            let avatar_icon = match value.get("avatar_icon") {
                Some(v) => match v.as_str() {
                    Some(s) => Some(s.clone()),
                    None => None,
                },
                None => None,
            };
            let is_using_default_avatar = match value.get("is_using_default_avatar") {
                Some(v) => match v.as_bool() {
                    Some(b) => b,
                    None => true,
                },
                None => true,
            };
            let p = ProfileInfo { dir: dir.clone(), name, avatar_icon, is_using_default_avatar };
            assert(p@ == profile_of(vm[i as int].0, vm[i as int].1));
            assert(profiles_of(self@.root)[i as int] == profile_of(vm[i as int].0, vm[i as int].1));
            let ghost before = profile_views(out@);
            out.push(p);
            assert(profile_views(out@) =~= before.push(p@));
            assert(profiles_of(self@.root).take(i + 1) =~= profiles_of(self@.root).take(i as int).push(
                profiles_of(self@.root)[i as int],
            ));
        }
        assert(profiles_of(self@.root).take(n as int) =~= profiles_of(self@.root));
        out
    }

    /// Resolve a single profile from a name-or-directory `query`, as
    /// [`resolve`] does over [`LocalState::profiles`].
    pub fn resolve_profile(&self, query: &str) -> (r: Result<ProfileInfo, Error>)
        ensures
            resolve_ok(
                profiles_of(self@.root),
                query@,
                match r {
                    Ok(p) => Ok(p@),
                    Err(e) => Err(e),
                },
            ),
    {
        let profiles = self.profiles();
        match resolve(profiles.as_slice(), query) {
            Ok(p) => Ok(p.clone()),
            Err(e) => Err(e),
        }
    }

    /// The first directory number to try for a new profile: the
    /// `profiles_created` counter, but at least 1.
    pub fn first_profile_number(&self) -> (r: u64)
        ensures
            r == first_candidate(self@.root),
    {
        let c = match self.root.get("profile") {
            Some(p) => match p.as_object() {
                Some(_) => match p.get("profiles_created") {
                    Some(v) => match v.as_u64() {
                        Some(n) => n,
                        None => 1,
                    },
                    None => 1,
                },
                None => 1,
            },
            None => 1,
        };
        if c < 1 { 1 } else { c }
    }

    /// One step of the search for the next free `Profile N` directory.
    ///
    /// `Profile n` is taken when it is free both in `info_cache` and on disk
    /// (`exists_on_disk` tells whether the user-data directory already holds
    /// an entry of that name); otherwise the search goes on with `n + 1`.
    /// The search starts at [`LocalState::first_profile_number`], because
    /// deleted profiles leave gaps that the counter alone does not cover.
    pub fn next_profile_dir_step(&self, n: u64, exists_on_disk: bool) -> (r: Result<String, u64>)
        requires
            n < u64::MAX,
        ensures
            match r {
                Ok(dir) => dir@ == profile_dir_of(n) && !is_registered(self@.root, profile_dir_of(n))
                    && !exists_on_disk,
                Err(next) => next == n + 1 && (is_registered(self@.root, profile_dir_of(n))
                    || exists_on_disk),
            },
    {
        let dir = profile_dir_name(n);
        let profiles = self.profiles();
        let taken = has_profile_dir(&profiles, &dir);
        proof {
            if taken {
                let i = choose|i: int| 0 <= i < profiles@.len() && #[trigger] profiles@[i].dir@ == dir@;
                assert(profile_views(profiles@)[i].dir == dir@);
            }
            if is_registered(self@.root, dir@) {
                let i = choose|i: int| 0 <= i < profiles_of(self@.root).len() && #[trigger] profiles_of(self@.root)[i].dir == dir@;
                assert(profile_views(profiles@)[i] == profiles@[i]@);
            }
        }
        if !taken && !exists_on_disk {
            Ok(dir)
        } else {
            Err(n + 1)
        }
    }
}


/// The fields needed to register a freshly cloned profile in `info_cache`.
#[derive(Debug)]
pub struct NewProfile<'a> {
    /// On-disk directory name, e.g. `Profile 4`.
    pub dir: &'a str,
    /// Display name shown in the profile switcher.
    pub name: &'a str,
    /// Avatar icon URL to inherit/assign, if any.
    pub avatar_icon: Option<&'a str>,
    /// Whether the profile uses a stock (non-account) avatar.
    pub is_using_default_avatar: bool,
    /// A freshly allocated, unique metrics bucket index.
    pub metrics_bucket_index: i64,
}

/// The mathematical content of a [`NewProfile`].
pub struct NewProfileView {
    pub dir: Seq<char>,
    pub name: Seq<char>,
    pub avatar_icon: Option<Seq<char>>,
    pub is_using_default_avatar: bool,
    pub metrics_bucket_index: i64,
}

impl<'a> View for NewProfile<'a> {
    type V = NewProfileView;

    open spec fn view(&self) -> NewProfileView {
        NewProfileView {
            dir: self.dir@,
            name: self.name@,
            avatar_icon: match self.avatar_icon {
                Some(a) => Some(a@),
                None => None,
            },
            is_using_default_avatar: self.is_using_default_avatar,
            metrics_bucket_index: self.metrics_bucket_index,
        }
    }
}

/// `profile.metrics.next_bucket_index`, or 1.
pub open spec fn metrics_next(root: JsonValue) -> i64 {
    match profile_obj(root) {
        Some(p) => match then_i64(then_get(member(p, "metrics"@), "next_bucket_index"@)) {
            Some(i) => i,
            None => 1,
        },
        None => 1,
    }
}

/// The metrics bucket of an `info_cache` entry.
pub open spec fn bucket_of(v: JsonValue) -> Option<i64> {
    then_i64(v.get("metrics_bucket_index"@))
}

/// The largest metrics bucket among the entries of `ic`, if any has one.
pub open spec fn max_bucket(ic: Members) -> Option<i64>
    decreases ic.len(),
{
    if ic.len() == 0 {
        None
    } else {
        let p = max_bucket(ic.drop_last());
        match bucket_of(ic.last().1) {
            Some(b) => match p {
                Some(q) => Some(if q < b { b } else { q }),
                None => Some(b),
            },
            None => p,
        }
    }
}

/// The largest bucket in `info_cache`, or 0 when there is none.
pub open spec fn max_existing(root: JsonValue) -> int {
    match info_cache(root) {
        Some(ic) => match max_bucket(ic) {
            Some(b) => b as int,
            None => 0,
        },
        None => 0,
    }
}

pub open spec fn max_int(a: int, b: int) -> int {
    if a < b { b } else { a }
}

/// The bucket to allocate next: at least `metrics.next_bucket_index`, above
/// every bucket in use, and at least 1 (bucket 0 is the Guest profile's).
pub open spec fn next_bucket(root: JsonValue) -> int {
    max_int(max_int(metrics_next(root) as int, max_existing(root) + 1), 1)
}

/// `b` exceeds the metrics bucket of every `info_cache` entry.
pub open spec fn exceeds_all_buckets(root: JsonValue, b: int) -> bool {
    forall|i: int|
        #![trigger info_cache(root)->0[i]]
        info_cache(root) is Some && 0 <= i < info_cache(root)->0.len() ==> match bucket_of(
            info_cache(root)->0[i].1,
        ) {
            Some(x) => x < b,
            None => true,
        }
}

proof fn lemma_max_bucket(ic: Members)
    ensures
        forall|i: int| 0 <= i < ic.len() ==> match #[trigger] bucket_of(ic[i].1) {
            Some(x) => max_bucket(ic) matches Some(m) && x <= m,
            None => true,
        },
    decreases ic.len(),
{
    if ic.len() > 0 {
        lemma_max_bucket(ic.drop_last());
        assert forall|i: int| 0 <= i < ic.len() implies match #[trigger] bucket_of(ic[i].1) {
            Some(x) => max_bucket(ic) matches Some(m) && x <= m,
            None => true,
        } by {
            if i < ic.len() - 1 {
                assert(ic.drop_last()[i] == ic[i]);
                assert(bucket_of(ic.drop_last()[i].1) == bucket_of(ic[i].1));
            }
        }
    }
}

/// The `info_cache` entry written for `new`. Account and sign-in fields are
/// deliberately absent, so the clone is not tied to the source's account.
pub open spec fn entry_members(new: NewProfileView) -> Members {
    seq![
        ("name"@, JsonValue::Str(new.name)),
        ("is_using_default_name"@, JsonValue::Bool(false)),
        ("is_using_default_avatar"@, JsonValue::Bool(new.is_using_default_avatar)),
    ] + match new.avatar_icon {
        Some(a) => seq![("avatar_icon"@, JsonValue::Str(a))],
        None => Seq::empty(),
    } + seq![
        ("metrics_bucket_index"@, JsonValue::Number(number_from_i64(new.metrics_bucket_index))),
        ("is_ephemeral"@, JsonValue::Bool(false)),
    ]
}

/// Whether `profiles_order` lists `dir`.
pub open spec fn order_has(o: Seq<JsonValue>, dir: Seq<char>) -> bool {
    exists|i: int| 0 <= i < o.len() && #[trigger] o[i].as_str() == Some(dir)
}

/// The directory number of `dir`, or 0.
pub open spec fn used_number(dir: Seq<char>) -> int {
    match profile_number(dir) {
        Some(n) => n as int,
        None => 0,
    }
}

/// `profiles_created`, or 0.
pub open spec fn old_created(p: Members) -> int {
    match then_u64(member(p, "profiles_created"@)) {
        Some(n) => n as int,
        None => 0,
    }
}

/// The members of `profile` after registering `new`, and the message of the
/// structural error met on the way, if any (the members are then those
/// reached at that point).
pub open spec fn profile_registered(p: Members, new: NewProfileView) -> (Members, Option<Seq<char>>) {
    let (p1, ip) = ensured(p, "info_cache"@, empty_object());
    match p1[ip].1 {
        JsonValue::Object(ic) => {
            let p2 = set_at(
                p1,
                ip,
                JsonValue::Object(with_member(ic, new.dir, JsonValue::Object(entry_members(new)))),
            );
            let (p3, op) = ensured(p2, "profiles_order"@, empty_array());
            match p3[op].1 {
                JsonValue::Array(o) => {
                    let o2 = if order_has(o, new.dir) {
                        o
                    } else {
                        o.push(JsonValue::Str(new.dir))
                    };
                    let p4 = set_at(p3, op, JsonValue::Array(o2));
                    let created = max_int(old_created(p4), used_number(new.dir) + 1);
                    let p5 = with_member(
                        p4,
                        "profiles_created"@,
                        JsonValue::Number(JsonNumber::PosInt(created as u64)),
                    );
                    let (p6, mp) = ensured(p5, "metrics"@, empty_object());
                    match p6[mp].1 {
                        JsonValue::Object(mm) => (
                            set_at(
                                p6,
                                mp,
                                JsonValue::Object(
                                    with_member(
                                        mm,
                                        "next_bucket_index"@,
                                        JsonValue::Number(
                                            number_from_i64((new.metrics_bucket_index + 1) as i64),
                                        ),
                                    ),
                                ),
                            ),
                            None,
                        ),
                        _ => (p6, Some("`metrics` is not an object"@)),
                    }
                },
                _ => (p3, Some("`profiles_order` is not an array"@)),
            }
        },
        _ => (p1, Some("`info_cache` is not an object"@)),
    }
}

/// The document after registering `new`, and the message of the structural
/// error met on the way, if any.
pub open spec fn registered(root: JsonValue, new: NewProfileView) -> (JsonValue, Option<Seq<char>>) {
    match root {
        JsonValue::Object(r) => {
            let (r1, pp) = ensured(r, "profile"@, empty_object());
            match r1[pp].1 {
                JsonValue::Object(p) => {
                    let (p_after, err) = profile_registered(p, new);
                    (JsonValue::Object(set_at(r1, pp, JsonValue::Object(p_after))), err)
                },
                _ => (JsonValue::Object(r1), Some("`profile` is not an object"@)),
            }
        },
        _ => (root, Some("top level is not a JSON object"@)),
    }
}

/// Registering `new` never overflows a counter: the directory number is
/// below `u64::MAX` and the bucket below `i64::MAX`.
pub open spec fn can_register(new: NewProfileView) -> bool {
    &&& new.metrics_bucket_index < i64::MAX
    &&& profile_number(new.dir) != Some(u64::MAX)
}

/// The counters `register` advances in the members `p` of `profile` do not
/// overflow, where it reaches them: the directory counter once `info_cache`
/// is an object and `profiles_order` an array, the bucket counter once
/// `metrics` is an object as well.
pub open spec fn profile_register_fits(p: Members, new: NewProfileView) -> bool {
    let (p1, ip) = ensured(p, "info_cache"@, empty_object());
    match p1[ip].1 {
        JsonValue::Object(ic) => {
            let p2 = set_at(
                p1,
                ip,
                JsonValue::Object(with_member(ic, new.dir, JsonValue::Object(entry_members(new)))),
            );
            let (p3, op) = ensured(p2, "profiles_order"@, empty_array());
            match p3[op].1 {
                JsonValue::Array(o) => {
                    &&& profile_number(new.dir) != Some(u64::MAX)
                    &&& {
                        let o2 = if order_has(o, new.dir) {
                            o
                        } else {
                            o.push(JsonValue::Str(new.dir))
                        };
                        let p4 = set_at(p3, op, JsonValue::Array(o2));
                        let created = max_int(old_created(p4), used_number(new.dir) + 1);
                        let p5 = with_member(
                            p4,
                            "profiles_created"@,
                            JsonValue::Number(JsonNumber::PosInt(created as u64)),
                        );
                        let (p6, mp) = ensured(p5, "metrics"@, empty_object());
                        p6[mp].1 is Object ==> new.metrics_bucket_index < i64::MAX
                    }
                },
                _ => true,
            }
        },
        _ => true,
    }
}

/// The counters `register` advances in `root` do not overflow, where it
/// reaches them (a document without an object `profile` reaches none).
pub open spec fn register_fits(root: JsonValue, new: NewProfileView) -> bool {
    match root {
        JsonValue::Object(r) => {
            let (r1, pp) = ensured(r, "profile"@, empty_object());
            match r1[pp].1 {
                JsonValue::Object(p) => profile_register_fits(p, new),
                _ => true,
            }
        },
        _ => true,
    }
}

/// Counters far from their limits fit wherever registration reaches them.
pub proof fn lemma_can_register_fits(root: JsonValue, new: NewProfileView)
    requires
        can_register(new),
    ensures
        register_fits(root, new),
{
}

/// `e` is `MalformedLocalState(msg)`.
pub open spec fn is_malformed(e: Error, msg: Seq<char>) -> bool {
    e matches Error::MalformedLocalState(m) && m@ == msg
}

fn malformed(msg: &str) -> (e: Error)
    ensures
        is_malformed(e, msg@),
{
    Error::MalformedLocalState(msg.to_owned())
}

fn entry_for(new: &NewProfile) -> (r: Vec<(String, Json)>)
    ensures
        view_members(r@) == entry_members(new@),
{
    let mut e: Vec<(String, Json)> = Vec::new();
    e.push(("name".to_owned(), Json::text(new.name)));
    e.push(("is_using_default_name".to_owned(), Json::Bool(false)));
    e.push(("is_using_default_avatar".to_owned(), Json::Bool(new.is_using_default_avatar)));
    match new.avatar_icon {
        Some(icon) => e.push(("avatar_icon".to_owned(), Json::text(icon))),
        None => {},
    }
    e.push(("metrics_bucket_index".to_owned(), Json::from_i64(new.metrics_bucket_index)));
    e.push(("is_ephemeral".to_owned(), Json::Bool(false)));
    proof {
        lemma_view_members(e@);
        assert(view_members(e@) =~= entry_members(new@));
    }
    e
}

fn order_contains(o: &Vec<Json>, dir: &str) -> (r: bool)
    ensures
        r == order_has(view_items(o@), dir@),
{
    proof {
        lemma_view_items(o@);
    }
    let n = o.len();
    for i in 0..n
        invariant
            n == o@.len(),
            view_items(o@).len() == n,
            forall|j: int| 0 <= j < n ==> #[trigger] view_items(o@)[j] == view_json(o@[j]),
            forall|j: int| 0 <= j < i ==> #[trigger] view_items(o@)[j].as_str() != Some(dir@),
    {
        match o[i].as_str() {
            Some(s) => if same_text(s.as_str(), dir) {
                assert(view_items(o@)[i as int].as_str() == Some(dir@));
                return true;
            },
            None => {},
        }
    }
    false
}

fn member_u64(p: &Vec<(String, Json)>, key: &str) -> (r: Option<u64>)
    ensures
        r == then_u64(member(view_members(p@), key@)),
{
    proof {
        lemma_view_members(p@);
    }
    match find_key(p, key) {
        Some(i) => p[i].1.as_u64(),
        None => None,
    }
}

/// Registers `new` in the members of the `profile` object.
fn register_in_profile(p: &mut Vec<(String, Json)>, new: &NewProfile) -> (r: Result<(), Error>)
    requires
        profile_register_fits(view_members(old(p)@), new@),
    ensures
        view_members(final(p)@) == profile_registered(view_members(old(p)@), new@).0,
        match profile_registered(view_members(old(p)@), new@).1 {
            None => r is Ok,
            Some(msg) => r matches Err(e) && is_malformed(e, msg),
        },
{
    let ghost p0 = view_members(p@);
    let (ip, mut ic) = match take_object(p, "info_cache") {
        Some(x) => x,
        None => return Err(malformed("`info_cache` is not an object")),
    };
    let ghost p1 = ensured(p0, "info_cache"@, empty_object()).0;
    put_member(&mut ic, new.dir.to_owned(), Json::Object(entry_for(new)));
    set_value(p, ip, Json::Object(ic));
    let ghost p2 = view_members(p@);
    assert(p2 =~= set_at(
        p1,
        ip as int,
        JsonValue::Object(with_member(p1[ip as int].1->Object_0, new.dir@, JsonValue::Object(entry_members(new@)))),
    ));
    let (op, mut o) = match take_array(p, "profiles_order") {
        Some(x) => x,
        None => return Err(malformed("`profiles_order` is not an array")),
    };
    let ghost p3 = ensured(p2, "profiles_order"@, empty_array()).0;
    if !order_contains(&o, new.dir) {
        let ghost before = o@;
        let t = Json::text(new.dir);
        o.push(t);
        proof {
            lemma_view_items(before);
            lemma_view_items(o@);
            assert(view_items(o@) =~= view_items(before).push(JsonValue::Str(new.dir@)));
        }
    }
    set_value(p, op, Json::Array(o));
    let ghost p4 = view_members(p@);
    assert(p4 =~= set_at(p3, op as int, p4[op as int].1));
    let used: u64 = match dir_number(new.dir) {
        Some(n) => n,
        None => 0,
    };
    let old: u64 = match member_u64(p, "profiles_created") {
        Some(n) => n,
        None => 0,
    };
    let created: u64 = if old < used + 1 { used + 1 } else { old };
    put_member(p, "profiles_created".to_owned(), Json::from_u64(created));
    let ghost p5 = view_members(p@);
    let (mp, mut mm) = match take_object(p, "metrics") {
        Some(x) => x,
        None => return Err(malformed("`metrics` is not an object")),
    };
    let ghost p6 = ensured(p5, "metrics"@, empty_object()).0;
    put_member(&mut mm, "next_bucket_index".to_owned(), Json::from_i64(new.metrics_bucket_index + 1));
    set_value(p, mp, Json::Object(mm));
    assert(view_members(p@) =~= set_at(p6, mp as int, view_members(p@)[mp as int].1));
    Ok(())
}

impl LocalState {
    /// The largest metrics bucket among the `info_cache` entries, if any has one.
    pub fn max_bucket_index(&self) -> (r: Option<i64>)
        ensures
            r == match info_cache(self@.root) {
                Some(ic) => max_bucket(ic),
                None => None,
            },
    {
        let ic = match self.info_cache() {
            Some(ic) => ic,
            None => return None,
        };
        let ghost vm = view_members(ic@);
        proof {
            lemma_view_members(ic@);
        }
        let n = ic.len();
        let mut best: Option<i64> = None;
        for i in 0..n
            invariant
                n == ic@.len(),
                vm == view_members(ic@),
                vm.len() == n,
                forall|j: int| 0 <= j < n ==> #[trigger] vm[j] == (ic@[j].0@, view_json(ic@[j].1)),
                best == max_bucket(vm.take(i as int)),
        {
            assert(vm.take(i + 1).drop_last() =~= vm.take(i as int));
            let b = match ic[i].1.get("metrics_bucket_index") {
                Some(v) => v.as_i64(),
                None => None,
            };
            assert(b == bucket_of(vm[i as int].1));
            match b {
                Some(x) => {
                    best = match best {
                        Some(q) => Some(if q < x { x } else { q }),
                        None => Some(x),
                    };
                },
                None => {},
            }
        }
        assert(vm.take(n as int) =~= vm);
        best
    }

    /// Allocate a fresh, unique `metrics_bucket_index`: never less than 1
    /// (bucket 0 is reserved for the Guest profile), never less than
    /// `metrics.next_bucket_index`, and always above every existing bucket.
    pub fn next_bucket_index(&self) -> (r: i64)
        requires
            max_existing(self@.root) < i64::MAX,
        ensures
            r == next_bucket(self@.root),
            r >= 1,
            r >= metrics_next(self@.root),
            exceeds_all_buckets(self@.root, r as int),
    {
        let metrics_next: i64 = match self.root.get("profile") {
            Some(p) => match p.as_object() {
                Some(_) => match p.get("metrics") {
                    Some(m) => match m.get("next_bucket_index") {
                        Some(v) => match v.as_i64() {
                            Some(i) => i,
                            None => 1,
                        },
                        None => 1,
                    },
                    None => 1,
                },
                None => 1,
            },
            None => 1,
        };
        let max_existing: i64 = match self.max_bucket_index() {
            Some(b) => b,
            None => 0,
        };
        proof {
            match info_cache(self@.root) {
                Some(ic) => lemma_max_bucket(ic),
                None => {},
            }
        }
        let a = if metrics_next < max_existing + 1 { max_existing + 1 } else { metrics_next };
        if a < 1 { 1 } else { a }
    }

    /// Register a freshly cloned profile: insert its `info_cache` entry,
    /// append it to `profiles_order`, advance the directory counter, and bump
    /// `metrics.next_bucket_index`. Account/sign-in fields are intentionally
    /// omitted so the clone is not tied to the source account.
    ///
    /// A document whose structure is not what the registry needs gives
    /// `MalformedLocalState`; the members reached by then keep the changes
    /// made to them.
    pub fn register(&mut self, new: &NewProfile) -> (r: Result<(), Error>)
        requires
            register_fits(old(self)@.root, new@),
        ensures
            final(self)@.path == old(self)@.path,
            final(self)@.root == registered(old(self)@.root, new@).0,
            match registered(old(self)@.root, new@).1 {
                None => r is Ok,
                Some(msg) => r matches Err(e) && is_malformed(e, msg),
            },
    {
        let mut root = Json::Null;
        std::mem::swap(&mut root, &mut self.root);
        let ghost r0 = root@;
        let res = match root {
            Json::Object(mut r) => {
                let ghost rm = view_members(r@);
                match take_object(&mut r, "profile") {
                    Some((pp, mut p)) => {
                        let res = register_in_profile(&mut p, new);
                        set_value(&mut r, pp, Json::Object(p));
                        let ghost r1 = ensured(rm, "profile"@, empty_object()).0;
                        assert(view_members(r@) =~= set_at(r1, pp as int, view_members(r@)[pp as int].1));
                        self.root = Json::Object(r);
                        res
                    },
                    None => {
                        self.root = Json::Object(r);
                        Err(malformed("`profile` is not an object"))
                    },
                }
            },
            other => {
                self.root = other;
                Err(malformed("top level is not a JSON object"))
            },
        };
        res
    }
}

} // verus!

verus! {

proof fn lemma_registry_keys_distinct()
    ensures
        "info_cache"@ != "profiles_order"@,
        "info_cache"@ != "profiles_created"@,
        "info_cache"@ != "metrics"@,
        "profiles_order"@ != "profiles_created"@,
        "profiles_order"@ != "metrics"@,
        "profiles_created"@ != "metrics"@,
        "name"@ != "is_using_default_name"@,
        "name"@ != "is_using_default_avatar"@,
        "is_using_default_name"@ != "is_using_default_avatar"@,
        "avatar_icon"@ != "name"@,
        "avatar_icon"@ != "is_using_default_name"@,
        "avatar_icon"@ != "is_using_default_avatar"@,
        "avatar_icon"@ != "metrics_bucket_index"@,
        "avatar_icon"@ != "is_ephemeral"@,
{
    reveal_strlit("info_cache");
    reveal_strlit("profiles_order");
    reveal_strlit("profiles_created");
    reveal_strlit("metrics");
    reveal_strlit("name");
    reveal_strlit("is_using_default_name");
    reveal_strlit("is_using_default_avatar");
    reveal_strlit("avatar_icon");
    reveal_strlit("metrics_bucket_index");
    reveal_strlit("is_ephemeral");
    assert("info_cache"@[0] != "profiles_order"@[0]);
    assert("info_cache"@[0] != "profiles_created"@[0]);
    assert("info_cache"@[0] != "metrics"@[0]);
    assert("profiles_order"@.len() != "profiles_created"@.len());
    assert("profiles_order"@[0] != "metrics"@[0]);
    assert("profiles_created"@[0] != "metrics"@[0]);
    assert("name"@[0] != "is_using_default_name"@[0]);
    assert("name"@[0] != "is_using_default_avatar"@[0]);
    assert("is_using_default_name"@[17] != "is_using_default_avatar"@[17]);
    assert("avatar_icon"@[0] != "name"@[0]);
    assert("avatar_icon"@[0] != "is_using_default_name"@[0]);
    assert("avatar_icon"@[0] != "is_using_default_avatar"@[0]);
    assert("avatar_icon"@[0] != "metrics_bucket_index"@[0]);
    assert("avatar_icon"@[0] != "is_ephemeral"@[0]);
}

/// The members of `profile` that a successful registration leaves behind.
proof fn lemma_profile_registered(p: Members, new: NewProfileView)
    requires
        profile_registered(p, new).1 is None,
        can_register(new),
    ensures
        ({
            let (p1, ip) = ensured(p, "info_cache"@, empty_object());
            let pa = profile_registered(p, new).0;
            &&& p1[ip].1 is Object
            &&& member(pa, "info_cache"@) == Some(JsonValue::Object(
                with_member(p1[ip].1->Object_0, new.dir, JsonValue::Object(entry_members(new))),
            ))
            &&& then_object(member(pa, "metrics"@)) matches Some(mm) && member(mm, "next_bucket_index"@)
                == Some(JsonValue::Number(number_from_i64((new.metrics_bucket_index + 1) as i64)))
            &&& then_u64(member(pa, "profiles_created"@)) matches Some(c) && c >= used_number(new.dir) + 1
                && c >= old_created(p)
            &&& member(pa, "profiles_order"@) matches Some(JsonValue::Array(o2)) && match member(
                p,
                "profiles_order"@,
            ) {
                Some(JsonValue::Array(o)) => if exists|i: int|
                    0 <= i < o.len() && #[trigger] o[i].as_str() == Some(new.dir) {
                    o2 == o
                } else {
                    o2 == o.push(JsonValue::Str(new.dir))
                },
                None => o2 == seq![JsonValue::Str(new.dir)],
                _ => false,
            }
        }),
{
    lemma_registry_keys_distinct();
    let (p1, ip) = ensured(p, "info_cache"@, empty_object());
    lemma_member_ensured(p, "info_cache"@, empty_object(), "info_cache"@);
    let ic = p1[ip].1->Object_0;
    let ic2 = JsonValue::Object(with_member(ic, new.dir, JsonValue::Object(entry_members(new))));
    let p2 = set_at(p1, ip, ic2);
    lemma_member_set_at(p1, ip, ic2, "info_cache"@);
    let (p3, op) = ensured(p2, "profiles_order"@, empty_array());
    lemma_member_ensured(p2, "profiles_order"@, empty_array(), "info_cache"@);
    lemma_member_ensured(p2, "profiles_order"@, empty_array(), "profiles_order"@);
    let o = p3[op].1->Array_0;
    let o2 = if order_has(o, new.dir) { o } else { o.push(JsonValue::Str(new.dir)) };
    let p4 = set_at(p3, op, JsonValue::Array(o2));
    lemma_member_set_at(p3, op, JsonValue::Array(o2), "info_cache"@);
    let created = max_int(old_created(p4), used_number(new.dir) + 1);
    let cv = JsonValue::Number(JsonNumber::PosInt(created as u64));
    let p5 = with_member(p4, "profiles_created"@, cv);
    lemma_member_with(p4, "profiles_created"@, cv, "info_cache"@);
    lemma_member_with(p4, "profiles_created"@, cv, "profiles_created"@);
    let (p6, mp) = ensured(p5, "metrics"@, empty_object());
    lemma_member_ensured(p5, "metrics"@, empty_object(), "info_cache"@);
    lemma_member_ensured(p5, "metrics"@, empty_object(), "profiles_created"@);
    lemma_member_ensured(p5, "metrics"@, empty_object(), "metrics"@);
    let mm = p6[mp].1->Object_0;
    let nb = JsonValue::Number(number_from_i64((new.metrics_bucket_index + 1) as i64));
    let mv = JsonValue::Object(with_member(mm, "next_bucket_index"@, nb));
    lemma_member_set_at(p6, mp, mv, "info_cache"@);
    lemma_member_set_at(p6, mp, mv, "profiles_created"@);
    lemma_member_set_at(p6, mp, mv, "metrics"@);
    lemma_member_with(mm, "next_bucket_index"@, nb, "next_bucket_index"@);
    lemma_key_pos(p3, "info_cache"@);
    lemma_key_pos(p3, "profiles_order"@);
    lemma_key_pos(p6, "metrics"@);
    lemma_key_pos(p6, "info_cache"@);
    lemma_key_pos(p6, "profiles_created"@);
    lemma_member_ensured(p, "info_cache"@, empty_object(), "profiles_order"@);
    lemma_member_ensured(p, "info_cache"@, empty_object(), "profiles_created"@);
    lemma_member_set_at(p1, ip, ic2, "profiles_order"@);
    lemma_member_set_at(p1, ip, ic2, "profiles_created"@);
    lemma_member_ensured(p2, "profiles_order"@, empty_array(), "profiles_created"@);
    lemma_member_set_at(p3, op, JsonValue::Array(o2), "profiles_order"@);
    lemma_member_set_at(p3, op, JsonValue::Array(o2), "profiles_created"@);
    lemma_member_with(p4, "profiles_created"@, cv, "profiles_order"@);
    lemma_member_ensured(p5, "metrics"@, empty_object(), "profiles_order"@);
    lemma_member_set_at(p6, mp, mv, "profiles_order"@);
    lemma_key_pos(p1, "profiles_order"@);
    lemma_key_pos(p1, "profiles_created"@);
    lemma_key_pos(p2, "profiles_order"@);
    lemma_key_pos(p2, "profiles_created"@);
    lemma_key_pos(p4, "profiles_order"@);
    lemma_key_pos(p4, "profiles_created"@);
    lemma_key_pos(p5, "profiles_order"@);
    lemma_key_pos(p6, "profiles_order"@);
    if member(p, "profiles_order"@) is None {
        assert(o =~= Seq::<JsonValue>::empty());
        assert(!order_has(o, new.dir));
        assert(o2 =~= seq![JsonValue::Str(new.dir)]);
    }
}

/// The state after a successful registration, as seen through `profile`.
proof fn lemma_registered_profile_obj(root: JsonValue, new: NewProfileView)
    requires
        registered(root, new).1 is None,
        can_register(new),
    ensures
        root is Object,
        ({
            let (r1, pp) = ensured(root->Object_0, "profile"@, empty_object());
            &&& r1[pp].1 is Object
            &&& profile_registered(r1[pp].1->Object_0, new).1 is None
            &&& profile_obj(registered(root, new).0) == Some(profile_registered(r1[pp].1->Object_0, new).0)
            &&& profile_obj(root) == if has_key(root->Object_0, "profile"@) {
                Some(r1[pp].1->Object_0)
            } else {
                None::<Members>
            }
        }),
{
    let r = root->Object_0;
    let (r1, pp) = ensured(r, "profile"@, empty_object());
    lemma_member_ensured(r, "profile"@, empty_object(), "profile"@);
    let pa = profile_registered(r1[pp].1->Object_0, new).0;
    lemma_member_set_at(r1, pp, JsonValue::Object(pa), "profile"@);
    lemma_key_pos(r, "profile"@);
}

proof fn lemma_entry_profile(new: NewProfileView)
    ensures
        profile_of(new.dir, JsonValue::Object(entry_members(new))) == (ProfileView {
            dir: new.dir,
            name: new.name,
            avatar_icon: new.avatar_icon,
            is_using_default_avatar: new.is_using_default_avatar,
        }),
{
    lemma_registry_keys_distinct();
    let e = entry_members(new);
    lemma_key_pos(e, "name"@);
    assert(is_first_key(e, "name"@, 0));
    lemma_key_pos(e, "is_using_default_avatar"@);
    assert(is_first_key(e, "is_using_default_avatar"@, 2));
    lemma_key_pos(e, "avatar_icon"@);
    match new.avatar_icon {
        Some(a) => {
            assert(is_first_key(e, "avatar_icon"@, 3));
        },
        None => {
            assert(!has_key(e, "avatar_icon"@));
        },
    }
}

/// After a successful registration the new profile is listed, with the
/// directory, name and avatar it was registered with, and resolving its
/// directory finds exactly that profile.
pub proof fn lemma_registered_profile_is_listed(root: JsonValue, new: NewProfileView)
    requires
        registered(root, new).1 is None,
        can_register(new),
    ensures
        ({
            let after = registered(root, new).0;
            let expected = ProfileView {
                dir: new.dir,
                name: new.name,
                avatar_icon: new.avatar_icon,
                is_using_default_avatar: new.is_using_default_avatar,
            };
            &&& exists|i: int| 0 <= i < profiles_of(after).len() && profiles_of(after)[i] == expected
            &&& is_registered(after, new.dir)
            &&& resolve_ok(profiles_of(after), new.dir, Ok(expected))
        }),
{
    lemma_registered_profile_obj(root, new);
    let r = root->Object_0;
    let (r1, pp) = ensured(r, "profile"@, empty_object());
    let p = r1[pp].1->Object_0;
    lemma_profile_registered(p, new);
    let (p1, ip) = ensured(p, "info_cache"@, empty_object());
    let ic = p1[ip].1->Object_0;
    let e = JsonValue::Object(entry_members(new));
    let ic2 = with_member(ic, new.dir, e);
    let after = registered(root, new).0;
    assert(info_cache(after) == Some(ic2));
    lemma_member_with(ic, new.dir, e, new.dir);
    lemma_key_pos(ic2, new.dir);
    let i = key_pos(ic2, new.dir);
    assert(ic2[i].1 == e);
    lemma_entry_profile(new);
    let ps = profiles_of(after);
    let expected = ProfileView {
        dir: new.dir,
        name: new.name,
        avatar_icon: new.avatar_icon,
        is_using_default_avatar: new.is_using_default_avatar,
    };
    assert(ps[i] == expected);
    assert(ps[i].dir == new.dir);
    assert forall|j: int| 0 <= j < i implies #[trigger] ps[j].dir != new.dir by {
        assert(ps[j].dir == ic2[j].0);
    }
    assert(first_dir_match(ps, new.dir, i));
    assert(has_dir(ps, new.dir));
}

proof fn lemma_entry_keys_distinct()
    ensures
        "name"@ != "is_using_default_name"@,
        "name"@ != "is_using_default_avatar"@,
        "name"@ != "avatar_icon"@,
        "name"@ != "metrics_bucket_index"@,
        "name"@ != "is_ephemeral"@,
        "is_using_default_name"@ != "is_using_default_avatar"@,
        "is_using_default_name"@ != "avatar_icon"@,
        "is_using_default_name"@ != "metrics_bucket_index"@,
        "is_using_default_name"@ != "is_ephemeral"@,
        "is_using_default_avatar"@ != "avatar_icon"@,
        "is_using_default_avatar"@ != "metrics_bucket_index"@,
        "is_using_default_avatar"@ != "is_ephemeral"@,
        "avatar_icon"@ != "metrics_bucket_index"@,
        "avatar_icon"@ != "is_ephemeral"@,
        "metrics_bucket_index"@ != "is_ephemeral"@,
{
    reveal_strlit("name");
    reveal_strlit("is_using_default_name");
    reveal_strlit("is_using_default_avatar");
    reveal_strlit("avatar_icon");
    reveal_strlit("metrics_bucket_index");
    reveal_strlit("is_ephemeral");
    assert("name"@.len() != "is_using_default_name"@.len());
    assert("name"@.len() != "is_using_default_avatar"@.len());
    assert("name"@.len() != "avatar_icon"@.len());
    assert("name"@.len() != "metrics_bucket_index"@.len());
    assert("name"@.len() != "is_ephemeral"@.len());
    assert("is_using_default_name"@.len() != "is_using_default_avatar"@.len());
    assert("is_using_default_name"@.len() != "avatar_icon"@.len());
    assert("is_using_default_name"@.len() != "metrics_bucket_index"@.len());
    assert("is_using_default_name"@.len() != "is_ephemeral"@.len());
    assert("is_using_default_avatar"@.len() != "avatar_icon"@.len());
    assert("is_using_default_avatar"@.len() != "metrics_bucket_index"@.len());
    assert("is_using_default_avatar"@.len() != "is_ephemeral"@.len());
    assert("avatar_icon"@.len() != "metrics_bucket_index"@.len());
    assert("avatar_icon"@.len() != "is_ephemeral"@.len());
    assert("metrics_bucket_index"@.len() != "is_ephemeral"@.len());
}

/// The `info_cache` entry's keys are distinct.
proof fn lemma_entry_keys_unique(new: NewProfileView)
    ensures
        keys_unique(entry_members(new)),
{
    lemma_entry_keys_distinct();
}

/// After a successful registration, `info_cache` maps the new directory to
/// an entry that holds exactly: the new name, `is_using_default_name` false,
/// the avatar flag and icon it was given, its metrics bucket, and
/// `is_ephemeral` false (so Vivaldi keeps the profile). No other field, in
/// particular no account or sign-in field, is written.
pub proof fn lemma_registered_entry(root: JsonValue, new: NewProfileView)
    requires
        registered(root, new).1 is None,
        can_register(new),
    ensures
        info_cache(registered(root, new).0) matches Some(ic) && member(ic, new.dir) matches Some(
            JsonValue::Object(e),
        ) && {
            &&& member(e, "name"@) == Some(JsonValue::Str(new.name))
            &&& member(e, "is_using_default_name"@) == Some(JsonValue::Bool(false))
            &&& member(e, "is_using_default_avatar"@) == Some(JsonValue::Bool(new.is_using_default_avatar))
            &&& then_str(member(e, "avatar_icon"@)) == new.avatar_icon
            &&& (new.avatar_icon is None ==> member(e, "avatar_icon"@) is None)
            &&& then_i64(member(e, "metrics_bucket_index"@)) == Some(new.metrics_bucket_index)
            &&& member(e, "is_ephemeral"@) == Some(JsonValue::Bool(false))
            &&& forall|k: Seq<char>| #[trigger] has_key(e, k) ==> k == "name"@ || k == "is_using_default_name"@
                || k == "is_using_default_avatar"@ || k == "avatar_icon"@ || k == "metrics_bucket_index"@
                || k == "is_ephemeral"@
        },
{
    lemma_registered_profile_obj(root, new);
    let r = root->Object_0;
    let (r1, pp) = ensured(r, "profile"@, empty_object());
    let p = r1[pp].1->Object_0;
    lemma_profile_registered(p, new);
    let (p1, ip) = ensured(p, "info_cache"@, empty_object());
    let ic = p1[ip].1->Object_0;
    let e = entry_members(new);
    let ic2 = with_member(ic, new.dir, JsonValue::Object(e));
    let after = registered(root, new).0;
    assert(info_cache(after) == Some(ic2));
    lemma_member_with(ic, new.dir, JsonValue::Object(e), new.dir);
    lemma_entry_keys_unique(new);
    lemma_unique_pos(e, 0);
    lemma_unique_pos(e, 1);
    lemma_unique_pos(e, 2);
    match new.avatar_icon {
        Some(a) => {
            lemma_unique_pos(e, 3);
            lemma_unique_pos(e, 4);
            lemma_unique_pos(e, 5);
        },
        None => {
            lemma_unique_pos(e, 3);
            lemma_unique_pos(e, 4);
            lemma_entry_keys_distinct();
            assert forall|i: int| 0 <= i < e.len() implies #[trigger] e[i].0 != "avatar_icon"@ by {}
        },
    }
    assert forall|k: Seq<char>| #[trigger] has_key(e, k) implies k == "name"@ || k == "is_using_default_name"@
        || k == "is_using_default_avatar"@ || k == "avatar_icon"@ || k == "metrics_bucket_index"@ || k
        == "is_ephemeral"@ by {
        let i = choose|i: int| 0 <= i < e.len() && #[trigger] e[i].0 == k;
    }
}

/// After a successful registration, `profiles_order` is an array that
/// lists the new directory: unchanged when it already did, else with the
/// directory appended at the end (a fresh list when there was none). The
/// directory counter `profiles_created` never goes down and passes the
/// registered directory's number.
pub proof fn lemma_registered_order_and_counter(root: JsonValue, new: NewProfileView)
    requires
        registered(root, new).1 is None,
        can_register(new),
    ensures
        profile_obj(registered(root, new).0) matches Some(pa) && {
            &&& member(pa, "profiles_order"@) matches Some(JsonValue::Array(o2)) && {
                &&& exists|i: int| 0 <= i < o2.len() && #[trigger] o2[i] == JsonValue::Str(new.dir)
                &&& (profile_obj(root) matches Some(p) ==> member(p, "profiles_order"@) matches Some(
                    JsonValue::Array(o),
                ) ==> if exists|i: int| 0 <= i < o.len() && #[trigger] o[i].as_str() == Some(new.dir) {
                    o2 == o
                } else {
                    o2 == o.push(JsonValue::Str(new.dir))
                })
            }
            &&& then_u64(member(pa, "profiles_created"@)) matches Some(c) && c >= 1 && (profile_number(
                new.dir,
            ) matches Some(n) ==> c > n) && (profile_obj(root) matches Some(p) ==> then_u64(
                member(p, "profiles_created"@),
            ) matches Some(c0) ==> c >= c0)
        },
{
    lemma_registered_profile_obj(root, new);
    let r = root->Object_0;
    let (r1, pp) = ensured(r, "profile"@, empty_object());
    let p = r1[pp].1->Object_0;
    lemma_profile_registered(p, new);
    let pa = profile_registered(p, new).0;
    let o2 = member(pa, "profiles_order"@)->Some_0->Array_0;
    if !has_key(r, "profile"@) {
        assert(p =~= Seq::<(Seq<char>, JsonValue)>::empty());
        assert(!has_key(p, "profiles_order"@));
    }
    match member(p, "profiles_order"@) {
        Some(JsonValue::Array(o)) => {
            if exists|i: int| 0 <= i < o.len() && #[trigger] o[i].as_str() == Some(new.dir) {
                let i = choose|i: int| 0 <= i < o.len() && #[trigger] o[i].as_str() == Some(new.dir);
                assert(o2[i] == JsonValue::Str(new.dir));
            } else {
                assert(o2[o.len() as int] == JsonValue::Str(new.dir));
            }
        },
        _ => {
            assert(o2[0] == JsonValue::Str(new.dir));
        },
    }
    if has_key(r, "profile"@) {
        assert(profile_obj(root) == Some(p));
    }
}

proof fn lemma_max_bucket_attained(ic: Members)
    ensures
        max_bucket(ic) matches Some(m) ==> exists|i: int|
            0 <= i < ic.len() && #[trigger] bucket_of(ic[i].1) == Some(m),
    decreases ic.len(),
{
    if ic.len() > 0 {
        let init = ic.drop_last();
        lemma_max_bucket_attained(init);
        if max_bucket(init) is Some {
            let i = choose|i: int| 0 <= i < init.len() && #[trigger] bucket_of(init[i].1) == max_bucket(init);
            assert(ic[i] == init[i]);
        }
        assert(ic[ic.len() - 1] == ic.last());
    }
}

/// The bucket allocated next is the least one that is at least 1, at least
/// `metrics.next_bucket_index`, and above every bucket in `info_cache`: it
/// is one of those bounds, not larger than needed.
pub proof fn lemma_next_bucket_is_least(root: JsonValue)
    ensures
        next_bucket(root) >= 1,
        next_bucket(root) >= metrics_next(root),
        exceeds_all_buckets(root, next_bucket(root)),
        next_bucket(root) == 1 || next_bucket(root) == metrics_next(root) || (info_cache(root) matches Some(
            ic,
        ) && exists|i: int| 0 <= i < ic.len() && #[trigger] bucket_of(ic[i].1) == Some((next_bucket(root) - 1) as i64)),
{
    match info_cache(root) {
        Some(ic) => {
            lemma_max_bucket(ic);
            lemma_max_bucket_attained(ic);
        },
        None => {},
    }
}

/// After a successful registration with bucket `b`, the next bucket to be
/// allocated is above `b`: a bucket is never handed out twice.
pub proof fn lemma_registered_bucket_not_reused(root: JsonValue, new: NewProfileView)
    requires
        registered(root, new).1 is None,
        can_register(new),
    ensures
        metrics_next(registered(root, new).0) == new.metrics_bucket_index + 1,
        next_bucket(registered(root, new).0) > new.metrics_bucket_index,
{
    lemma_registered_profile_obj(root, new);
    let r = root->Object_0;
    let (r1, pp) = ensured(r, "profile"@, empty_object());
    lemma_profile_registered(r1[pp].1->Object_0, new);
}

/// After a successful registration of `Profile n`, the directory search
/// starts beyond `n`.
pub proof fn lemma_registered_counter_advances(root: JsonValue, new: NewProfileView, n: u64)
    requires
        registered(root, new).1 is None,
        can_register(new),
        profile_number(new.dir) == Some(n),
    ensures
        first_candidate(registered(root, new).0) > n,
{
    lemma_registered_profile_obj(root, new);
    let r = root->Object_0;
    let (r1, pp) = ensured(r, "profile"@, empty_object());
    lemma_profile_registered(r1[pp].1->Object_0, new);
}

/// A successful registration leaves every other registered profile where
/// it was, unchanged.
pub proof fn lemma_register_keeps_other_profiles(root: JsonValue, new: NewProfileView)
    requires
        registered(root, new).1 is None,
        can_register(new),
    ensures
        forall|j: int|
            0 <= j < profiles_of(root).len() && #[trigger] profiles_of(root)[j].dir != new.dir
                ==> j < profiles_of(registered(root, new).0).len()
                && profiles_of(registered(root, new).0)[j] == profiles_of(root)[j],
{
    lemma_registered_profile_obj(root, new);
    let r = root->Object_0;
    let (r1, pp) = ensured(r, "profile"@, empty_object());
    let p = r1[pp].1->Object_0;
    lemma_profile_registered(p, new);
    lemma_member_ensured(p, "info_cache"@, empty_object(), "info_cache"@);
    let (p1, ip) = ensured(p, "info_cache"@, empty_object());
    let ic = p1[ip].1->Object_0;
    let e = JsonValue::Object(entry_members(new));
    let ic2 = with_member(ic, new.dir, e);
    let after = registered(root, new).0;
    lemma_key_pos(ic, new.dir);
    if info_cache(root) is Some {
        lemma_key_pos(p, "info_cache"@);
        assert(has_key(p, "info_cache"@));
        assert(info_cache(root) == Some(ic));
        assert forall|j: int|
            0 <= j < profiles_of(root).len() && #[trigger] profiles_of(root)[j].dir != new.dir
                implies j < profiles_of(after).len() && profiles_of(after)[j] == profiles_of(root)[j] by {
            assert(ic[j].0 != new.dir);
            assert(ic2[j] == ic[j]);
        }
    }
}

} // verus!

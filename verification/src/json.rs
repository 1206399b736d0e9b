//! An in-memory JSON document model with ordered objects.
use vstd::prelude::*;

use crate::text::same_text;

verus! {

/// A JSON number, in the three shapes a JSON parser distinguishes.
#[derive(Clone, Copy, Debug, PartialEq, Eq, Structural)]
pub enum JsonNumber {
    /// A non-negative integer.
    PosInt(u64),
    /// A negative integer.
    NegInt(i64),
    /// A floating-point number, carried as its IEEE-754 bit pattern.
    Float(u64),
}

/// A JSON value whose objects keep their members in insertion order.
#[derive(Debug)]
pub enum Json {
    Null,
    Bool(bool),
    Number(JsonNumber),
    String(String),
    Array(Vec<Json>),
    Object(Vec<(String, Json)>),
}

/// The mathematical value of a [`Json`].
#[verifier::ext_equal]
pub enum JsonValue {
    Null,
    Bool(bool),
    Number(JsonNumber),
    Str(Seq<char>),
    Array(Seq<JsonValue>),
    Object(Seq<(Seq<char>, JsonValue)>),
}

pub open spec fn view_json(j: Json) -> JsonValue
    decreases j,
{
    match j {
        Json::Null => JsonValue::Null,
        Json::Bool(b) => JsonValue::Bool(b),
        Json::Number(n) => JsonValue::Number(n),
        Json::String(s) => JsonValue::Str(s@),
        Json::Array(v) => JsonValue::Array(view_items(v@)),
        Json::Object(m) => JsonValue::Object(view_members(m@)),
    }
}

pub open spec fn view_items(s: Seq<Json>) -> Seq<JsonValue>
    decreases s,
{
    if s.len() == 0 {
        Seq::empty()
    } else {
        seq![view_json(s[0])] + view_items(s.drop_first())
    }
}

pub open spec fn view_members(s: Seq<(String, Json)>) -> Seq<(Seq<char>, JsonValue)>
    decreases s,
{
    if s.len() == 0 {
        Seq::empty()
    } else {
        seq![(s[0].0@, view_json(s[0].1))] + view_members(s.drop_first())
    }
}

impl View for Json {
    type V = JsonValue;

    open spec fn view(&self) -> JsonValue {
        view_json(*self)
    }
}

} // verus!

verus! {

/// The members of an object, in order.
pub type Members = Seq<(Seq<char>, JsonValue)>;

/// `i` is the first position of `m` whose key is `k`.
pub open spec fn is_first_key(m: Members, k: Seq<char>, i: int) -> bool {
    &&& 0 <= i < m.len()
    &&& m[i].0 == k
    &&& forall|j: int| 0 <= j < i ==> #[trigger] m[j].0 != k
}

pub open spec fn has_key(m: Members, k: Seq<char>) -> bool {
    exists|i: int| 0 <= i < m.len() && #[trigger] m[i].0 == k
}

/// The position of the first member with key `k`, or -1.
pub open spec fn key_pos(m: Members, k: Seq<char>) -> int {
    if has_key(m, k) {
        choose|i: int| is_first_key(m, k, i)
    } else {
        -1
    }
}

/// The value of the first member with key `k`.
pub open spec fn member(m: Members, k: Seq<char>) -> Option<JsonValue> {
    if has_key(m, k) {
        Some(m[key_pos(m, k)].1)
    } else {
        None
    }
}

/// `m` with the value at position `i` replaced by `v` (the key is kept).
pub open spec fn set_at(m: Members, i: int, v: JsonValue) -> Members {
    m.update(i, (m[i].0, v))
}

/// Inserting `k: v` into an ordered map: an existing key keeps its position
/// and takes the new value; a new key goes last.
pub open spec fn with_member(m: Members, k: Seq<char>, v: JsonValue) -> Members {
    if has_key(m, k) {
        set_at(m, key_pos(m, k), v)
    } else {
        m.push((k, v))
    }
}

/// Removing key `k` from an ordered map by swapping in the last member
/// (the removed position takes the last member, which is then dropped).
pub open spec fn without_member(m: Members, k: Seq<char>) -> Members {
    if has_key(m, k) {
        let i = key_pos(m, k);
        if i == m.len() - 1 {
            m.drop_last()
        } else {
            m.update(i, m.last()).drop_last()
        }
    } else {
        m
    }
}

pub open spec fn number_as_u64(n: JsonNumber) -> Option<u64> {
    match n {
        JsonNumber::PosInt(u) => Some(u),
        _ => None,
    }
}

pub open spec fn number_as_i64(n: JsonNumber) -> Option<i64> {
    match n {
        JsonNumber::PosInt(u) => if u <= i64::MAX {
            Some(u as i64)
        } else {
            None
        },
        JsonNumber::NegInt(i) => Some(i),
        JsonNumber::Float(_) => None,
    }
}

/// The number that a signed integer converts to.
pub open spec fn number_from_i64(i: i64) -> JsonNumber {
    if i < 0 {
        JsonNumber::NegInt(i)
    } else {
        JsonNumber::PosInt(i as u64)
    }
}

impl JsonValue {
    /// Member `k` of an object; `None` for a missing key or a non-object.
    pub open spec fn get(self, k: Seq<char>) -> Option<JsonValue> {
        match self {
            JsonValue::Object(m) => member(m, k),
            _ => None,
        }
    }

    pub open spec fn as_str(self) -> Option<Seq<char>> {
        match self {
            JsonValue::Str(s) => Some(s),
            _ => None,
        }
    }

    pub open spec fn as_bool(self) -> Option<bool> {
        match self {
            JsonValue::Bool(b) => Some(b),
            _ => None,
        }
    }

    pub open spec fn as_u64(self) -> Option<u64> {
        match self {
            JsonValue::Number(n) => number_as_u64(n),
            _ => None,
        }
    }

    pub open spec fn as_i64(self) -> Option<i64> {
        match self {
            JsonValue::Number(n) => number_as_i64(n),
            _ => None,
        }
    }

    pub open spec fn as_object(self) -> Option<Members> {
        match self {
            JsonValue::Object(m) => Some(m),
            _ => None,
        }
    }
}

/// `o.and_then(|v| v.get(k))`.
pub open spec fn then_get(o: Option<JsonValue>, k: Seq<char>) -> Option<JsonValue> {
    match o {
        Some(v) => v.get(k),
        None => None,
    }
}

pub open spec fn then_str(o: Option<JsonValue>) -> Option<Seq<char>> {
    match o {
        Some(v) => v.as_str(),
        None => None,
    }
}

pub open spec fn then_bool(o: Option<JsonValue>) -> Option<bool> {
    match o {
        Some(v) => v.as_bool(),
        None => None,
    }
}

pub open spec fn then_u64(o: Option<JsonValue>) -> Option<u64> {
    match o {
        Some(v) => v.as_u64(),
        None => None,
    }
}

pub open spec fn then_i64(o: Option<JsonValue>) -> Option<i64> {
    match o {
        Some(v) => v.as_i64(),
        None => None,
    }
}

pub open spec fn then_object(o: Option<JsonValue>) -> Option<Members> {
    match o {
        Some(v) => v.as_object(),
        None => None,
    }
}

pub open spec fn ref_view(r: Option<&Json>) -> Option<JsonValue> {
    match r {
        Some(j) => Some(j@),
        None => None,
    }
}

pub proof fn lemma_view_members(s: Seq<(String, Json)>)
    ensures
        view_members(s).len() == s.len(),
        forall|i: int| 0 <= i < s.len() ==> #[trigger] view_members(s)[i] == (s[i].0@, view_json(s[i].1)),
    decreases s.len(),
{
    if s.len() > 0 {
        lemma_view_members(s.drop_first());
        assert forall|i: int| 0 <= i < s.len() implies #[trigger] view_members(s)[i] == (s[i].0@, view_json(s[i].1)) by {
            if i > 0 {
                assert(s.drop_first()[i - 1] == s[i]);
            }
        }
    }
}

pub proof fn lemma_view_items(s: Seq<Json>)
    ensures
        view_items(s).len() == s.len(),
        forall|i: int| 0 <= i < s.len() ==> #[trigger] view_items(s)[i] == view_json(s[i]),
    decreases s.len(),
{
    if s.len() > 0 {
        lemma_view_items(s.drop_first());
        assert forall|i: int| 0 <= i < s.len() implies #[trigger] view_items(s)[i] == view_json(s[i]) by {
            if i > 0 {
                assert(s.drop_first()[i - 1] == s[i]);
            }
        }
    }
}

proof fn lemma_first_key_exists(m: Members, k: Seq<char>)
    requires
        has_key(m, k),
    ensures
        exists|i: int| is_first_key(m, k, i),
    decreases m.len(),
{
    let init = m.drop_last();
    if has_key(init, k) {
        lemma_first_key_exists(init, k);
        let i = choose|i: int| is_first_key(init, k, i);
        assert forall|j: int| 0 <= j < i implies #[trigger] m[j].0 != k by {
            assert(init[j] == m[j]);
        }
        assert(is_first_key(m, k, i));
    } else {
        let i = m.len() - 1;
        assert forall|j: int| 0 <= j < i implies #[trigger] m[j].0 != k by {
            assert(init[j] == m[j]);
        }
        assert(is_first_key(m, k, i));
    }
}

/// The position `key_pos` names is the first occurrence of the key.
pub proof fn lemma_key_pos(m: Members, k: Seq<char>)
    ensures
        has_key(m, k) ==> is_first_key(m, k, key_pos(m, k)),
        !has_key(m, k) ==> key_pos(m, k) == -1,
        forall|i: int| is_first_key(m, k, i) ==> key_pos(m, k) == i,
{
    if has_key(m, k) {
        lemma_first_key_exists(m, k);
    }
    assert forall|i: int| is_first_key(m, k, i) implies key_pos(m, k) == i by {
        lemma_first_key_exists(m, k);
        let p = key_pos(m, k);
        if p < i {
            assert(m[p].0 == k);
        } else if i < p {
            assert(m[i].0 == k);
        }
    }
}

/// The position of the first member of `m` whose key is `key`.
pub fn find_key(m: &Vec<(String, Json)>, key: &str) -> (r: Option<usize>)
    ensures
        match r {
            Some(i) => has_key(view_members(m@), key@) && i == key_pos(view_members(m@), key@)
                && is_first_key(view_members(m@), key@, i as int) && i < m@.len(),
            None => !has_key(view_members(m@), key@),
        },
{
    let ghost vm = view_members(m@);
    proof {
        lemma_view_members(m@);
        lemma_key_pos(vm, key@);
    }
    let n = m.len();
    for i in 0..n
        invariant
            n == m@.len(),
            vm == view_members(m@),
            vm.len() == n,
            forall|j: int| 0 <= j < n ==> #[trigger] vm[j] == (m@[j].0@, view_json(m@[j].1)),
            forall|j: int| 0 <= j < i ==> #[trigger] vm[j].0 != key@,
            forall|j: int| is_first_key(vm, key@, j) ==> key_pos(vm, key@) == j,
    {
        if same_text(m[i].0.as_str(), key) {
            assert(vm[i as int].0 == key@);
            assert(is_first_key(vm, key@, i as int));
            return Some(i);
        }
    }
    assert forall|j: int| 0 <= j < vm.len() implies #[trigger] vm[j].0 != key@ by {}
    None
}

impl Json {
    /// Member `key` of an object (`None` for a missing key or a non-object).
    pub fn get(&self, key: &str) -> (r: Option<&Json>)
        ensures
            ref_view(r) == self@.get(key@),
    {
        match self {
            Json::Object(m) => {
                proof {
                    lemma_view_members(m@);
                    lemma_key_pos(view_members(m@), key@);
                }
                match find_key(m, key) {
                    Some(i) => Some(&m[i].1),
                    None => None,
                }
            },
            _ => None,
        }
    }

    pub fn as_str(&self) -> (r: Option<&String>)
        ensures
            match r {
                Some(s) => self@.as_str() == Some(s@),
                None => self@.as_str() is None,
            },
    {
        match self {
            Json::String(s) => Some(s),
            _ => None,
        }
    }

    pub fn as_object(&self) -> (r: Option<&Vec<(String, Json)>>)
        ensures
            match r {
                Some(m) => self@.as_object() == Some(view_members(m@)),
                None => self@.as_object() is None,
            },
    {
        match self {
            Json::Object(m) => Some(m),
            _ => None,
        }
    }

    pub fn as_bool(&self) -> (r: Option<bool>)
        ensures
            r == self@.as_bool(),
    {
        match self {
            Json::Bool(b) => Some(*b),
            _ => None,
        }
    }

    pub fn as_u64(&self) -> (r: Option<u64>)
        ensures
            r == self@.as_u64(),
    {
        match self {
            Json::Number(JsonNumber::PosInt(u)) => Some(*u),
            _ => None,
        }
    }

    pub fn as_i64(&self) -> (r: Option<i64>)
        ensures
            r == self@.as_i64(),
    {
        match self {
            Json::Number(JsonNumber::PosInt(u)) => if *u <= 0x7fff_ffff_ffff_ffffu64 {
                Some(*u as i64)
            } else {
                None
            },
            Json::Number(JsonNumber::NegInt(i)) => Some(*i),
            _ => None,
        }
    }

    /// The JSON number of a signed integer.
    pub fn from_i64(i: i64) -> (r: Json)
        ensures
            r@ == JsonValue::Number(number_from_i64(i)),
    {
        if i < 0 {
            Json::Number(JsonNumber::NegInt(i))
        } else {
            Json::Number(JsonNumber::PosInt(i as u64))
        }
    }

    /// The JSON number of an unsigned integer.
    pub fn from_u64(u: u64) -> (r: Json)
        ensures
            r@ == JsonValue::Number(JsonNumber::PosInt(u)),
    {
        Json::Number(JsonNumber::PosInt(u))
    }

    /// A JSON string.
    pub fn text(s: &str) -> (r: Json)
        ensures
            r@ == JsonValue::Str(s@),
    {
        Json::String(s.to_owned())
    }

    /// An empty JSON object.
    pub fn empty_object() -> (r: Json)
        ensures
            r@ == JsonValue::Object(Seq::empty()),
    {
        let r = Json::Object(Vec::new());
        assert(view_members(Seq::<(String, Json)>::empty()) =~= Seq::<(Seq<char>, JsonValue)>::empty());
        r
    }
}

} // verus!

verus! {

/// The members after making sure key `k` exists: an absent key is appended
/// with the value `dflt`. Returns the members and the key's position.
pub open spec fn ensured(m: Members, k: Seq<char>, dflt: JsonValue) -> (Members, int) {
    if has_key(m, k) {
        (m, key_pos(m, k))
    } else {
        (m.push((k, dflt)), m.len() as int)
    }
}

pub open spec fn empty_object() -> JsonValue {
    JsonValue::Object(Seq::empty())
}

pub open spec fn empty_array() -> JsonValue {
    JsonValue::Array(Seq::empty())
}

proof fn lemma_view_update(s: Seq<(String, Json)>, i: int, x: (String, Json))
    requires
        0 <= i < s.len(),
    ensures
        view_members(s.update(i, x)) =~= view_members(s).update(i, (x.0@, view_json(x.1))),
{
    lemma_view_members(s);
    lemma_view_members(s.update(i, x));
}

proof fn lemma_view_push(s: Seq<(String, Json)>, x: (String, Json))
    ensures
        view_members(s.push(x)) =~= view_members(s).push((x.0@, view_json(x.1))),
{
    lemma_view_members(s);
    lemma_view_members(s.push(x));
}

/// Replaces the value at position `i` (the key is kept).
pub fn set_value(m: &mut Vec<(String, Json)>, i: usize, v: Json)
    requires
        i < old(m)@.len(),
    ensures
        view_members(final(m)@) == set_at(view_members(old(m)@), i as int, v@),
        final(m)@.len() == old(m)@.len(),
{
    let ghost s = m@;
    let (k, _old) = m.remove(i);
    m.insert(i, (k, v));
    proof {
        assert(m@ =~= s.update(i as int, (k, v)));
        lemma_view_update(s, i as int, (k, v));
        lemma_view_members(s);
    }
}

/// Inserts `key: value` as an ordered map does: an existing key keeps its
/// position and takes the new value; a new key is appended.
pub fn put_member(m: &mut Vec<(String, Json)>, key: String, value: Json)
    ensures
        view_members(final(m)@) == with_member(view_members(old(m)@), key@, value@),
{
    match find_key(m, key.as_str()) {
        Some(i) => set_value(m, i, value),
        None => {
            let ghost s = m@;
            m.push((key, value));
            proof {
                lemma_view_push(s, (key, value));
            }
        },
    }
}

/// Makes sure member `key` exists (appending an empty object if absent) and,
/// when its value is an object, takes that object's members out, leaving
/// `null` in their place. A value of another kind stays where it is.
pub fn take_object(m: &mut Vec<(String, Json)>, key: &str) -> (r: Option<(usize, Vec<(String, Json)>)>)
    ensures
        ({
            let (m1, p) = ensured(view_members(old(m)@), key@, empty_object());
            &&& 0 <= p < m1.len()
            &&& match r {
                Some((i, c)) => {
                    &&& i == p
                    &&& i < final(m)@.len()
                    &&& m1[p].1 == JsonValue::Object(view_members(c@))
                    &&& view_members(final(m)@) == set_at(m1, p, JsonValue::Null)
                },
                None => {
                    &&& !(m1[p].1 is Object)
                    &&& view_members(final(m)@) == m1
                },
            }
        }),
{
    proof {
        lemma_view_members(m@);
        lemma_key_pos(view_members(m@), key@);
    }
    let pos = match find_key(m, key) {
        Some(i) => i,
        None => {
            let ghost s = m@;
            let e = Json::empty_object();
            let k = key.to_owned();
            let ghost entry = (k, e);
            m.push((k, e));
            proof {
                lemma_view_push(s, entry);
            }
            m.len() - 1
        },
    };
    let ghost s = m@;
    proof {
        lemma_view_members(s);
    }
    let (k, v) = m.remove(pos);
    match v {
        Json::Object(c) => {
            m.insert(pos, (k, Json::Null));
            proof {
                assert(m@ =~= s.update(pos as int, (k, Json::Null)));
                lemma_view_update(s, pos as int, (k, Json::Null));
            }
            Some((pos, c))
        },
        other => {
            m.insert(pos, (k, other));
            assert(m@ =~= s);
            None
        },
    }
}

/// Makes sure member `key` exists (appending an empty array if absent) and,
/// when its value is an array, takes that array's items out, leaving `null`
/// in their place. A value of another kind stays where it is.
pub fn take_array(m: &mut Vec<(String, Json)>, key: &str) -> (r: Option<(usize, Vec<Json>)>)
    ensures
        ({
            let (m1, p) = ensured(view_members(old(m)@), key@, empty_array());
            &&& 0 <= p < m1.len()
            &&& match r {
                Some((i, c)) => {
                    &&& i == p
                    &&& i < final(m)@.len()
                    &&& m1[p].1 == JsonValue::Array(view_items(c@))
                    &&& view_members(final(m)@) == set_at(m1, p, JsonValue::Null)
                },
                None => {
                    &&& !(m1[p].1 is Array)
                    &&& view_members(final(m)@) == m1
                },
            }
        }),
{
    proof {
        lemma_view_members(m@);
        lemma_key_pos(view_members(m@), key@);
    }
    let pos = match find_key(m, key) {
        Some(i) => i,
        None => {
            let ghost s = m@;
            let e = Json::Array(Vec::new());
            assert(view_items(Seq::<Json>::empty()) =~= Seq::<JsonValue>::empty());
            let k = key.to_owned();
            let ghost entry = (k, e);
            m.push((k, e));
            proof {
                lemma_view_push(s, entry);
            }
            m.len() - 1
        },
    };
    let ghost s = m@;
    proof {
        lemma_view_members(s);
    }
    let (k, v) = m.remove(pos);
    match v {
        Json::Array(c) => {
            m.insert(pos, (k, Json::Null));
            proof {
                assert(m@ =~= s.update(pos as int, (k, Json::Null)));
                lemma_view_update(s, pos as int, (k, Json::Null));
            }
            Some((pos, c))
        },
        other => {
            m.insert(pos, (k, other));
            assert(m@ =~= s);
            None
        },
    }
}

/// Removes member `key`, as an ordered map's swap-remove does: the last
/// member takes the removed one's position.
pub fn remove_member(m: &mut Vec<(String, Json)>, key: &str)
    ensures
        view_members(final(m)@) == without_member(view_members(old(m)@), key@),
{
    let ghost s = m@;
    proof {
        lemma_view_members(s);
    }
    match find_key(m, key) {
        Some(i) => {
            m.swap_remove(i);
            proof {
                lemma_view_members(m@);
                assert(view_members(m@) =~= without_member(view_members(s), key@));
            }
        },
        None => {},
    }
}

} // verus!

verus! {

/// Replacing a value keeps every key where it was.
pub proof fn lemma_member_set_at(m: Members, i: int, v: JsonValue, k: Seq<char>)
    requires
        0 <= i < m.len(),
    ensures
        member(set_at(m, i, v), k) == if has_key(m, k) && key_pos(m, k) == i {
            Some(v)
        } else {
            member(m, k)
        },
{
    let m2 = set_at(m, i, v);
    lemma_key_pos(m, k);
    lemma_key_pos(m2, k);
    assert forall|j: int| 0 <= j < m.len() implies #[trigger] m2[j].0 == m[j].0 by {}
    if has_key(m, k) {
        let p = key_pos(m, k);
        assert(m2[p].0 == k);
        assert(is_first_key(m2, k, p));
    } else {
        if has_key(m2, k) {
            let j = choose|j: int| 0 <= j < m2.len() && #[trigger] m2[j].0 == k;
            assert(m[j].0 == k);
        }
    }
}

/// Appending a member leaves earlier keys alone; a new key is found last.
pub proof fn lemma_member_push(m: Members, k2: Seq<char>, v: JsonValue, k: Seq<char>)
    ensures
        member(m.push((k2, v)), k) == if has_key(m, k) {
            member(m, k)
        } else if k2 == k {
            Some(v)
        } else {
            None::<JsonValue>
        },
{
    let m2 = m.push((k2, v));
    lemma_key_pos(m, k);
    lemma_key_pos(m2, k);
    if has_key(m, k) {
        let p = key_pos(m, k);
        assert(m2[p] == m[p]);
        assert forall|j: int| 0 <= j < p implies #[trigger] m2[j].0 != k by {
            assert(m2[j] == m[j]);
        }
        assert(is_first_key(m2, k, p));
    } else if k2 == k {
        assert forall|j: int| 0 <= j < m.len() implies #[trigger] m2[j].0 != k by {
            assert(m2[j] == m[j]);
        }
        assert(is_first_key(m2, k, m.len() as int));
    } else {
        if has_key(m2, k) {
            let j = choose|j: int| 0 <= j < m2.len() && #[trigger] m2[j].0 == k;
            assert(m[j].0 == k);
        }
    }
}

/// Inserting `k2: v` changes what `k2` maps to and nothing else.
pub proof fn lemma_member_with(m: Members, k2: Seq<char>, v: JsonValue, k: Seq<char>)
    ensures
        member(with_member(m, k2, v), k) == if k == k2 {
            Some(v)
        } else {
            member(m, k)
        },
{
    lemma_key_pos(m, k2);
    lemma_key_pos(m, k);
    if has_key(m, k2) {
        lemma_member_set_at(m, key_pos(m, k2), v, k);
        if has_key(m, k) && key_pos(m, k) == key_pos(m, k2) {
            assert(k == k2);
        }
    } else {
        lemma_member_push(m, k2, v, k);
    }
}

/// After making sure `k2` exists, other keys map to what they did, and `k2`
/// maps to the value at the returned position.
pub proof fn lemma_member_ensured(m: Members, k2: Seq<char>, d: JsonValue, k: Seq<char>)
    ensures
        k != k2 ==> member(ensured(m, k2, d).0, k) == member(m, k),
        ({
            let (m1, p) = ensured(m, k2, d);
            &&& 0 <= p < m1.len()
            &&& has_key(m1, k2)
            &&& key_pos(m1, k2) == p
            &&& member(m1, k2) == Some(m1[p].1)
        }),
{
    lemma_key_pos(m, k2);
    lemma_member_push(m, k2, d, k);
    lemma_member_push(m, k2, d, k2);
    let (m1, p) = ensured(m, k2, d);
    lemma_key_pos(m1, k2);
    if !has_key(m, k2) {
        assert(m1[p].0 == k2);
        assert forall|j: int| 0 <= j < p implies #[trigger] m1[j].0 != k2 by {
            assert(m1[j] == m[j]);
        }
        assert(is_first_key(m1, k2, p));
    }
}

} // verus!

verus! {

/// No two members share a key (as in a parsed JSON object).
pub open spec fn keys_unique(m: Members) -> bool {
    forall|i: int, j: int| 0 <= i < j < m.len() ==> #[trigger] m[i].0 != #[trigger] m[j].0
}

/// Swap-removing a key from an object with unique keys removes the key.
pub proof fn lemma_without_member(m: Members, k: Seq<char>)
    requires
        keys_unique(m),
    ensures
        !has_key(without_member(m, k), k),
        forall|k2: Seq<char>| k2 != k ==> #[trigger] has_key(without_member(m, k), k2) == has_key(m, k2),
{
    lemma_key_pos(m, k);
    let r = without_member(m, k);
    if has_key(m, k) {
        let i = key_pos(m, k);
        assert forall|j: int| 0 <= j < r.len() implies #[trigger] r[j].0 != k by {
            if j == i {
                assert(r[j] == m.last());
                assert(m[m.len() - 1].0 != m[i].0);
            } else {
                assert(r[j] == m[j]);
            }
        }
        assert forall|k2: Seq<char>| k2 != k implies #[trigger] has_key(r, k2) == has_key(m, k2) by {
            if has_key(m, k2) {
                let j = choose|j: int| 0 <= j < m.len() && #[trigger] m[j].0 == k2;
                if j == m.len() - 1 && i != j {
                    assert(r[i].0 == k2);
                } else {
                    assert(j != i);
                    assert(r[j] == m[j]);
                }
            }
            if has_key(r, k2) {
                let j = choose|j: int| 0 <= j < r.len() && #[trigger] r[j].0 == k2;
                if j == i {
                    assert(m[m.len() - 1].0 == k2);
                } else {
                    assert(m[j].0 == k2);
                }
            }
        }
    }
}

/// In an object with unique keys, the member at `i` is the one its key finds.
pub proof fn lemma_unique_pos(m: Members, i: int)
    requires
        keys_unique(m),
        0 <= i < m.len(),
    ensures
        has_key(m, m[i].0),
        key_pos(m, m[i].0) == i,
        member(m, m[i].0) == Some(m[i].1),
{
    let k = m[i].0;
    assert forall|j: int| 0 <= j < i implies #[trigger] m[j].0 != k by {}
    assert(is_first_key(m, k, i));
    lemma_key_pos(m, k);
}

/// Swap-removing `k` from an object with unique keys keeps the keys unique
/// and what every other key maps to.
pub proof fn lemma_member_without(m: Members, k: Seq<char>, k2: Seq<char>)
    requires
        keys_unique(m),
        k2 != k,
    ensures
        keys_unique(without_member(m, k)),
        member(without_member(m, k), k2) == member(m, k2),
{
    lemma_key_pos(m, k);
    lemma_key_pos(m, k2);
    lemma_without_member(m, k);
    let r = without_member(m, k);
    if has_key(m, k) {
        let i = key_pos(m, k);
        let last = m.len() - 1;
        assert forall|a: int, b: int| 0 <= a < b < r.len() implies #[trigger] r[a].0 != #[trigger] r[b].0 by {
            let sa = if a == i { last } else { a };
            let sb = if b == i { last } else { b };
            assert(r[a] == m[sa]);
            assert(r[b] == m[sb]);
            assert(sa != sb);
            if sa < sb {
                assert(m[sa].0 != m[sb].0);
            } else {
                assert(m[sb].0 != m[sa].0);
            }
        }
        if has_key(m, k2) {
            let j = key_pos(m, k2);
            assert(j != i);
            let pos = if j == last { i } else { j };
            assert(r[pos] == m[j]);
            lemma_unique_pos(r, pos);
            lemma_unique_pos(m, j);
        }
    }
}

/// Replacing a value keeps the set of keys.
pub proof fn lemma_has_key_set_at(m: Members, i: int, v: JsonValue, k: Seq<char>)
    requires
        0 <= i < m.len(),
    ensures
        has_key(set_at(m, i, v), k) == has_key(m, k),
{
    let m2 = set_at(m, i, v);
    if has_key(m, k) {
        let j = choose|j: int| 0 <= j < m.len() && #[trigger] m[j].0 == k;
        assert(m2[j].0 == k);
    }
    if has_key(m2, k) {
        let j = choose|j: int| 0 <= j < m2.len() && #[trigger] m2[j].0 == k;
        assert(m[j].0 == k);
    }
}

/// Making sure `k2` exists adds at most the key `k2`.
pub proof fn lemma_has_key_ensured(m: Members, k2: Seq<char>, d: JsonValue, k: Seq<char>)
    ensures
        has_key(ensured(m, k2, d).0, k) == (has_key(m, k) || k == k2),
{
    let m1 = ensured(m, k2, d).0;
    if has_key(m, k) {
        let j = choose|j: int| 0 <= j < m.len() && #[trigger] m[j].0 == k;
        assert(m1[j].0 == k);
    }
    if k == k2 && !has_key(m, k) {
        assert(m1[m.len() as int].0 == k);
    }
    if has_key(m1, k) && !has_key(m, k) {
        let j = choose|j: int| 0 <= j < m1.len() && #[trigger] m1[j].0 == k;
        if j < m.len() {
            assert(m[j].0 == k);
        }
    }
}

} // verus!

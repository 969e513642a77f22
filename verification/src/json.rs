//! A JSON document model.
//!
//! Stored objects travel as JSON documents; the control plane interprets only
//! a few envelope fields of them. `Json` holds a document as plain values so
//! that the code reading and stamping those fields can be verified. Objects
//! keep their members in order; a lookup finds the first member with a key.

use vstd::prelude::*;
use crate::text::str_eq;

verus! {

broadcast use vstd::std_specs::vec::group_vec_axioms;

/// A JSON value.
#[derive(Debug)]
pub enum Json {
    Null,
    Bool(bool),
    /// A non-negative integer.
    UInt(u64),
    /// A negative integer.
    Int(i64),
    /// Any other number, in its decimal text form.
    Float(String),
    Str(String),
    Array(Vec<Json>),
    Object(Vec<(String, Json)>),
}

/// The mathematical value of a JSON document.
pub enum JsonView {
    Null,
    Bool(bool),
    UInt(u64),
    Int(i64),
    Float(Seq<char>),
    Str(Seq<char>),
    Array(Seq<JsonView>),
    Object(Seq<(Seq<char>, JsonView)>),
}

/// The value of a JSON document.
pub open spec fn json_view(j: Json) -> JsonView
    decreases j,
{
    match j {
        Json::Null => JsonView::Null,
        Json::Bool(b) => JsonView::Bool(b),
        Json::UInt(n) => JsonView::UInt(n),
        Json::Int(n) => JsonView::Int(n),
        Json::Float(s) => JsonView::Float(s@),
        Json::Str(s) => JsonView::Str(s@),
        Json::Array(items) => JsonView::Array(
            Seq::new(
                items@.len(),
                |i: int|
                    if 0 <= i < items@.len() {
                        json_view(items@[i])
                    } else {
                        JsonView::Null
                    },
            ),
        ),
        Json::Object(m) => JsonView::Object(
            Seq::new(
                m@.len(),
                |i: int|
                    if 0 <= i < m@.len() {
                        (m@[i].0@, json_view(m@[i].1))
                    } else {
                        (Seq::empty(), JsonView::Null)
                    },
            ),
        ),
    }
}

impl View for Json {
    type V = JsonView;

    open spec fn view(&self) -> JsonView {
        json_view(*self)
    }
}

/// The value of the first member of `entries` whose key is `key`.
pub open spec fn lookup(entries: Seq<(Seq<char>, JsonView)>, key: Seq<char>) -> Option<JsonView>
    decreases entries.len(),
{
    if entries.len() == 0 {
        None
    } else if entries[0].0 == key {
        Some(entries[0].1)
    } else {
        lookup(entries.drop_first(), key)
    }
}

/// The members of `entries` whose key is not `key`, in order.
pub open spec fn entries_without(entries: Seq<(Seq<char>, JsonView)>, key: Seq<char>) -> Seq<(Seq<char>, JsonView)>
    decreases entries.len(),
{
    if entries.len() == 0 {
        entries
    } else if entries[0].0 == key {
        entries_without(entries.drop_first(), key)
    } else {
        seq![entries[0]] + entries_without(entries.drop_first(), key)
    }
}

/// The members of `entries` with `key` set to `value`: the first member with
/// that key gets the value, or a member is appended when none has the key.
pub open spec fn entries_set(entries: Seq<(Seq<char>, JsonView)>, key: Seq<char>, value: JsonView) -> Seq<(Seq<char>, JsonView)>
    decreases entries.len(),
{
    if entries.len() == 0 {
        seq![(key, value)]
    } else if entries[0].0 == key {
        entries.update(0, (key, value))
    } else {
        seq![entries[0]] + entries_set(entries.drop_first(), key, value)
    }
}

/// `v` with member `key` set to `value`, when `v` is an object; else `v`.
pub open spec fn jset(v: JsonView, key: Seq<char>, value: JsonView) -> JsonView {
    match v {
        JsonView::Object(m) => JsonView::Object(entries_set(m, key, value)),
        _ => v,
    }
}

/// `v` without member `key`, when `v` is an object; else `v`.
pub open spec fn jremove(v: JsonView, key: Seq<char>) -> JsonView {
    match v {
        JsonView::Object(m) => JsonView::Object(entries_without(m, key)),
        _ => v,
    }
}

/// The empty object.
pub open spec fn empty_object_view() -> JsonView {
    JsonView::Object(Seq::empty())
}

/// `v` with member `outer` replaced by `f` applied to it, when that member is
/// an object; else `v`.
pub open spec fn jset_in(v: JsonView, outer: Seq<char>, key: Seq<char>, value: JsonView) -> JsonView {
    match json_get(v, outer) {
        Some(JsonView::Object(m)) => jset(v, outer, jset(JsonView::Object(m), key, value)),
        _ => v,
    }
}

/// `v` with member `key` set to `value` unless it is already there.
pub open spec fn setdefault(v: JsonView, key: Seq<char>, value: JsonView) -> JsonView {
    if json_get(v, key) is None {
        jset(v, key, value)
    } else {
        v
    }
}

/// `v` with member `key` of member `outer` set to `value` unless it is
/// already there, when that member is an object; else `v`.
pub open spec fn setdefault_in(v: JsonView, outer: Seq<char>, key: Seq<char>, value: JsonView) -> JsonView {
    match json_get(v, outer) {
        Some(JsonView::Object(m)) => jset(v, outer, setdefault(JsonView::Object(m), key, value)),
        _ => v,
    }
}

/// `v` with member `key` of member `outer` removed, when that member is an
/// object; else `v`.
pub open spec fn jremove_in(v: JsonView, outer: Seq<char>, key: Seq<char>) -> JsonView {
    match json_get(v, outer) {
        Some(JsonView::Object(m)) => jset(v, outer, jremove(JsonView::Object(m), key)),
        _ => v,
    }
}

/// Looking up a member of an object after setting one.
pub proof fn lemma_lookup_set(entries: Seq<(Seq<char>, JsonView)>, key: Seq<char>, value: JsonView, q: Seq<char>)
    ensures
        lookup(entries_set(entries, key, value), q) == (if q == key {
            Some(value)
        } else {
            lookup(entries, q)
        }),
    decreases entries.len(),
{
    reveal_with_fuel(lookup, 2);
    let r = entries_set(entries, key, value);
    if entries.len() == 0 {
        assert(r.drop_first() =~= Seq::<(Seq<char>, JsonView)>::empty());
    } else if entries[0].0 == key {
        assert(r.drop_first() =~= entries.drop_first());
    } else {
        lemma_lookup_set(entries.drop_first(), key, value, q);
        assert(r.drop_first() =~= entries_set(entries.drop_first(), key, value));
    }
}

/// Reading a member of `jset(v, key, value)`.
pub proof fn lemma_jset_get(v: JsonView, key: Seq<char>, value: JsonView, q: Seq<char>)
    requires
        v is Object,
    ensures
        json_get(jset(v, key, value), q) == (if q == key {
            Some(value)
        } else {
            json_get(v, q)
        }),
{
    lemma_lookup_set(v->Object_0, key, value, q);
}

/// Setting a member twice keeps the second value.
pub proof fn lemma_entries_set_twice(entries: Seq<(Seq<char>, JsonView)>, key: Seq<char>, a: JsonView, b: JsonView)
    ensures
        entries_set(entries_set(entries, key, a), key, b) == entries_set(entries, key, b),
    decreases entries.len(),
{
    let once = entries_set(entries, key, a);
    if entries.len() == 0 {
        assert(entries_set(once, key, b) =~= seq![(key, b)]);
    } else if entries[0].0 == key {
        assert(entries_set(once, key, b) =~= entries.update(0, (key, b)));
    } else {
        lemma_entries_set_twice(entries.drop_first(), key, a, b);
        assert(once.drop_first() =~= entries_set(entries.drop_first(), key, a));
        assert(entries_set(once, key, b) =~= seq![entries[0]] + entries_set(entries.drop_first(), key, b));
    }
}

/// The members after setting at the first position carrying the key, or after
/// appending, are the members `entries_set` describes.
pub proof fn lemma_entries_set_shape(entries: Seq<(Seq<char>, JsonView)>, key: Seq<char>, value: JsonView, i: int)
    requires
        0 <= i <= entries.len(),
        forall|j: int| 0 <= j < i ==> #[trigger] entries[j].0 != key,
        i < entries.len() ==> entries[i].0 == key,
    ensures
        entries_set(entries, key, value) == (if i < entries.len() {
            entries.update(i, (key, value))
        } else {
            entries.push((key, value))
        }),
    decreases i,
{
    if i > 0 {
        lemma_entries_set_shape(entries.drop_first(), key, value, i - 1);
        if i < entries.len() {
            assert(entries.update(i, (key, value)) =~= seq![entries[0]] + entries.drop_first().update(i - 1, (key, value)));
        } else {
            assert(entries.push((key, value)) =~= seq![entries[0]] + entries.drop_first().push((key, value)));
        }
    } else if i == entries.len() {
        assert(entries.push((key, value)) =~= seq![(key, value)]);
    }
}

/// Member `key` of `v`, when `v` is an object holding it.
pub open spec fn json_get(v: JsonView, key: Seq<char>) -> Option<JsonView> {
    match v {
        JsonView::Object(m) => lookup(m, key),
        _ => None,
    }
}

/// Member `key` of `v` when `v` is `Some` object holding it.
pub open spec fn json_get_opt(v: Option<JsonView>, key: Seq<char>) -> Option<JsonView> {
    match v {
        Some(x) => json_get(x, key),
        None => None,
    }
}

/// Follows `path` member by member from `v`.
pub open spec fn json_path(v: JsonView, path: Seq<Seq<char>>) -> Option<JsonView>
    decreases path.len(),
{
    if path.len() == 0 {
        Some(v)
    } else {
        json_get_opt(json_path(v, path.drop_last()), path.last())
    }
}

/// The text of a string value.
pub open spec fn str_of(v: Option<JsonView>) -> Option<Seq<char>> {
    match v {
        Some(JsonView::Str(s)) => Some(s),
        _ => None,
    }
}

/// The value of a non-negative integer.
pub open spec fn u64_of(v: Option<JsonView>) -> Option<u64> {
    match v {
        Some(JsonView::UInt(n)) => Some(n),
        _ => None,
    }
}

/// The value of an integer that fits in an `i64`.
pub open spec fn i64_of(v: Option<JsonView>) -> Option<i64> {
    match v {
        Some(JsonView::UInt(n)) => if n <= i64::MAX as u64 {
            Some(n as i64)
        } else {
            None
        },
        Some(JsonView::Int(n)) => Some(n),
        _ => None,
    }
}

/// The value of a boolean.
pub open spec fn bool_of(v: Option<JsonView>) -> Option<bool> {
    match v {
        Some(JsonView::Bool(b)) => Some(b),
        _ => None,
    }
}

/// The items of an array.
pub open spec fn array_of(v: Option<JsonView>) -> Option<Seq<JsonView>> {
    match v {
        Some(JsonView::Array(a)) => Some(a),
        _ => None,
    }
}

/// The viewed members of an object's member list.
pub open spec fn members_view(m: Seq<(String, Json)>) -> Seq<(Seq<char>, JsonView)> {
    Seq::new(m.len(), |i: int| (m[i].0@, m[i].1@))
}

/// The items' values of an array.
pub open spec fn items_view(a: Seq<Json>) -> Seq<JsonView> {
    Seq::new(a.len(), |i: int| a[i]@)
}

proof fn lemma_array_view(a: Vec<Json>)
    ensures
        Json::Array(a)@ == JsonView::Array(items_view(a@)),
{
    let s = Seq::new(
        a@.len(),
        |i: int|
            if 0 <= i < a@.len() {
                json_view(a@[i])
            } else {
                JsonView::Null
            },
    );
    let v = json_view(Json::Array(a));
    assert(v->Array_0 =~= items_view(a@));
}

proof fn lemma_object_view(m: Vec<(String, Json)>)
    ensures
        Json::Object(m)@ == JsonView::Object(members_view(m@)),
{
    let s = Seq::new(
        m@.len(),
        |i: int|
            if 0 <= i < m@.len() {
                (m@[i].0@, json_view(m@[i].1))
            } else {
                (Seq::empty(), JsonView::Null)
            },
    );
    let v = json_view(Json::Object(m));
    assert(v->Object_0 =~= members_view(m@));
    assert(members_view(m@) =~= Seq::new(
        m@.len(),
        |i: int|
            if 0 <= i < m@.len() {
                (m@[i].0@, json_view(m@[i].1))
            } else {
                (Seq::empty(), JsonView::Null)
            },
    ));
}

/// A member carrying `key` makes the lookup find something.
proof fn lemma_lookup_first_found(entries: Seq<(Seq<char>, JsonView)>, key: Seq<char>, j: int)
    requires
        0 <= j < entries.len(),
        entries[j].0 == key,
    ensures
        lookup(entries, key) is Some,
    decreases j,
{
    if j > 0 && entries[0].0 != key {
        lemma_lookup_first_found(entries.drop_first(), key, j - 1);
    }
}

/// Position of the first member of `entries` whose key is `key`.
fn find_member(entries: &Vec<(String, Json)>, key: &str) -> (r: Option<usize>)
    ensures
        match r {
            Some(i) => {
                &&& i < entries@.len()
                &&& entries@[i as int].0@ == key@
                &&& forall|j: int| 0 <= j < i ==> #[trigger] entries@[j].0@ != key@
                &&& lookup(members_view(entries@), key@) == Some(entries@[i as int].1@)
            },
            None => lookup(members_view(entries@), key@) is None,
        },
{
    let ghost mv = members_view(entries@);
    let mut i: usize = 0;
    assert(mv.skip(0) =~= mv);
    while i < entries.len()
        invariant
            mv == members_view(entries@),
            0 <= i <= entries@.len(),
            forall|j: int| 0 <= j < i ==> #[trigger] entries@[j].0@ != key@,
            lookup(mv, key@) == lookup(mv.skip(i as int), key@),
        decreases entries@.len() - i,
    {
        if str_eq(entries[i].0.as_str(), key) {
            assert(mv.skip(i as int)[0] == mv[i as int]);
            return Some(i);
        }
        assert(mv.skip(i as int).drop_first() =~= mv.skip(i as int + 1));
        i += 1;
    }
    assert(mv.skip(i as int).len() == 0);
    None
}

proof fn lemma_path_none_extends(v: JsonView, ps: Seq<Seq<char>>, k: int)
    requires
        0 <= k <= ps.len(),
        json_path(v, ps.take(k)) is None,
    ensures
        json_path(v, ps) is None,
    decreases ps.len() - k,
{
    if k < ps.len() {
        assert(ps.take(k + 1).drop_last() =~= ps.take(k));
        lemma_path_none_extends(v, ps, k + 1);
    } else {
        assert(ps.take(k) =~= ps);
    }
}

impl Json {
    /// An empty object.
    pub fn empty_object() -> (r: Json)
        ensures
            r@ == JsonView::Object(Seq::empty()),
    {
        let m: Vec<(String, Json)> = Vec::new();
        proof {
            lemma_object_view(m);
            assert(members_view(m@) =~= Seq::<(Seq<char>, JsonView)>::empty());
        }
        Json::Object(m)
    }

    /// An array holding exactly `x`.
    pub fn single_array(x: Json) -> (r: Json)
        ensures
            r@ == JsonView::Array(seq![x@]),
    {
        let ghost xv = x@;
        let mut v: Vec<Json> = Vec::new();
        v.push(x);
        proof {
            lemma_array_view(v);
            assert(items_view(v@) =~= seq![xv]);
        }
        Json::Array(v)
    }

    /// An array of the given items.
    pub fn array(items: Vec<Json>) -> (r: Json)
        ensures
            r@ == JsonView::Array(items_view(items@)),
    {
        proof {
            lemma_array_view(items);
        }
        Json::Array(items)
    }

    /// An object with the given members, in order.
    pub fn object(members: Vec<(String, Json)>) -> (r: Json)
        ensures
            r@ == JsonView::Object(members_view(members@)),
    {
        proof {
            lemma_object_view(members);
        }
        Json::Object(members)
    }

    /// An object holding exactly member `key` with `value`.
    pub fn single_member(key: &str, value: Json) -> (r: Json)
        ensures
            r@ == JsonView::Object(seq![(key@, value@)]),
    {
        let mut o = Json::empty_object();
        o.insert(key, value);
        o
    }

    /// A string value.
    pub fn string(s: &str) -> (r: Json)
        ensures
            r@ == JsonView::Str(s@),
    {
        Json::Str(s.to_owned())
    }

    /// A copy of this value.
    pub fn deep_clone(&self) -> (r: Json)
        ensures
            r@ == self@,
        decreases self,
    {
        match self {
            Json::Null => Json::Null,
            Json::Bool(b) => Json::Bool(*b),
            Json::UInt(n) => Json::UInt(*n),
            Json::Int(n) => Json::Int(*n),
            Json::Float(s) => Json::Float(s.clone()),
            Json::Str(s) => Json::Str(s.clone()),
            Json::Array(items) => {
                let mut out: Vec<Json> = Vec::new();
                let mut i: usize = 0;
                while i < items.len()
                    invariant
                        *self is Array && self->Array_0 == *items,
                        0 <= i <= items@.len(),
                        out@.len() == i,
                        forall|j: int| 0 <= j < i ==> #[trigger] out@[j]@ == items@[j]@,
                    decreases items@.len() - i,
                {
                    assert(decreases_to!(*self => self->Array_0));
                    assert(decreases_to!(*items => items[i as int]));
                    let x = items[i].deep_clone();
                    out.push(x);
                    i += 1;
                }
                proof {
                    lemma_array_view(out);
                    lemma_array_view(*items);
                    assert(items_view(out@) =~= items_view(items@));
                }
                Json::Array(out)
            },
            Json::Object(members) => {
                let mut out: Vec<(String, Json)> = Vec::new();
                let mut i: usize = 0;
                while i < members.len()
                    invariant
                        *self is Object && self->Object_0 == *members,
                        0 <= i <= members@.len(),
                        out@.len() == i,
                        forall|j: int| 0 <= j < i ==> #[trigger] out@[j].0@ == members@[j].0@ && out@[j].1@ == members@[j].1@,
                    decreases members@.len() - i,
                {
                    assert(decreases_to!(*self => self->Object_0));
                    assert(decreases_to!(*members => members[i as int]));
                    assert(decreases_to!(members@[i as int] => members@[i as int].1));
                    let v = members[i].1.deep_clone();
                    out.push((members[i].0.clone(), v));
                    i += 1;
                }
                proof {
                    lemma_object_view(out);
                    lemma_object_view(*members);
                    assert(members_view(out@) =~= members_view(members@));
                }
                Json::Object(out)
            },
        }
    }

    /// Member `key` of this value, when it is an object holding it.
    pub fn get(&self, key: &str) -> (r: Option<&Json>)
        ensures
            match r {
                Some(x) => json_get(self@, key@) == Some(x@),
                None => json_get(self@, key@) is None,
            },
    {
        match self {
            Json::Object(m) => {
                proof {
                    lemma_object_view(*m);
                }
                match find_member(m, key) {
                    Some(i) => Some(&m[i].1),
                    None => None,
                }
            },
            _ => None,
        }
    }

    /// Follows `path` member by member.
    pub fn get_path(&self, path: &[&str]) -> (r: Option<&Json>)
        ensures
            match r {
                Some(x) => json_path(self@, path@.map_values(|p: &str| p@)) == Some(x@),
                None => json_path(self@, path@.map_values(|p: &str| p@)) is None,
            },
    {
        let ghost ps = path@.map_values(|p: &str| p@);
        let mut cur: &Json = self;
        let mut i: usize = 0;
        while i < path.len()
            invariant
                0 <= i <= path@.len(),
                ps == path@.map_values(|p: &str| p@),
                json_path(self@, ps.take(i as int)) == Some(cur@),
            decreases path@.len() - i,
        {
            assert(ps.take(i as int + 1).drop_last() =~= ps.take(i as int));
            match cur.get(path[i]) {
                Some(next) => {
                    cur = next;
                },
                None => {
                    proof {
                        lemma_path_none_extends(self@, ps, i as int + 1);
                    }
                    return None;
                },
            }
            i += 1;
        }
        assert(ps.take(ps.len() as int) =~= ps);
        Some(cur)
    }

    /// The text, when this is a string.
    pub fn as_str(&self) -> (r: Option<&String>)
        ensures
            str_of(Some(self@)) == (match r {
                Some(s) => Some(s@),
                None => None::<Seq<char>>,
            }),
    {
        match self {
            Json::Str(s) => Some(s),
            _ => None,
        }
    }

    /// The value, when this is a non-negative integer.
    pub fn as_u64(&self) -> (r: Option<u64>)
        ensures
            r == u64_of(Some(self@)),
    {
        match self {
            Json::UInt(n) => Some(*n),
            _ => None,
        }
    }

    /// The value, when this is an integer that fits in an `i64`.
    pub fn as_i64(&self) -> (r: Option<i64>)
        ensures
            r == i64_of(Some(self@)),
    {
        match self {
            Json::UInt(n) => if *n <= 9223372036854775807u64 {
                Some(*n as i64)
            } else {
                None
            },
            Json::Int(n) => Some(*n),
            _ => None,
        }
    }

    /// The value, when this is a boolean.
    pub fn as_bool(&self) -> (r: Option<bool>)
        ensures
            r == bool_of(Some(self@)),
    {
        match self {
            Json::Bool(b) => Some(*b),
            _ => None,
        }
    }

    /// The items, when this is an array.
    pub fn as_array(&self) -> (r: Option<&Vec<Json>>)
        ensures
            match r {
                Some(a) => array_of(Some(self@)) == Some(items_view(a@)),
                None => array_of(Some(self@)) is None,
            },
    {
        match self {
            Json::Array(a) => {
                proof {
                    lemma_array_view(*a);
                }
                Some(a)
            },
            _ => None,
        }
    }

    /// The members of an object.
    pub fn as_object(&self) -> (r: Option<&Vec<(String, Json)>>)
        ensures
            match r {
                Some(m) => self@ == JsonView::Object(members_view(m@)),
                None => !(self@ is Object),
            },
    {
        match self {
            Json::Object(m) => {
                proof {
                    lemma_object_view(*m);
                }
                Some(m)
            },
            _ => None,
        }
    }

    /// Whether this is an object.
    pub fn is_object(&self) -> (r: bool)
        ensures
            r == (self@ is Object),
    {
        match self {
            Json::Object(_) => true,
            _ => false,
        }
    }

    /// Whether this is `null`.
    pub fn is_null(&self) -> (r: bool)
        ensures
            r == (self@ is Null),
    {
        match self {
            Json::Null => true,
            _ => false,
        }
    }

    /// Sets member `key` to `value` when this is an object (the first member
    /// with that key is replaced in place, else a member is appended); any
    /// other value is left alone.
    pub fn insert(&mut self, key: &str, value: Json)
        ensures
            final(self)@ == jset(old(self)@, key@, value@),
    {
        match self {
            Json::Object(m) => {
                let ghost before = members_view(m@);
                let ghost vv = value@;
                proof {
                    lemma_object_view(*m);
                }
                match find_member(m, key) {
                    Some(i) => {
                        let k = m[i].0.clone();
                        m.set(i, (k, value));
                        proof {
                            lemma_object_view(*m);
                            assert(members_view(m@) =~= before.update(i as int, (key@, vv)));
                            lemma_entries_set_shape(before, key@, vv, i as int);
                        }
                    },
                    None => {
                        proof {
                            assert forall|j: int| 0 <= j < before.len() implies #[trigger] before[j].0 != key@ by {
                                if before[j].0 == key@ {
                                    lemma_lookup_first_found(before, key@, j);
                                }
                            }
                        }
                        m.push((key.to_owned(), value));
                        proof {
                            lemma_object_view(*m);
                            assert(members_view(m@) =~= before.push((key@, vv)));
                            lemma_entries_set_shape(before, key@, vv, before.len() as int);
                        }
                    },
                }
            },
            _ => {},
        }
    }

    /// Sets member `key` to `value` unless this object already has that member.
    pub fn insert_if_absent(&mut self, key: &str, value: Json)
        ensures
            final(self)@ == (if json_get(old(self)@, key@) is None {
                jset(old(self)@, key@, value@)
            } else {
                old(self)@
            }),
    {
        let absent = match self.get(key) {
            Some(_) => false,
            None => true,
        };
        if absent {
            self.insert(key, value);
        }
    }

    /// Removes member `key` (every member with that key) when this is an
    /// object; any other value is left alone.
    pub fn remove(&mut self, key: &str)
        ensures
            final(self)@ == jremove(old(self)@, key@),
    {
        match self {
            Json::Object(m) => {
                proof {
                    lemma_object_view(*m);
                }
                let ghost before = members_view(m@);
                let mut out: Vec<(String, Json)> = Vec::new();
                let mut i: usize = 0;
                assert(before.skip(0) =~= before);
                while i < m.len()
                    invariant
                        before == members_view(m@),
                        0 <= i <= m@.len(),
                        entries_without(before, key@) == members_view(out@) + entries_without(before.skip(i as int), key@),
                    decreases m@.len() - i,
                {
                    assert(before.skip(i as int).drop_first() =~= before.skip(i as int + 1));
                    assert(before.skip(i as int)[0] == before[i as int]);
                    if !str_eq(m[i].0.as_str(), key) {
                        let ghost prev = members_view(out@);
                        let v = m[i].1.deep_clone();
                        out.push((m[i].0.clone(), v));
                        assert(members_view(out@) =~= prev.push(before[i as int]));
                        assert(prev + (seq![before[i as int]] + entries_without(before.skip(i as int + 1), key@))
                            =~= members_view(out@) + entries_without(before.skip(i as int + 1), key@));
                    }
                    i += 1;
                }
                assert(before.skip(i as int) =~= Seq::<(Seq<char>, JsonView)>::empty());
                assert(members_view(out@) =~= entries_without(before, key@));
                *m = out;
                proof {
                    lemma_object_view(*m);
                }
            },
            _ => {},
        }
    }
    /// `self[key] = value` on a document that is an object or `null`: a
    /// `null` first becomes an empty object; an object gets the member set.
    pub fn set_index(&mut self, key: &str, value: Json)
        requires
            old(self)@ is Object || old(self)@ is Null,
        ensures
            final(self)@ == jset(if old(self)@ is Null { empty_object_view() } else { old(self)@ }, key@, value@),
    {
        if self.is_null() {
            *self = Json::empty_object();
        }
        self.insert(key, value);
    }

    /// Sets member `key` of member `outer`, when this is an object whose
    /// member `outer` is an object; anything else is left alone.
    pub fn update_member(&mut self, outer: &str, key: &str, value: Json)
        ensures
            final(self)@ == jset_in(old(self)@, outer@, key@, value@),
    {
        let updated = match self.get(outer) {
            Some(x) => if x.is_object() {
                let mut y = x.deep_clone();
                y.insert(key, value);
                Some(y)
            } else {
                None
            },
            None => None,
        };
        match updated {
            Some(y) => {
                self.insert(outer, y);
            },
            None => {},
        }
    }

    /// Sets member `key` of member `outer` unless it is already there, when
    /// this is an object whose member `outer` is an object; anything else is
    /// left alone.
    pub fn default_member(&mut self, outer: &str, key: &str, value: Json)
        ensures
            final(self)@ == setdefault_in(old(self)@, outer@, key@, value@),
    {
        let updated = match self.get(outer) {
            Some(x) => if x.is_object() {
                let mut y = x.deep_clone();
                y.insert_if_absent(key, value);
                Some(y)
            } else {
                None
            },
            None => None,
        };
        match updated {
            Some(y) => {
                self.insert(outer, y);
            },
            None => {},
        }
    }

    /// Removes member `key` of member `outer`, when this is an object whose
    /// member `outer` is an object; anything else is left alone.
    pub fn remove_member(&mut self, outer: &str, key: &str)
        ensures
            final(self)@ == jremove_in(old(self)@, outer@, key@),
    {
        let updated = match self.get(outer) {
            Some(x) => if x.is_object() {
                let mut y = x.deep_clone();
                y.remove(key);
                Some(y)
            } else {
                None
            },
            None => None,
        };
        match updated {
            Some(y) => {
                self.insert(outer, y);
            },
            None => {},
        }
    }
}


/// `serde_json`'s document type, carried through the conversion below.
#[verifier::external_type_specification]
#[verifier::external_body]
pub struct ExValue(serde_json::Value);

/// Converts a `serde_json` document into a `Json`, variant for variant; a
/// number becomes `UInt` when it is a `u64`, else `Int` when it is an `i64`,
/// else `Float` holding its text.
#[verifier::external_body]
fn json_from_value(v: serde_json::Value) -> Json {
    match v {
        serde_json::Value::Null => Json::Null,
        serde_json::Value::Bool(b) => Json::Bool(b),
        serde_json::Value::Number(n) => match (n.as_u64(), n.as_i64()) {
            (Some(u), _) => Json::UInt(u),
            (None, Some(i)) => Json::Int(i),
            (None, None) => Json::Float(n.to_string()),
        },
        serde_json::Value::String(s) => Json::Str(s),
        serde_json::Value::Array(a) => Json::Array(a.into_iter().map(json_from_value).collect()),
        serde_json::Value::Object(m) => Json::Object(m.into_iter().map(|(k, x)| (k, json_from_value(x))).collect()),
    }
}

/// The document a JSON text denotes, as `serde_json` reads it (objects with
/// their members in key order, a repeated key keeping its last value), or
/// `None` when the text is not JSON.
pub uninterp spec fn json_text_value(text: Seq<char>) -> Option<JsonView>;

/// Reads a JSON text with `serde_json::from_str`. The contract names the
/// document read (a function of the text alone) without describing the
/// grammar; the error message on failure is `serde_json`'s and is left
/// unsaid.
#[verifier::external_body]
pub(crate) fn parse_json(text: &str) -> (r: Result<Json, String>)
    ensures
        match r {
            Ok(j) => json_text_value(text@) == Some(j@),
            Err(_) => json_text_value(text@) is None,
        },
{
    match serde_json::from_str::<serde_json::Value>(text) {
        Ok(v) => Ok(json_from_value(v)),
        Err(e) => Err(e.to_string()),
    }
}

/// Converts a `Json` into a `serde_json` document, variant for variant; a
/// `Float` holds a number's text and is read back as that number (`Null` if
/// `serde_json` refuses the text); a repeated object key keeps its last value.
#[verifier::external_body]
fn value_from_json(j: &Json) -> serde_json::Value {
    match j {
        Json::Null => serde_json::Value::Null,
        Json::Bool(b) => serde_json::Value::Bool(*b),
        Json::UInt(u) => serde_json::Value::from(*u),
        Json::Int(i) => serde_json::Value::from(*i),
        Json::Float(t) => t.parse::<serde_json::Number>().map_or(serde_json::Value::Null, serde_json::Value::Number),
        Json::Str(t) => serde_json::Value::String(t.clone()),
        Json::Array(a) => serde_json::Value::Array(a.iter().map(value_from_json).collect()),
        Json::Object(m) => serde_json::Value::Object(m.iter().map(|(k, x)| (k.clone(), value_from_json(x))).collect()),
    }
}

/// The compact JSON text `serde_json` writes for a document (objects with
/// their members in key order).
pub uninterp spec fn json_text(doc: JsonView) -> Seq<char>;

/// Writes a document as compact JSON text with `serde_json` (the `Display`
/// of its `Value`, which cannot fail). The contract names the text (a
/// function of the document alone) without describing the format.
#[verifier::external_body]
pub fn document_text(doc: &Json) -> (r: String)
    ensures
        r@ == json_text(doc@),
{
    value_from_json(doc).to_string()
}

} // verus!

//! JSON documents as the library sees them. Objects keep their entries in
//! ascending key order with unique keys, which is how `serde_json::Map` (a
//! `BTreeMap`) holds and compares them; numbers keep their decimal text.

use vstd::prelude::*;
use crate::text::{decimal, seq_lt, str_eq, str_lt, u64_to_string};
use crate::kv::{entries_get, entries_insert, entries_remove, insert_all, pairs_view};

verus! {

/// A JSON value.
#[derive(Debug)]
pub enum JsonValue {
    Null,
    Bool(bool),
    /// The number as `serde_json` renders it.
    Number(String),
    Str(String),
    Array(Vec<JsonValue>),
    /// Entries in key order.
    Object(Vec<(String, JsonValue)>),
}

/// Mathematical model of [`JsonValue`].
pub enum JsonView {
    Null,
    Bool(bool),
    Number(Seq<char>),
    Str(Seq<char>),
    Array(Seq<JsonView>),
    Object(Seq<(Seq<char>, JsonView)>),
}

pub open spec fn json_view(v: JsonValue) -> JsonView
    decreases v,
{
    match v {
        JsonValue::Null => JsonView::Null,
        JsonValue::Bool(b) => JsonView::Bool(b),
        JsonValue::Number(n) => JsonView::Number(n@),
        JsonValue::Str(s) => JsonView::Str(s@),
        JsonValue::Array(items) => JsonView::Array(items_view(items@)),
        JsonValue::Object(entries) => JsonView::Object(entries_view(entries@)),
    }
}

pub open spec fn items_view(s: Seq<JsonValue>) -> Seq<JsonView>
    decreases s,
{
    if s.len() == 0 {
        Seq::empty()
    } else {
        items_view(s.drop_last()).push(json_view(s.last()))
    }
}

pub open spec fn entries_view(s: Seq<(String, JsonValue)>) -> Seq<(Seq<char>, JsonView)>
    decreases s,
{
    if s.len() == 0 {
        Seq::empty()
    } else {
        entries_view(s.drop_last()).push((s.last().0@, json_view(s.last().1)))
    }
}

impl View for JsonValue {
    type V = JsonView;

    open spec fn view(&self) -> JsonView {
        json_view(*self)
    }
}

/// The view of a value sequence has one element view per value.
pub proof fn lemma_items_view(s: Seq<JsonValue>)
    ensures
        items_view(s).len() == s.len(),
        forall|i: int| 0 <= i < s.len() ==> #[trigger] items_view(s)[i] == json_view(s[i]),
    decreases s.len(),
{
    if s.len() > 0 {
        lemma_items_view(s.drop_last());
    }
}

/// The view of an entry sequence has one (key, value view) per entry.
pub proof fn lemma_entries_view(s: Seq<(String, JsonValue)>)
    ensures
        entries_view(s).len() == s.len(),
        forall|i: int|
            0 <= i < s.len() ==> #[trigger] entries_view(s)[i] == (s[i].0@, json_view(s[i].1)),
    decreases s.len(),
{
    if s.len() > 0 {
        lemma_entries_view(s.drop_last());
    }
}

/// Two value sequences with the same element views have the same view.
pub proof fn lemma_items_view_ext(a: Seq<JsonValue>, b: Seq<JsonView>)
    requires
        a.len() == b.len(),
        forall|i: int| 0 <= i < a.len() ==> json_view(#[trigger] a[i]) == b[i],
    ensures
        items_view(a) == b,
{
    lemma_items_view(a);
    assert(items_view(a) =~= b);
}

/// Two entry sequences with the same entry views have the same view.
pub proof fn lemma_entries_view_ext(a: Seq<(String, JsonValue)>, b: Seq<(Seq<char>, JsonView)>)
    requires
        a.len() == b.len(),
        forall|i: int| 0 <= i < a.len() ==> (#[trigger] a[i].0@, json_view(a[i].1)) == b[i],
    ensures
        entries_view(a) == b,
{
    lemma_entries_view(a);
    assert(entries_view(a) =~= b);
}

impl JsonView {
    /// `Value::get` with a string key.
    pub open spec fn get(self, k: Seq<char>) -> Option<JsonView> {
        match self {
            JsonView::Object(e) => entries_get(e, k),
            _ => None,
        }
    }

    pub open spec fn as_str(self) -> Option<Seq<char>> {
        match self {
            JsonView::Str(s) => Some(s),
            _ => None,
        }
    }

    pub open spec fn as_bool(self) -> Option<bool> {
        match self {
            JsonView::Bool(b) => Some(b),
            _ => None,
        }
    }

    pub open spec fn is_object(self) -> bool {
        self is Object
    }
}

/// `o.get(k).and_then(Value::as_str)`.
pub open spec fn get_str(o: Option<JsonView>) -> Option<Seq<char>> {
    match o {
        Some(v) => v.as_str(),
        None => None,
    }
}

/// `o.get(k).and_then(Value::as_bool)`.
pub open spec fn get_bool(o: Option<JsonView>) -> Option<bool> {
    match o {
        Some(v) => v.as_bool(),
        None => None,
    }
}

pub open spec fn opt_view(o: Option<&JsonValue>) -> Option<JsonView> {
    match o {
        Some(v) => Some(json_view(*v)),
        None => None,
    }
}

impl JsonValue {
    /// `value.get(key)`.
    pub fn get(&self, key: &str) -> (r: Option<&JsonValue>)
        ensures
            opt_view(r) == self@.get(key@),
    {
        match self {
            JsonValue::Object(entries) => entries_lookup(entries, key),
            _ => None,
        }
    }

    /// `value.as_str()`.
    pub fn as_str(&self) -> (r: Option<&String>)
        ensures
            match r {
                Some(s) => self@.as_str() == Some(s@),
                None => self@.as_str() is None,
            },
    {
        match self {
            JsonValue::Str(s) => Some(s),
            _ => None,
        }
    }

    /// `value.as_bool()`.
    pub fn as_bool(&self) -> (r: Option<bool>)
        ensures
            r == self@.as_bool(),
    {
        match self {
            JsonValue::Bool(b) => Some(*b),
            _ => None,
        }
    }

    /// `value.as_array()`.
    pub fn as_array(&self) -> (r: Option<&Vec<JsonValue>>)
        ensures
            match r {
                Some(a) => self@ == JsonView::Array(items_view(a@)),
                None => !(self@ is Array),
            },
    {
        match self {
            JsonValue::Array(a) => Some(a),
            _ => None,
        }
    }

    /// The entries of an object.
    pub fn as_object(&self) -> (r: Option<&Vec<(String, JsonValue)>>)
        ensures
            match r {
                Some(e) => self@ == JsonView::Object(entries_view(e@)),
                None => !(self@ is Object),
            },
    {
        match self {
            JsonValue::Object(e) => Some(e),
            _ => None,
        }
    }

    pub fn is_null(&self) -> (r: bool)
        ensures
            r == (self@ is Null),
    {
        match self {
            JsonValue::Null => true,
            _ => false,
        }
    }

    pub fn is_object(&self) -> (r: bool)
        ensures
            r == (self@ is Object),
    {
        match self {
            JsonValue::Object(_) => true,
            _ => false,
        }
    }

    /// A JSON string holding a copy of `s`.
    pub fn from_str(s: &str) -> (r: JsonValue)
        ensures
            r@ == JsonView::Str(s@),
    {
        JsonValue::Str(s.to_string())
    }

    /// A JSON number holding `n`.
    pub fn from_u64(n: u64) -> (r: JsonValue)
        ensures
            r@ == JsonView::Number(decimal(n as nat)),
    {
        JsonValue::Number(u64_to_string(n))
    }
}

/// `map.get(key)` over key-ordered entries.
pub fn entries_lookup<'a>(entries: &'a Vec<(String, JsonValue)>, key: &str) -> (r: Option<
    &'a JsonValue,
>)
    ensures
        opt_view(r) == entries_get(entries_view(entries@), key@),
{
    let n = entries.len();
    let mut i: usize = 0;
    proof {
        lemma_entries_view(entries@);
        assert(entries_view(entries@).skip(0) =~= entries_view(entries@));
    }
    while i < n
        invariant
            n == entries@.len(),
            i <= n,
            entries_view(entries@).len() == n,
            forall|j: int|
                0 <= j < n ==> #[trigger] entries_view(entries@)[j] == (
                    entries@[j].0@,
                    json_view(entries@[j].1),
                ),
            entries_get(entries_view(entries@), key@) == entries_get(
                entries_view(entries@).skip(i as int),
                key@,
            ),
        decreases n - i,
    {
        let ghost rest = entries_view(entries@).skip(i as int);
        assert(rest[0] == entries_view(entries@)[i as int]);
        if str_eq(entries[i].0.as_str(), key) {
            return Some(&entries[i].1);
        }
        assert(rest.skip(1) =~= entries_view(entries@).skip(i + 1));
        i = i + 1;
    }
    None
}


proof fn lemma_entries_insert_prefix(e: Seq<(Seq<char>, JsonView)>, k: Seq<char>, v: JsonView, i: int)
    requires
        0 <= i < e.len(),
        e[i].0 != k,
        !seq_lt(k, e[i].0),
    ensures
        entries_insert(e.skip(i), k, v) == seq![e[i]] + entries_insert(e.skip(i + 1), k, v),
{
    assert(e.skip(i)[0] == e[i]);
    assert(e.skip(i).skip(1) =~= e.skip(i + 1));
}

/// `map.insert(key, value)` on key-ordered entries.
pub fn entries_insert_exec(entries: &mut Vec<(String, JsonValue)>, key: String, value: JsonValue)
    ensures
        entries_view(final(entries)@) == entries_insert(entries_view(old(entries)@), key@, value@),
{
    let ghost e = entries_view(entries@);
    let ghost k = key@;
    let ghost v = value@;
    let n = entries.len();
    let mut i: usize = 0;
    proof {
        lemma_entries_view(entries@);
        assert(e.skip(0) =~= e);
        assert(e.take(0) + entries_insert(e, k, v) =~= entries_insert(e, k, v));
    }
    while i < n
        invariant
            n == entries@.len(),
            entries@ == old(entries)@,
            e == entries_view(entries@),
            e.len() == n,
            k == key@,
            v == value@,
            i <= n,
            forall|j: int|
                0 <= j < n ==> #[trigger] e[j] == (entries@[j].0@, json_view(entries@[j].1)),
            entries_insert(e, k, v) == e.take(i as int) + entries_insert(e.skip(i as int), k, v),
        decreases n - i,
    {
        assert(e.skip(i as int)[0] == e[i as int]);
        if str_eq(entries[i].0.as_str(), key.as_str()) {
            let ghost old_entries = entries@;
            entries.set(i, (key, value));
            proof {
                assert(e.skip(i as int).skip(1) =~= e.skip(i + 1));
                let target = e.take(i as int) + (seq![(k, v)] + e.skip(i + 1));
                assert(entries_insert(e, k, v) == target);
                assert forall|j: int| 0 <= j < entries@.len() implies (#[trigger] entries@[j].0@,
                    json_view(entries@[j].1)) == target[j] by {
                    if j != i {
                        assert(entries@[j] == old_entries[j]);
                    }
                }
                lemma_entries_view_ext(entries@, target);
            }
            return;
        }
        if str_lt(key.as_str(), entries[i].0.as_str()) {
            let ghost old_entries = entries@;
            entries.insert(i, (key, value));
            proof {
                let target = e.take(i as int) + (seq![(k, v)] + e.skip(i as int));
                assert(entries_insert(e, k, v) == target);
                assert forall|j: int| 0 <= j < entries@.len() implies (#[trigger] entries@[j].0@,
                    json_view(entries@[j].1)) == target[j] by {
                    if j < i {
                        assert(entries@[j] == old_entries[j]);
                    } else if j > i {
                        assert(entries@[j] == old_entries[j - 1]);
                    }
                }
                lemma_entries_view_ext(entries@, target);
            }
            return;
        }
        proof {
            lemma_entries_insert_prefix(e, k, v, i as int);
            assert(e.take(i as int) + seq![e[i as int]] =~= e.take(i + 1));
            assert(e.take(i + 1) + entries_insert(e.skip(i + 1), k, v) =~= e.take(i as int) + (
            seq![e[i as int]] + entries_insert(e.skip(i + 1), k, v)));
        }
        i = i + 1;
    }
    let ghost old_entries = entries@;
    entries.push((key, value));
    proof {
        assert(e.skip(n as int).len() == 0);
        assert(e.take(n as int) =~= e);
        let target = e.push((k, v));
        assert(entries_insert(e, k, v) =~= target);
        assert forall|j: int| 0 <= j < entries@.len() implies (#[trigger] entries@[j].0@,
            json_view(entries@[j].1)) == target[j] by {
            if j < n {
                assert(entries@[j] == old_entries[j]);
            }
        }
        lemma_entries_view_ext(entries@, target);
    }
}

/// `map.remove(key)` on key-ordered entries.
pub fn entries_remove_exec(entries: &mut Vec<(String, JsonValue)>, key: &str)
    ensures
        entries_view(final(entries)@) == entries_remove(entries_view(old(entries)@), key@),
{
    let ghost e = entries_view(entries@);
    let ghost k = key@;
    let n = entries.len();
    let mut i: usize = 0;
    proof {
        lemma_entries_view(entries@);
        assert(e.skip(0) =~= e);
        assert(e.take(0) + entries_remove(e, k) =~= entries_remove(e, k));
    }
    while i < n
        invariant
            n == entries@.len(),
            entries@ == old(entries)@,
            e == entries_view(entries@),
            e.len() == n,
            k == key@,
            i <= n,
            forall|j: int|
                0 <= j < n ==> #[trigger] e[j] == (entries@[j].0@, json_view(entries@[j].1)),
            entries_remove(e, k) == e.take(i as int) + entries_remove(e.skip(i as int), k),
        decreases n - i,
    {
        assert(e.skip(i as int)[0] == e[i as int]);
        if str_eq(entries[i].0.as_str(), key) {
            let ghost old_entries = entries@;
            entries.remove(i);
            proof {
                assert(e.skip(i as int).skip(1) =~= e.skip(i + 1));
                let target = e.take(i as int) + e.skip(i + 1);
                assert(entries_remove(e, k) == target);
                assert forall|j: int| 0 <= j < entries@.len() implies (#[trigger] entries@[j].0@,
                    json_view(entries@[j].1)) == target[j] by {
                    if j < i {
                        assert(entries@[j] == old_entries[j]);
                    } else {
                        assert(entries@[j] == old_entries[j + 1]);
                    }
                }
                lemma_entries_view_ext(entries@, target);
            }
            return;
        }
        proof {
            assert(e.skip(i as int).skip(1) =~= e.skip(i + 1));
            assert(entries_remove(e.skip(i as int), k) == seq![e[i as int]] + entries_remove(e.skip(i + 1), k));
            assert(e.take(i as int) + seq![e[i as int]] =~= e.take(i + 1));
            assert(e.take(i + 1) + entries_remove(e.skip(i + 1), k) =~= e.take(i as int) + (
            seq![e[i as int]] + entries_remove(e.skip(i + 1), k)));
        }
        i = i + 1;
    }
    proof {
        assert(e.take(n as int) =~= e);
        assert(e.skip(n as int).len() == 0);
        assert(entries_remove(e, k) =~= e);
    }
}


/// A copy of `v` with the same view.
pub fn json_clone(v: &JsonValue) -> (r: JsonValue)
    ensures
        r@ == v@,
    decreases v,
{
    match v {
        JsonValue::Null => JsonValue::Null,
        JsonValue::Bool(b) => JsonValue::Bool(*b),
        JsonValue::Number(n) => JsonValue::Number(n.clone()),
        JsonValue::Str(s) => JsonValue::Str(s.clone()),
        JsonValue::Array(items) => {
            let mut out: Vec<JsonValue> = Vec::new();
            let n = items.len();
            let mut i: usize = 0;
            while i < n
                invariant
                    *v == JsonValue::Array(*items),
                    n == items@.len(),
                    i <= n,
                    out@.len() == i,
                    forall|j: int| 0 <= j < i ==> json_view(#[trigger] out@[j]) == json_view(items@[j]),
                decreases n - i,
            {
                assert(decreases_to!(*v => (*v)->Array_0));
                assert(decreases_to!(*items => items@));
                assert(decreases_to!(items@ => items@[i as int]));
                assert(decreases_to!(*v => items@[i as int]));
                let c = json_clone(&items[i]);
                out.push(c);
                i = i + 1;
            }
            proof {
                lemma_items_view(items@);
                lemma_items_view_ext(out@, items_view(items@));
            }
            JsonValue::Array(out)
        },
        JsonValue::Object(entries) => {
            let mut out: Vec<(String, JsonValue)> = Vec::new();
            let n = entries.len();
            let mut i: usize = 0;
            while i < n
                invariant
                    *v == JsonValue::Object(*entries),
                    n == entries@.len(),
                    i <= n,
                    out@.len() == i,
                    forall|j: int|
                        0 <= j < i ==> (#[trigger] out@[j].0@, json_view(out@[j].1)) == (
                            entries@[j].0@,
                            json_view(entries@[j].1),
                        ),
                decreases n - i,
            {
                assert(decreases_to!(*v => (*v)->Object_0));
                assert(decreases_to!(*entries => entries@));
                assert(decreases_to!(entries@ => entries@[i as int]));
                assert(decreases_to!(entries@[i as int] => entries@[i as int].1));
                assert(decreases_to!(*v => entries@[i as int].1));
                let c = json_clone(&entries[i].1);
                let k = entries[i].0.clone();
                out.push((k, c));
                i = i + 1;
            }
            proof {
                lemma_entries_view(entries@);
                lemma_entries_view_ext(out@, entries_view(entries@));
            }
            JsonValue::Object(out)
        },
    }
}

/// `a == b` for JSON values.
pub fn json_eq(a: &JsonValue, b: &JsonValue) -> (r: bool)
    ensures
        r == (a@ == b@),
    decreases a,
{
    match a {
        JsonValue::Null => match b {
            JsonValue::Null => true,
            _ => false,
        },
        JsonValue::Bool(x) => match b {
            JsonValue::Bool(y) => *x == *y,
            _ => false,
        },
        JsonValue::Number(x) => match b {
            JsonValue::Number(y) => str_eq(x.as_str(), y.as_str()),
            _ => false,
        },
        JsonValue::Str(x) => match b {
            JsonValue::Str(y) => str_eq(x.as_str(), y.as_str()),
            _ => false,
        },
        JsonValue::Array(x) => match b {
            JsonValue::Array(y) => items_eq(a, x, y),
            _ => false,
        },
        JsonValue::Object(x) => match b {
            JsonValue::Object(y) => entries_eq(a, x, y),
            _ => false,
        },
    }
}

fn items_eq(a: &JsonValue, x: &Vec<JsonValue>, y: &Vec<JsonValue>) -> (r: bool)
    requires
        *a == JsonValue::Array(*x),
    ensures
        r == (items_view(x@) == items_view(y@)),
    decreases a, 0nat,
{
    proof {
        lemma_items_view(x@);
        lemma_items_view(y@);
    }
    if x.len() != y.len() {
        return false;
    }
    let n = x.len();
    let mut i: usize = 0;
    while i < n
        invariant
            *a == JsonValue::Array(*x),
            n == x@.len(),
            n == y@.len(),
            i <= n,
            items_view(x@).len() == n,
            items_view(y@).len() == n,
            forall|j: int| 0 <= j < n ==> #[trigger] items_view(x@)[j] == json_view(x@[j]),
            forall|j: int| 0 <= j < n ==> #[trigger] items_view(y@)[j] == json_view(y@[j]),
            forall|j: int| 0 <= j < i ==> json_view(#[trigger] x@[j]) == json_view(y@[j]),
        decreases n - i,
    {
        assert(decreases_to!(*a => (*a)->Array_0));
        assert(decreases_to!(*x => x@));
        assert(decreases_to!(x@ => x@[i as int]));
        assert(decreases_to!(*a => x@[i as int]));
        if !json_eq(&x[i], &y[i]) {
            assert(items_view(x@)[i as int] != items_view(y@)[i as int]);
            return false;
        }
        i = i + 1;
    }
    assert(items_view(x@) =~= items_view(y@));
    true
}

fn entries_eq(a: &JsonValue, x: &Vec<(String, JsonValue)>, y: &Vec<(String, JsonValue)>) -> (r:
    bool)
    requires
        *a == JsonValue::Object(*x),
    ensures
        r == (entries_view(x@) == entries_view(y@)),
    decreases a, 0nat,
{
    proof {
        lemma_entries_view(x@);
        lemma_entries_view(y@);
    }
    if x.len() != y.len() {
        return false;
    }
    let n = x.len();
    let mut i: usize = 0;
    while i < n
        invariant
            *a == JsonValue::Object(*x),
            n == x@.len(),
            n == y@.len(),
            i <= n,
            entries_view(x@).len() == n,
            entries_view(y@).len() == n,
            forall|j: int|
                0 <= j < n ==> #[trigger] entries_view(x@)[j] == (x@[j].0@, json_view(x@[j].1)),
            forall|j: int|
                0 <= j < n ==> #[trigger] entries_view(y@)[j] == (y@[j].0@, json_view(y@[j].1)),
            forall|j: int| 0 <= j < i ==> #[trigger] entries_view(x@)[j] == entries_view(y@)[j],
        decreases n - i,
    {
        assert(decreases_to!(*a => (*a)->Object_0));
        assert(decreases_to!(*x => x@));
        assert(decreases_to!(x@ => x@[i as int]));
        assert(decreases_to!(x@[i as int] => x@[i as int].1));
        assert(decreases_to!(*a => x@[i as int].1));
        if !str_eq(x[i].0.as_str(), y[i].0.as_str()) {
            assert(entries_view(x@)[i as int] != entries_view(y@)[i as int]);
            return false;
        }
        if !json_eq(&x[i].1, &y[i].1) {
            assert(entries_view(x@)[i as int] != entries_view(y@)[i as int]);
            return false;
        }
        i = i + 1;
    }
    assert(entries_view(x@) =~= entries_view(y@));
    true
}


/// The entries collected into a fresh key-ordered object.
pub fn entries_collect(src: &Vec<(String, JsonValue)>) -> (r: Vec<(String, JsonValue)>)
    ensures
        entries_view(r@) == insert_all(Seq::empty(), entries_view(src@)),
{
    let mut out: Vec<(String, JsonValue)> = Vec::new();
    let n = src.len();
    let mut i: usize = 0;
    proof {
        lemma_entries_view(src@);
        assert(entries_view(out@) =~= Seq::<(Seq<char>, JsonView)>::empty());
    }
    while i < n
        invariant
            n == src@.len(),
            i <= n,
            entries_view(src@).len() == n,
            forall|j: int|
                0 <= j < n ==> #[trigger] entries_view(src@)[j] == (
                    src@[j].0@,
                    json_view(src@[j].1),
                ),
            entries_view(out@) == insert_all(Seq::empty(), entries_view(src@).take(i as int)),
        decreases n - i,
    {
        let k = src[i].0.clone();
        let v = json_clone(&src[i].1);
        entries_insert_exec(&mut out, k, v);
        assert(entries_view(src@).take(i + 1).drop_last() =~= entries_view(src@).take(i as int));
        i = i + 1;
    }
    assert(entries_view(src@).take(n as int) =~= entries_view(src@));
    out
}

/// Each string as a JSON string.
pub open spec fn str_items(s: Seq<Seq<char>>) -> Seq<JsonView> {
    s.map_values(|x: Seq<char>| JsonView::Str(x))
}

/// `json!(vec_of_strings)`.
pub fn string_array(v: &Vec<String>) -> (r: JsonValue)
    ensures
        r@ == JsonView::Array(str_items(v@.map_values(|s: String| s@))),
{
    let mut out: Vec<JsonValue> = Vec::new();
    let n = v.len();
    let mut i: usize = 0;
    while i < n
        invariant
            n == v@.len(),
            i <= n,
            out@.len() == i,
            forall|j: int| 0 <= j < i ==> json_view(#[trigger] out@[j]) == JsonView::Str(v@[j]@),
        decreases n - i,
    {
        out.push(JsonValue::Str(v[i].clone()));
        i = i + 1;
    }
    proof {
        lemma_items_view_ext(out@, str_items(v@.map_values(|s: String| s@)));
    }
    JsonValue::Array(out)
}

/// String pairs as JSON string entries.
pub open spec fn str_entries(s: Seq<(Seq<char>, Seq<char>)>) -> Seq<(Seq<char>, JsonView)> {
    s.map_values(|p: (Seq<char>, Seq<char>)| (p.0, JsonView::Str(p.1)))
}

/// `json!(btree_map_of_strings)`: an object holding each pair, in order.
pub fn string_pairs_object(pairs: &Vec<(String, String)>) -> (r: JsonValue)
    ensures
        r@ == JsonView::Object(str_entries(pairs_view(pairs@))),
{
    let mut out: Vec<(String, JsonValue)> = Vec::new();
    let n = pairs.len();
    let mut i: usize = 0;
    while i < n
        invariant
            n == pairs@.len(),
            i <= n,
            out@.len() == i,
            forall|j: int|
                0 <= j < i ==> (#[trigger] out@[j].0@, json_view(out@[j].1)) == (
                    pairs@[j].0@,
                    JsonView::Str(pairs@[j].1@),
                ),
        decreases n - i,
    {
        out.push((pairs[i].0.clone(), JsonValue::Str(pairs[i].1.clone())));
        i = i + 1;
    }
    proof {
        lemma_entries_view_ext(out@, str_entries(pairs_view(pairs@)));
    }
    JsonValue::Object(out)
}

/// `a == b` for lists of JSON values.
pub fn items_equal(x: &Vec<JsonValue>, y: &Vec<JsonValue>) -> (r: bool)
    ensures
        r == (items_view(x@) == items_view(y@)),
{
    proof {
        lemma_items_view(x@);
        lemma_items_view(y@);
    }
    if x.len() != y.len() {
        return false;
    }
    let n = x.len();
    let mut i: usize = 0;
    while i < n
        invariant
            n == x@.len(),
            n == y@.len(),
            i <= n,
            items_view(x@).len() == n,
            items_view(y@).len() == n,
            forall|j: int| 0 <= j < n ==> #[trigger] items_view(x@)[j] == json_view(x@[j]),
            forall|j: int| 0 <= j < n ==> #[trigger] items_view(y@)[j] == json_view(y@[j]),
            forall|j: int| 0 <= j < i ==> json_view(#[trigger] x@[j]) == json_view(y@[j]),
        decreases n - i,
    {
        if !json_eq(&x[i], &y[i]) {
            assert(items_view(x@)[i as int] != items_view(y@)[i as int]);
            return false;
        }
        i = i + 1;
    }
    assert(items_view(x@) =~= items_view(y@));
    true
}

} // verus!

//! The library's own JSON value: what the compiler writes into lock files and
//! what the engine reads back.  Numbers are held as their text together with
//! their integer readings, which is all that the library reads of them.
use vstd::prelude::*;
use crate::text::{dec, str_eq, u64_text};

verus! {

/// A JSON number: its canonical text, and its value when that is an `i64` or a `u64`.
pub struct JsonNumber {
    pub text: String,
    pub signed: Option<i64>,
    pub unsigned: Option<u64>,
}

/// A JSON value.  Objects keep their entries in iteration order.
pub enum Json {
    Null,
    Bool(bool),
    Number(JsonNumber),
    Str(String),
    Array(Vec<Json>),
    Object(Vec<(String, Json)>),
}

/// The mathematical JSON value.
pub enum JsonV {
    Null,
    Bool(bool),
    Number(Seq<char>, Option<i64>, Option<u64>),
    Str(Seq<char>),
    Array(Seq<JsonV>),
    Object(Seq<(Seq<char>, JsonV)>),
}

impl Json {
    pub open spec fn view_of(self) -> JsonV
        decreases self,
    {
        match self {
            Json::Null => JsonV::Null,
            Json::Bool(b) => JsonV::Bool(b),
            Json::Number(n) => JsonV::Number(n.text@, n.signed, n.unsigned),
            Json::Str(s) => JsonV::Str(s@),
            Json::Array(items) => JsonV::Array(
                Seq::new(
                    items@.len(),
                    |i: int|
                        if 0 <= i < items@.len() {
                            items@[i].view_of()
                        } else {
                            JsonV::Null
                        },
                ),
            ),
            Json::Object(entries) => JsonV::Object(
                Seq::new(
                    entries@.len(),
                    |i: int|
                        if 0 <= i < entries@.len() {
                            (entries@[i].0@, entries@[i].1.view_of())
                        } else {
                            (Seq::empty(), JsonV::Null)
                        },
                ),
            ),
        }
    }
}

impl View for Json {
    type V = JsonV;

    open spec fn view(&self) -> JsonV {
        self.view_of()
    }
}

// ---------------------------------------------------------------------------
// Keyed lookup
// ---------------------------------------------------------------------------

/// First index at or after `i` whose key is `k`.
pub open spec fn index_from(keys: Seq<Seq<char>>, k: Seq<char>, i: int) -> Option<int>
    decreases keys.len() - i,
{
    if i < 0 || i >= keys.len() {
        None
    } else if keys[i] == k {
        Some(i)
    } else {
        index_from(keys, k, i + 1)
    }
}

/// First index whose key is `k`.
pub open spec fn index_of(keys: Seq<Seq<char>>, k: Seq<char>) -> Option<int> {
    index_from(keys, k, 0)
}

pub proof fn lemma_index_from(keys: Seq<Seq<char>>, k: Seq<char>, i: int)
    requires
        0 <= i,
    ensures
        index_from(keys, k, i) matches Some(j) ==> i <= j < keys.len() && keys[j] == k && forall|
            m: int,
        | i <= m < j ==> keys[m] != k,
        index_from(keys, k, i) is None ==> forall|m: int| i <= m < keys.len() ==> keys[m] != k,
    decreases keys.len() - i,
{
    if i < keys.len() && keys[i] != k {
        lemma_index_from(keys, k, i + 1);
    }
}

pub proof fn lemma_index_of(keys: Seq<Seq<char>>, k: Seq<char>)
    ensures
        index_of(keys, k) matches Some(j) ==> 0 <= j < keys.len() && keys[j] == k && forall|m: int|
            0 <= m < j ==> keys[m] != k,
        index_of(keys, k) is None ==> forall|m: int| 0 <= m < keys.len() ==> keys[m] != k,
{
    lemma_index_from(keys, k, 0);
}

/// The keys of an object's entries.
pub open spec fn entry_keys(es: Seq<(Seq<char>, JsonV)>) -> Seq<Seq<char>> {
    es.map_values(|e: (Seq<char>, JsonV)| e.0)
}

/// `Value::get` with a key: the value under `k` when `v` is an object that has it.
pub open spec fn jget(v: JsonV, k: Seq<char>) -> Option<JsonV> {
    match v {
        JsonV::Object(es) => match index_of(entry_keys(es), k) {
            Some(i) => Some(es[i].1),
            None => None,
        },
        _ => None,
    }
}

/// `Value::as_str`.
pub open spec fn jstr(v: Option<JsonV>) -> Option<Seq<char>> {
    match v {
        Some(JsonV::Str(s)) => Some(s),
        _ => None,
    }
}

/// `Value::as_bool`.
pub open spec fn jbool(v: Option<JsonV>) -> Option<bool> {
    match v {
        Some(JsonV::Bool(b)) => Some(b),
        _ => None,
    }
}

/// `Value::as_u64`.
pub open spec fn ju64(v: Option<JsonV>) -> Option<u64> {
    match v {
        Some(JsonV::Number(_, _, u)) => u,
        _ => None,
    }
}

/// `Value::as_i64`.
pub open spec fn ji64(v: Option<JsonV>) -> Option<i64> {
    match v {
        Some(JsonV::Number(_, i, _)) => i,
        _ => None,
    }
}

/// A JSON value read at a key chain, `None` as soon as a step is missing.
pub open spec fn jpath2(v: JsonV, a: Seq<char>, b: Seq<char>) -> Option<JsonV> {
    match jget(v, a) {
        Some(x) => jget(x, b),
        None => None,
    }
}

/// `Option<&Value>` written out by `json!`: a missing value becomes `null`.
pub open spec fn or_null(v: Option<JsonV>) -> JsonV {
    match v {
        Some(x) => x,
        None => JsonV::Null,
    }
}

impl Json {
    pub proof fn lemma_array_view(&self)
        requires
            self is Array,
        ensures
            self@ == JsonV::Array(self->Array_0@.map_values(|x: Json| x@)),
    {
        assert(self->Array_0@.map_values(|x: Json| x@) =~= self@->Array_0);
    }

    pub proof fn lemma_object_view(&self)
        requires
            self is Object,
        ensures
            self@ == JsonV::Object(self->Object_0@.map_values(|e: (String, Json)| (e.0@, e.1@))),
    {
        assert(self->Object_0@.map_values(|e: (String, Json)| (e.0@, e.1@)) =~= self@->Object_0);
    }

    /// `Value::as_object`.
    pub fn as_object(&self) -> (r: Option<&Vec<(String, Json)>>)
        ensures
            match r {
                Some(v) => self@ == JsonV::Object(v@.map_values(|e: (String, Json)| (e.0@, e.1@))),
                None => !(self@ is Object),
            },
    {
        match self {
            Json::Object(entries) => {
                proof {
                    self.lemma_object_view();
                }
                Some(entries)
            },
            _ => None,
        }
    }

    /// `Value::as_array`.
    pub fn as_array(&self) -> (r: Option<&Vec<Json>>)
        ensures
            match r {
                Some(v) => self@ == JsonV::Array(v@.map_values(|x: Json| x@)),
                None => !(self@ is Array),
            },
    {
        match self {
            Json::Array(items) => {
                proof {
                    self.lemma_array_view();
                }
                Some(items)
            },
            _ => None,
        }
    }

    /// The value under `key`, when this is an object that has it.
    pub fn get(&self, key: &str) -> (r: Option<&Json>)
        ensures
            match r {
                Some(x) => jget(self@, key@) == Some(x@),
                None => jget(self@, key@) is None,
            },
    {
        match self {
            Json::Object(entries) => {
                let ghost keys = entry_keys(self@->Object_0);
                proof {
                    lemma_index_of(keys, key@);
                }
                let mut i: usize = 0;
                while i < entries.len()
                    invariant
                        *self == Json::Object(*entries),
                        keys == entry_keys(self@->Object_0),
                        keys.len() == entries@.len(),
                        0 <= i <= entries@.len(),
                        index_of(keys, key@) == index_from(keys, key@, i as int),
                    decreases entries@.len() - i,
                {
                    assert(keys[i as int] == entries@[i as int].0@);
                    if str_eq(entries[i].0.as_str(), key) {
                        return Some(&entries[i].1);
                    }
                    i = i + 1;
                }
                None
            },
            _ => None,
        }
    }

    pub fn as_str(&self) -> (r: Option<&String>)
        ensures
            match r {
                Some(s) => jstr(Some(self@)) == Some(s@),
                None => jstr(Some(self@)) is None,
            },
    {
        match self {
            Json::Str(s) => Some(s),
            _ => None,
        }
    }

    pub fn as_bool(&self) -> (r: Option<bool>)
        ensures
            r == jbool(Some(self@)),
    {
        match self {
            Json::Bool(b) => Some(*b),
            _ => None,
        }
    }

    pub fn as_u64(&self) -> (r: Option<u64>)
        ensures
            r == ju64(Some(self@)),
    {
        match self {
            Json::Number(n) => n.unsigned,
            _ => None,
        }
    }

    pub fn as_i64(&self) -> (r: Option<i64>)
        ensures
            r == ji64(Some(self@)),
    {
        match self {
            Json::Number(n) => n.signed,
            _ => None,
        }
    }

    pub fn is_null(&self) -> (r: bool)
        ensures
            r == (self@ is Null),
    {
        match self {
            Json::Null => true,
            _ => false,
        }
    }

    /// A deep copy.
    pub fn dup(&self) -> (r: Json)
        ensures
            r@ == self@,
        decreases self,
    {
        match self {
            Json::Null => Json::Null,
            Json::Bool(b) => Json::Bool(*b),
            Json::Number(n) => Json::Number(
                JsonNumber { text: n.text.clone(), signed: n.signed, unsigned: n.unsigned },
            ),
            Json::Str(s) => Json::Str(s.clone()),
            Json::Array(items) => {
                let mut out: Vec<Json> = Vec::new();
                let mut i: usize = 0;
                while i < items.len()
                    invariant
                        *self == Json::Array(*items),
                        0 <= i <= items@.len(),
                        out@.len() == i,
                        forall|k: int| 0 <= k < i ==> (#[trigger] out@[k])@ == items@[k]@,
                    decreases items@.len() - i,
                {
                    assert(decreases_to!(*self => self->Array_0));
                    assert(decreases_to!(*items => items@));
                    assert(decreases_to!(items@ => items@[i as int]));
                    out.push(items[i].dup());
                    i = i + 1;
                }
                let r = Json::Array(out);
                assert(r@->Array_0 =~= self@->Array_0);
                r
            },
            Json::Object(entries) => {
                let mut out: Vec<(String, Json)> = Vec::new();
                let mut i: usize = 0;
                while i < entries.len()
                    invariant
                        *self == Json::Object(*entries),
                        0 <= i <= entries@.len(),
                        out@.len() == i,
                        forall|k: int|
                            0 <= k < i ==> (#[trigger] out@[k]).0@ == entries@[k].0@ && out@[k].1@
                                == entries@[k].1@,
                    decreases entries@.len() - i,
                {
                    assert(decreases_to!(*self => self->Object_0));
                    assert(decreases_to!(*entries => entries@));
                    assert(decreases_to!(entries@ => entries@[i as int]));
                    assert(decreases_to!(entries@[i as int] => entries@[i as int].1));
                    out.push((entries[i].0.clone(), entries[i].1.dup()));
                    i = i + 1;
                }
                let r = Json::Object(out);
                assert(r@->Object_0 =~= self@->Object_0);
                r
            },
        }
    }
}

/// A deep copy of an object's entries.
pub fn dup_entries(es: &Vec<(String, Json)>) -> (r: Vec<(String, Json)>)
    ensures
        r@.map_values(|e: (String, Json)| (e.0@, e.1@)) == es@.map_values(|e: (String, Json)| (e.0@, e.1@)),
{
    let mut out: Vec<(String, Json)> = Vec::new();
    let mut i: usize = 0;
    while i < es.len()
        invariant
            0 <= i <= es@.len(),
            out@.map_values(|e: (String, Json)| (e.0@, e.1@)) == es@.map_values(|e: (String, Json)| (e.0@, e.1@)).take(i as int),
        decreases es@.len() - i,
    {
        let ghost before = out@.map_values(|e: (String, Json)| (e.0@, e.1@));
        let e = (es[i].0.clone(), es[i].1.dup());
        assert((e.0@, e.1@) == es@.map_values(|e: (String, Json)| (e.0@, e.1@))[i as int]);
        out.push(e);
        assert(out@.map_values(|e: (String, Json)| (e.0@, e.1@)) =~= before.push((e.0@, e.1@)));
        i = i + 1;
        assert(es@.map_values(|e: (String, Json)| (e.0@, e.1@)).take(i as int) =~= es@.map_values(|e: (String, Json)| (e.0@, e.1@)).take(i - 1).push((e.0@, e.1@)));
    }
    assert(es@.map_values(|e: (String, Json)| (e.0@, e.1@)).take(i as int) =~= es@.map_values(|e: (String, Json)| (e.0@, e.1@)));
    out
}

/// Copies an optional value, as `Option<&Value>::cloned`.
pub fn dup_opt(v: Option<&Json>) -> (r: Option<Json>)
    ensures
        match v {
            Some(x) => r matches Some(y) && y@ == x@,
            None => r is None,
        },
{
    match v {
        Some(x) => Some(x.dup()),
        None => None,
    }
}

/// `json!(opt)` for an optional borrowed value: `null` when absent.
pub fn dup_or_null(v: Option<&Json>) -> (r: Json)
    ensures
        r@ == or_null(
            match v {
                Some(x) => Some(x@),
                None => None,
            },
        ),
{
    match v {
        Some(x) => x.dup(),
        None => Json::Null,
    }
}

pub fn jstring(s: String) -> (r: Json)
    ensures
        r@ == JsonV::Str(s@),
{
    Json::Str(s)
}

/// A JSON number for an unsigned integer.
pub fn ju64_value(n: u64) -> (r: Json)
    ensures
        r@ == JsonV::Number(
            dec(n as nat),
            if n <= i64::MAX as u64 {
                Some(n as i64)
            } else {
                None
            },
            Some(n),
        ),
{
    let text = u64_text(n);
    let signed = if n <= i64::MAX as u64 {
        Some(n as i64)
    } else {
        None
    };
    Json::Number(JsonNumber { text, signed, unsigned: Some(n) })
}

/// Whether two values are equal, as `Value`'s `==`.
pub fn json_eq(a: &Json, b: &Json) -> (r: bool)
    ensures
        r == (a@ == b@),
    decreases a,
{
    match (a, b) {
        (Json::Null, Json::Null) => true,
        (Json::Bool(x), Json::Bool(y)) => *x == *y,
        (Json::Number(x), Json::Number(y)) => x.text == y.text && x.signed == y.signed && x.unsigned == y.unsigned,
        (Json::Str(x), Json::Str(y)) => *x == *y,
        (Json::Array(x), Json::Array(y)) => {
            if x.len() != y.len() {
                assert(a@->Array_0.len() != b@->Array_0.len());
                return false;
            }
            let mut i: usize = 0;
            while i < x.len()
                invariant
                    x@.len() == y@.len(),
                    0 <= i <= x@.len(),
                    *a == Json::Array(*x),
                    *b == Json::Array(*y),
                    forall|k: int| 0 <= k < i ==> (#[trigger] x@[k])@ == y@[k]@,
                decreases x@.len() - i,
            {
                if !json_eq(&x[i], &y[i]) {
                    assert(a@->Array_0[i as int] != b@->Array_0[i as int]);
                    return false;
                }
                i = i + 1;
            }
            assert(a@->Array_0 =~= b@->Array_0);
            true
        },
        (Json::Object(x), Json::Object(y)) => {
            if x.len() != y.len() {
                assert(a@->Object_0.len() != b@->Object_0.len());
                return false;
            }
            let mut i: usize = 0;
            while i < x.len()
                invariant
                    x@.len() == y@.len(),
                    0 <= i <= x@.len(),
                    *a == Json::Object(*x),
                    *b == Json::Object(*y),
                    forall|k: int|
                        0 <= k < i ==> (#[trigger] x@[k]).0@ == y@[k].0@ && x@[k].1@ == y@[k].1@,
                decreases x@.len() - i,
            {
                if !(x[i].0 == y[i].0) {
                    assert(a@->Object_0[i as int] != b@->Object_0[i as int]);
                    return false;
                }
                if !json_eq(&x[i].1, &y[i].1) {
                    assert(a@->Object_0[i as int] != b@->Object_0[i as int]);
                    return false;
                }
                i = i + 1;
            }
            assert(a@->Object_0 =~= b@->Object_0);
            true
        },
        _ => false,
    }
}

pub open spec fn opt_view(v: Option<&Json>) -> Option<JsonV> {
    match v {
        Some(x) => Some(x@),
        None => None,
    }
}

/// Equality of two optional values, as `Option<&Value>`'s `==`.
pub fn json_opt_eq(a: Option<&Json>, b: Option<&Json>) -> (r: bool)
    ensures
        r == (opt_view(a) == opt_view(b)),
{
    match (a, b) {
        (Some(x), Some(y)) => json_eq(x, y),
        (None, None) => true,
        _ => false,
    }
}

} // verus!

//! Reading tag values out of harvested metadata: the generic resolvers that
//! turn a raw tag into a string, a list, an integer or a flag, with fallback
//! keys and defaults, and the formatting of durations.
use vstd::prelude::*;
use crate::json::{Json, JsonV, jget, jstr, jstring};
use crate::jtext::{jtext, json_text};
use crate::text::{
    trim, split, join, without_char, dec, pad2, parse_signed, chars_of, string_of, trim_chars,
    trim_str, split_chars, join_chars, without_char_chars, parse_i64, push_decimal, push_pad2,
};
use crate::collate::{lower, to_lower};

verus! {

/// A tag value that counts as present: not `null`, not a blank string and
/// not an empty list.
pub open spec fn usable(v: Option<JsonV>) -> Option<JsonV> {
    match v {
        Some(JsonV::Null) => None,
        Some(JsonV::Str(s)) => if trim(s).len() == 0 {
            None
        } else {
            v
        },
        Some(JsonV::Array(a)) => if a.len() == 0 {
            None
        } else {
            v
        },
        _ => v,
    }
}

/// The fallback keys of an argument list: comma-separated, trimmed, blanks
/// left out.
pub open spec fn fallback_keys(args: Seq<char>) -> Seq<Seq<char>> {
    split(args, ',').map_values(|k: Seq<char>| trim(k)).filter(|k: Seq<char>| k.len() > 0)
}

/// The first usable value among `keys[i..]`.
pub open spec fn first_usable(source: JsonV, keys: Seq<Seq<char>>, i: int) -> Option<JsonV>
    decreases keys.len() - i,
{
    if i < 0 || i >= keys.len() {
        None
    } else {
        match usable(jget(source, keys[i])) {
            Some(v) => Some(v),
            None => first_usable(source, keys, i + 1),
        }
    }
}

/// The value of `key` in `source`, or else of the first fallback key in
/// `args` that has a usable value.
pub open spec fn raw_value(source: JsonV, key: Seq<char>, args: Seq<char>) -> Option<JsonV> {
    match usable(jget(source, key)) {
        Some(v) => Some(v),
        None => first_usable(source, fallback_keys(args), 0),
    }
}

/// The strings among `items`.
pub open spec fn strings_of(items: Seq<JsonV>) -> Seq<Seq<char>> {
    items.filter_map(|x: JsonV| jstr(Some(x)))
}

/// A value written as text with its double quotes dropped, trimmed.
pub open spec fn plain_text(v: JsonV) -> Seq<char> {
    trim(without_char(jtext(v), '"'))
}

/// `resolve_generic_string`: the value as one string.
pub open spec fn generic_string(source: JsonV, key: Seq<char>, args: Seq<char>, default: Seq<char>) -> JsonV {
    match raw_value(source, key, args) {
        Some(JsonV::Str(s)) => JsonV::Str(trim(s)),
        Some(JsonV::Array(items)) => JsonV::Str(join(strings_of(items), seq![';', ' '])),
        Some(v) => JsonV::Str(plain_text(v)),
        None => JsonV::Str(default),
    }
}

/// Trimmed pieces without the blank ones.
pub open spec fn trimmed_nonblank(parts: Seq<Seq<char>>) -> Seq<Seq<char>> {
    parts.map_values(|p: Seq<char>| trim(p)).filter(|p: Seq<char>| p.len() > 0)
}

/// A JSON array of strings.
pub open spec fn str_array(parts: Seq<Seq<char>>) -> JsonV {
    JsonV::Array(parts.map_values(|p: Seq<char>| JsonV::Str(p)))
}

/// `resolve_generic_list`: the value as a list of strings; a string is
/// split at `;`.
pub open spec fn generic_list(source: JsonV, key: Seq<char>, args: Seq<char>) -> JsonV {
    match raw_value(source, key, args) {
        Some(JsonV::Array(items)) => str_array(trimmed_nonblank(strings_of(items))),
        Some(JsonV::Str(s)) => str_array(trimmed_nonblank(split(s, ';'))),
        Some(v) => str_array(seq![plain_text(v)]),
        None => str_array(Seq::empty()),
    }
}

/// A JSON number for a signed integer, as `json!` writes one.
pub open spec fn inum(n: i64) -> JsonV {
    JsonV::Number(
        if n < 0 {
            seq!['-'] + dec((-n) as nat)
        } else {
            dec(n as nat)
        },
        Some(n),
        if n >= 0 {
            Some(n as u64)
        } else {
            None
        },
    )
}

/// `resolve_generic_integer`: the value as an integer, 0 when it is none.
pub open spec fn generic_integer(source: JsonV, key: Seq<char>, args: Seq<char>) -> JsonV {
    match raw_value(source, key, args) {
        Some(JsonV::Number(_, i, _)) => inum(
            match i {
                Some(n) => n,
                None => 0,
            },
        ),
        Some(JsonV::Str(s)) => inum(
            match parse_signed(trim(s), i64::MIN as int, i64::MAX as int) {
                Some(n) => n as i64,
                None => 0,
            },
        ),
        _ => inum(0),
    }
}

/// `resolve_generic_bool`: the value as a flag; strings `true`, `1` and
/// `yes` (any case) and positive integers count as set.
pub open spec fn generic_bool(source: JsonV, key: Seq<char>, args: Seq<char>) -> JsonV {
    match raw_value(source, key, args) {
        Some(JsonV::Bool(b)) => JsonV::Bool(b),
        Some(JsonV::Str(s)) => {
            let l = lower(trim(s));
            JsonV::Bool(l == seq!['t', 'r', 'u', 'e'] || l == seq!['1'] || l == seq!['y', 'e', 's'])
        },
        Some(JsonV::Number(_, i, _)) => JsonV::Bool(
            match i {
                Some(n) => n > 0,
                None => false,
            },
        ),
        _ => JsonV::Bool(false),
    }
}

/// The text a fallback resolver reads from a value, if any.
pub open spec fn fallback_text(v: JsonV) -> Option<Seq<char>> {
    match v {
        JsonV::Str(s) => if trim(s).len() > 0 {
            Some(trim(s))
        } else {
            Some(plain_text(v))
        },
        JsonV::Array(a) => if a.len() > 0 {
            Some(join(strings_of(a), seq![';', ' ']))
        } else {
            Some(plain_text(v))
        },
        JsonV::Null => None,
        _ => Some(plain_text(v)),
    }
}

/// `resolve_generic_string_fallback`: the track's value, else the album's
/// value under `album_key`, else `default`.
pub open spec fn generic_string_fallback(
    source: JsonV,
    album_source: JsonV,
    key: Seq<char>,
    album_key: Seq<char>,
    default: Seq<char>,
) -> JsonV {
    let own = match jget(source, key) {
        Some(v) => fallback_text(v),
        None => None,
    };
    let album = match jget(album_source, album_key) {
        Some(v) => fallback_text(v),
        None => None,
    };
    match own {
        Some(t) => JsonV::Str(t),
        None => match album {
            Some(t) => JsonV::Str(t),
            None => JsonV::Str(default),
        },
    }
}

/// The non-empty texts among four, in order.
pub open spec fn nonblank4(a: Seq<char>, b: Seq<char>, c: Seq<char>, d: Seq<char>) -> Seq<Seq<char>> {
    let s1 = if a.len() > 0 { seq![a] } else { Seq::empty() };
    let s2 = if b.len() > 0 { s1.push(b) } else { s1 };
    let s3 = if c.len() > 0 { s2.push(c) } else { s2 };
    if d.len() > 0 { s3.push(d) } else { s3 }
}

/// `format_ms`: `h:mm:ss` when there are whole hours, else `m:ss`.
pub open spec fn duration_text(ms: u64) -> Seq<char> {
    let s = (ms / 1000) % 60;
    let m = (ms / 60000) % 60;
    let h = ms / 3600000;
    if h > 0 {
        dec(h as nat) + seq![':'] + pad2(m as nat) + seq![':'] + pad2(s as nat)
    } else {
        dec(m as nat) + seq![':'] + pad2(s as nat)
    }
}

/// A value that counts as present, looked up.
fn usable_at<'a>(source: &'a Json, key: &str) -> (r: Option<&'a Json>)
    ensures
        match r {
            Some(v) => usable(jget(source@, key@)) == Some(v@),
            None => usable(jget(source@, key@)) is None,
        },
{
    match source.get(key) {
        Some(v) => match v {
            Json::Null => None,
            Json::Str(s) => {
                let t = trim_str(s.as_str());
                if t.as_str().is_empty() {
                    None
                } else {
                    Some(v)
                }
            },
            Json::Array(a) => {
                if a.len() == 0 {
                    proof {
                        v.lemma_array_view();
                    }
                    None
                } else {
                    proof {
                        v.lemma_array_view();
                    }
                    Some(v)
                }
            },
            _ => Some(v),
        },
        None => None,
    }
}

/// The fallback keys of an argument list.
pub fn fallback_keys_of(args: &str) -> (r: Vec<String>)
    ensures
        r@.map_values(|s: String| s@) == fallback_keys(args@),
{
    let chars = chars_of(args);
    let parts = split_chars(chars.as_slice(), ',');
    let ghost sp = split(args@, ',');
    let ghost tr = sp.map_values(|k: Seq<char>| trim(k));
    let ghost keep = |k: Seq<char>| k.len() > 0;
    let mut r: Vec<String> = Vec::new();
    let mut i: usize = 0;
    while i < parts.len()
        invariant
            0 <= i <= parts@.len(),
            parts@.len() == sp.len(),
            forall|k: int| 0 <= k < parts@.len() ==> (#[trigger] parts@[k])@ == sp[k],
            tr == sp.map_values(|k: Seq<char>| trim(k)),
            keep == (|k: Seq<char>| k.len() > 0),
            r@.map_values(|s: String| s@) == tr.take(i as int).filter(keep),
        decreases parts@.len() - i,
    {
        let t = trim_chars(parts[i].as_slice());
        let ghost before = r@.map_values(|s: String| s@);
        proof {
            reveal(Seq::filter);
            assert(tr.take(i + 1).drop_last() =~= tr.take(i as int));
            assert(tr.take(i + 1).last() == t@);
        }
        if t.len() > 0 {
            r.push(string_of(t.as_slice()));
            assert(r@.map_values(|s: String| s@) =~= before.push(t@));
        }
        i = i + 1;
    }
    assert(tr.take(i as int) =~= tr);
    r
}

/// `get_raw_value`: the value of `key`, or of the first usable fallback key
/// listed in `args`.
pub fn get_raw_value<'a>(source: &'a Json, key: &str, args: &str) -> (r: Option<&'a Json>)
    ensures
        match r {
            Some(v) => raw_value(source@, key@, args@) == Some(v@),
            None => raw_value(source@, key@, args@) is None,
        },
{
    match usable_at(source, key) {
        Some(v) => {
            return Some(v);
        },
        None => {},
    }
    let keys = fallback_keys_of(args);
    let ghost kv = fallback_keys(args@);
    let mut i: usize = 0;
    while i < keys.len()
        invariant
            0 <= i <= keys@.len(),
            kv == keys@.map_values(|s: String| s@),
            kv == fallback_keys(args@),
            usable(jget(source@, key@)) is None,
            first_usable(source@, kv, 0) == first_usable(source@, kv, i as int),
        decreases keys@.len() - i,
    {
        assert(kv[i as int] == keys@[i as int]@);
        match usable_at(source, keys[i].as_str()) {
            Some(v) => {
                return Some(v);
            },
            None => {},
        }
        i = i + 1;
    }
    assert(first_usable(source@, kv, i as int) is None);
    None
}

/// The strings among `items`.
fn strings_in(items: &Vec<Json>) -> (r: Vec<Vec<char>>)
    ensures
        r@.map_values(|p: Vec<char>| p@) == strings_of(items@.map_values(|x: Json| x@)),
{
    let ghost iv = items@.map_values(|x: Json| x@);
    let ghost f = |x: JsonV| jstr(Some(x));
    let mut r: Vec<Vec<char>> = Vec::new();
    let mut i: usize = 0;
    while i < items.len()
        invariant
            0 <= i <= items@.len(),
            iv == items@.map_values(|x: Json| x@),
            f == (|x: JsonV| jstr(Some(x))),
            r@.map_values(|p: Vec<char>| p@) == iv.take(i as int).filter_map(f),
        decreases items@.len() - i,
    {
        let ghost before = r@.map_values(|p: Vec<char>| p@);
        proof {
            iv.lemma_filter_map_take_succ(f, i as int);
        }
        match items[i].as_str() {
            Some(s) => {
                r.push(chars_of(s.as_str()));
                assert(r@.map_values(|p: Vec<char>| p@) =~= before + seq![s@]);
            },
            None => {},
        }
        i = i + 1;
        assert(r@.map_values(|p: Vec<char>| p@) =~= iv.take(i as int).filter_map(f));
    }
    assert(iv.take(i as int) =~= iv);
    r
}

/// The strings of a list joined with `; `.
pub(crate) fn join_strings(items: &Vec<Json>) -> (r: String)
    ensures
        r@ == join(strings_of(items@.map_values(|x: Json| x@)), seq![';', ' ']),
{
    let parts = strings_in(items);
    let sep: Vec<char> = vec![';', ' '];
    let j = join_chars(&parts, sep.as_slice());
    assert(sep@ =~= seq![';', ' ']);
    string_of(j.as_slice())
}

/// A value written as text, its double quotes dropped, trimmed.
pub(crate) fn plain_text_of(v: &Json) -> (r: String)
    ensures
        r@ == plain_text(v@),
{
    let t = chars_of(json_text(v).as_str());
    let u = without_char_chars(t.as_slice(), '"');
    let w = trim_chars(u.as_slice());
    string_of(w.as_slice())
}

/// `resolve_generic_string`.
pub fn resolve_generic_string(source: &Json, key: &str, args: &str, default: &str) -> (r: Json)
    ensures
        r@ == generic_string(source@, key@, args@, default@),
{
    match get_raw_value(source, key, args) {
        Some(v) => match v {
            Json::Str(s) => jstring(trim_str(s.as_str())),
            Json::Array(items) => {
                proof {
                    v.lemma_array_view();
                }
                jstring(join_strings(items))
            },
            _ => jstring(plain_text_of(v)),
        },
        None => jstring(crate::text::str_to_string(default)),
    }
}

/// Trimmed pieces without the blank ones, as a JSON array of strings.
fn nonblank_array(parts: &Vec<Vec<char>>) -> (r: Json)
    ensures
        r@ == str_array(trimmed_nonblank(parts@.map_values(|p: Vec<char>| p@))),
{
    let ghost pv = parts@.map_values(|p: Vec<char>| p@);
    let ghost tr = pv.map_values(|p: Seq<char>| trim(p));
    let ghost keep = |p: Seq<char>| p.len() > 0;
    let mut out: Vec<Json> = Vec::new();
    let mut i: usize = 0;
    while i < parts.len()
        invariant
            0 <= i <= parts@.len(),
            pv == parts@.map_values(|p: Vec<char>| p@),
            tr == pv.map_values(|p: Seq<char>| trim(p)),
            keep == (|p: Seq<char>| p.len() > 0),
            out@.map_values(|x: Json| x@) == tr.take(i as int).filter(keep).map_values(
                |p: Seq<char>| JsonV::Str(p),
            ),
        decreases parts@.len() - i,
    {
        let t = trim_chars(parts[i].as_slice());
        let ghost before = out@.map_values(|x: Json| x@);
        proof {
            reveal(Seq::filter);
            assert(tr.take(i + 1).drop_last() =~= tr.take(i as int));
            assert(tr.take(i + 1).last() == t@);
        }
        if t.len() > 0 {
            out.push(jstring(string_of(t.as_slice())));
            assert(out@.map_values(|x: Json| x@) =~= before.push(JsonV::Str(t@)));
        }
        i = i + 1;
        assert(out@.map_values(|x: Json| x@) =~= tr.take(i as int).filter(keep).map_values(
            |p: Seq<char>| JsonV::Str(p),
        ));
    }
    assert(tr.take(i as int) =~= tr);
    let r = Json::Array(out);
    proof {
        r.lemma_array_view();
    }
    r
}

/// `resolve_generic_list`.
pub fn resolve_generic_list(source: &Json, key: &str, args: &str) -> (r: Json)
    ensures
        r@ == generic_list(source@, key@, args@),
{
    match get_raw_value(source, key, args) {
        Some(v) => match v {
            Json::Array(items) => {
                proof {
                    v.lemma_array_view();
                }
                let parts = strings_in(items);
                let r = nonblank_array(&parts);
                assert(raw_value(source@, key@, args@) == Some(JsonV::Array(items@.map_values(|x: Json| x@))));
                r
            },
            Json::Str(s) => {
                let c = chars_of(s.as_str());
                let parts = split_chars(c.as_slice(), ';');
                proof {
                    assert(parts@.map_values(|p: Vec<char>| p@) =~= split(s@, ';'));
                }
                let r = nonblank_array(&parts);
                assert(raw_value(source@, key@, args@) == Some(JsonV::Str(s@)));
                r
            },
            _ => {
                let t = plain_text_of(v);
                let ghost tv = t@;
                let mut one: Vec<Json> = Vec::new();
                one.push(jstring(t));
                let r = Json::Array(one);
                proof {
                    r.lemma_array_view();
                    assert(r@->Array_0 =~= str_array(seq![tv])->Array_0);
                    assert(!(v@ is Str) && !(v@ is Array));
                }
                r
            },
        },
        None => {
            let r = Json::Array(Vec::new());
            proof {
                r.lemma_array_view();
                assert(r@->Array_0 =~= str_array(Seq::empty())->Array_0);
            }
            r
        },
    }
}

/// A JSON number for a signed integer.
pub fn ji64_value(n: i64) -> (r: Json)
    ensures
        r@ == inum(n),
{
    let mut t: Vec<char> = Vec::new();
    if n < 0 {
        t.push('-');
        let m: u64 = ((-(n + 1)) as u64) + 1;
        assert(m == -n);
        push_decimal(&mut t, m);
    } else {
        push_decimal(&mut t, n as u64);
    }
    assert(t@ =~= inum(n)->Number_0);
    let unsigned = if n >= 0 {
        Some(n as u64)
    } else {
        None
    };
    Json::Number(crate::json::JsonNumber { text: string_of(t.as_slice()), signed: Some(n), unsigned })
}

/// `resolve_generic_integer`.
pub fn resolve_generic_integer(source: &Json, key: &str, args: &str) -> (r: Json)
    ensures
        r@ == generic_integer(source@, key@, args@),
{
    match get_raw_value(source, key, args) {
        Some(v) => match v {
            Json::Number(n) => ji64_value(
                match n.signed {
                    Some(x) => x,
                    None => 0,
                },
            ),
            Json::Str(s) => {
                let t = chars_of(trim_str(s.as_str()).as_str());
                ji64_value(
                    match parse_i64(t.as_slice()) {
                        Some(x) => x,
                        None => 0,
                    },
                )
            },
            _ => ji64_value(0),
        },
        None => ji64_value(0),
    }
}

/// `resolve_generic_bool`.
pub fn resolve_generic_bool(source: &Json, key: &str, args: &str) -> (r: Json)
    ensures
        r@ == generic_bool(source@, key@, args@),
{
    match get_raw_value(source, key, args) {
        Some(v) => match v {
            Json::Bool(b) => Json::Bool(*b),
            Json::Str(s) => {
                let l = to_lower(trim_str(s.as_str()).as_str());
                let c = chars_of(l.as_str());
                let yes = (c.len() == 4 && c[0] == 't' && c[1] == 'r' && c[2] == 'u' && c[3] == 'e')
                    || (c.len() == 1 && c[0] == '1')
                    || (c.len() == 3 && c[0] == 'y' && c[1] == 'e' && c[2] == 's');
                proof {
                    let lv = lower(trim(s@));
                    assert(lv == seq!['t', 'r', 'u', 'e'] ==> c@ =~= seq!['t', 'r', 'u', 'e']);
                    assert(c@.len() == 4 && c@[0] == 't' && c@[1] == 'r' && c@[2] == 'u' && c@[3] == 'e' ==> c@ =~= seq!['t', 'r', 'u', 'e']);
                    assert(c@.len() == 1 && c@[0] == '1' ==> c@ =~= seq!['1']);
                    assert(c@.len() == 3 && c@[0] == 'y' && c@[1] == 'e' && c@[2] == 's' ==> c@ =~= seq!['y', 'e', 's']);
                }
                Json::Bool(yes)
            },
            Json::Number(n) => Json::Bool(
                match n.signed {
                    Some(x) => x > 0,
                    None => false,
                },
            ),
            _ => Json::Bool(false),
        },
        None => Json::Bool(false),
    }
}

/// The text a fallback resolver reads from a value.
fn fallback_text_of(v: &Json) -> (r: Option<String>)
    ensures
        match r {
            Some(t) => fallback_text(v@) == Some(t@),
            None => fallback_text(v@) is None,
        },
{
    match v {
        Json::Str(s) => {
            let t = trim_str(s.as_str());
            if !t.as_str().is_empty() {
                Some(t)
            } else {
                Some(plain_text_of(v))
            }
        },
        Json::Array(a) => {
            proof {
                v.lemma_array_view();
            }
            if a.len() > 0 {
                Some(join_strings(a))
            } else {
                Some(plain_text_of(v))
            }
        },
        Json::Null => None,
        _ => Some(plain_text_of(v)),
    }
}

/// `resolve_generic_string_fallback`.
pub fn resolve_generic_string_fallback(
    source: &Json,
    album_source: &Json,
    key: &str,
    album_key: &str,
    default: &str,
) -> (r: Json)
    ensures
        r@ == generic_string_fallback(source@, album_source@, key@, album_key@, default@),
{
    let own = match source.get(key) {
        Some(v) => fallback_text_of(v),
        None => None,
    };
    match own {
        Some(t) => jstring(t),
        None => {
            let album = match album_source.get(album_key) {
                Some(v) => fallback_text_of(v),
                None => None,
            };
            match album {
                Some(t) => jstring(t),
                None => jstring(crate::text::str_to_string(default)),
            }
        },
    }
}

/// `format_ms`: a duration in milliseconds as `h:mm:ss`, or `m:ss` under an
/// hour.
pub fn format_ms(ms: u64) -> (r: String)
    ensures
        r@ == duration_text(ms),
{
    let s = (ms / 1000) % 60;
    let m = (ms / 60000) % 60;
    let h = ms / 3600000;
    let mut out: Vec<char> = Vec::new();
    if h > 0 {
        push_decimal(&mut out, h);
        out.push(':');
        push_pad2(&mut out, m);
        out.push(':');
        push_pad2(&mut out, s);
    } else {
        push_decimal(&mut out, m);
        out.push(':');
        push_pad2(&mut out, s);
    }
    assert(out@ =~= duration_text(ms));
    string_of(out.as_slice())
}

/// A tag that holds a number resolves to the flag `true` exactly when the
/// number is a positive integer: 1 and above give `true`, 0 and below give
/// `false`, and so does a number that is no `i64`.  A tag that holds a
/// boolean resolves to it, and one that holds a text that is not blank
/// resolves to `true` exactly when the text, trimmed and lowered, is
/// `true`, `1` or `yes`.  The fallback keys are not consulted then.
pub proof fn law_bool_from_number(source: JsonV, key: Seq<char>, args: Seq<char>)
    ensures
        jget(source, key) matches Some(JsonV::Number(t, i, u)) ==> generic_bool(source, key, args) == JsonV::Bool(
            match i {
                Some(n) => n >= 1,
                None => false,
            },
        ),
        jget(source, key) matches Some(JsonV::Bool(b)) ==> generic_bool(source, key, args) == JsonV::Bool(b),
        match jget(source, key) {
            Some(JsonV::Str(s)) => trim(s).len() > 0 ==> generic_bool(source, key, args) == JsonV::Bool(
                lower(trim(s)) == "true"@ || lower(trim(s)) == "1"@ || lower(trim(s)) == "yes"@,
            ),
            _ => true,
        },
{
    reveal_strlit("true");
    reveal_strlit("1");
    reveal_strlit("yes");
    assert("true"@ =~= seq!['t', 'r', 'u', 'e']);
    assert("1"@ =~= seq!['1']);
    assert("yes"@ =~= seq!['y', 'e', 's']);
}

} // verus!

//! Checking compiled tags against the tags embedded in the audio files.
use vstd::prelude::*;
use crate::json::{Json, JsonV, jget, jstr, entry_keys, index_of, lemma_index_of};
use crate::jtext::{jtext, json_text};

use crate::text::{
    trim, before, join, without_char, parse_unsigned, chars_of, string_of, trim_chars, trim_str,
    split_chars, join_chars, without_char_chars, parse_u64, lemma_split_nonempty, str_to_string, str_eq,
};
use crate::collate::{lower, to_lower};

verus! {

/// The text of a string value, or the empty text.
pub open spec fn text_or_empty(v: JsonV) -> Seq<char> {
    match v {
        JsonV::Str(s) => s,
        _ => Seq::empty(),
    }
}

/// The compiled side of a comparison as text; `None` for `null`.
pub open spec fn compiled_text(v: JsonV) -> Option<Seq<char>> {
    match v {
        JsonV::Str(s) => Some(s),
        JsonV::Array(items) => Some(
            join(
                items.map_values(|x: JsonV| trim(text_or_empty(x))).filter(|p: Seq<char>| p.len() > 0),
                seq![';', ' '],
            ),
        ),
        JsonV::Null => None,
        _ => Some(without_char(jtext(v), '"')),
    }
}

/// A track or disc index as written (`3` or `3/12`), 0 when unreadable.
pub open spec fn index_number(s: Seq<char>) -> nat {
    match parse_unsigned(trim(before(s, '/')), u64::MAX as nat) {
        Some(n) => n,
        None => 0,
    }
}

/// `compare_values`: whether a compiled value agrees with the tag found in
/// the file.  Track and disc numbers compare by number; other values by
/// trimmed text; `null` agrees only with an empty tag.
pub open spec fn values_agree(key: Seq<char>, compiled: JsonV, physical: Seq<char>) -> bool {
    match compiled_text(compiled) {
        None => physical.len() == 0,
        Some(c) => {
            let k = lower(key);
            if k == "tracknumber"@ || k == "discnumber"@ {
                index_number(trim(c)) == index_number(trim(physical))
            } else {
                trim(c) == trim(physical)
            }
        },
    }
}

fn index_number_of(s: &[char]) -> (r: u64)
    ensures
        r == index_number(s@),
{
    let parts = split_chars(s, '/');
    proof {
        lemma_split_nonempty(s@, '/');
    }
    let t = trim_chars(parts[0].as_slice());
    match parse_u64(t.as_slice()) {
        Some(n) => n,
        None => 0,
    }
}

fn compiled_text_of(v: &Json) -> (r: Option<Vec<char>>)
    ensures
        match r {
            Some(t) => compiled_text(v@) == Some(t@),
            None => compiled_text(v@) is None,
        },
{
    match v {
        Json::Str(s) => Some(chars_of(s.as_str())),
        Json::Array(items) => {
            proof {
                v.lemma_array_view();
            }
            let ghost iv = items@.map_values(|x: Json| x@);
            let ghost tr = iv.map_values(|x: JsonV| trim(text_or_empty(x)));
            let ghost keep = |p: Seq<char>| p.len() > 0;
            let mut parts: Vec<Vec<char>> = Vec::new();
            let mut i: usize = 0;
            while i < items.len()
                invariant
                    0 <= i <= items@.len(),
                    iv == items@.map_values(|x: Json| x@),
                    tr == iv.map_values(|x: JsonV| trim(text_or_empty(x))),
                    keep == (|p: Seq<char>| p.len() > 0),
                    parts@.map_values(|p: Vec<char>| p@) == tr.take(i as int).filter(keep),
                decreases items@.len() - i,
            {
                let ghost before = parts@.map_values(|p: Vec<char>| p@);
                let raw = match items[i].as_str() {
                    Some(s) => chars_of(s.as_str()),
                    None => Vec::new(),
                };
                assert(raw@ == text_or_empty(iv[i as int]));
                let t = trim_chars(raw.as_slice());
                proof {
                    reveal(Seq::filter);
                    assert(tr.take(i + 1).drop_last() =~= tr.take(i as int));
                    assert(tr.take(i + 1).last() == t@);
                }
                if t.len() > 0 {
                    parts.push(t);
                    assert(parts@.map_values(|p: Vec<char>| p@) =~= before.push(tr[i as int]));
                }
                i = i + 1;
            }
            assert(tr.take(i as int) =~= tr);
            let sep: Vec<char> = vec![';', ' '];
            let j = join_chars(&parts, sep.as_slice());
            assert(sep@ =~= seq![';', ' ']);
            Some(j)
        },
        Json::Null => None,
        _ => {
            let t = chars_of(json_text(v).as_str());
            Some(without_char_chars(t.as_slice(), '"'))
        },
    }
}

/// Whether a compiled value agrees with the tag found in the file.
pub fn compare_values(key: &str, compiled: &Json, physical: &str) -> (r: bool)
    ensures
        r == values_agree(key@, compiled@, physical@),
{
    let c = match compiled_text_of(compiled) {
        Some(c) => c,
        None => {
            return physical.is_empty();
        },
    };
    let sc = trim_chars(c.as_slice());
    let sp = chars_of(trim_str(physical).as_str());
    let k = to_lower(key);
    if str_eq(k.as_str(), "tracknumber") || str_eq(k.as_str(), "discnumber") {
        return index_number_of(sc.as_slice()) == index_number_of(sp.as_slice());
    }
    let a = string_of(sc.as_slice());
    let b = string_of(sp.as_slice());
    a == b
}

/// The tag a check reads for key `k`: the track's own value, then its
/// `keys`, then the album's, then the album's `keys`.
pub open spec fn compiled_tag(track: JsonV, album: JsonV, k: Seq<char>) -> Option<JsonV> {
    match jget(track, k) {
        Some(v) => Some(v),
        None => match jget(track, "keys"@) {
            Some(ks) if jget(ks, k) is Some => jget(ks, k),
            _ => match jget(album, k) {
                Some(v) => Some(v),
                None => match jget(album, "keys"@) {
                    Some(ks) => jget(ks, k),
                    None => None,
                },
            },
        },
    }
}

/// The tag found in a harvested file under `k`, or the empty text.
pub open spec fn physical_tag(harvest: JsonV, k: Seq<char>) -> Seq<char> {
    match jget(harvest, "tags"@) {
        Some(JsonV::Object(es)) => match jstr(jget(JsonV::Object(es), k)) {
            Some(s) => s,
            None => Seq::empty(),
        },
        _ => Seq::empty(),
    }
}

/// Whether every checked key that the compiled data has agrees with the
/// file's tag.
pub open spec fn track_agrees(track: JsonV, album: JsonV, harvest: JsonV, keys: Seq<Seq<char>>) -> bool {
    forall|j: int|
        0 <= j < keys.len() ==> match compiled_tag(track, album, lower(#[trigger] keys[j])) {
            Some(v) => values_agree(lower(keys[j]), v, physical_tag(harvest, lower(keys[j]))),
            None => true,
        }
}

fn compiled_tag_of<'a>(track: &'a Json, album: &'a Json, k: &str) -> (r: Option<&'a Json>)
    ensures
        match r {
            Some(v) => compiled_tag(track@, album@, k@) == Some(v@),
            None => compiled_tag(track@, album@, k@) is None,
        },
{
    match track.get(k) {
        Some(v) => {
            return Some(v);
        },
        None => {},
    }
    match track.get("keys") {
        Some(ks) => match ks.get(k) {
            Some(v) => {
                return Some(v);
            },
            None => {},
        },
        None => {},
    }
    match album.get(k) {
        Some(v) => {
            return Some(v);
        },
        None => {},
    }
    match album.get("keys") {
        Some(ks) => ks.get(k),
        None => None,
    }
}

fn physical_tag_of(harvest: &Json, k: &str) -> (r: Vec<char>)
    ensures
        r@ == physical_tag(harvest@, k@),
{
    match harvest.get("tags") {
        Some(t) => match t.as_object() {
            Some(_) => match t.get(k) {
                Some(v) => match v.as_str() {
                    Some(s) => chars_of(s.as_str()),
                    None => Vec::new(),
                },
                None => Vec::new(),
            },
            None => Vec::new(),
        },
        None => Vec::new(),
    }
}

fn track_agrees_with(track: &Json, album: &Json, harvest: &Json, keys: &[String]) -> (r: bool)
    ensures
        r == track_agrees(track@, album@, harvest@, keys@.map_values(|s: String| s@)),
{
    let ghost kv = keys@.map_values(|s: String| s@);
    let mut j: usize = 0;
    while j < keys.len()
        invariant
            0 <= j <= keys@.len(),
            kv == keys@.map_values(|s: String| s@),
            forall|m: int|
                0 <= m < j ==> match compiled_tag(track@, album@, lower(#[trigger] kv[m])) {
                    Some(v) => values_agree(lower(kv[m]), v, physical_tag(harvest@, lower(kv[m]))),
                    None => true,
                },
        decreases keys@.len() - j,
    {
        let k = to_lower(keys[j].as_str());
        assert(kv[j as int] == keys@[j as int]@);
        match compiled_tag_of(track, album, k.as_str()) {
            Some(v) => {
                let p = string_of(physical_tag_of(harvest, k.as_str()).as_slice());
                if !compare_values(k.as_str(), v, p.as_str()) {
                    return false;
                }
            },
            None => {},
        }
        j = j + 1;
    }
    true
}

/// Whether every track of the compiled album is an object (the check reads
/// each one as such).
pub open spec fn tracks_are_objects(enriched: JsonV) -> bool {
    match jget(enriched, "tracks"@) {
        Some(JsonV::Array(ts)) => forall|i: int| 0 <= i < ts.len() ==> (#[trigger] ts[i]) is Object,
        _ => true,
    }
}

/// For each compiled track, whether it agrees with its file; none agree
/// when the numbers of tracks and files differ.
pub open spec fn subset_matches(enriched: JsonV, harvest: Seq<JsonV>, keys: Seq<Seq<char>>) -> Seq<bool> {
    let album = jget(enriched, "album"@);
    match jget(enriched, "tracks"@) {
        Some(JsonV::Array(ts)) => if ts.len() != harvest.len() {
            Seq::new(ts.len(), |i: int| false)
        } else {
            Seq::new(
                ts.len(),
                |i: int|
                    track_agrees(
                        ts[i],
                        match album {
                            Some(a) => a,
                            None => JsonV::Null,
                        },
                        harvest[i],
                        keys,
                    ),
            )
        },
        _ => Seq::empty(),
    }
}

/// An object's entries with `k` set to `v`: the first entry under `k` is
/// replaced, or the entry is added at the end.
pub open spec fn obj_put(es: Seq<(Seq<char>, JsonV)>, k: Seq<char>, v: JsonV) -> Seq<(Seq<char>, JsonV)> {
    match index_of(entry_keys(es), k) {
        Some(i) => es.update(i, (k, v)),
        None => es.push((k, v)),
    }
}

/// A track with its `info` object marked with the check's outcome; a track
/// without an `info` object is left as it is.
pub open spec fn flag_track(t: JsonV, flag: bool) -> JsonV {
    match t {
        JsonV::Object(es) => match index_of(entry_keys(es), "info"@) {
            Some(i) => match es[i].1 {
                JsonV::Object(ies) => JsonV::Object(
                    es.update(
                        i,
                        ("info"@, JsonV::Object(obj_put(ies, "embedded_keys_subset_match"@, JsonV::Bool(flag)))),
                    ),
                ),
                _ => t,
            },
            None => t,
        },
        _ => t,
    }
}

/// `calculate_file_tag_subset_match`: the compiled album with each track's
/// `info` marked with whether its tags agree with its file.  Left as it is
/// when it has no `album` object or no `tracks` list.
pub open spec fn subset_result(enriched: JsonV, harvest: Seq<JsonV>, keys: Seq<Seq<char>>) -> JsonV {
    match jget(enriched, "album"@) {
        Some(JsonV::Object(_)) => match enriched {
            JsonV::Object(es) => match index_of(entry_keys(es), "tracks"@) {
                Some(i) => match es[i].1 {
                    JsonV::Array(ts) => JsonV::Object(
                        es.update(
                            i,
                            (
                                "tracks"@,
                                JsonV::Array(
                                    Seq::new(
                                        ts.len(),
                                        |m: int| flag_track(ts[m], subset_matches(enriched, harvest, keys)[m]),
                                    ),
                                ),
                            ),
                        ),
                    ),
                    _ => enriched,
                },
                None => enriched,
            },
            _ => enriched,
        },
        _ => enriched,
    }
}

pub(crate) fn key_index(es: &Vec<(String, Json)>, k: &str) -> (r: Option<usize>)
    ensures
        match r {
            Some(i) => index_of(entry_keys(es@.map_values(|e: (String, Json)| (e.0@, e.1@))), k@) == Some(
                i as int,
            ) && i < es@.len(),
            None => index_of(entry_keys(es@.map_values(|e: (String, Json)| (e.0@, e.1@))), k@) is None,
        },
{
    let ghost keys = entry_keys(es@.map_values(|e: (String, Json)| (e.0@, e.1@)));
    proof {
        lemma_index_of(keys, k@);
    }
    let mut i: usize = 0;
    while i < es.len()
        invariant
            0 <= i <= es@.len(),
            keys == entry_keys(es@.map_values(|e: (String, Json)| (e.0@, e.1@))),
            keys.len() == es@.len(),
            forall|m: int| 0 <= m < i ==> keys[m] != k@,
        decreases es@.len() - i,
    {
        assert(keys[i as int] == es@[i as int].0@);
        if str_eq(es[i].0.as_str(), k) {
            proof {
                lemma_index_of(keys, k@);
            }
            return Some(i);
        }
        i = i + 1;
    }
    proof {
        lemma_index_of(keys, k@);
    }
    None
}

/// Puts `v` under `k` in an object's entries, as `obj_put` says.
pub(crate) fn put_entry(es: &mut Vec<(String, Json)>, k: &str, v: Json)
    ensures
        final(es)@.map_values(|e: (String, Json)| (e.0@, e.1@)) == obj_put(
            old(es)@.map_values(|e: (String, Json)| (e.0@, e.1@)),
            k@,
            v@,
        ),
{
    let ghost vv = v@;
    match key_index(es, k) {
        Some(i) => {
            es.set(i, (str_to_string(k), v));
        },
        None => {
            es.push((str_to_string(k), v));
        },
    }
    assert(es@.map_values(|e: (String, Json)| (e.0@, e.1@)) =~= obj_put(
        old(es)@.map_values(|e: (String, Json)| (e.0@, e.1@)),
        k@,
        vv,
    ));
}

fn flag_track_json(t: Json, flag: bool) -> (r: Json)
    ensures
        r@ == flag_track(t@, flag),
{
    let ghost tv = t@;
    match t {
        Json::Object(mut es) => {
            proof {
                Json::Object(es).lemma_object_view();
            }
            match key_index(&es, "info") {
                Some(i) => {
                    let (k, info) = es.remove(i);
                    let ghost iv = info@;
                    match info {
                        Json::Object(mut ies) => {
                            proof {
                                Json::Object(ies).lemma_object_view();
                            }
                            put_entry(&mut ies, "embedded_keys_subset_match", Json::Bool(flag));
                            let ni = Json::Object(ies);
                            proof {
                                ni.lemma_object_view();
                            }
                            es.insert(i, (str_to_string("info"), ni));
                        },
                        other => {
                            es.insert(i, (k, other));
                        },
                    }
                    let r = Json::Object(es);
                    proof {
                        r.lemma_object_view();
                        assert(r@->Object_0 =~= flag_track(tv, flag)->Object_0);
                    }
                    r
                },
                None => {
                    let r = Json::Object(es);
                    proof {
                        r.lemma_object_view();
                    }
                    r
                },
            }
        },
        other => other,
    }
}

/// The check reads every track as an object when the album has an `album`
/// object and as many tracks as files.
pub open spec fn subset_defined(enriched: JsonV, harvest: Seq<JsonV>) -> bool {
    match jget(enriched, "album"@) {
        Some(JsonV::Object(_)) => match jget(enriched, "tracks"@) {
            Some(JsonV::Array(ts)) => ts.len() == harvest.len() ==> tracks_are_objects(enriched),
            _ => true,
        },
        _ => true,
    }
}

/// Whether each compiled track agrees with its file; `None` when the album
/// has no `album` object or no `tracks` list.
fn subset_flags(enriched: &Json, harvest: &[Json], subset_keys: &[String]) -> (r: Option<Vec<bool>>)
    requires
        subset_defined(enriched@, harvest@.map_values(|h: Json| h@)),
    ensures
        match r {
            Some(m) => {
                &&& m@ == subset_matches(enriched@, harvest@.map_values(|h: Json| h@), subset_keys@.map_values(|s: String| s@))
                &&& jget(enriched@, "album"@) matches Some(JsonV::Object(_))
                &&& jget(enriched@, "tracks"@) matches Some(JsonV::Array(_))
            },
            None => subset_result(enriched@, harvest@.map_values(|h: Json| h@), subset_keys@.map_values(|s: String| s@)) == enriched@,
        },
{
    let ghost ev = enriched@;
    let ghost hv = harvest@.map_values(|h: Json| h@);
    let ghost kv = subset_keys@.map_values(|s: String| s@);
    let album = match enriched.get("album") {
        Some(a) => match a.as_object() {
            Some(_) => a,
            None => {
                return None;
            },
        },
        None => {
            return None;
        },
    };
    let tracks = match enriched.get("tracks") {
        Some(t) => match t.as_array() {
            Some(ts) => ts,
            None => {
                proof {
                    match ev {
                        JsonV::Object(es) => {
                            lemma_index_of(entry_keys(es), "tracks"@);
                        },
                        _ => {},
                    }
                }
                return None;
            },
        },
        None => {
            return None;
        },
    };
    let ghost tsv = tracks@.map_values(|x: Json| x@);
    let ghost want = subset_matches(ev, hv, kv);
    let mut matches: Vec<bool> = Vec::new();
    if tracks.len() != harvest.len() {
        let mut i: usize = 0;
        while i < tracks.len()
            invariant
                0 <= i <= tracks@.len(),
                want.len() == tracks@.len(),
                tracks@.len() != hv.len(),
                want == subset_matches(ev, hv, kv),
                jget(ev, "tracks"@) == Some(JsonV::Array(tsv)),
                matches@ == want.take(i as int),
            decreases tracks@.len() - i,
        {
            matches.push(false);
            i = i + 1;
            assert(matches@ =~= want.take(i as int));
        }
        assert(matches@ =~= want);
    } else {
        let mut i: usize = 0;
        while i < tracks.len()
            invariant
                0 <= i <= tracks@.len(),
                tracks@.len() == harvest@.len(),
                want.len() == tracks@.len(),
                want == subset_matches(ev, hv, kv),
                jget(ev, "tracks"@) == Some(JsonV::Array(tsv)),
                jget(ev, "album"@) == Some(album@),
                tsv == tracks@.map_values(|x: Json| x@),
                hv == harvest@.map_values(|h: Json| h@),
                kv == subset_keys@.map_values(|s: String| s@),
                matches@ == want.take(i as int),
            decreases tracks@.len() - i,
        {
            let ok = track_agrees_with(&tracks[i], album, &harvest[i], subset_keys);
            assert(ok == want[i as int]);
            matches.push(ok);
            i = i + 1;
            assert(matches@ =~= want.take(i as int));
        }
        assert(matches@ =~= want);
    }
    Some(matches)
}

/// Marks each compiled track's `info` with whether its tags agree with the
/// tags embedded in its file, for the given keys.
pub fn calculate_file_tag_subset_match(enriched: &mut Json, harvest: &[Json], subset_keys: &[String])
    requires
        subset_defined(old(enriched)@, harvest@.map_values(|h: Json| h@)),
    ensures
        final(enriched)@ == subset_result(
            old(enriched)@,
            harvest@.map_values(|h: Json| h@),
            subset_keys@.map_values(|s: String| s@),
        ),
{
    let ghost ev = enriched@;
    let ghost hv = harvest@.map_values(|h: Json| h@);
    let ghost kv = subset_keys@.map_values(|s: String| s@);
    let matches = match subset_flags(enriched, harvest, subset_keys) {
        Some(m) => m,
        None => {
            return;
        },
    };
    let ghost want = subset_matches(ev, hv, kv);
    let n = matches.len();
    let mut whole = Json::Null;
    std::mem::swap(enriched, &mut whole);
    match whole {
        Json::Object(mut es) => {
            proof {
                Json::Object(es).lemma_object_view();
            }
            let ghost esv = es@.map_values(|e: (String, Json)| (e.0@, e.1@));
            match key_index(&es, "tracks") {
                Some(i) => {
                    let (k, tv) = es.remove(i);
                    match tv {
                        Json::Array(items) => {
                            proof {
                                Json::Array(items).lemma_array_view();
                            }
                            let ghost tsv = items@.map_values(|x: Json| x@);
                            proof {
                                lemma_index_of(entry_keys(esv), "tracks"@);
                                assert(esv[i as int].1 == JsonV::Array(tsv));
                                assert(want.len() == tsv.len());
                            }
                            let mut rest = items;
                            let mut out: Vec<Json> = Vec::new();
                            let mut m: usize = 0;
                            while rest.len() > 0
                                invariant
                                    m + rest@.len() == tsv.len(),
                                    n == matches@.len(),
                                    matches@ == want,
                                    want.len() == tsv.len(),
                                    rest@.map_values(|x: Json| x@) == tsv.skip(m as int),
                                    out@.len() == m,
                                    forall|q: int| 0 <= q < m ==> (#[trigger] out@[q])@ == flag_track(tsv[q], want[q]),
                                decreases rest@.len(),
                            {
                                let ghost rv = rest@.map_values(|x: Json| x@);
                                assert(m < n);
                                assert(rv[0] == tsv[m as int]);
                                let t = rest.remove(0);
                                assert(rest@.map_values(|x: Json| x@) =~= rv.skip(1));
                                assert(rv.skip(1) =~= tsv.skip(m + 1));
                                out.push(flag_track_json(t, matches[m]));
                                m = m + 1;
                            }
                            let na = Json::Array(out);
                            proof {
                                na.lemma_array_view();
                                assert(na@->Array_0 =~= Seq::new(tsv.len(), |q: int| flag_track(tsv[q], want[q])));
                            }
                            es.insert(i, (str_to_string("tracks"), na));
                            let r = Json::Object(es);
                            proof {
                                r.lemma_object_view();
                                assert(r@->Object_0 =~= subset_result(ev, hv, kv)->Object_0);
                            }
                            *enriched = r;
                        },
                        other => {
                            proof {
                                lemma_index_of(entry_keys(esv), "tracks"@);
                            }
                            es.insert(i, (k, other));
                            let r = Json::Object(es);
                            proof {
                                r.lemma_object_view();
                            }
                            *enriched = r;
                        },
                    }
                },
                None => {
                    let r = Json::Object(es);
                    proof {
                        r.lemma_object_view();
                    }
                    *enriched = r;
                },
            }
        },
        other => {
            *enriched = other;
        },
    }
}

} // verus!

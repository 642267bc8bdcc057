//! The album index behind the server's library views.
//!
//! Each ingested album gets a small integer handle (its uid). The engine keeps
//! the album's lock file text, a light summary of the album and of its tracks,
//! and the result that the configured logic gave for it. From those results
//! `build_cache` derives which albums belong to which library, filter, facet
//! value and shelf; the view requests then read those sets.
use vstd::prelude::*;
use roaring::RoaringBitmap;
use crate::assoc::{lemma_smap_at, distinct, skeys, smap, sput, sremove, sretain, sfind, ukeys, umap, uput, uremove, ufind};
use crate::bitmap::bitmap_set;
use crate::derive::{marked, lemma_member_table, facets_wf, section, member_table, facet_table, shelf_table, bitmaps_view, lists_view, facets_view, mark_section, shelve_section, facet_section};
use crate::json::{Json, JsonV, jget, jstr, ju64, or_null, ju64_value, dup_or_null, jstring};
use crate::paths::{join_path, trim_leading, join_path_str, trim_leading_str};
use crate::text::{dec, str_eq, str_to_string, contains_text, contains_chars, chars_of, split, split_chars, trim, trim_chars, trim_str, string_of};
use crate::collate::{lower, to_lower, sort_by_key, sort_keyed, lemma_sort_by_key_multiset};
use crate::bitmap::{bitmap_new, bitmap_clone, bitmap_and_assign, bitmap_values, bitmap_insert, bitmap_contains, bitmap_clear, bitmap_intersection_len};
use crate::derive::bset;
use crate::jtext::{json_parse, parse_json};

verus! {

/// The album index.
pub struct LogicEngine {
    libraries_cache: Vec<(String, RoaringBitmap)>,
    filters_cache: Vec<(String, RoaringBitmap)>,
    facets_cache: Vec<(String, Vec<(String, RoaringBitmap)>)>,
    orders_cache: Vec<(String, Vec<u32>)>,
    shelves_cache: Vec<(String, Vec<u32>)>,
    uid_to_id: Vec<(u32, String)>,
    id_to_uid: Vec<(String, u32)>,
    next_uid: u32,
    dict: Vec<(String, Json)>,
    track_lookup: Vec<(String, Json)>,
    path_lookup: Vec<(String, String)>,
    evaluated_logic: Vec<(u32, Json)>,
    lock_cache: Vec<(String, String)>,
}

pub open spec fn facet_view(v: Vec<(String, RoaringBitmap)>) -> Map<Seq<char>, Set<u32>> {
    smap(v@).map_values(|b: RoaringBitmap| bitmap_set(b))
}

/// A path table without the paths of album `id`.
pub open spec fn drop_album_paths(m: Map<Seq<char>, Seq<char>>, id: Seq<char>) -> Map<Seq<char>, Seq<char>> {
    m.restrict(m.dom().filter(|k: Seq<char>| m[k] != id))
}

/// The album a track summary names.
pub open spec fn track_album(t: JsonV) -> Option<Seq<char>> {
    jstr(jget(t, "albumId"@))
}

/// A track table without the tracks of album `id`.
pub open spec fn drop_album_tracks(m: Map<Seq<char>, JsonV>, id: Seq<char>) -> Map<Seq<char>, JsonV> {
    m.restrict(m.dom().filter(|k: Seq<char>| track_album(m[k]) != Some(id)))
}

/// `m` without the entry under `k`, when `k` is given.
pub open spec fn remove_opt<V>(m: Map<u32, V>, k: Option<u32>) -> Map<u32, V> {
    match k {
        Some(u) => m.remove(u),
        None => m,
    }
}

/// A JSON number for an unsigned integer, as `json!` writes one.
pub open spec fn num(n: u64) -> JsonV {
    JsonV::Number(
        dec(n as nat),
        if n <= i64::MAX as u64 {
            Some(n as i64)
        } else {
            None
        },
        Some(n),
    )
}

/// A present value, or `d`.
pub open spec fn or_default(v: Option<JsonV>, d: JsonV) -> JsonV {
    match v {
        Some(x) => x,
        None => d,
    }
}

/// The light summary kept of a track at `path` of album `id`, whose
/// technical details are `tinfo`.
pub open spec fn track_summary(id: Seq<char>, path: Seq<char>, track: JsonV, tinfo: JsonV) -> JsonV {
    JsonV::Object(
        seq![
            ("albumId"@, JsonV::Str(id)),
            ("artist"@, or_default(jget(track, "artist"@), JsonV::Str("Unknown"@))),
            ("discNo"@, or_default(jget(track, "discnumber"@), num(1))),
            ("duration"@, or_default(jget(tinfo, "duration_formatted"@), JsonV::Str("0:00"@))),
            ("durationMs"@, num(
                match ju64(jget(tinfo, "duration_milliseconds"@)) {
                    Some(n) => n,
                    None => 0,
                },
            )),
            ("path"@, JsonV::Str(path)),
            ("title"@, or_default(jget(track, "title"@), JsonV::Str("Unknown"@))),
            ("trackNo"@, or_default(jget(track, "tracknumber"@), num(0))),
        ],
    )
}

/// The file path that a track names, or the empty text.
pub open spec fn track_rel(track: JsonV) -> Seq<char> {
    match jget(track, "file"@) {
        Some(f) => match jstr(jget(f, "path"@)) {
            Some(s) => s,
            None => Seq::empty(),
        },
        None => Seq::empty(),
    }
}

/// What a track of album `id` adds to the tables: its full path, its
/// summary and its path with the leading slashes dropped.  Tracks without
/// technical details or without a file path add nothing.
pub open spec fn track_row(id: Seq<char>, track: JsonV) -> Option<(Seq<char>, JsonV, Seq<char>)> {
    match jget(track, "info"@) {
        Some(tinfo) => if track_rel(track).len() > 0 {
            let tp = join_path(id, track_rel(track));
            Some((tp, track_summary(id, tp, track, tinfo), trim_leading(tp, '/')))
        } else {
            None
        },
        None => None,
    }
}

/// The track table after the tracks of album `id` were added in order.
pub open spec fn add_tracks(m: Map<Seq<char>, JsonV>, id: Seq<char>, tracks: Seq<JsonV>) -> Map<Seq<char>, JsonV>
    decreases tracks.len(),
{
    if tracks.len() == 0 {
        m
    } else {
        let m0 = add_tracks(m, id, tracks.drop_last());
        match track_row(id, tracks.last()) {
            Some(r) => m0.insert(r.0, r.1),
            None => m0,
        }
    }
}

/// The path table after the tracks of album `id` were added in order.
pub open spec fn add_paths(m: Map<Seq<char>, Seq<char>>, id: Seq<char>, tracks: Seq<JsonV>) -> Map<Seq<char>, Seq<char>>
    decreases tracks.len(),
{
    if tracks.len() == 0 {
        m
    } else {
        let m0 = add_paths(m, id, tracks.drop_last());
        match track_row(id, tracks.last()) {
            Some(r) => m0.insert(r.2, id),
            None => m0,
        }
    }
}

/// A value read at `covers.main.file.<field>` of an album.
pub open spec fn cover_field(album: JsonV, field: Seq<char>) -> Option<JsonV> {
    match jget(album, "covers"@) {
        Some(c) => match jget(c, "main"@) {
            Some(m) => match jget(m, "file"@) {
                Some(f) => jget(f, field),
                None => None,
            },
            None => None,
        },
        None => None,
    }
}

/// The summary kept of album `id`.
pub open spec fn album_summary(id: Seq<char>, album: JsonV, info: JsonV) -> JsonV {
    JsonV::Object(
        seq![
            ("album"@, or_null(jget(album, "album"@))),
            ("albumartist"@, or_null(jget(album, "albumartist"@))),
            ("colors"@, or_null(jget(album, "colors"@))),
            ("cover_hash"@, or_null(cover_field(album, "address"@))),
            ("cover_path"@, or_null(cover_field(album, "path"@))),
            ("date"@, or_null(jget(album, "date"@))),
            ("duration_formatted"@, or_null(jget(info, "duration_formatted"@))),
            ("id"@, JsonV::Str(id)),
            ("keys"@, or_null(jget(album, "keys"@))),
            ("total_discs"@, or_null(jget(info, "total_discs"@))),
            ("total_tracks"@, or_null(jget(info, "total_tracks"@))),
            ("virtual"@, or_null(jget(info, "virtual"@))),
        ],
    )
}

/// The items of an array value, or none.
pub open spec fn array_items(v: Option<JsonV>) -> Seq<JsonV> {
    match v {
        Some(JsonV::Array(items)) => items,
        _ => Seq::empty(),
    }
}

/// The `album` part of a lock file and its `info`, when both are there.
pub open spec fn album_of(p: JsonV) -> Option<(JsonV, JsonV)> {
    match jget(p, "album"@) {
        Some(album) => match jget(album, "info"@) {
            Some(info) => Some((album, info)),
            None => None,
        },
        None => None,
    }
}

/// The text a summary holds under `key`, or the empty text.
pub open spec fn text_at(a: JsonV, key: Seq<char>) -> Seq<char> {
    match jstr(jget(a, key)) {
        Some(s) => s,
        None => Seq::empty(),
    }
}

/// An optional text argument, read as a text.
pub open spec fn opt_text(o: Option<&str>) -> Option<Seq<char>> {
    match o {
        Some(s) => Some(s@),
        None => None,
    }
}

/// `str::contains` on two texts.
pub fn text_contains(hay: &str, needle: &str) -> (r: bool)
    ensures
        r == contains_text(hay@, needle@),
{
    let h = chars_of(hay);
    let n = chars_of(needle);
    contains_chars(h.as_slice(), n.as_slice())
}

/// The same items, last first.
pub fn reversed<T>(v: Vec<T>) -> (r: Vec<T>)
    ensures
        r@ == v@.reverse(),
{
    let ghost sv = v@;
    let mut rest = v;
    let mut out: Vec<T> = Vec::new();
    while rest.len() > 0
        invariant
            rest@ == sv.take(rest@.len() as int),
            rest@.len() + out@.len() == sv.len(),
            forall|i: int| 0 <= i < out@.len() ==> out@[i] == sv[sv.len() - 1 - i],
        decreases rest@.len(),
    {
        let ghost n = rest@.len();
        let x = rest.pop().unwrap();
        proof {
            assert(x == sv[n - 1]);
            assert(rest@ =~= sv.take(n - 1));
        }
        out.push(x);
    }
    assert(out@ =~= sv.reverse());
    out
}

/// The JSON entry of one group of a grouper view.
pub open spec fn group_json(label: Seq<char>, n: u64) -> JsonV {
    JsonV::Object(
        seq![("count"@, num(n)), ("label"@, JsonV::Str(label)), ("value"@, JsonV::Str(label))],
    )
}

/// The lines of a shelf file that name albums: each line trimmed, blank
/// lines and lines starting with `#` left out.
pub open spec fn shelf_lines(content: Seq<char>) -> Seq<Seq<char>> {
    split(content, '\n').map_values(|l: Seq<char>| trim(l)).filter(
        |l: Seq<char>| l.len() > 0 && l[0] != '#',
    )
}

/// A value of a grouper with how many albums of `mask` have it, when some do.
pub open spec fn row_fn(mask: Set<u32>) -> spec_fn((Seq<char>, Set<u32>)) -> Option<(Seq<char>, u64)> {
    |e: (Seq<char>, Set<u32>)|
        if e.1.intersect(mask).len() > 0 {
            Some((e.0, e.1.intersect(mask).len() as u64))
        } else {
            None
        }
}

/// A strictly increasing sequence.
pub open spec fn increasing(q: Seq<u32>) -> bool {
    forall|i: int, j: int| 0 <= i < j < q.len() ==> q[i] < q[j]
}

/// `q` holds exactly the members of `s`.
pub open spec fn enumerates(q: Seq<u32>, s: Set<u32>) -> bool {
    forall|x: u32| q.contains(x) <==> s.contains(x)
}

/// Why an album could not be ingested.
pub enum IngestError {
    /// The lock file text is not JSON.
    InvalidJson,
}

fn entry(k: &str, v: Json) -> (r: (String, Json))
    ensures
        r.0@ == k@,
        r.1@ == v@,
{
    (str_to_string(k), v)
}

fn get_or(v: Option<&Json>, d: Json) -> (r: Json)
    ensures
        r@ == or_default(
            match v {
                Some(x) => Some(x@),
                None => None,
            },
            d@,
        ),
{
    match v {
        Some(x) => x.dup(),
        None => d,
    }
}

fn track_summary_json(id: &str, path: &String, track: &Json, tinfo: &Json) -> (r: Json)
    ensures
        r@ == track_summary(id@, path@, track@, tinfo@),
{
    let ms = match tinfo.get("duration_milliseconds") {
        Some(x) => match x.as_u64() {
            Some(n) => n,
            None => 0,
        },
        None => 0,
    };
    let mut es: Vec<(String, Json)> = Vec::new();
    es.push(entry("albumId", jstring(str_to_string(id))));
    es.push(entry("artist", get_or(track.get("artist"), jstring(str_to_string("Unknown")))));
    es.push(entry("discNo", get_or(track.get("discnumber"), ju64_value(1))));
    es.push(entry("duration", get_or(tinfo.get("duration_formatted"), jstring(str_to_string("0:00")))));
    es.push(entry("durationMs", ju64_value(ms)));
    es.push(entry("path", jstring(path.clone())));
    es.push(entry("title", get_or(track.get("title"), jstring(str_to_string("Unknown")))));
    es.push(entry("trackNo", get_or(track.get("tracknumber"), ju64_value(0))));
    let r = Json::Object(es);
    proof {
        r.lemma_object_view();
        assert(r@->Object_0 =~= track_summary(id@, path@, track@, tinfo@)->Object_0);
    }
    r
}

fn cover_field_json<'a>(album: &'a Json, field: &str) -> (r: Option<&'a Json>)
    ensures
        match r {
            Some(x) => cover_field(album@, field@) == Some(x@),
            None => cover_field(album@, field@) is None,
        },
{
    match album.get("covers") {
        Some(c) => match c.get("main") {
            Some(m) => match m.get("file") {
                Some(f) => f.get(field),
                None => None,
            },
            None => None,
        },
        None => None,
    }
}

fn album_summary_json(id: &str, album: &Json, info: &Json) -> (r: Json)
    ensures
        r@ == album_summary(id@, album@, info@),
{
    let mut es: Vec<(String, Json)> = Vec::new();
    es.push(entry("album", dup_or_null(album.get("album"))));
    es.push(entry("albumartist", dup_or_null(album.get("albumartist"))));
    es.push(entry("colors", dup_or_null(album.get("colors"))));
    es.push(entry("cover_hash", dup_or_null(cover_field_json(album, "address"))));
    es.push(entry("cover_path", dup_or_null(cover_field_json(album, "path"))));
    es.push(entry("date", dup_or_null(album.get("date"))));
    es.push(entry("duration_formatted", dup_or_null(info.get("duration_formatted"))));
    es.push(entry("id", jstring(str_to_string(id))));
    es.push(entry("keys", dup_or_null(album.get("keys"))));
    es.push(entry("total_discs", dup_or_null(info.get("total_discs"))));
    es.push(entry("total_tracks", dup_or_null(info.get("total_tracks"))));
    es.push(entry("virtual", dup_or_null(info.get("virtual"))));
    let r = Json::Object(es);
    proof {
        r.lemma_object_view();
        assert(r@->Object_0 =~= album_summary(id@, album@, info@)->Object_0);
    }
    r
}

/// The file path a track names, or the empty text.
fn track_rel_string(track: &Json) -> (r: String)
    ensures
        r@ == track_rel(track@),
{
    match track.get("file") {
        Some(f) => match f.get("path") {
            Some(p) => match p.as_str() {
                Some(s) => s.clone(),
                None => String::new(),
            },
            None => String::new(),
        },
        None => String::new(),
    }
}

/// Adds the tracks of album `id` to the track and path tables.
fn add_track_rows(
    tl: &mut Vec<(String, Json)>,
    pl: &mut Vec<(String, String)>,
    id: &str,
    tracks: &Vec<Json>,
)
    requires
        distinct(skeys(old(tl)@)),
        distinct(skeys(old(pl)@)),
    ensures
        distinct(skeys(final(tl)@)),
        distinct(skeys(final(pl)@)),
        smap(final(tl)@).map_values(|j: Json| j@) == add_tracks(
            smap(old(tl)@).map_values(|j: Json| j@),
            id@,
            tracks@.map_values(|x: Json| x@),
        ),
        smap(final(pl)@).map_values(|s: String| s@) == add_paths(
            smap(old(pl)@).map_values(|s: String| s@),
            id@,
            tracks@.map_values(|x: Json| x@),
        ),
{
    let ghost items = tracks@.map_values(|x: Json| x@);
    let ghost t0 = smap(tl@).map_values(|j: Json| j@);
    let ghost p0 = smap(pl@).map_values(|s: String| s@);
    let mut k: usize = 0;
    while k < tracks.len()
        invariant
            0 <= k <= tracks@.len(),
            items == tracks@.map_values(|x: Json| x@),
            distinct(skeys(tl@)),
            distinct(skeys(pl@)),
            smap(tl@).map_values(|j: Json| j@) == add_tracks(t0, id@, items.take(k as int)),
            smap(pl@).map_values(|s: String| s@) == add_paths(p0, id@, items.take(k as int)),
        decreases tracks@.len() - k,
    {
        let ghost tbefore = smap(tl@).map_values(|j: Json| j@);
        let ghost pbefore = smap(pl@).map_values(|s: String| s@);
        let track = &tracks[k];
        proof {
            assert(items.take(k + 1).drop_last() =~= items.take(k as int));
            assert(items.take(k + 1).last() == track@);
        }
        match track.get("info") {
            Some(tinfo) => {
                let rel = track_rel_string(track);
                if !rel.as_str().is_empty() {
                    let tp = join_path_str(id, rel.as_str());
                    let light = track_summary_json(id, &tp, track, tinfo);
                    let normalized = trim_leading_str(tp.as_str(), '/');
                    let ghost tpv = tp@;
                    let ghost lv = light@;
                    sput(tl, tp, light);
                    sput(pl, normalized, str_to_string(id));
                    proof {
                        assert(smap(tl@).map_values(|j: Json| j@) =~= tbefore.insert(tpv, lv));
                        assert(smap(pl@).map_values(|s: String| s@) =~= pbefore.insert(trim_leading(tpv, '/'), id@));
                    }
                }
            },
            None => {},
        }
        k = k + 1;
    }
    proof {
        assert(items.take(tracks@.len() as int) =~= items);
    }
}

/// Each order key listing the same handles.
pub open spec fn every_order(keys: Seq<Seq<char>>, hs: Seq<u32>) -> Map<Seq<char>, Seq<u32>> {
    Map::new(|k: Seq<char>| keys.contains(k), |k: Seq<char>| hs)
}

/// `s` lists the handles of `hs`, each exactly once, in some order.
pub open spec fn holds_each_once(s: Seq<u32>, hs: Seq<u32>) -> bool {
    &&& distinct(s)
    &&& forall|u: u32| s.contains(u) <==> hs.contains(u)
}

fn vec_has(v: &Vec<u32>, x: u32) -> (r: bool)
    ensures
        r == v@.contains(x),
{
    let mut i: usize = 0;
    while i < v.len()
        invariant
            0 <= i <= v@.len(),
            forall|m: int| 0 <= m < i ==> v@[m] != x,
        decreases v@.len() - i,
    {
        if v[i] == x {
            assert(v@[i as int] == x);
            return true;
        }
        i = i + 1;
    }
    false
}

fn is_each_once(uids: &Vec<u32>, hs: &Vec<u32>) -> (r: bool)
    ensures
        r == holds_each_once(uids@, hs@),
{
    let mut i: usize = 0;
    while i < uids.len()
        invariant
            0 <= i <= uids@.len(),
            forall|a: int, b: int| 0 <= a < i && 0 <= b < i && a != b ==> uids@[a] != uids@[b],
            forall|m: int| 0 <= m < i ==> hs@.contains(#[trigger] uids@[m]),
        decreases uids@.len() - i,
    {
        let mut j: usize = 0;
        while j < i
            invariant
                0 <= j <= i < uids@.len(),
                forall|b: int| 0 <= b < j ==> uids@[b] != uids@[i as int],
            decreases i - j,
        {
            if uids[j] == uids[i] {
                assert(!distinct(uids@)) by {
                    assert(uids@[j as int] == uids@[i as int]);
                }
                return false;
            }
            j = j + 1;
        }
        if !vec_has(hs, uids[i]) {
            assert(uids@.contains(uids@[i as int]));
            return false;
        }
        i = i + 1;
    }
    let mut j: usize = 0;
    while j < hs.len()
        invariant
            0 <= j <= hs@.len(),
            i == uids@.len(),
            distinct(uids@),
            forall|m: int| 0 <= m < uids@.len() ==> hs@.contains(#[trigger] uids@[m]),
            forall|m: int| 0 <= m < j ==> uids@.contains(#[trigger] hs@[m]),
        decreases hs@.len() - j,
    {
        if !vec_has(uids, hs[j]) {
            assert(hs@.contains(hs@[j as int]));
            return false;
        }
        j = j + 1;
    }
    assert forall|u: u32| uids@.contains(u) <==> hs@.contains(u) by {
        if uids@.contains(u) {
            let m = choose|m: int| 0 <= m < uids@.len() && uids@[m] == u;
            assert(hs@.contains(uids@[m]));
        }
        if hs@.contains(u) {
            let m = choose|m: int| 0 <= m < hs@.len() && hs@[m] == u;
            assert(uids@.contains(hs@[m]));
        }
    }
    true
}

/// A list, or the list reversed when `reverse` is set.
pub open spec fn arranged<T>(s: Seq<T>, reverse: bool) -> Seq<T> {
    if reverse {
        s.reverse()
    } else {
        s
    }
}

proof fn lemma_filter_reverse<A>(s: Seq<A>, p: spec_fn(A) -> bool)
    ensures
        s.reverse().filter(p) == s.filter(p).reverse(),
    decreases s.len(),
{
    if s.len() == 0 {
        assert(s.reverse() =~= s);
        assert(s.filter(p).len() == 0) by {
            reveal(Seq::filter);
        }
        assert(s.filter(p).reverse() =~= s.filter(p));
    } else {
        let rest = s.drop_last();
        let x = s.last();
        lemma_filter_reverse(rest, p);
        assert(s =~= rest.push(x));
        assert(s.reverse() =~= seq![x] + rest.reverse());
        rest.reverse().lemma_filter_prepend(x, p);
        rest.lemma_filter_push(x, p);
        if p(x) {
            assert(rest.filter(p).push(x).reverse() =~= seq![x] + rest.filter(p).reverse());
        } else {
            assert(Seq::<A>::empty() + rest.filter(p).reverse() =~= rest.filter(p).reverse());
        }
    }
}

proof fn lemma_filter_map_has<A, B>(s: Seq<A>, f: spec_fn(A) -> Option<B>, i: int)
    requires
        0 <= i < s.len(),
        f(s[i]) is Some,
    ensures
        s.filter_map(f).contains(f(s[i])->0),
    decreases s.len(),
{
    let rest = s.drop_last();
    if i == s.len() - 1 {
        let x = f(s[i])->0;
        assert(s.filter_map(f) == rest.filter_map(f) + seq![x]);
        assert((rest.filter_map(f) + seq![x])[rest.filter_map(f).len() as int] == x);
    } else {
        assert(rest[i] == s[i]);
        lemma_filter_map_has(rest, f, i);
        let e = f(s[i])->0;
        let m = choose|m: int| 0 <= m < rest.filter_map(f).len() && rest.filter_map(f)[m] == e;
        match f(s.last()) {
            Some(x) => {
                assert(s.filter_map(f) == rest.filter_map(f) + seq![x]);
                assert(s.filter_map(f)[m] == e);
            },
            None => {
                assert(s.filter_map(f) == rest.filter_map(f));
            },
        }
    }
}

/// A copy of a list, entry by entry, stands for the same map.
proof fn lemma_smap_copy(a: Seq<(String, Json)>, b: Seq<(String, Json)>)
    requires
        a.map_values(|e: (String, Json)| (e.0@, e.1@)) == b.map_values(|e: (String, Json)| (e.0@, e.1@)),
        distinct(skeys(b)),
    ensures
        distinct(skeys(a)),
        smap(a).map_values(|j: Json| j@) == smap(b).map_values(|j: Json| j@),
{
    let va = a.map_values(|e: (String, Json)| (e.0@, e.1@));
    let vb = b.map_values(|e: (String, Json)| (e.0@, e.1@));
    assert(a.len() == va.len() && b.len() == vb.len());
    assert forall|i: int| 0 <= i < a.len() implies a[i].0@ == b[i].0@ && a[i].1@ == b[i].1@ by {
        assert(va[i] == vb[i]);
    }
    assert(skeys(a) =~= skeys(b));
    assert forall|k: Seq<char>| smap(a).contains_key(k) <==> smap(b).contains_key(k) by {
        if smap(a).contains_key(k) {
            let i = choose|i: int| 0 <= i < a.len() && a[i].0@ == k;
            assert(b[i].0@ == k);
        }
        if smap(b).contains_key(k) {
            let i = choose|i: int| 0 <= i < b.len() && b[i].0@ == k;
            assert(a[i].0@ == k);
        }
    }
    assert forall|k: Seq<char>| #[trigger] smap(a).contains_key(k) implies smap(a)[k]@ == smap(b)[k]@ by {
        let i = choose|i: int| 0 <= i < a.len() && a[i].0@ == k;
        lemma_smap_at(a, i);
        lemma_smap_at(b, i);
    }
    assert(smap(a).map_values(|j: Json| j@) =~= smap(b).map_values(|j: Json| j@));
}

impl LogicEngine {
    /// Album id of each handle.
    pub closed spec fn names(&self) -> Map<u32, Seq<char>> {
        umap(self.uid_to_id@).map_values(|s: String| s@)
    }

    /// Current handle of each album id.
    pub closed spec fn handles(&self) -> Map<Seq<char>, u32> {
        smap(self.id_to_uid@)
    }

    /// The handle the next ingested album gets.
    pub closed spec fn next(&self) -> u32 {
        self.next_uid
    }

    /// The lock file text of each album.
    pub closed spec fn locks(&self) -> Map<Seq<char>, Seq<char>> {
        smap(self.lock_cache@).map_values(|s: String| s@)
    }

    /// The summary of each album.
    pub closed spec fn albums(&self) -> Map<Seq<char>, JsonV> {
        smap(self.dict@).map_values(|j: Json| j@)
    }

    /// The summary of each track, by its path.
    pub closed spec fn tracks(&self) -> Map<Seq<char>, JsonV> {
        smap(self.track_lookup@).map_values(|j: Json| j@)
    }

    /// The album that each track path belongs to.
    pub closed spec fn paths(&self) -> Map<Seq<char>, Seq<char>> {
        smap(self.path_lookup@).map_values(|s: String| s@)
    }

    /// What the configured logic gave for each handle.
    pub closed spec fn evaluated(&self) -> Map<u32, JsonV> {
        umap(self.evaluated_logic@).map_values(|j: Json| j@)
    }

    /// The logic results, in the order they are kept.
    pub closed spec fn results(&self) -> Seq<(u32, JsonV)> {
        self.evaluated_logic@.map_values(|e: (u32, Json)| (e.0, e.1@))
    }

    /// The handles that have a logic result, in the order kept.
    pub open spec fn result_handle_seq(&self) -> Seq<u32> {
        self.results().map_values(|e: (u32, JsonV)| e.0)
    }

    /// Every order lists every album that has a logic result, once each.
    pub open spec fn orders_hold_each_once(&self) -> bool {
        forall|k: Seq<char>| #[trigger] self.orders().contains_key(k) ==> holds_each_once(
            self.orders()[k],
            self.result_handle_seq(),
        )
    }

    proof fn lemma_result_handles_distinct(&self)
        requires
            self.wf(),
        ensures
            distinct(self.result_handle_seq()),
    {
        assert(self.result_handle_seq() =~= ukeys(self.evaluated_logic@));
    }

    /// Members of each library.
    pub closed spec fn libraries(&self) -> Map<Seq<char>, Set<u32>> {
        smap(self.libraries_cache@).map_values(|b: RoaringBitmap| bitmap_set(b))
    }

    /// Members of each filter.
    pub closed spec fn filters(&self) -> Map<Seq<char>, Set<u32>> {
        smap(self.filters_cache@).map_values(|b: RoaringBitmap| bitmap_set(b))
    }

    /// For each grouper, the members of each of its values.
    pub closed spec fn facets(&self) -> Map<Seq<char>, Map<Seq<char>, Set<u32>>> {
        smap(self.facets_cache@).map_values(|v: Vec<(String, RoaringBitmap)>| facet_view(v))
    }

    /// Handles of each order, first to last.
    pub closed spec fn orders(&self) -> Map<Seq<char>, Seq<u32>> {
        smap(self.orders_cache@).map_values(|v: Vec<u32>| v@)
    }

    /// Handles of each shelf, first to last.
    pub closed spec fn shelves(&self) -> Map<Seq<char>, Seq<u32>> {
        smap(self.shelves_cache@).map_values(|v: Vec<u32>| v@)
    }

    /// The engine's invariant: every table is keyed without repetition, each
    /// album id's handle names that album, and every handle in use was
    /// handed out before `next`.
    pub closed spec fn wf(&self) -> bool {
        &&& distinct(skeys(self.libraries_cache@))
        &&& distinct(skeys(self.filters_cache@))
        &&& facets_wf(self.facets_cache@)
        &&& distinct(skeys(self.orders_cache@))
        &&& distinct(skeys(self.shelves_cache@))
        &&& distinct(ukeys(self.uid_to_id@))
        &&& distinct(skeys(self.id_to_uid@))
        &&& distinct(skeys(self.dict@))
        &&& distinct(skeys(self.track_lookup@))
        &&& distinct(skeys(self.path_lookup@))
        &&& distinct(ukeys(self.evaluated_logic@))
        &&& distinct(skeys(self.lock_cache@))
        &&& 1 <= self.next_uid
        &&& (forall|u: u32| #[trigger] self.names().contains_key(u) ==> u < self.next_uid)
        &&& (forall|u: u32| #[trigger] self.evaluated().contains_key(u) ==> u < self.next_uid)
        &&& (forall|id: Seq<char>| #[trigger]
            self.handles().contains_key(id) ==> self.names().contains_key(self.handles()[id])
                && self.names()[self.handles()[id]] == id)
    }

    /// The album, track and path tables of the two engines agree.
    pub open spec fn same_summaries(self, other: Self) -> bool {
        &&& self.albums() == other.albums()
        &&& self.tracks() == other.tracks()
        &&& self.paths() == other.paths()
    }

    /// An empty index.
    pub fn new() -> (r: LogicEngine)
        ensures
            r.wf(),
            r.next() == 1,
            r.names().is_empty(),
            r.handles().is_empty(),
            r.locks().is_empty(),
            r.albums().is_empty(),
            r.tracks().is_empty(),
            r.paths().is_empty(),
            r.evaluated().is_empty(),
            r.libraries().is_empty(),
            r.filters().is_empty(),
            r.facets().is_empty(),
            r.orders().is_empty(),
            r.shelves().is_empty(),
    {
        let r = LogicEngine {
            libraries_cache: Vec::new(),
            filters_cache: Vec::new(),
            facets_cache: Vec::new(),
            orders_cache: Vec::new(),
            shelves_cache: Vec::new(),
            uid_to_id: Vec::new(),
            id_to_uid: Vec::new(),
            next_uid: 1,
            dict: Vec::new(),
            track_lookup: Vec::new(),
            path_lookup: Vec::new(),
            evaluated_logic: Vec::new(),
            lock_cache: Vec::new(),
        };
        proof {
            assert(r.names() =~= Map::empty());
            assert(r.handles() =~= Map::empty());
            assert(r.locks() =~= Map::empty());
            assert(r.albums() =~= Map::empty());
            assert(r.tracks() =~= Map::empty());
            assert(r.paths() =~= Map::empty());
            assert(r.evaluated() =~= Map::empty());
            assert(r.libraries() =~= Map::empty());
            assert(r.filters() =~= Map::empty());
            assert(r.facets() =~= Map::empty());
            assert(r.orders() =~= Map::empty());
            assert(r.shelves() =~= Map::empty());
        }
        r
    }

    /// Forgets every album and every derived set; handles start again at 1.
    pub fn clear(&mut self)
        ensures
            final(self).wf(),
            final(self).next() == 1,
            final(self).names().is_empty(),
            final(self).handles().is_empty(),
            final(self).locks().is_empty(),
            final(self).albums().is_empty(),
            final(self).tracks().is_empty(),
            final(self).paths().is_empty(),
            final(self).evaluated().is_empty(),
            final(self).libraries().is_empty(),
            final(self).filters().is_empty(),
            final(self).facets().is_empty(),
            final(self).orders().is_empty(),
            final(self).shelves().is_empty(),
    {
        *self = LogicEngine::new();
    }

    /// The lock file text that was ingested for `id`.
    pub fn get_album_json(&self, id: &str) -> (r: Option<String>)
        requires
            self.wf(),
        ensures
            match r {
                Some(s) => self.locks().contains_key(id@) && s@ == self.locks()[id@],
                None => !self.locks().contains_key(id@),
            },
    {
        match sfind(&self.lock_cache, id) {
            Some(i) => {
                proof {
                    crate::assoc::lemma_smap_at(self.lock_cache@, i as int);
                }
                Some(self.lock_cache[i].1.clone())
            },
            None => None,
        }
    }

    /// Forgets album `id`: its handle, its lock text, its summary, its logic
    /// result, and every track and path that belongs to it.  The derived sets
    /// are left as they are until the next `build_cache`.
    pub fn remove_album(&mut self, id: &str)
        requires
            old(self).wf(),
        ensures
            final(self).wf(),
            final(self).next() == old(self).next(),
            final(self).handles() == old(self).handles().remove(id@),
            final(self).names() == remove_opt(old(self).names(), old(self).handles().get(id@)),
            final(self).evaluated() == remove_opt(old(self).evaluated(), old(self).handles().get(id@)),
            final(self).locks() == old(self).locks().remove(id@),
            final(self).albums() == old(self).albums().remove(id@),
            final(self).paths() == drop_album_paths(old(self).paths(), id@),
            final(self).tracks() == drop_album_tracks(old(self).tracks(), id@),
            final(self).libraries() == old(self).libraries(),
            final(self).filters() == old(self).filters(),
            final(self).facets() == old(self).facets(),
            final(self).orders() == old(self).orders(),
            final(self).shelves() == old(self).shelves(),
    {
        let ghost pre = *self;
        match sfind(&self.id_to_uid, id) {
            Some(i) => {
                let uid = self.id_to_uid[i].1;
                proof {
                    crate::assoc::lemma_smap_at(self.id_to_uid@, i as int);
                }
                sremove(&mut self.id_to_uid, id);
                uremove(&mut self.uid_to_id, uid);
                uremove(&mut self.evaluated_logic, uid);
                proof {
                    assert(self.names() =~= pre.names().remove(uid));
                    assert(self.evaluated() =~= pre.evaluated().remove(uid));
                    assert(self.handles() == pre.handles().remove(id@));
                    assert forall|id2: Seq<char>| #[trigger] self.handles().contains_key(id2) implies
                        self.names().contains_key(self.handles()[id2]) && self.names()[self.handles()[id2]] == id2 by {
                        assert(pre.handles().contains_key(id2));
                        assert(pre.names()[pre.handles()[id2]] == id2);
                        assert(pre.names()[uid] == id@);
                    }
                    assert forall|u: u32| #[trigger] self.names().contains_key(u) implies u < self.next_uid by {
                        assert(pre.names().contains_key(u));
                    }
                    assert forall|u: u32| #[trigger] self.evaluated().contains_key(u) implies u < self.next_uid by {
                        assert(pre.evaluated().contains_key(u));
                    }
                }
            },
            None => {
                assert(self.handles() =~= pre.handles().remove(id@));
            },
        }
        sremove(&mut self.dict, id);
        sremove(&mut self.lock_cache, id);
        proof {
            assert(self.albums() =~= pre.albums().remove(id@));
            assert(self.locks() =~= pre.locks().remove(id@));
        }
        let mut path_flags: Vec<bool> = Vec::new();
        let mut j: usize = 0;
        while j < self.path_lookup.len()
            invariant
                0 <= j <= self.path_lookup@.len(),
                path_flags@.len() == j,
                forall|m: int| 0 <= m < j ==> path_flags@[m] == (self.path_lookup@[m].1@ != id@),
            decreases self.path_lookup@.len() - j,
        {
            path_flags.push(!str_eq(self.path_lookup[j].1.as_str(), id));
            j = j + 1;
        }
        let ghost keep_path = |e: (String, String)| e.1@ != id@;
        let ghost old_paths = self.path_lookup@;
        sretain(&mut self.path_lookup, &path_flags, Ghost(keep_path));
        proof {
            assert forall|k: Seq<char>| #[trigger] self.paths().contains_key(k) == drop_album_paths(pre.paths(), id@).contains_key(k) by {
                if smap(old_paths).contains_key(k) {
                    assert(smap(old_paths)[k] == old_paths[crate::assoc::spos(old_paths, k)].1);
                }
            }
            assert(self.paths() =~= drop_album_paths(pre.paths(), id@));
        }
        let mut track_flags: Vec<bool> = Vec::new();
        let mut j: usize = 0;
        while j < self.track_lookup.len()
            invariant
                0 <= j <= self.track_lookup@.len(),
                track_flags@.len() == j,
                forall|m: int| 0 <= m < j ==> track_flags@[m] == (track_album(self.track_lookup@[m].1@) != Some(id@)),
            decreases self.track_lookup@.len() - j,
        {
            let same = match self.track_lookup[j].1.get("albumId") {
                Some(a) => match a.as_str() {
                    Some(s) => str_eq(s.as_str(), id),
                    None => false,
                },
                None => false,
            };
            track_flags.push(!same);
            j = j + 1;
        }
        let ghost keep_track = |e: (String, Json)| track_album(e.1@) != Some(id@);
        let ghost old_tracks = self.track_lookup@;
        sretain(&mut self.track_lookup, &track_flags, Ghost(keep_track));
        proof {
            assert forall|k: Seq<char>| #[trigger] self.tracks().contains_key(k) == drop_album_tracks(pre.tracks(), id@).contains_key(k) by {
                if smap(old_tracks).contains_key(k) {
                    assert(smap(old_tracks)[k] == old_tracks[crate::assoc::spos(old_tracks, k)].1);
                }
            }
            assert(self.tracks() =~= drop_album_tracks(pre.tracks(), id@));
            assert(self.names() == remove_opt(pre.names(), pre.handles().get(id@)));
            assert(self.evaluated() == remove_opt(pre.evaluated(), pre.handles().get(id@)));
            assert forall|u: u32| #[trigger] self.names().contains_key(u) implies u < self.next_uid by {
                assert(pre.names().contains_key(u));
            }
            assert forall|u: u32| #[trigger] self.evaluated().contains_key(u) implies u < self.next_uid by {
                assert(pre.evaluated().contains_key(u));
            }
        }
    }

    /// The album and track tables after indexing album `id` from `parsed`,
    /// its lock file read as JSON: its summary, tracks and paths added when
    /// it has `album.info`; nothing changed otherwise.
    pub open spec fn indexed_from(self, before: Self, id: Seq<char>, parsed: Option<JsonV>) -> bool {
        match parsed {
            Some(p) => match album_of(p) {
                Some((album, info)) => {
                    &&& self.albums() == before.albums().insert(id, album_summary(id, album, info))
                    &&& self.tracks() == add_tracks(before.tracks(), id, array_items(jget(p, "tracks"@)))
                    &&& self.paths() == add_paths(before.paths(), id, array_items(jget(p, "tracks"@)))
                },
                None => self.same_summaries(before),
            },
            None => self.same_summaries(before),
        }
    }

    /// Registers album `id` with its lock file text under a fresh handle,
    /// and indexes its summary and its tracks from the text read as JSON.
    /// The album is registered even when the text is not JSON, and the
    /// error is returned after.  An album without `album.info` is
    /// registered but not summarised.
    pub fn ingest(&mut self, id: &str, metadata_json: &str) -> (r: Result<u32, IngestError>)
        requires
            old(self).wf(),
            old(self).next() < u32::MAX,
        ensures
            final(self).wf(),
            final(self).next() == old(self).next() + 1,
            !old(self).names().contains_key(old(self).next()),
            final(self).names() == old(self).names().insert(old(self).next(), id@),
            final(self).handles() == old(self).handles().insert(id@, old(self).next()),
            final(self).locks() == old(self).locks().insert(id@, metadata_json@),
            final(self).evaluated() == old(self).evaluated(),
            match r {
                Ok(uid) => json_parse(metadata_json@) is Some && uid == old(self).next(),
                Err(e) => json_parse(metadata_json@) is None,
            },
            final(self).indexed_from(*old(self), id@, json_parse(metadata_json@)),
            final(self).libraries() == old(self).libraries(),
            final(self).filters() == old(self).filters(),
            final(self).facets() == old(self).facets(),
            final(self).orders() == old(self).orders(),
            final(self).shelves() == old(self).shelves(),
    {
        let parsed = parse_json(metadata_json);
        self.ingest_parsed(id, metadata_json, parsed.as_ref())
    }

    /// `ingest` with the lock file text already read: `parsed` is that text
    /// read as JSON, or `None` when it is not JSON.
    pub fn ingest_parsed(&mut self, id: &str, metadata_json: &str, parsed: Option<&Json>) -> (r: Result<u32, IngestError>)
        requires
            old(self).wf(),
            old(self).next() < u32::MAX,
        ensures
            final(self).wf(),
            final(self).next() == old(self).next() + 1,
            !old(self).names().contains_key(old(self).next()),
            final(self).names() == old(self).names().insert(old(self).next(), id@),
            final(self).handles() == old(self).handles().insert(id@, old(self).next()),
            final(self).locks() == old(self).locks().insert(id@, metadata_json@),
            final(self).evaluated() == old(self).evaluated(),
            match r {
                Ok(uid) => parsed is Some && uid == old(self).next(),
                Err(e) => parsed is None,
            },
            final(self).indexed_from(
                *old(self),
                id@,
                match parsed {
                    Some(p) => Some(p@),
                    None => None,
                },
            ),
            final(self).libraries() == old(self).libraries(),
            final(self).filters() == old(self).filters(),
            final(self).facets() == old(self).facets(),
            final(self).orders() == old(self).orders(),
            final(self).shelves() == old(self).shelves(),
    {
        let ghost pre = *self;
        let uid = self.next_uid;
        self.next_uid = self.next_uid + 1;
        uput(&mut self.uid_to_id, uid, str_to_string(id));
        sput(&mut self.id_to_uid, str_to_string(id), uid);
        sput(&mut self.lock_cache, str_to_string(id), str_to_string(metadata_json));
        proof {
            assert(self.names() =~= pre.names().insert(uid, id@));
            assert(self.locks() =~= pre.locks().insert(id@, metadata_json@));
            assert forall|id2: Seq<char>| #[trigger] self.handles().contains_key(id2) implies
                self.names().contains_key(self.handles()[id2]) && self.names()[self.handles()[id2]] == id2 by {
                if id2 != id@ {
                    assert(pre.handles().contains_key(id2));
                    assert(pre.names().contains_key(pre.handles()[id2]));
                }
            }
            assert forall|u: u32| #[trigger] self.names().contains_key(u) implies u < self.next_uid by {
                if u != uid {
                    assert(pre.names().contains_key(u));
                }
            }
            assert forall|u: u32| #[trigger] self.evaluated().contains_key(u) implies u < self.next_uid by {
                assert(pre.evaluated().contains_key(u));
            }
        }
        let ghost mid = *self;
        let p = match parsed {
            Some(p) => p,
            None => {
                return Err(IngestError::InvalidJson);
            },
        };
        match p.get("album") {
            Some(album) => match album.get("info") {
                Some(info) => {
                    let mut tl: Vec<(String, Json)> = Vec::new();
                    let mut pl: Vec<(String, String)> = Vec::new();
                    std::mem::swap(&mut tl, &mut self.track_lookup);
                    std::mem::swap(&mut pl, &mut self.path_lookup);
                    match p.get("tracks") {
                        Some(t) => match t.as_array() {
                            Some(items) => {
                                add_track_rows(&mut tl, &mut pl, id, items);
                            },
                            None => {
                                assert(array_items(jget(p@, "tracks"@)) =~= Seq::<JsonV>::empty());
                            },
                        },
                        None => {},
                    }
                    std::mem::swap(&mut tl, &mut self.track_lookup);
                    std::mem::swap(&mut pl, &mut self.path_lookup);
                    let summary = album_summary_json(id, album, info);
                    let ghost sv = summary@;
                    sput(&mut self.dict, str_to_string(id), summary);
                    proof {
                        assert(self.albums() =~= pre.albums().insert(id@, sv));
                    }
                },
                None => {},
            },
            None => {},
        }
        proof {
            assert(self.names() == mid.names());
            assert(self.handles() == mid.handles());
            assert(self.evaluated() == mid.evaluated());
        }
        Ok(uid)
    }

    /// Records what the configured logic gave for the album under `uid`.
    pub fn record_evaluation(&mut self, uid: u32, result: Json)
        requires
            old(self).wf(),
            uid < old(self).next(),
        ensures
            final(self).wf(),
            final(self).evaluated() == old(self).evaluated().insert(uid, result@),
            final(self).next() == old(self).next(),
            final(self).names() == old(self).names(),
            final(self).handles() == old(self).handles(),
            final(self).locks() == old(self).locks(),
            final(self).albums() == old(self).albums(),
            final(self).tracks() == old(self).tracks(),
            final(self).paths() == old(self).paths(),
            final(self).libraries() == old(self).libraries(),
            final(self).filters() == old(self).filters(),
            final(self).facets() == old(self).facets(),
            final(self).orders() == old(self).orders(),
            final(self).shelves() == old(self).shelves(),
    {
        let ghost pre = *self;
        let ghost rv = result@;
        uput(&mut self.evaluated_logic, uid, result);
        proof {
            assert(self.names() == pre.names());
            assert(self.handles() == pre.handles());
            assert(self.evaluated() =~= pre.evaluated().insert(uid, rv));
            assert forall|u: u32| #[trigger] self.evaluated().contains_key(u) implies u < self.next_uid by {
                if u != uid {
                    assert(pre.evaluated().contains_key(u));
                }
            }
        }
    }

    /// Derives the library, filter, facet and shelf tables from the logic
    /// results, in the order the results are kept, and fills each order of
    /// `order_keys` with every album that has a logic result, once each, in
    /// that order.  Shelves that the logic fills come out in that order; the
    /// caller may then reorder shelves and orders with `set_shelf` and
    /// `set_order`.
    pub fn build_cache(&mut self, order_keys: &Vec<String>)
        requires
            old(self).wf(),
        ensures
            final(self).wf(),
            final(self).libraries() == member_table(old(self).results(), "libraries"@),
            final(self).filters() == member_table(old(self).results(), "filters"@),
            final(self).facets() == facet_table(old(self).results()),
            final(self).shelves() == shelf_table(old(self).results()),
            final(self).orders() == every_order(
                order_keys@.map_values(|k: String| k@),
                old(self).result_handle_seq(),
            ),
            final(self).orders_hold_each_once(),
            final(self).results() == old(self).results(),
            final(self).evaluated() == old(self).evaluated(),
            final(self).next() == old(self).next(),
            final(self).names() == old(self).names(),
            final(self).handles() == old(self).handles(),
            final(self).locks() == old(self).locks(),
            final(self).same_summaries(*old(self)),
    {
        let ghost pre = *self;
        let ghost rs = self.results();
        let mut lc: Vec<(String, RoaringBitmap)> = Vec::new();
        let mut fc: Vec<(String, RoaringBitmap)> = Vec::new();
        let mut gc: Vec<(String, Vec<(String, RoaringBitmap)>)> = Vec::new();
        let mut sc: Vec<(String, Vec<u32>)> = Vec::new();
        proof {
            assert(bitmaps_view(lc@) =~= member_table(rs.take(0), "libraries"@));
            assert(bitmaps_view(fc@) =~= member_table(rs.take(0), "filters"@));
            assert(facets_view(gc@) =~= facet_table(rs.take(0)));
            assert(lists_view(sc@) =~= shelf_table(rs.take(0)));
        }
        let mut k: usize = 0;
        while k < self.evaluated_logic.len()
            invariant
                0 <= k <= self.evaluated_logic@.len(),
                rs == self.results(),
                rs.len() == self.evaluated_logic@.len(),
                distinct(skeys(lc@)),
                distinct(skeys(fc@)),
                facets_wf(gc@),
                distinct(skeys(sc@)),
                bitmaps_view(lc@) == member_table(rs.take(k as int), "libraries"@),
                bitmaps_view(fc@) == member_table(rs.take(k as int), "filters"@),
                facets_view(gc@) == facet_table(rs.take(k as int)),
                lists_view(sc@) == shelf_table(rs.take(k as int)),
            decreases self.evaluated_logic@.len() - k,
        {
            let uid = self.evaluated_logic[k].0;
            let ev = &self.evaluated_logic[k].1;
            proof {
                assert(rs.take(k + 1).drop_last() =~= rs.take(k as int));
                assert(rs.take(k + 1).last() == (uid, ev@));
            }
            match ev.get("libraries") {
                Some(x) => match x.as_object() {
                    Some(es) => mark_section(&mut lc, es, uid),
                    None => {},
                },
                None => {},
            }
            match ev.get("filters") {
                Some(x) => match x.as_object() {
                    Some(es) => mark_section(&mut fc, es, uid),
                    None => {},
                },
                None => {},
            }
            match ev.get("groupers") {
                Some(x) => match x.as_object() {
                    Some(es) => facet_section(&mut gc, es, uid),
                    None => {},
                },
                None => {},
            }
            match ev.get("shelves") {
                Some(x) => match x.as_object() {
                    Some(es) => shelve_section(&mut sc, es, uid),
                    None => {},
                },
                None => {},
            }
            k = k + 1;
        }
        proof {
            assert(rs.take(rs.len() as int) =~= rs);
        }
        self.libraries_cache = lc;
        self.filters_cache = fc;
        self.facets_cache = gc;
        self.shelves_cache = sc;
        let ghost hs = self.result_handle_seq();
        let ghost ks = order_keys@.map_values(|k: String| k@);
        let mut oc: Vec<(String, Vec<u32>)> = Vec::new();
        let mut i: usize = 0;
        proof {
            assert(lists_view(oc@) =~= every_order(ks.take(0), hs));
        }
        while i < order_keys.len()
            invariant
                0 <= i <= order_keys@.len(),
                ks == order_keys@.map_values(|k: String| k@),
                hs == self.result_handle_seq(),
                distinct(skeys(oc@)),
                lists_view(oc@) == every_order(ks.take(i as int), hs),
            decreases order_keys@.len() - i,
        {
            let ghost before = lists_view(oc@);
            let handles = self.result_handles();
            crate::derive::put_list(&mut oc, str_to_string(order_keys[i].as_str()), handles);
            proof {
                let prev = ks.take(i as int);
                let next = ks.take(i + 1);
                assert(next =~= prev.push(ks[i as int]));
                assert forall|k: Seq<char>| #[trigger] next.contains(k) <==> (prev.contains(k) || k == ks[i as int]) by {
                    if next.contains(k) {
                        let m = choose|m: int| 0 <= m < next.len() && next[m] == k;
                        if m < i {
                            assert(prev[m] == k);
                        }
                    }
                    if prev.contains(k) {
                        let m = choose|m: int| 0 <= m < prev.len() && prev[m] == k;
                        assert(next[m] == k);
                    }
                    if k == ks[i as int] {
                        assert(next[i as int] == k);
                    }
                }
                assert(lists_view(oc@) =~= every_order(ks.take(i + 1), hs));
            }
            i = i + 1;
        }
        proof {
            assert(ks.take(i as int) =~= ks);
        }
        self.orders_cache = oc;
        proof {
            assert(self.orders() == every_order(ks, hs));
            assert(self.names() == pre.names());
            assert(self.handles() == pre.handles());
            assert(self.evaluated() == pre.evaluated());
            self.lemma_result_handles_distinct();
        }
    }

    /// Whether album `u` is known and its title or album artist, lowered,
    /// contains `needle`.
    pub open spec fn search_hit(&self, u: u32, needle: Seq<char>) -> bool {
        &&& self.names().contains_key(u)
        &&& self.albums().contains_key(self.names()[u])
        &&& (contains_text(lower(text_at(self.albums()[self.names()[u]], "album"@)), needle)
            || contains_text(lower(text_at(self.albums()[self.names()[u]], "albumartist"@)), needle))
    }

    /// The members of `library`, narrowed to those of `library_filter` when
    /// that filter exists.
    pub open spec fn library_mask(&self, library: Seq<char>, library_filter: Option<Seq<char>>) -> Set<u32> {
        let base = bset(self.libraries(), library);
        match library_filter {
            Some(lf) => if self.filters().contains_key(lf) {
                base.intersect(self.filters()[lf])
            } else {
                base
            },
            None => base,
        }
    }

    /// The albums a view shows: the library mask, narrowed by a search
    /// (`filter_key` is `search`) or by a facet value when both parts of the
    /// filter are given.  A facet value that the grouper does not have
    /// leaves nothing; an unknown grouper narrows nothing.
    pub open spec fn view_mask(
        &self,
        library: Seq<char>,
        library_filter: Option<Seq<char>>,
        filter_key: Option<Seq<char>>,
        filter_val: Option<Seq<char>>,
    ) -> Set<u32> {
        let m = self.library_mask(library, library_filter);
        match (filter_key, filter_val) {
            (Some(fk), Some(fv)) => if fk == "search"@ {
                m.filter(|u: u32| self.search_hit(u, lower(fv)))
            } else if self.facets().contains_key(fk) {
                if self.facets()[fk].contains_key(fv) {
                    m.intersect(self.facets()[fk][fv])
                } else {
                    Set::empty()
                }
            } else {
                m
            },
            _ => m,
        }
    }

    /// The album ids of the handles in `uids` that `mask` holds and that
    /// name an album, in the order of `uids`.
    pub open spec fn named(&self, uids: Seq<u32>, mask: Set<u32>) -> Seq<Seq<char>> {
        uids.filter_map(self.name_fn(mask))
    }

    /// The album id of a handle that `mask` holds and that names an album.
    pub open spec fn name_fn(&self, mask: Set<u32>) -> spec_fn(u32) -> Option<Seq<char>> {
        |u: u32|
            if mask.contains(u) && self.names().contains_key(u) {
                Some(self.names()[u])
            } else {
                None
            }
    }

    /// The handles of an order, or none when the order is unknown.
    pub open spec fn order_of(&self, sort: Seq<char>) -> Seq<u32> {
        if self.orders().contains_key(sort) {
            self.orders()[sort]
        } else {
            Seq::empty()
        }
    }

    /// The handle an album id names, looked up.
    fn name_of(&self, u: u32) -> (r: Option<&String>)
        requires
            self.wf(),
        ensures
            match r {
                Some(s) => self.names().contains_key(u) && self.names()[u] == s@,
                None => !self.names().contains_key(u),
            },
    {
        match ufind(&self.uid_to_id, u) {
            Some(i) => {
                proof {
                    crate::assoc::lemma_umap_at(self.uid_to_id@, i as int);
                }
                Some(&self.uid_to_id[i].1)
            },
            None => None,
        }
    }

    /// The summary of album `id`, looked up.
    fn album_of_id(&self, id: &str) -> (r: Option<&Json>)
        requires
            self.wf(),
        ensures
            match r {
                Some(a) => self.albums().contains_key(id@) && self.albums()[id@] == a@,
                None => !self.albums().contains_key(id@),
            },
    {
        match sfind(&self.dict, id) {
            Some(i) => {
                proof {
                    crate::assoc::lemma_smap_at(self.dict@, i as int);
                }
                Some(&self.dict[i].1)
            },
            None => None,
        }
    }

    /// Whether the title or album artist of `album`, lowered, contains `needle`.
    fn summary_hit(album: &Json, needle: &str) -> (r: bool)
        ensures
            r == (contains_text(lower(text_at(album@, "album"@)), needle@) || contains_text(
                lower(text_at(album@, "albumartist"@)),
                needle@,
            )),
    {
        let title = match album.get("album") {
            Some(t) => match t.as_str() {
                Some(s) => to_lower(s.as_str()),
                None => to_lower(""),
            },
            None => to_lower(""),
        };
        let artist = match album.get("albumartist") {
            Some(t) => match t.as_str() {
                Some(s) => to_lower(s.as_str()),
                None => to_lower(""),
            },
            None => to_lower(""),
        };
        proof {
            assert(""@ == Seq::<char>::empty()) by {
                reveal_strlit("");
            }
        }
        text_contains(title.as_str(), needle) || text_contains(artist.as_str(), needle)
    }

    /// Whether album `u` is known and matches a lowered search text.
    fn hit(&self, u: u32, needle: &str) -> (r: bool)
        requires
            self.wf(),
        ensures
            r == self.search_hit(u, needle@),
    {
        match self.name_of(u) {
            Some(id) => match self.album_of_id(id.as_str()) {
                Some(album) => LogicEngine::summary_hit(album, needle),
                None => false,
            },
            None => false,
        }
    }

    /// The members of `library` narrowed by `library_filter`, as a bitmap.
    fn library_bitmap(&self, library: &str, library_filter: Option<&str>) -> (r: RoaringBitmap)
        requires
            self.wf(),
        ensures
            bitmap_set(r) == self.library_mask(library@, opt_text(library_filter)),
    {
        let mut mask = match sfind(&self.libraries_cache, library) {
            Some(i) => {
                proof {
                    crate::assoc::lemma_smap_at(self.libraries_cache@, i as int);
                }
                bitmap_clone(&self.libraries_cache[i].1)
            },
            None => bitmap_new(),
        };
        match library_filter {
            Some(lf) => match sfind(&self.filters_cache, lf) {
                Some(j) => {
                    proof {
                        crate::assoc::lemma_smap_at(self.filters_cache@, j as int);
                    }
                    bitmap_and_assign(&mut mask, &self.filters_cache[j].1);
                },
                None => {},
            },
            None => {},
        }
        mask
    }

    /// The album ids of a library view, in the order `sort` gives them (last
    /// first when `reverse` is set).  See `view_mask` for which albums it
    /// shows; an unknown order shows nothing.
    pub fn request_view(
        &self,
        library: &str,
        library_filter: Option<&str>,
        sort: &str,
        filter_key: Option<&str>,
        filter_val: Option<&str>,
        reverse: bool,
    ) -> (r: Vec<String>)
        requires
            self.wf(),
        ensures
            ({
                let mask = self.view_mask(library@, opt_text(library_filter), opt_text(filter_key), opt_text(filter_val));
                let ids = self.named(self.order_of(sort@), mask);
                r@.map_values(|s: String| s@) == arranged(ids, reverse)
            }),
    {
        let ghost mask_spec = self.view_mask(library@, opt_text(library_filter), opt_text(filter_key), opt_text(filter_val));
        let mut mask = self.library_bitmap(library, library_filter);
        match (filter_key, filter_val) {
            (Some(fk), Some(fv)) => {
                if str_eq(fk, "search") {
                    proof {
                        reveal_strlit("search");
                    }
                    let needle = to_lower(fv);
                    let vals = bitmap_values(&mask);
                    let ghost m0 = bitmap_set(mask);
                    let mut searched = bitmap_new();
                    let mut i: usize = 0;
                    while i < vals.len()
                        invariant
                            self.wf(),
                            0 <= i <= vals@.len(),
                            forall|x: u32| vals@.contains(x) <==> m0.contains(x),
                            forall|x: u32| #[trigger] bitmap_set(searched).contains(x) <==> (exists|j: int| 0 <= j < i && vals@[j] == x) && self.search_hit(x, needle@),
                        decreases vals@.len() - i,
                    {
                        let u = vals[i];
                        if self.hit(u, needle.as_str()) {
                            bitmap_insert(&mut searched, u);
                        }
                        i = i + 1;
                        proof {
                            assert forall|x: u32| #[trigger] bitmap_set(searched).contains(x) <==> (exists|j: int| 0 <= j < i && vals@[j] == x) && self.search_hit(x, needle@) by {
                                if x == u {
                                    assert(vals@[i - 1] == x);
                                }
                                if exists|j: int| 0 <= j < i && vals@[j] == x {
                                    let j = choose|j: int| 0 <= j < i && vals@[j] == x;
                                    if j < i - 1 {
                                        assert(exists|j2: int| 0 <= j2 < i - 1 && vals@[j2] == x);
                                    }
                                }
                            }
                        }
                    }
                    proof {
                        assert forall|x: u32| bitmap_set(searched).contains(x) <==> mask_spec.contains(x) by {
                            if m0.contains(x) {
                                assert(vals@.contains(x));
                                let j = choose|j: int| 0 <= j < vals@.len() && vals@[j] == x;
                                assert(exists|j2: int| 0 <= j2 < i && vals@[j2] == x);
                            }
                            if bitmap_set(searched).contains(x) {
                                let j = choose|j: int| 0 <= j < i && vals@[j] == x;
                                assert(vals@.contains(x));
                            }
                        }
                        assert(bitmap_set(searched) =~= mask_spec);
                    }
                    mask = searched;
                } else {
                    match sfind(&self.facets_cache, fk) {
                        Some(g) => {
                            proof {
                                crate::assoc::lemma_smap_at(self.facets_cache@, g as int);
                                assert(self.facets()[fk@] == crate::derive::bitmaps_view(self.facets_cache@[g as int].1@));
                            }
                            match sfind(&self.facets_cache[g].1, fv) {
                                Some(h) => {
                                    proof {
                                        assert(crate::derive::facets_wf(self.facets_cache@));
                                        assert(smap(self.facets_cache@).contains_key(fk@));
                                        crate::assoc::lemma_smap_at(self.facets_cache@[g as int].1@, h as int);
                                    }
                                    bitmap_and_assign(&mut mask, &self.facets_cache[g].1[h].1);
                                },
                                None => {
                                    bitmap_clear(&mut mask);
                                },
                            }
                        },
                        None => {},
                    }
                    proof {
                        assert(bitmap_set(mask) =~= mask_spec);
                    }
                }
            },
            _ => {},
        }
        let ghost order = self.order_of(sort@);
        let empty: Vec<u32> = Vec::new();
        let uids: &Vec<u32> = match sfind(&self.orders_cache, sort) {
            Some(i) => {
                proof {
                    crate::assoc::lemma_smap_at(self.orders_cache@, i as int);
                }
                &self.orders_cache[i].1
            },
            None => &empty,
        };
        assert(uids@ == order);
        let ghost f = self.name_fn(mask_spec);
        let mut res: Vec<String> = Vec::new();
        let mut i: usize = 0;
        while i < uids.len()
            invariant
                self.wf(),
                0 <= i <= uids@.len(),
                bitmap_set(mask) == mask_spec,
                f == self.name_fn(mask_spec),
                res@.map_values(|s: String| s@) == uids@.take(i as int).filter_map(f),
            decreases uids@.len() - i,
        {
            let u = uids[i];
            let ghost before = res@.map_values(|s: String| s@);
            proof {
                uids@.lemma_filter_map_take_succ(f, i as int);
            }
            if bitmap_contains(&mask, u) {
                match self.name_of(u) {
                    Some(id) => {
                        res.push(id.clone());
                        assert(f(u) == Some(id@));
                        assert(res@.map_values(|s: String| s@) =~= before + seq![id@]);
                    },
                    None => {
                        assert(f(u) is None);
                    },
                }
            } else {
                assert(f(u) is None);
            }
            i = i + 1;
            assert(res@.map_values(|s: String| s@) =~= uids@.take(i as int).filter_map(f));
        }
        proof {
            assert(uids@.take(uids@.len() as int) =~= uids@);
            assert(self.named(order, mask_spec) == uids@.filter_map(f));
        }
        if reverse {
            let out = reversed(res);
            proof {
                assert(out@.map_values(|s: String| s@) =~= res@.map_values(|s: String| s@).reverse());
            }
            out
        } else {
            res
        }
    }

    /// The handles of a shelf, or none when the shelf is unknown.
    pub open spec fn shelf_of(&self, key: Seq<char>) -> Seq<u32> {
        if self.shelves().contains_key(key) {
            self.shelves()[key]
        } else {
            Seq::empty()
        }
    }

    /// The album ids of a shelf, in shelf order.
    pub fn request_shelf_view(&self, shelf_key: &str) -> (r: Vec<String>)
        requires
            self.wf(),
        ensures
            r@.map_values(|s: String| s@) == self.named(self.shelf_of(shelf_key@), Set::full()),
    {
        let empty: Vec<u32> = Vec::new();
        let uids: &Vec<u32> = match sfind(&self.shelves_cache, shelf_key) {
            Some(i) => {
                proof {
                    crate::assoc::lemma_smap_at(self.shelves_cache@, i as int);
                }
                &self.shelves_cache[i].1
            },
            None => &empty,
        };
        self.names_in(uids)
    }

    /// The album ids of the handles in `uids` that name an album, in order.
    fn names_in(&self, uids: &Vec<u32>) -> (r: Vec<String>)
        requires
            self.wf(),
        ensures
            r@.map_values(|s: String| s@) == self.named(uids@, Set::full()),
    {
        let ghost f = self.name_fn(Set::full());
        let mut res: Vec<String> = Vec::new();
        let mut i: usize = 0;
        while i < uids.len()
            invariant
                self.wf(),
                0 <= i <= uids@.len(),
                f == self.name_fn(Set::full()),
                res@.map_values(|s: String| s@) == uids@.take(i as int).filter_map(f),
            decreases uids@.len() - i,
        {
            let u = uids[i];
            let ghost before = res@.map_values(|s: String| s@);
            proof {
                uids@.lemma_filter_map_take_succ(f, i as int);
            }
            match self.name_of(u) {
                Some(id) => {
                    res.push(id.clone());
                    assert(f(u) == Some(id@));
                    assert(res@.map_values(|s: String| s@) =~= before + seq![id@]);
                },
                None => {
                    assert(f(u) is None);
                },
            }
            i = i + 1;
            assert(res@.map_values(|s: String| s@) =~= uids@.take(i as int).filter_map(f));
        }
        proof {
            assert(uids@.take(uids@.len() as int) =~= uids@);
        }
        res
    }

    /// The values of a grouper with their members, in the order kept.
    pub closed spec fn facet_entries(&self, grouper: Seq<char>) -> Seq<(Seq<char>, Set<u32>)> {
        if smap(self.facets_cache@).contains_key(grouper) {
            smap(self.facets_cache@)[grouper]@.map_values(
                |e: (String, RoaringBitmap)| (e.0@, bitmap_set(e.1)),
            )
        } else {
            Seq::empty()
        }
    }

    /// The values of `grouper` that some album of the library mask has,
    /// with how many albums of the mask have each, in the order kept.
    pub open spec fn group_rows(
        &self,
        library: Seq<char>,
        library_filter: Option<Seq<char>>,
        grouper: Seq<char>,
    ) -> Seq<(Seq<char>, u64)> {
        self.facet_entries(grouper).filter_map(row_fn(self.library_mask(library, library_filter)))
    }

    /// The groups of a grouper view: each value that albums of the library
    /// mask have, with their count, ordered by the lowered value in natural
    /// order (values that tie keep the order kept).
    pub fn request_group(&self, library: &str, library_filter: Option<&str>, grouper: &str) -> (r: Vec<Json>)
        requires
            self.wf(),
        ensures
            r@.map_values(|j: Json| j@) == sort_by_key(
                self.group_rows(library@, opt_text(library_filter), grouper@).map_values(
                    |e: (Seq<char>, u64)| (lower(e.0), e),
                ),
            ).map_values(|e: (Seq<char>, (Seq<char>, u64))| group_json(e.1.0, e.1.1)),
    {
        let mask = self.library_bitmap(library, library_filter);
        let ghost mask_spec = self.library_mask(library@, opt_text(library_filter));
        let ghost rows = self.group_rows(library@, opt_text(library_filter), grouper@);
        let ghost keyed = rows.map_values(|e: (Seq<char>, u64)| (lower(e.0), e));
        let mut cands: Vec<(String, (String, u64))> = Vec::new();
        match sfind(&self.facets_cache, grouper) {
            Some(g) => {
                proof {
                    crate::assoc::lemma_smap_at(self.facets_cache@, g as int);
                }
                let fm = &self.facets_cache[g].1;
                let ghost ents = fm@.map_values(|e: (String, RoaringBitmap)| (e.0@, bitmap_set(e.1)));
                let ghost f = row_fn(mask_spec);
                assert(ents == self.facet_entries(grouper@));
                assert(rows == ents.filter_map(f));
                let mut j: usize = 0;
                while j < fm.len()
                    invariant
                        0 <= j <= fm@.len(),
                        ents == fm@.map_values(|e: (String, RoaringBitmap)| (e.0@, bitmap_set(e.1))),
                        bitmap_set(mask) == mask_spec,
                        f == row_fn(mask_spec),
                        cands@.map_values(|e: (String, (String, u64))| (e.0@, e.1@)) == ents.take(
                            j as int,
                        ).filter_map(f).map_values(|e: (Seq<char>, u64)| (lower(e.0), e)),
                    decreases fm@.len() - j,
                {
                    let ghost before = cands@.map_values(|e: (String, (String, u64))| (e.0@, e.1@));
                    proof {
                        ents.lemma_filter_map_take_succ(f, j as int);
                    }
                    let n = bitmap_intersection_len(&fm[j].1, &mask);
                    if n > 0 {
                        let label = fm[j].0.clone();
                        let key = to_lower(label.as_str());
                        cands.push((key, (label, n)));
                        proof {
                            assert(f(ents[j as int]) == Some((fm@[j as int].0@, n)));
                            assert(cands@.map_values(|e: (String, (String, u64))| (e.0@, e.1@)) =~= before.push(
                                (lower(fm@[j as int].0@), (fm@[j as int].0@, n)),
                            ));
                        }
                    } else {
                        assert(f(ents[j as int]) is None);
                    }
                    j = j + 1;
                    assert(ents.take(j as int).filter_map(f).map_values(|e: (Seq<char>, u64)| (lower(e.0), e))
                        =~= cands@.map_values(|e: (String, (String, u64))| (e.0@, e.1@)));
                }
                proof {
                    assert(ents.take(fm@.len() as int) =~= ents);
                }
            },
            None => {
                assert(rows =~= Seq::<(Seq<char>, u64)>::empty());
            },
        }
        assert(cands@.map_values(|e: (String, (String, u64))| (e.0@, e.1@)) == keyed);
        let sorted = sort_keyed(cands);
        let ghost sv = sorted@.map_values(|e: (String, (String, u64))| (e.0@, e.1@));
        let mut out: Vec<Json> = Vec::new();
        let mut k: usize = 0;
        while k < sorted.len()
            invariant
                0 <= k <= sorted@.len(),
                sv == sorted@.map_values(|e: (String, (String, u64))| (e.0@, e.1@)),
                out@.len() == k,
                forall|m: int| 0 <= m < k ==> (#[trigger] out@[m])@ == group_json(sv[m].1.0, sv[m].1.1),
            decreases sorted@.len() - k,
        {
            let label = &sorted[k].1.0;
            let n = sorted[k].1.1;
            let mut es: Vec<(String, Json)> = Vec::new();
            es.push(entry("count", ju64_value(n)));
            es.push(entry("label", jstring(label.clone())));
            es.push(entry("value", jstring(label.clone())));
            let o = Json::Object(es);
            proof {
                o.lemma_object_view();
                assert(o@->Object_0 =~= group_json(sv[k as int].1.0, sv[k as int].1.1)->Object_0);
            }
            out.push(o);
            k = k + 1;
        }
        assert(out@.map_values(|j: Json| j@) =~= sv.map_values(
            |e: (Seq<char>, (Seq<char>, u64))| group_json(e.1.0, e.1.1),
        ));
        out
    }

    /// Every album id that has a handle, in the order kept.
    pub closed spec fn all_names(&self) -> Seq<Seq<char>> {
        self.uid_to_id@.map_values(|e: (u32, String)| e.1@)
    }

    /// Whether album `id` is summarised and its id, title or album artist,
    /// lowered, contains `needle`.
    pub open spec fn id_hit(&self, id: Seq<char>, needle: Seq<char>) -> bool {
        &&& self.albums().contains_key(id)
        &&& (contains_text(lower(id), needle) || contains_text(
            lower(text_at(self.albums()[id], "album"@)),
            needle,
        ) || contains_text(lower(text_at(self.albums()[id], "albumartist"@)), needle))
    }

    pub open spec fn id_hit_fn(&self, needle: Seq<char>) -> spec_fn(Seq<char>) -> bool {
        |id: Seq<char>| self.id_hit(id, needle)
    }

    /// What `find_ids` answers for a trimmed query `q`: every album id when
    /// `q` is empty; else the members of the library, filter or shelf named
    /// `q` (libraries and filters by increasing handle, shelves in shelf
    /// order), tried in that order; else the albums that match `q` lowered.
    pub open spec fn find_answer(&self, q: Seq<char>, r: Seq<Seq<char>>) -> bool {
        if q.len() == 0 {
            r == self.all_names()
        } else if self.libraries().contains_key(q) {
            exists|o: Seq<u32>|
                increasing(o) && enumerates(o, self.libraries()[q]) && r == self.named(o, Set::full())
        } else if self.filters().contains_key(q) {
            exists|o: Seq<u32>|
                increasing(o) && enumerates(o, self.filters()[q]) && r == self.named(o, Set::full())
        } else if self.shelves().contains_key(q) {
            r == self.named(self.shelves()[q], Set::full())
        } else {
            r == self.all_names().filter(self.id_hit_fn(lower(q)))
        }
    }

    /// The album ids a query names; see `find_answer`.
    pub fn find_ids(&self, query_str: &str) -> (r: Vec<String>)
        requires
            self.wf(),
        ensures
            self.find_answer(trim(query_str@), r@.map_values(|s: String| s@)),
    {
        let q = trim_str(query_str);
        if q.as_str().is_empty() {
            let mut res: Vec<String> = Vec::new();
            let mut i: usize = 0;
            while i < self.uid_to_id.len()
                invariant
                    0 <= i <= self.uid_to_id@.len(),
                    res@.map_values(|s: String| s@) == self.all_names().take(i as int),
                decreases self.uid_to_id@.len() - i,
            {
                let ghost before = res@.map_values(|s: String| s@);
                let name = self.uid_to_id[i].1.clone();
                assert(name@ == self.all_names()[i as int]);
                res.push(name);
                assert(res@.map_values(|s: String| s@) =~= before.push(name@));
                assert(self.all_names().take(i + 1) =~= self.all_names().take(i as int).push(name@));
                i = i + 1;
            }
            assert(self.all_names().take(i as int) =~= self.all_names());
            return res;
        }
        match sfind(&self.libraries_cache, q.as_str()) {
            Some(i) => {
                proof {
                    crate::assoc::lemma_smap_at(self.libraries_cache@, i as int);
                }
                let vals = bitmap_values(&self.libraries_cache[i].1);
                let res = self.names_in(&vals);
                assert(increasing(vals@) && enumerates(vals@, self.libraries()[q@]));
                return res;
            },
            None => {},
        }
        match sfind(&self.filters_cache, q.as_str()) {
            Some(i) => {
                proof {
                    crate::assoc::lemma_smap_at(self.filters_cache@, i as int);
                }
                let vals = bitmap_values(&self.filters_cache[i].1);
                let res = self.names_in(&vals);
                assert(increasing(vals@) && enumerates(vals@, self.filters()[q@]));
                return res;
            },
            None => {},
        }
        match sfind(&self.shelves_cache, q.as_str()) {
            Some(i) => {
                proof {
                    crate::assoc::lemma_smap_at(self.shelves_cache@, i as int);
                }
                return self.names_in(&self.shelves_cache[i].1);
            },
            None => {},
        }
        let needle = to_lower(q.as_str());
        let ghost p = self.id_hit_fn(needle@);
        let ghost all = self.all_names();
        let mut res: Vec<String> = Vec::new();
        let mut i: usize = 0;
        while i < self.uid_to_id.len()
            invariant
                self.wf(),
                0 <= i <= self.uid_to_id@.len(),
                all == self.all_names(),
                all.len() == self.uid_to_id@.len(),
                p == self.id_hit_fn(needle@),
                res@.map_values(|s: String| s@) == all.take(i as int).filter(p),
            decreases self.uid_to_id@.len() - i,
        {
            let id = &self.uid_to_id[i].1;
            let ghost before = res@.map_values(|s: String| s@);
            proof {
                reveal(Seq::filter);
                assert(all.take(i + 1).drop_last() =~= all.take(i as int));
                assert(all.take(i + 1).last() == id@);
            }
            let matched = match self.album_of_id(id.as_str()) {
                Some(album) => {
                    let lid = to_lower(id.as_str());
                    text_contains(lid.as_str(), needle.as_str()) || LogicEngine::summary_hit(album, needle.as_str())
                },
                None => false,
            };
            assert(matched == p(id@));
            if matched {
                res.push(id.clone());
                assert(res@.map_values(|s: String| s@) =~= before.push(id@));
            }
            i = i + 1;
        }
        proof {
            assert(all.take(i as int) =~= all);
        }
        res
    }

    /// Sets a shelf from the text of its file: each line names an album by
    /// id; blank lines, lines starting with `#` and ids without a handle
    /// are skipped.
    pub fn load_shelf(&mut self, key: &str, content: &str)
        requires
            old(self).wf(),
        ensures
            final(self).wf(),
            final(self).shelves() == old(self).shelves().insert(
                key@,
                shelf_lines(content@).filter_map(
                    |l: Seq<char>|
                        if old(self).handles().contains_key(l) {
                            Some(old(self).handles()[l])
                        } else {
                            None
                        },
                ),
            ),
            final(self).unchanged_but_shelves(*old(self)),
    {
        let ghost pre = *self;
        let chars = chars_of(content);
        let parts = split_chars(chars.as_slice(), '\n');
        let ghost sp = split(content@, '\n');
        let ghost trimmed = sp.map_values(|l: Seq<char>| trim(l));
        let ghost keep = |l: Seq<char>| l.len() > 0 && l[0] != '#';
        let ghost look = |l: Seq<char>|
            if pre.handles().contains_key(l) {
                Some(pre.handles()[l])
            } else {
                None
            };
        let mut uids: Vec<u32> = Vec::new();
        let mut i: usize = 0;
        while i < parts.len()
            invariant
                self.wf(),
                *self == pre,
                0 <= i <= parts@.len(),
                parts@.len() == sp.len(),
                forall|k: int| 0 <= k < parts@.len() ==> (#[trigger] parts@[k])@ == sp[k],
                trimmed == sp.map_values(|l: Seq<char>| trim(l)),
                keep == (|l: Seq<char>| l.len() > 0 && l[0] != '#'),
                look == (|l: Seq<char>|
                    if pre.handles().contains_key(l) {
                        Some(pre.handles()[l])
                    } else {
                        None
                    }),
                uids@ == trimmed.take(i as int).filter(keep).filter_map(look),
            decreases parts@.len() - i,
        {
            let line = trim_chars(parts[i].as_slice());
            proof {
                reveal(Seq::filter);
                assert(trimmed.take(i + 1).drop_last() =~= trimmed.take(i as int));
                assert(trimmed.take(i + 1).last() == line@);
            }
            if line.len() > 0 && line[0] != '#' {
                let id = string_of(line.as_slice());
                match sfind(&self.id_to_uid, id.as_str()) {
                    Some(j) => {
                        proof {
                            crate::assoc::lemma_smap_at(self.id_to_uid@, j as int);
                            assert(trimmed.take(i + 1).filter(keep) == trimmed.take(i as int).filter(keep).push(line@));
                            assert(trimmed.take(i as int).filter(keep).push(line@).drop_last() =~= trimmed.take(i as int).filter(keep));
                        }
                        uids.push(self.id_to_uid[j].1);
                    },
                    None => {
                        proof {
                            assert(trimmed.take(i as int).filter(keep).push(line@).drop_last() =~= trimmed.take(i as int).filter(keep));
                        }
                    },
                }
            }
            i = i + 1;
        }
        proof {
            assert(trimmed.take(i as int) =~= trimmed);
        }
        let ghost uv = uids@;
        crate::derive::put_list(&mut self.shelves_cache, str_to_string(key), uids);
        proof {
            assert(self.shelves() =~= pre.shelves().insert(key@, uv));
            assert(self.names() == pre.names());
            assert(self.handles() == pre.handles());
            assert(self.evaluated() == pre.evaluated());
        }
    }

    /// All tables but the shelves are those of `other`.
    pub open spec fn unchanged_but_shelves(self, other: Self) -> bool {
        &&& self.same_summaries(other)
        &&& self.names() == other.names()
        &&& self.handles() == other.handles()
        &&& self.next() == other.next()
        &&& self.locks() == other.locks()
        &&& self.evaluated() == other.evaluated()
        &&& self.results() == other.results()
        &&& self.libraries() == other.libraries()
        &&& self.filters() == other.filters()
        &&& self.facets() == other.facets()
        &&& self.orders() == other.orders()
    }

    /// Sets the list of a shelf, as ordered by the caller.
    pub fn set_shelf(&mut self, key: &str, uids: Vec<u32>)
        requires
            old(self).wf(),
        ensures
            final(self).wf(),
            final(self).shelves() == old(self).shelves().insert(key@, uids@),
            final(self).unchanged_but_shelves(*old(self)),
    {
        let ghost pre = *self;
        crate::derive::put_list(&mut self.shelves_cache, str_to_string(key), uids);
        proof {
            assert(self.names() == pre.names());
            assert(self.handles() == pre.handles());
            assert(self.evaluated() == pre.evaluated());
        }
    }

    /// Sets the list of an order, as ordered by the caller, when it holds
    /// every album that has a logic result exactly once; returns whether it
    /// did, and leaves the orders as they were otherwise.
    pub fn set_order(&mut self, key: &str, uids: Vec<u32>) -> (r: bool)
        requires
            old(self).wf(),
        ensures
            final(self).wf(),
            r == holds_each_once(uids@, old(self).result_handle_seq()),
            r ==> final(self).orders() == old(self).orders().insert(key@, uids@),
            !r ==> final(self).orders() == old(self).orders(),
            old(self).orders_hold_each_once() ==> final(self).orders_hold_each_once(),
            final(self).shelves() == old(self).shelves(),
            final(self).same_summaries(*old(self)),
            final(self).names() == old(self).names(),
            final(self).handles() == old(self).handles(),
            final(self).next() == old(self).next(),
            final(self).locks() == old(self).locks(),
            final(self).evaluated() == old(self).evaluated(),
            final(self).results() == old(self).results(),
            final(self).libraries() == old(self).libraries(),
            final(self).filters() == old(self).filters(),
            final(self).facets() == old(self).facets(),
    {
        let hs = self.result_handles();
        if !is_each_once(&uids, &hs) {
            return false;
        }
        let ghost pre = *self;
        crate::derive::put_list(&mut self.orders_cache, str_to_string(key), uids);
        proof {
            assert(self.names() == pre.names());
            assert(self.handles() == pre.handles());
            assert(self.evaluated() == pre.evaluated());
            assert(self.result_handle_seq() == pre.result_handle_seq());
            assert(self.orders() == pre.orders().insert(key@, uids@));
            if pre.orders_hold_each_once() {
                assert forall|k: Seq<char>| #[trigger] self.orders().contains_key(k) implies holds_each_once(
                    self.orders()[k],
                    self.result_handle_seq(),
                ) by {
                    if k != key@ {
                        assert(pre.orders().contains_key(k));
                    }
                }
            }
        }
        true
    }

    /// The handles that have a logic result, in the order kept.
    pub fn result_handles(&self) -> (r: Vec<u32>)
        ensures
            r@ == self.results().map_values(|e: (u32, JsonV)| e.0),
    {
        let mut r: Vec<u32> = Vec::new();
        let mut i: usize = 0;
        while i < self.evaluated_logic.len()
            invariant
                0 <= i <= self.evaluated_logic@.len(),
                r@ == self.results().map_values(|e: (u32, JsonV)| e.0).take(i as int),
            decreases self.evaluated_logic@.len() - i,
        {
            r.push(self.evaluated_logic[i].0);
            i = i + 1;
            assert(r@ =~= self.results().map_values(|e: (u32, JsonV)| e.0).take(i as int));
        }
        assert(r@ =~= self.results().map_values(|e: (u32, JsonV)| e.0));
        r
    }

    /// The logic result of handle `uid`.
    pub fn result_of(&self, uid: u32) -> (r: Option<&Json>)
        requires
            self.wf(),
        ensures
            match r {
                Some(x) => self.evaluated().contains_key(uid) && self.evaluated()[uid] == x@,
                None => !self.evaluated().contains_key(uid),
            },
    {
        match ufind(&self.evaluated_logic, uid) {
            Some(i) => {
                proof {
                    crate::assoc::lemma_umap_at(self.evaluated_logic@, i as int);
                }
                Some(&self.evaluated_logic[i].1)
            },
            None => None,
        }
    }

    /// The handles of a shelf, when the shelf is known.
    pub fn shelf_handles(&self, key: &str) -> (r: Option<Vec<u32>>)
        requires
            self.wf(),
        ensures
            match r {
                Some(l) => self.shelves().contains_key(key@) && self.shelves()[key@] == l@,
                None => !self.shelves().contains_key(key@),
            },
    {
        match sfind(&self.shelves_cache, key) {
            Some(i) => {
                proof {
                    crate::assoc::lemma_smap_at(self.shelves_cache@, i as int);
                }
                Some(self.shelves_cache[i].1.clone())
            },
            None => None,
        }
    }

    /// The summary of album `id`.
    pub fn album(&self, id: &str) -> (r: Option<&Json>)
        requires
            self.wf(),
        ensures
            match r {
                Some(a) => self.albums().contains_key(id@) && self.albums()[id@] == a@,
                None => !self.albums().contains_key(id@),
            },
    {
        self.album_of_id(id)
    }

    /// The summary of the track at `path`.
    pub fn track(&self, path: &str) -> (r: Option<&Json>)
        requires
            self.wf(),
        ensures
            match r {
                Some(t) => self.tracks().contains_key(path@) && self.tracks()[path@] == t@,
                None => !self.tracks().contains_key(path@),
            },
    {
        match sfind(&self.track_lookup, path) {
            Some(i) => {
                proof {
                    crate::assoc::lemma_smap_at(self.track_lookup@, i as int);
                }
                Some(&self.track_lookup[i].1)
            },
            None => None,
        }
    }

    /// The album that the file at `path` (relative to the library root,
    /// without a leading slash) belongs to.
    pub fn album_of_path(&self, path: &str) -> (r: Option<&String>)
        requires
            self.wf(),
        ensures
            match r {
                Some(a) => self.paths().contains_key(path@) && self.paths()[path@] == a@,
                None => !self.paths().contains_key(path@),
            },
    {
        match sfind(&self.path_lookup, path) {
            Some(i) => {
                proof {
                    crate::assoc::lemma_smap_at(self.path_lookup@, i as int);
                }
                Some(&self.path_lookup[i].1)
            },
            None => None,
        }
    }

    /// The album id registered under handle `uid`.
    pub fn album_id_of(&self, uid: u32) -> (r: Option<&String>)
        requires
            self.wf(),
        ensures
            match r {
                Some(a) => self.names().contains_key(uid) && self.names()[uid] == a@,
                None => !self.names().contains_key(uid),
            },
    {
        match ufind(&self.uid_to_id, uid) {
            Some(i) => {
                proof {
                    crate::assoc::lemma_umap_at(self.uid_to_id@, i as int);
                }
                Some(&self.uid_to_id[i].1)
            },
            None => None,
        }
    }

    /// The summaries of all albums, each album id once.
    pub fn album_summaries(&self) -> (r: Vec<(String, Json)>)
        requires
            self.wf(),
        ensures
            distinct(skeys(r@)),
            smap(r@).map_values(|j: Json| j@) == self.albums(),
    {
        let r = crate::json::dup_entries(&self.dict);
        proof {
            lemma_smap_copy(r@, self.dict@);
        }
        r
    }

    /// The summaries of all tracks, each track path once.
    pub fn track_summaries(&self) -> (r: Vec<(String, Json)>)
        requires
            self.wf(),
        ensures
            distinct(skeys(r@)),
            smap(r@).map_values(|j: Json| j@) == self.tracks(),
    {
        let r = crate::json::dup_entries(&self.track_lookup);
        proof {
            lemma_smap_copy(r@, self.track_lookup@);
        }
        r
    }

    /// The handle the next album ingested will get; `ingest` asks that it
    /// is below `u32::MAX`.
    pub fn next_handle(&self) -> (r: u32)
        ensures
            r == self.next(),
    {
        self.next_uid
    }
}

impl LogicEngine {
    proof fn lemma_results(&self)
        requires
            self.wf(),
        ensures
            forall|i: int| 0 <= i < self.results().len() ==> self.evaluated().contains_key(
                #[trigger] self.results()[i].0,
            ) && self.evaluated()[self.results()[i].0] == self.results()[i].1,
            forall|u: u32| #[trigger] self.evaluated().contains_key(u) ==> exists|i: int|
                0 <= i < self.results().len() && self.results()[i].0 == u,
    {
        assert forall|i: int| 0 <= i < self.results().len() implies self.evaluated().contains_key(
            #[trigger] self.results()[i].0,
        ) && self.evaluated()[self.results()[i].0] == self.results()[i].1 by {
            crate::assoc::lemma_umap_at(self.evaluated_logic@, i);
        }
        assert forall|u: u32| #[trigger] self.evaluated().contains_key(u) implies exists|i: int|
            0 <= i < self.results().len() && self.results()[i].0 == u by {
            let i = crate::assoc::upos(self.evaluated_logic@, u);
            assert(self.results()[i].0 == u);
        }
    }

    /// After `build_cache`, an album belongs to a library (or a filter)
    /// exactly when its logic result marks that library (or filter) `true`:
    /// the table built from the results in order holds `u` under `name`
    /// if and only if the result of `u` marks `name` in section `key`.
    pub proof fn law_section_membership(&self, key: Seq<char>, name: Seq<char>, u: u32)
        requires
            self.wf(),
        ensures
            bset(member_table(self.results(), key), name).contains(u) <==> self.evaluated().contains_key(
                u,
            ) && marked(self.evaluated()[u], key, name),
    {
        self.lemma_results();
        lemma_member_table(self.results(), key, name, u);
        let rs = self.results();
        if self.evaluated().contains_key(u) && marked(self.evaluated()[u], key, name) {
            let i = choose|i: int| 0 <= i < rs.len() && rs[i].0 == u;
            assert(rs[i].0 == u && marked(rs[i].1, key, name));
        }
    }

    /// Reading an album's lock text back right after ingesting it gives the
    /// text that was ingested.
    pub proof fn law_read_after_ingest(before: Self, after: Self, id: Seq<char>, text: Seq<char>)
        requires
            after.locks() == before.locks().insert(id, text),
        ensures
            after.locks().contains_key(id),
            after.locks()[id] == text,
    {
    }

    /// Removing an album right after ingesting it leaves the lock, summary
    /// and handle-by-id tables as they were before, less that album.
    pub proof fn law_remove_after_ingest(a: Self, b: Self, c: Self, id: Seq<char>, text: Seq<char>)
        requires
            b.locks() == a.locks().insert(id, text),
            b.handles() == a.handles().insert(id, a.next()),
            b.albums() == a.albums() || exists|s: JsonV| b.albums() == a.albums().insert(id, s),
            c.locks() == b.locks().remove(id),
            c.handles() == b.handles().remove(id),
            c.albums() == b.albums().remove(id),
        ensures
            c.locks() == a.locks().remove(id),
            c.handles() == a.handles().remove(id),
            c.albums() == a.albums().remove(id),
            !c.locks().contains_key(id),
    {
        assert(c.locks() =~= a.locks().remove(id));
        assert(c.handles() =~= a.handles().remove(id));
        if b.albums() == a.albums() {
            assert(c.albums() =~= a.albums().remove(id));
        } else {
            let s = choose|s: JsonV| b.albums() == a.albums().insert(id, s);
            assert(c.albums() =~= a.albums().remove(id));
        }
    }

    /// The handle the next ingest hands out is not in use, and every handle
    /// in use was handed out before it.
    pub proof fn law_fresh_handle(&self)
        requires
            self.wf(),
        ensures
            !self.names().contains_key(self.next()),
            forall|u: u32| #[trigger] self.names().contains_key(u) ==> u < self.next(),
            forall|id: Seq<char>| #[trigger] self.handles().contains_key(id) ==> self.handles()[id] < self.next(),
    {
    }

    /// Each id of a view is the album id of a handle of the order that the
    /// view's mask holds.
    pub proof fn law_view_members(&self, uids: Seq<u32>, mask: Set<u32>, id: Seq<char>)
        requires
            self.named(uids, mask).contains(id),
        ensures
            exists|u: u32| uids.contains(u) && mask.contains(u) && self.names().contains_key(u) && self.names()[u] == id,
    {
        uids.lemma_filter_map_contains(self.name_fn(mask), id);
        let i = choose|i: int| 0 <= i < uids.len() && self.name_fn(mask)(uids[i]) == Some(id);
        assert(uids.contains(uids[i]));
    }

    /// When an order lists every album that has a logic result once each
    /// (as `build_cache` and `set_order` leave it), the view of a library
    /// under that order, unfiltered, lists the id of every album of the
    /// library that has a logic result; `law_view_members` gives the
    /// converse, that it lists nothing else.
    pub proof fn law_view_lists_library(&self, library: Seq<char>, order: Seq<char>, u: u32)
        requires
            self.orders().contains_key(order),
            holds_each_once(self.orders()[order], self.result_handle_seq()),
            self.result_handle_seq().contains(u),
            bset(self.libraries(), library).contains(u),
            self.names().contains_key(u),
        ensures
            self.named(self.order_of(order), self.view_mask(library, None, None, None)).contains(self.names()[u]),
    {
        let os = self.order_of(order);
        let mask = self.view_mask(library, None, None, None);
        assert(os.contains(u));
        let i = choose|i: int| 0 <= i < os.len() && os[i] == u;
        assert(self.name_fn(mask)(os[i]) == Some(self.names()[u]));
        lemma_filter_map_has(os, self.name_fn(mask), i);
    }

    /// Once the tables are rebuilt from the logic results (as `build_cache`
    /// leaves them), an album that has one handle and a logic result shows
    /// in the unfiltered view of a library under a known order exactly when
    /// its result marks that library `true`.
    pub proof fn law_cached_view_membership(&self, library: Seq<char>, order: Seq<char>, id: Seq<char>)
        requires
            self.wf(),
            self.libraries() == member_table(self.results(), "libraries"@),
            self.orders_hold_each_once(),
            self.orders().contains_key(order),
            self.handles().contains_key(id),
            self.evaluated().contains_key(self.handles()[id]),
            forall|u: u32| #[trigger] self.names().contains_key(u) && self.names()[u] == id ==> u == self.handles()[id],
        ensures
            self.named(self.order_of(order), self.view_mask(library, None, None, None)).contains(id)
                <==> marked(self.evaluated()[self.handles()[id]], "libraries"@, library),
    {
        let h = self.handles()[id];
        let mask = self.view_mask(library, None, None, None);
        assert(mask == bset(self.libraries(), library));
        self.law_section_membership("libraries"@, library, h);
        if self.named(self.order_of(order), mask).contains(id) {
            self.law_view_members(self.order_of(order), mask, id);
            let u = choose|u: u32|
                self.order_of(order).contains(u) && mask.contains(u) && self.names().contains_key(u) && self.names()[u] == id;
            assert(u == h);
        }
        if marked(self.evaluated()[h], "libraries"@, library) {
            self.lemma_results();
            let i = choose|i: int| 0 <= i < self.results().len() && self.results()[i].0 == h;
            assert(self.result_handle_seq()[i] == h);
            assert(self.result_handle_seq().contains(h));
            self.law_view_lists_library(library, order, h);
        }
    }

    /// Whether album `id` is summarised and its title or album artist,
    /// lowered, contains `needle`.
    pub open spec fn album_hit(&self, id: Seq<char>, needle: Seq<char>) -> bool {
        &&& self.albums().contains_key(id)
        &&& (contains_text(lower(text_at(self.albums()[id], "album"@)), needle) || contains_text(
            lower(text_at(self.albums()[id], "albumartist"@)),
            needle,
        ))
    }

    /// Narrowing the mask by a test on handles that agrees with a test on
    /// the ids they name narrows the named list by the test on ids.
    proof fn lemma_named_narrowed(
        &self,
        uids: Seq<u32>,
        mask: Set<u32>,
        p: spec_fn(u32) -> bool,
        q: spec_fn(Seq<char>) -> bool,
    )
        requires
            forall|u: u32| #[trigger] self.names().contains_key(u) ==> p(u) == q(self.names()[u]),
        ensures
            self.named(uids, mask.filter(p)) == self.named(uids, mask).filter(q),
        decreases uids.len(),
    {
        let narrow = mask.filter(p);
        if uids.len() == 0 {
            assert(self.named(uids, narrow) == Seq::<Seq<char>>::empty());
            assert(self.named(uids, mask) == Seq::<Seq<char>>::empty());
            assert(Seq::<Seq<char>>::empty().filter(q).len() == 0) by {
                reveal(Seq::filter);
            }
            assert(self.named(uids, mask).filter(q) =~= Seq::<Seq<char>>::empty());
        } else {
            let rest = uids.drop_last();
            let x = uids.last();
            self.lemma_named_narrowed(rest, mask, p, q);
            let wide = rest.filter_map(self.name_fn(mask));
            if mask.contains(x) && self.names().contains_key(x) {
                assert(self.named(uids, mask) == wide + seq![self.names()[x]]);
                assert(wide + seq![self.names()[x]] == wide.push(self.names()[x]));
                wide.lemma_filter_push(self.names()[x], q);
            } else {
                assert(self.named(uids, mask) == wide);
            }
        }
    }

    /// How the filter of a view narrows the unfiltered view under the same
    /// order and the same direction: a search keeps, in order, the albums
    /// whose title or album artist, lowered, contains the lowered text; a
    /// facet value that the grouper lacks keeps none; a key that is neither
    /// keeps all.  (`request_view` answers `arranged` of the named list.)
    pub proof fn law_view_filters(
        &self,
        library: Seq<char>,
        library_filter: Option<Seq<char>>,
        order: Seq<char>,
        key: Seq<char>,
        value: Seq<char>,
        reverse: bool,
    )
        ensures
            ({
                let base = arranged(
                    self.named(self.order_of(order), self.view_mask(library, library_filter, None, None)),
                    reverse,
                );
                let view = arranged(
                    self.named(self.order_of(order), self.view_mask(library, library_filter, Some(key), Some(value))),
                    reverse,
                );
                &&& key == "search"@ ==> view == base.filter(|id: Seq<char>| self.album_hit(id, lower(value)))
                &&& key != "search"@ && self.facets().contains_key(key) && !self.facets()[key].contains_key(value)
                    ==> view.len() == 0
                &&& key != "search"@ && !self.facets().contains_key(key) ==> view == base
            }),
    {
        let uids = self.order_of(order);
        let m = self.library_mask(library, library_filter);
        if key == "search"@ {
            let p = |u: u32| self.search_hit(u, lower(value));
            let q = |id: Seq<char>| self.album_hit(id, lower(value));
            self.lemma_named_narrowed(uids, m, p, q);
            lemma_filter_reverse(self.named(uids, m), q);
        } else if self.facets().contains_key(key) && !self.facets()[key].contains_key(value) {
            let p = |u: u32| false;
            let q = |id: Seq<char>| false;
            self.lemma_named_narrowed(uids, m, p, q);
            assert(m.filter(p) =~= Set::empty());
            let base = self.named(uids, m);
            if base.filter(q).len() > 0 {
                base.lemma_filter_pred(q, 0);
            }
        }
    }

    /// The groups of a grouper view are exactly its candidate rows,
    /// reordered.
    pub proof fn law_group_is_permutation(&self, library: Seq<char>, library_filter: Option<Seq<char>>, grouper: Seq<char>)
        ensures
            ({
                let keyed = self.group_rows(library, library_filter, grouper).map_values(
                    |e: (Seq<char>, u64)| (lower(e.0), e),
                );
                sort_by_key(keyed).to_multiset() == keyed.to_multiset()
            }),
    {
        let keyed = self.group_rows(library, library_filter, grouper).map_values(
            |e: (Seq<char>, u64)| (lower(e.0), e),
        );
        lemma_sort_by_key_multiset(keyed);
    }

    /// A query and the same query trimmed find the same albums.
    pub proof fn law_find_trims(&self, q: Seq<char>, r: Seq<Seq<char>>)
        ensures
            self.find_answer(trim(trim(q)), r) == self.find_answer(trim(q), r),
    {
        crate::text::lemma_trim_idempotent(q);
    }

    /// The empty query lists the album id of every handle, and nothing else.
    pub proof fn law_all_names(&self, id: Seq<char>)
        requires
            self.wf(),
        ensures
            self.all_names().contains(id) <==> exists|u: u32| #[trigger] self.names().contains_key(u) && self.names()[u] == id,
    {
        let v = self.uid_to_id@;
        if self.all_names().contains(id) {
            let i = choose|i: int| 0 <= i < self.all_names().len() && self.all_names()[i] == id;
            crate::assoc::lemma_umap_at(v, i);
            assert(self.names().contains_key(v[i].0));
        }
        if exists|u: u32| #[trigger] self.names().contains_key(u) && self.names()[u] == id {
            let u = choose|u: u32| #[trigger] self.names().contains_key(u) && self.names()[u] == id;
            let i = crate::assoc::upos(v, u);
            crate::assoc::lemma_umap_at(v, i);
            assert(self.all_names()[i] == id);
        }
    }

    /// Once an album that held one handle is removed, no view, shelf view or
    /// query answer lists it: no list of handles names it under any mask,
    /// and the list of every album no longer holds it.
    pub proof fn law_removed_is_unnamed(a: Self, c: Self, id: Seq<char>, uids: Seq<u32>, mask: Set<u32>)
        requires
            c.wf(),
            forall|u: u32| #[trigger] a.names().contains_key(u) && a.names()[u] == id ==> a.handles().get(id) == Some(u),
            c.names() == remove_opt(a.names(), a.handles().get(id)),
        ensures
            !c.named(uids, mask).contains(id),
            !c.all_names().contains(id),
    {
        if c.named(uids, mask).contains(id) {
            c.law_view_members(uids, mask, id);
            let u = choose|u: u32| uids.contains(u) && mask.contains(u) && c.names().contains_key(u) && c.names()[u] == id;
            assert(a.names().contains_key(u) && a.names()[u] == id);
        }
        c.law_all_names(id);
        if c.all_names().contains(id) {
            let u = choose|u: u32| #[trigger] c.names().contains_key(u) && c.names()[u] == id;
            assert(a.names().contains_key(u) && a.names()[u] == id);
        }
    }

    /// Once an album is removed, no path and no track summary names it.
    pub proof fn law_remove_forgets_tracks(a: Self, c: Self, id: Seq<char>)
        requires
            c.paths() == drop_album_paths(a.paths(), id),
            c.tracks() == drop_album_tracks(a.tracks(), id),
        ensures
            forall|p: Seq<char>| #[trigger] c.paths().contains_key(p) ==> c.paths()[p] != id,
            forall|p: Seq<char>| #[trigger] c.tracks().contains_key(p) ==> track_album(c.tracks()[p]) != Some(id),
    {
    }
}

} // verus!

//! Putting an album's lock file together: the checks on its manifest, the
//! context handed to the Lua dispatcher, and the album, track and context
//! objects of the lock.  Objects list their keys in the order `serde_json`
//! keeps them (by key).
use vstd::prelude::*;
use crate::json::{Json, JsonV, jget, jstr, ju64_value};
use crate::resolve::{duration_text, format_ms};
use crate::text::{dec, str_to_string};
use crate::targets::jopt;
use crate::cache::{sum_u64, total};

verus! {

/// A JSON number for an unsigned integer, by its view.
pub open spec fn num(n: u64) -> JsonV {
    JsonV::Number(
        dec(n as nat),
        if n <= i64::MAX as u64 {
            Some(n as i64)
        } else {
            None
        },
        Some(n),
    )
}

/// An object of the entries given, in order.
pub fn object(entries: Vec<(String, Json)>) -> (r: Json)
    ensures
        r@ == JsonV::Object(entries@.map_values(|e: (String, Json)| (e.0@, e.1@))),
{
    let r = Json::Object(entries);
    proof {
        r.lemma_object_view();
    }
    r
}

/// An array of the items given, in order.
pub fn array(items: Vec<Json>) -> (r: Json)
    ensures
        r@ == JsonV::Array(items@.map_values(|x: Json| x@)),
{
    let r = Json::Array(items);
    proof {
        r.lemma_array_view();
    }
    r
}

fn entry(k: &str, v: Json) -> (r: (String, Json))
    ensures
        r.0@ == k@,
        r.1@ == v@,
{
    (str_to_string(k), v)
}

fn text(s: &str) -> (r: Json)
    ensures
        r@ == JsonV::Str(s@),
{
    Json::Str(str_to_string(s))
}

fn empty_object() -> (r: Json)
    ensures
        r@ == JsonV::Object(Seq::empty()),
{
    let e: Vec<(String, Json)> = Vec::new();
    let r = object(e);
    assert(e@.map_values(|e: (String, Json)| (e.0@, e.1@)) =~= Seq::<(Seq<char>, JsonV)>::empty());
    r
}

/// The ways building a lock file fails here.
pub enum BuildError {
    /// A physical album whose audio files and listed tracks differ in number.
    PhysicalInventoryMismatch { path: String, files_count: usize, tracks_count: usize },
    /// A value of the manifest that is missing or of the wrong kind.
    TypeMismatch { path: String, key: String, expected_type: String, found_val: String },
    /// The album has no `metadata` manifest.
    MissingPrimaryManifest { path: String },
    /// The `metadata` manifest has no list of tracks.
    MissingTracksBlock { path: String },
}

/// What building an album starts from: its audio files, in the order
/// scanned, and the library root it lies under.
pub struct PreparedContext {
    pub audio_files: Vec<String>,
    pub library_root: String,
}

/// The tracks the `metadata` manifest lists, when it lists them.
pub open spec fn primary_tracks_of(manifests: JsonV) -> Option<Seq<JsonV>> {
    match jget(manifests, "metadata"@) {
        Some(m) => match jget(m, "tracks"@) {
            Some(JsonV::Array(ts)) => Some(ts),
            _ => None,
        },
        None => None,
    }
}

/// The `metadata` manifest among an album's parsed manifests, and the
/// tracks it lists: an album without that manifest, or whose manifest
/// lists no tracks, is refused.
pub fn primary_manifest<'a>(manifests: &'a Json, album_root: &str) -> (r: Result<(&'a Json, &'a Vec<Json>), BuildError>)
    ensures
        match r {
            Ok((m, ts)) => jget(manifests@, "metadata"@) == Some(m@) && primary_tracks_of(manifests@) == Some(
                ts@.map_values(|x: Json| x@),
            ),
            Err(BuildError::MissingPrimaryManifest { path }) => path@ == album_root@ && jget(
                manifests@,
                "metadata"@,
            ) is None,
            Err(BuildError::MissingTracksBlock { path }) => path@ == album_root@ && jget(manifests@, "metadata"@) is Some
                && primary_tracks_of(manifests@) is None,
            Err(_) => false,
        },
{
    let m = match manifests.get("metadata") {
        Some(m) => m,
        None => return Err(BuildError::MissingPrimaryManifest { path: str_to_string(album_root) }),
    };
    match m.get("tracks") {
        Some(t) => match t.as_array() {
            Some(ts) => Ok((m, ts)),
            None => Err(BuildError::MissingTracksBlock { path: str_to_string(album_root) }),
        },
        None => Err(BuildError::MissingTracksBlock { path: str_to_string(album_root) }),
    }
}

/// A physical album must have as many audio files as its manifest lists
/// tracks; a virtual one has none to count.
pub fn check_inventory(album_root: &str, is_virtual: bool, files_count: usize, tracks_count: usize) -> (r: Result<(), BuildError>)
    ensures
        r is Ok <==> (is_virtual || files_count == tracks_count),
        r matches Err(BuildError::PhysicalInventoryMismatch { path, files_count: f, tracks_count: t }) ==> path@
            == album_root@ && f == files_count && t == tracks_count,
        r matches Err(e) ==> e is PhysicalInventoryMismatch,
{
    if !is_virtual && files_count != tracks_count {
        Err(BuildError::PhysicalInventoryMismatch { path: str_to_string(album_root), files_count, tracks_count })
    } else {
        Ok(())
    }
}

/// A mandatory album field: a non-empty string as it is, a number as its
/// text; anything else is missing.
pub open spec fn album_field(album: JsonV, key: Seq<char>) -> Option<Seq<char>> {
    match jget(album, key) {
        Some(JsonV::Str(s)) => if s.len() > 0 {
            Some(s)
        } else {
            None
        },
        Some(JsonV::Number(t, _, _)) => Some(t),
        _ => None,
    }
}

fn album_field_of(album: &Json, key: &str) -> (r: Option<String>)
    ensures
        match r {
            Some(s) => album_field(album@, key@) == Some(s@),
            None => album_field(album@, key@) is None,
        },
{
    match album.get(key) {
        Some(Json::Str(s)) => {
            if !s.as_str().is_empty() {
                Some(s.clone())
            } else {
                None
            }
        },
        Some(Json::Number(n)) => Some(n.text.clone()),
        _ => None,
    }
}

fn missing_field(album_root: &str, key: &str) -> (r: BuildError)
    ensures
        r matches BuildError::TypeMismatch { path, key: k, expected_type, found_val } && path@ == album_root@
            && k@ == key@ && expected_type@ == "string"@ && found_val@ == "missing or empty"@,
{
    BuildError::TypeMismatch {
        path: str_to_string(album_root),
        key: str_to_string(key),
        expected_type: str_to_string("string"),
        found_val: str_to_string("missing or empty"),
    }
}

/// The album's artist (`albumartist`, else `artist`), title and date, each
/// of which must be present.
pub fn parse_mandatory_album_fields(primary_album: &Json, album_root: &str) -> (r: Result<(String, String, String), BuildError>)
    ensures
        match r {
            Ok((artist, album, date)) => {
                &&& Some(artist@) == (match album_field(primary_album@, "albumartist"@) {
                    Some(a) => Some(a),
                    None => album_field(primary_album@, "artist"@),
                })
                &&& album_field(primary_album@, "album"@) == Some(album@)
                &&& album_field(primary_album@, "date"@) == Some(date@)
            },
            Err(e) => {
                &&& e matches BuildError::TypeMismatch { path, key, expected_type, found_val }
                &&& path@ == album_root@
                &&& expected_type@ == "string"@
                &&& found_val@ == "missing or empty"@
                &&& if album_field(primary_album@, "albumartist"@) is None && album_field(primary_album@, "artist"@) is None {
                    key@ == "artist"@
                } else if album_field(primary_album@, "album"@) is None {
                    key@ == "album"@
                } else {
                    key@ == "date"@ && album_field(primary_album@, "date"@) is None
                }
            },
        },
{
    let artist = match album_field_of(primary_album, "albumartist") {
        Some(a) => a,
        None => match album_field_of(primary_album, "artist") {
            Some(a) => a,
            None => {
                return Err(missing_field(album_root, "artist"));
            },
        },
    };
    let album = match album_field_of(primary_album, "album") {
        Some(a) => a,
        None => {
            return Err(missing_field(album_root, "album"));
        },
    };
    let date = match album_field_of(primary_album, "date") {
        Some(d) => d,
        None => {
            return Err(missing_field(album_root, "date"));
        },
    };
    Ok((artist, album, date))
}

/// The file a manifest is read from: its name with `.toml`.
pub fn manifest_file_name(name: &str) -> (r: String)
    ensures
        r@ == name@ + ".toml"@,
{
    let mut s = str_to_string(name);
    crate::text::push_str(&mut s, ".toml");
    s
}

/// The manifests recorded in the lock: each name with its file's details,
/// in the order given.
pub open spec fn manifests_view(files: Seq<(Seq<char>, JsonV)>) -> JsonV {
    JsonV::Object(files.map_values(|e: (Seq<char>, JsonV)| (e.0, JsonV::Object(seq![("file"@, e.1)]))))
}

pub fn manifests_object(files: Vec<(String, Json)>) -> (r: Json)
    ensures
        r@ == manifests_view(files@.map_values(|e: (String, Json)| (e.0@, e.1@))),
{
    let ghost fv = files@.map_values(|e: (String, Json)| (e.0@, e.1@));
    let ghost target = fv.map_values(|e: (Seq<char>, JsonV)| (e.0, JsonV::Object(seq![("file"@, e.1)])));
    let mut rest = files;
    let mut out: Vec<(String, Json)> = Vec::new();
    let ghost mut i: int = 0;
    while rest.len() > 0
        invariant
            0 <= i <= fv.len(),
            rest@.map_values(|e: (String, Json)| (e.0@, e.1@)) == fv.skip(i),
            target == fv.map_values(|e: (Seq<char>, JsonV)| (e.0, JsonV::Object(seq![("file"@, e.1)]))),
            out@.map_values(|e: (String, Json)| (e.0@, e.1@)) == target.take(i),
        decreases rest@.len(),
    {
        let ghost rv = rest@.map_values(|e: (String, Json)| (e.0@, e.1@));
        assert(rv.len() == fv.len() - i);
        let (k, v) = rest.remove(0);
        assert(rest@.map_values(|e: (String, Json)| (e.0@, e.1@)) =~= rv.skip(1));
        assert(rv.skip(1) =~= fv.skip(i + 1));
        assert(fv[i] == (k@, v@)) by {
            assert(rv[0] == fv.skip(i)[0]);
        }
        let mut inner: Vec<(String, Json)> = Vec::new();
        inner.push(entry("file", v));
        let ghost iv = inner@;
        let o = object(inner);
        assert(iv.map_values(|e: (String, Json)| (e.0@, e.1@)) =~= seq![("file"@, fv[i].1)]);
        let ghost before = out@.map_values(|e: (String, Json)| (e.0@, e.1@));
        out.push((k, o));
        proof {
            assert(out@.map_values(|e: (String, Json)| (e.0@, e.1@)) =~= before.push(target[i]));
            assert(target.take(i + 1) =~= target.take(i).push(target[i]));
            i = i + 1;
        }
    }
    assert(target.take(i) =~= target);
    let r = object(out);
    r
}

/// The context of a track of a virtual album: no file, nothing measured.
pub open spec fn virtual_track_view() -> JsonV {
    JsonV::Object(
        seq![
            ("bitrate_kbps"@, num(0)),
            ("bits_per_sample"@, num(0)),
            ("channels"@, num(0)),
            ("duration_milliseconds"@, num(0)),
            ("embedded"@, JsonV::Object(Seq::empty())),
            ("encoding"@, JsonV::Str(Seq::empty())),
            ("file"@, JsonV::Object(
                seq![("byte_size"@, num(0)), ("mtime"@, num(0)), ("path"@, JsonV::Str(Seq::empty()))],
            )),
            ("sample_rate"@, num(0)),
        ],
    )
}

pub fn virtual_ctx_track() -> (r: Json)
    ensures
        r@ == virtual_track_view(),
{
    proof {
        reveal_strlit("");
        assert(""@ =~= Seq::<char>::empty());
    }
    let mut file: Vec<(String, Json)> = Vec::new();
    file.push(entry("byte_size", ju64_value(0)));
    file.push(entry("mtime", ju64_value(0)));
    file.push(entry("path", text("")));
    let ghost fv = file@;
    let file_json = object(file);
    assert(fv.map_values(|e: (String, Json)| (e.0@, e.1@)) =~= seq![
        ("byte_size"@, num(0)),
        ("mtime"@, num(0)),
        ("path"@, JsonV::Str(Seq::empty())),
    ]);
    let mut es: Vec<(String, Json)> = Vec::new();
    es.push(entry("bitrate_kbps", ju64_value(0)));
    es.push(entry("bits_per_sample", ju64_value(0)));
    es.push(entry("channels", ju64_value(0)));
    es.push(entry("duration_milliseconds", ju64_value(0)));
    es.push(entry("embedded", empty_object()));
    es.push(entry("encoding", text("")));
    es.push(entry("file", file_json));
    es.push(entry("sample_rate", ju64_value(0)));
    let ghost ev = es@;
    let r = object(es);
    assert(ev.map_values(|e: (String, Json)| (e.0@, e.1@)) =~= virtual_track_view()->Object_0);
    r
}

/// What the harvest of one audio file gives the context of its track.
pub struct Harvested {
    pub sample_rate: Json,
    pub bits_per_sample: Json,
    pub bitrate_kbps: Json,
    pub encoding: Json,
    pub channels: Json,
    pub duration_milliseconds: Json,
    pub file: Json,
    pub embedded: Json,
}

pub open spec fn harvested_view(h: Harvested) -> JsonV {
    JsonV::Object(
        seq![
            ("bitrate_kbps"@, h.bitrate_kbps@),
            ("bits_per_sample"@, h.bits_per_sample@),
            ("channels"@, h.channels@),
            ("duration_milliseconds"@, h.duration_milliseconds@),
            ("embedded"@, h.embedded@),
            ("encoding"@, h.encoding@),
            ("file"@, h.file@),
            ("sample_rate"@, h.sample_rate@),
        ],
    )
}

/// The context of a track of a physical album, from its file's harvest.
pub fn ctx_track(h: Harvested) -> (r: Json)
    ensures
        r@ == harvested_view(h),
{
    let ghost hv = harvested_view(h);
    let mut es: Vec<(String, Json)> = Vec::new();
    es.push(entry("bitrate_kbps", h.bitrate_kbps));
    es.push(entry("bits_per_sample", h.bits_per_sample));
    es.push(entry("channels", h.channels));
    es.push(entry("duration_milliseconds", h.duration_milliseconds));
    es.push(entry("embedded", h.embedded));
    es.push(entry("encoding", h.encoding));
    es.push(entry("file", h.file));
    es.push(entry("sample_rate", h.sample_rate));
    let ghost ev = es@;
    let r = object(es);
    assert(ev.map_values(|e: (String, Json)| (e.0@, e.1@)) =~= hv->Object_0);
    r
}

/// The context handed to the Lua dispatcher.
pub open spec fn ctx_view(
    config: JsonV,
    id: Seq<char>,
    total_discs: u32,
    total_tracks: u32,
    duration: u64,
    cover_metrics: JsonV,
    tracks: Seq<JsonV>,
) -> JsonV {
    JsonV::Object(
        seq![
            ("config"@, config),
            ("cover_metrics"@, cover_metrics),
            ("duration_milliseconds"@, num(duration)),
            ("id"@, JsonV::Str(id)),
            ("total_discs"@, num(total_discs as u64)),
            ("total_tracks"@, num(total_tracks as u64)),
            ("tracks"@, JsonV::Array(tracks)),
        ],
    )
}

pub fn dispatch_ctx(
    config: Json,
    id: &str,
    total_discs: u32,
    total_tracks: u32,
    duration: u64,
    cover_metrics: Json,
    tracks: Vec<Json>,
) -> (r: Json)
    ensures
        r@ == ctx_view(
            config@,
            id@,
            total_discs,
            total_tracks,
            duration,
            cover_metrics@,
            tracks@.map_values(|x: Json| x@),
        ),
{
    let ghost target = ctx_view(
        config@,
        id@,
        total_discs,
        total_tracks,
        duration,
        cover_metrics@,
        tracks@.map_values(|x: Json| x@),
    );
    let mut es: Vec<(String, Json)> = Vec::new();
    es.push(entry("config", config));
    es.push(entry("cover_metrics", cover_metrics));
    es.push(entry("duration_milliseconds", ju64_value(duration)));
    es.push(entry("id", text(id)));
    es.push(entry("total_discs", ju64_value(total_discs as u64)));
    es.push(entry("total_tracks", ju64_value(total_tracks as u64)));
    es.push(entry("tracks", array(tracks)));
    let ghost ev = es@;
    let r = object(es);
    assert(ev.map_values(|e: (String, Json)| (e.0@, e.1@)) =~= target->Object_0);
    r
}

/// The album's `info`: counts, when it was added, and its length.
pub open spec fn info_view(total_discs: u32, total_tracks: u32, date_added: Seq<char>, duration: u64) -> JsonV {
    JsonV::Object(
        seq![
            ("date_added"@, JsonV::Str(date_added)),
            ("duration_formatted"@, JsonV::Str(duration_text(duration))),
            ("duration_milliseconds"@, num(duration)),
            ("total_discs"@, num(total_discs as u64)),
            ("total_tracks"@, num(total_tracks as u64)),
        ],
    )
}

/// The album's length: the sum of its tracks' lengths, in milliseconds.
pub fn album_duration(durations: &Vec<u64>) -> (r: u64)
    requires
        total(durations@) <= u64::MAX,
    ensures
        r == total(durations@),
{
    sum_u64(durations, u64::MAX)
}

pub fn info_object(total_discs: u32, total_tracks: u32, date_added: &str, duration: u64) -> (r: Json)
    ensures
        r@ == info_view(total_discs, total_tracks, date_added@, duration),
{
    let mut es: Vec<(String, Json)> = Vec::new();
    es.push(entry("date_added", text(date_added)));
    es.push(entry("duration_formatted", Json::Str(format_ms(duration))));
    es.push(entry("duration_milliseconds", ju64_value(duration)));
    es.push(entry("total_discs", ju64_value(total_discs as u64)));
    es.push(entry("total_tracks", ju64_value(total_tracks as u64)));
    let ghost ev = es@;
    let r = object(es);
    assert(ev.map_values(|e: (String, Json)| (e.0@, e.1@)) =~= info_view(
        total_discs,
        total_tracks,
        date_added@,
        duration,
    )->Object_0);
    r
}

/// The album's `covers`: its main cover's file details, or `null` without
/// a cover.
pub open spec fn covers_view(cover: JsonV) -> JsonV {
    if cover is Null {
        JsonV::Null
    } else {
        JsonV::Object(seq![("main"@, JsonV::Object(seq![("file"@, cover)]))])
    }
}

/// The album object of the lock.
pub open spec fn album_view(
    albumartist: Seq<char>,
    album: Seq<char>,
    date: Seq<char>,
    id: Seq<char>,
    keys: JsonV,
    info: JsonV,
    manifests: JsonV,
    cover: JsonV,
) -> JsonV {
    JsonV::Object(
        seq![
            ("album"@, JsonV::Str(album)),
            ("albumartist"@, JsonV::Str(albumartist)),
            ("covers"@, covers_view(cover)),
            ("date"@, JsonV::Str(date)),
            ("id"@, JsonV::Str(id)),
            ("info"@, info),
            ("keys"@, keys),
            ("manifests"@, manifests),
        ],
    )
}

pub fn album_object(
    albumartist: &str,
    album: &str,
    date: &str,
    id: &str,
    keys: Json,
    info: Json,
    manifests: Json,
    cover: Json,
) -> (r: Json)
    ensures
        r@ == album_view(albumartist@, album@, date@, id@, keys@, info@, manifests@, cover@),
{
    let ghost target = album_view(albumartist@, album@, date@, id@, keys@, info@, manifests@, cover@);
    let ghost cv = cover@;
    let covers = if cover.is_null() {
        Json::Null
    } else {
        let mut f: Vec<(String, Json)> = Vec::new();
        f.push(entry("file", cover));
        let ghost fv = f@;
        let file = object(f);
        assert(fv.map_values(|e: (String, Json)| (e.0@, e.1@)) =~= seq![("file"@, cv)]);
        let mut m: Vec<(String, Json)> = Vec::new();
        m.push(entry("main", file));
        let ghost mv = m@;
        let o = object(m);
        assert(mv.map_values(|e: (String, Json)| (e.0@, e.1@)) =~= seq![
            ("main"@, JsonV::Object(seq![("file"@, cv)])),
        ]);
        o
    };
    assert(covers@ == covers_view(cv));
    let mut es: Vec<(String, Json)> = Vec::new();
    es.push(entry("album", text(album)));
    es.push(entry("albumartist", text(albumartist)));
    es.push(entry("covers", covers));
    es.push(entry("date", text(date)));
    es.push(entry("id", text(id)));
    es.push(entry("info", info));
    es.push(entry("keys", keys));
    es.push(entry("manifests", manifests));
    let ghost ev = es@;
    let r = object(es);
    assert(ev.map_values(|e: (String, Json)| (e.0@, e.1@)) =~= target->Object_0);
    r
}

/// A value of an object, or a default when it is missing.
pub open spec fn get_or(v: JsonV, k: Seq<char>, d: JsonV) -> JsonV {
    match jget(v, k) {
        Some(x) => x,
        None => d,
    }
}

fn get_or_exec(v: &Json, k: &str, d: Json) -> (r: Json)
    ensures
        r@ == get_or(v@, k@, d@),
{
    match v.get(k) {
        Some(x) => x.dup(),
        None => d,
    }
}

/// The track's length in milliseconds as its context gives it (0 when
/// missing or not an unsigned number).
pub open spec fn ctx_duration(ctx: JsonV) -> u64 {
    match crate::json::ju64(jget(ctx, "duration_milliseconds"@)) {
        Some(n) => n,
        None => 0,
    }
}

/// The `info` of a track: what its context measured, with defaults.
pub open spec fn track_info_view(ctx: JsonV) -> JsonV {
    JsonV::Object(
        seq![
            ("bitrate_kbps"@, get_or(ctx, "bitrate_kbps"@, num(0))),
            ("bits_per_sample"@, get_or(ctx, "bits_per_sample"@, num(0))),
            ("channels"@, get_or(ctx, "channels"@, num(0))),
            ("duration_formatted"@, JsonV::Str(duration_text(ctx_duration(ctx)))),
            ("duration_milliseconds"@, get_or(ctx, "duration_milliseconds"@, num(0))),
            ("encoding"@, get_or(ctx, "encoding"@, JsonV::Str(Seq::empty()))),
            ("sample_rate"@, get_or(ctx, "sample_rate"@, num(0))),
        ],
    )
}

fn track_info(ctx: &Json) -> (r: Json)
    ensures
        r@ == track_info_view(ctx@),
{
    proof {
        reveal_strlit("");
        assert(""@ =~= Seq::<char>::empty());
    }
    let dur = match ctx.get("duration_milliseconds") {
        Some(d) => match d.as_u64() {
            Some(n) => n,
            None => 0,
        },
        None => 0,
    };
    let mut es: Vec<(String, Json)> = Vec::new();
    es.push(entry("bitrate_kbps", get_or_exec(ctx, "bitrate_kbps", ju64_value(0))));
    es.push(entry("bits_per_sample", get_or_exec(ctx, "bits_per_sample", ju64_value(0))));
    es.push(entry("channels", get_or_exec(ctx, "channels", ju64_value(0))));
    es.push(entry("duration_formatted", Json::Str(format_ms(dur))));
    es.push(entry("duration_milliseconds", get_or_exec(ctx, "duration_milliseconds", ju64_value(0))));
    es.push(entry("encoding", get_or_exec(ctx, "encoding", text(""))));
    es.push(entry("sample_rate", get_or_exec(ctx, "sample_rate", ju64_value(0))));
    let ghost ev = es@;
    let r = object(es);
    assert(ev.map_values(|e: (String, Json)| (e.0@, e.1@)) =~= track_info_view(ctx@)->Object_0);
    r
}

/// A track of the lock: its numbers, artist (the album's when it names
/// none), title, the keys the dispatcher gave it, what its context
/// measured, its file, and its lyrics file when one was found.
pub open spec fn track_view(
    disc: u32,
    track: u32,
    t: JsonV,
    albumartist: Seq<char>,
    keys: JsonV,
    ctx: JsonV,
    lyrics: Option<JsonV>,
    title: Seq<char>,
) -> JsonV {
    let artist = match jstr(jget(t, "artist"@)) {
        Some(a) => a,
        None => albumartist,
    };
    let head = seq![
        ("artist"@, JsonV::Str(artist)),
        ("discnumber"@, num(disc as u64)),
        ("file"@, get_or(ctx, "file"@, JsonV::Object(Seq::empty()))),
        ("info"@, track_info_view(ctx)),
        ("keys"@, keys),
    ];
    let tail = seq![("title"@, JsonV::Str(title)), ("tracknumber"@, num(track as u64))];
    JsonV::Object(
        match lyrics {
            Some(l) => head.push(("lyrics"@, JsonV::Object(seq![("file"@, l)]))) + tail,
            None => head + tail,
        },
    )
}

/// The keys the dispatcher returned for a track, `{}` when none.
pub open spec fn keys_or_empty(keys: Option<Json>) -> JsonV {
    match keys {
        Some(k) => k@,
        None => JsonV::Object(Seq::empty()),
    }
}

/// One track of the lock; fails when the manifest gives it no title.
/// `keys` is what the dispatcher returned for it (`{}` when nothing), and
/// `lyrics` the details of its lyrics file when one was found.
pub fn final_track(
    disc: u32,
    track: u32,
    t: &Json,
    albumartist: &str,
    keys: Option<Json>,
    ctx: &Json,
    lyrics: Option<Json>,
    album_root: &str,
) -> (r: Result<Json, BuildError>)
    ensures
        match r {
            Ok(j) => jstr(jget(t@, "title"@)) matches Some(title) && j@ == track_view(
                disc,
                track,
                t@,
                albumartist@,
                keys_or_empty(keys),
                ctx@,
                jopt(lyrics),
                title,
            ),
            Err(e) => {
                &&& jstr(jget(t@, "title"@)) is None
                &&& e matches BuildError::TypeMismatch { path, key, expected_type, found_val }
                &&& path@ == album_root@
                &&& key@ == "title"@
                &&& expected_type@ == "string"@
                &&& found_val@ == "missing"@
            },
        },
{
    let ghost kv = keys_or_empty(keys);
    let ghost lv = jopt(lyrics);
    let title = match t.get("title") {
        Some(v) => match v.as_str() {
            Some(s) => s.clone(),
            None => {
                return Err(
                    BuildError::TypeMismatch {
                        path: str_to_string(album_root),
                        key: str_to_string("title"),
                        expected_type: str_to_string("string"),
                        found_val: str_to_string("missing"),
                    },
                );
            },
        },
        None => {
            return Err(
                BuildError::TypeMismatch {
                    path: str_to_string(album_root),
                    key: str_to_string("title"),
                    expected_type: str_to_string("string"),
                    found_val: str_to_string("missing"),
                },
            );
        },
    };
    let artist = match t.get("artist") {
        Some(v) => match v.as_str() {
            Some(a) => a.clone(),
            None => str_to_string(albumartist),
        },
        None => str_to_string(albumartist),
    };
    let keys_json = match keys {
        Some(k) => k,
        None => empty_object(),
    };
    let file = match ctx.get("file") {
        Some(f) => f.dup(),
        None => empty_object(),
    };
    let ghost target = track_view(disc, track, t@, albumartist@, kv, ctx@, lv, title@);
    let mut es: Vec<(String, Json)> = Vec::new();
    es.push(entry("artist", Json::Str(artist)));
    es.push(entry("discnumber", ju64_value(disc as u64)));
    es.push(entry("file", file));
    es.push(entry("info", track_info(ctx)));
    es.push(entry("keys", keys_json));
    let ghost head = es@.map_values(|e: (String, Json)| (e.0@, e.1@));
    match lyrics {
        Some(l) => {
            let ghost lj = l@;
            let mut f: Vec<(String, Json)> = Vec::new();
            f.push(entry("file", l));
            let ghost fv = f@;
            let o = object(f);
            assert(fv.map_values(|e: (String, Json)| (e.0@, e.1@)) =~= seq![("file"@, lj)]);
            es.push(entry("lyrics", o));
        },
        None => {},
    }
    es.push(entry("title", Json::Str(title)));
    es.push(entry("tracknumber", ju64_value(track as u64)));
    let ghost ev = es@;
    let r = object(es);
    assert(ev.map_values(|e: (String, Json)| (e.0@, e.1@)) =~= target->Object_0);
    Ok(r)
}

/// The lock file's top level: the album, its tracks, and the context it was
/// built in (the harvest and the three roots).
pub open spec fn lock_view(
    album: JsonV,
    tracks: Seq<JsonV>,
    harvest: Seq<JsonV>,
    album_root: Seq<char>,
    project_root: Seq<char>,
    library_root: Seq<char>,
) -> JsonV {
    JsonV::Object(
        seq![
            ("album"@, album),
            ("ctx"@, JsonV::Object(
                seq![
                    ("harvest"@, JsonV::Array(harvest)),
                    ("paths"@, JsonV::Object(
                        seq![
                            ("album_root"@, JsonV::Str(album_root)),
                            ("library_root"@, JsonV::Str(library_root)),
                            ("project_root"@, JsonV::Str(project_root)),
                        ],
                    )),
                ],
            )),
            ("tracks"@, JsonV::Array(tracks)),
        ],
    )
}

pub fn lock_object(
    album: Json,
    tracks: Vec<Json>,
    harvest: Vec<Json>,
    album_root: &str,
    project_root: &str,
    library_root: &str,
) -> (r: Json)
    ensures
        r@ == lock_view(
            album@,
            tracks@.map_values(|x: Json| x@),
            harvest@.map_values(|x: Json| x@),
            album_root@,
            project_root@,
            library_root@,
        ),
{
    let ghost target = lock_view(
        album@,
        tracks@.map_values(|x: Json| x@),
        harvest@.map_values(|x: Json| x@),
        album_root@,
        project_root@,
        library_root@,
    );
    let mut p: Vec<(String, Json)> = Vec::new();
    p.push(entry("album_root", text(album_root)));
    p.push(entry("library_root", text(library_root)));
    p.push(entry("project_root", text(project_root)));
    let ghost pv = p@;
    let paths = object(p);
    assert(pv.map_values(|e: (String, Json)| (e.0@, e.1@)) =~= target->Object_0[1].1->Object_0[1].1->Object_0);
    let mut c: Vec<(String, Json)> = Vec::new();
    c.push(entry("harvest", array(harvest)));
    c.push(entry("paths", paths));
    let ghost cv = c@;
    let ctx = object(c);
    assert(cv.map_values(|e: (String, Json)| (e.0@, e.1@)) =~= target->Object_0[1].1->Object_0);
    let mut es: Vec<(String, Json)> = Vec::new();
    es.push(entry("album", album));
    es.push(entry("ctx", ctx));
    es.push(entry("tracks", array(tracks)));
    let ghost ev = es@;
    let r = object(es);
    assert(ev.map_values(|e: (String, Json)| (e.0@, e.1@)) =~= target->Object_0);
    r
}

/// A compiled track's artist is the track's own when its manifest entry
/// names one as a string, and the album artist only when it names none:
/// the record holds it under `artist`.
pub proof fn law_track_artist(
    disc: u32,
    track: u32,
    t: JsonV,
    albumartist: Seq<char>,
    keys: JsonV,
    ctx: JsonV,
    lyrics: Option<JsonV>,
    title: Seq<char>,
)
    ensures
        jstr(jget(t, "artist"@)) matches Some(a) ==> jget(
            track_view(disc, track, t, albumartist, keys, ctx, lyrics, title),
            "artist"@,
        ) == Some(JsonV::Str(a)),
        jstr(jget(t, "artist"@)) is None ==> jget(
            track_view(disc, track, t, albumartist, keys, ctx, lyrics, title),
            "artist"@,
        ) == Some(JsonV::Str(albumartist)),
{
    let r = track_view(disc, track, t, albumartist, keys, ctx, lyrics, title);
    let es = r->Object_0;
    assert(es[0].0 == "artist"@);
    assert(crate::json::entry_keys(es)[0] == "artist"@);
    crate::json::lemma_index_of(crate::json::entry_keys(es), "artist"@);
}

/// A compiled track records the disc and track numbers and the title it
/// was compiled with, under `discnumber`, `tracknumber` and `title`.
pub proof fn law_track_numbers_and_title(
    disc: u32,
    track: u32,
    t: JsonV,
    albumartist: Seq<char>,
    keys: JsonV,
    ctx: JsonV,
    lyrics: Option<JsonV>,
    title: Seq<char>,
)
    ensures
        jget(track_view(disc, track, t, albumartist, keys, ctx, lyrics, title), "discnumber"@) == Some(num(disc as u64)),
        jget(track_view(disc, track, t, albumartist, keys, ctx, lyrics, title), "tracknumber"@) == Some(
            num(track as u64),
        ),
        jget(track_view(disc, track, t, albumartist, keys, ctx, lyrics, title), "title"@) == Some(JsonV::Str(title)),
{
    reveal_strlit("artist");
    reveal_strlit("discnumber");
    reveal_strlit("file");
    reveal_strlit("info");
    reveal_strlit("keys");
    reveal_strlit("lyrics");
    reveal_strlit("title");
    reveal_strlit("tracknumber");
    let r = track_view(disc, track, t, albumartist, keys, ctx, lyrics, title);
    let es = r->Object_0;
    let ks = crate::json::entry_keys(es);
    let n = es.len();
    assert(ks[0] == "artist"@ && ks[1] == "discnumber"@);
    assert(ks[n - 2] == "title"@ && ks[n - 1] == "tracknumber"@);
    assert("artist"@ != "discnumber"@);
    assert forall|m: int| 0 <= m < n - 2 implies #[trigger] ks[m] != "title"@ && ks[m] != "tracknumber"@ by {
        assert(ks[m] == es[m].0);
    }
    crate::json::lemma_index_of(ks, "discnumber"@);
    crate::json::lemma_index_of(ks, "tracknumber"@);
    crate::json::lemma_index_of(ks, "title"@);
}

} // verus!

//! The player status the server broadcasts to its clients: the state, the
//! song that plays, and the queue with what the library knows of each song.
//! Objects list their keys in the order `serde_json` keeps them (by key).
use vstd::prelude::*;
use crate::json::{Json, JsonV, jget};
use crate::json::ju64_value;
use crate::lockbuild::{num, object};
use crate::text::str_to_string;

verus! {

/// The player's state.
pub enum PlayState {
    Playing,
    Paused,
    Stopped,
}

/// How a state is named to clients.
pub open spec fn state_name(s: PlayState) -> Seq<char> {
    match s {
        PlayState::Playing => "play"@,
        PlayState::Paused => "pause"@,
        PlayState::Stopped => "stop"@,
    }
}

pub fn play_state_name(s: &PlayState) -> (r: String)
    ensures
        r@ == state_name(*s),
{
    match s {
        PlayState::Playing => str_to_string("play"),
        PlayState::Paused => str_to_string("pause"),
        PlayState::Stopped => str_to_string("stop"),
    }
}

/// A song of the queue as the player reports it.
pub struct QueuedSong {
    pub url: String,
    pub title: Option<String>,
    pub artist: Option<String>,
}

/// A text, or `null` without one.
pub open spec fn str_or_null(s: Option<String>) -> JsonV {
    match s {
        Some(t) => JsonV::Str(t@),
        None => JsonV::Null,
    }
}

fn str_or_null_json(s: &Option<String>) -> (r: Json)
    ensures
        r@ == str_or_null(*s),
{
    match s {
        Some(t) => Json::Str(t.clone()),
        None => Json::Null,
    }
}

/// A value of the library's track entry, or `null` when it has none.
pub open spec fn meta_field(meta: JsonV, k: Seq<char>) -> JsonV {
    match jget(meta, k) {
        Some(x) => x,
        None => JsonV::Null,
    }
}

fn meta_field_json(meta: &Json, k: &str) -> (r: Json)
    ensures
        r@ == meta_field(meta@, k@),
{
    match meta.get(k) {
        Some(x) => x.dup(),
        None => Json::Null,
    }
}

/// One entry of the queue: its place, file, title and artist, and what the
/// library's track entry gives (defaults when the song is not in it).
pub open spec fn queue_entry_view(idx: u64, song: QueuedSong, meta: Option<JsonV>) -> JsonV {
    match meta {
        Some(m) => JsonV::Object(
            seq![
                ("album_id"@, meta_field(m, "albumId"@)),
                ("artist"@, str_or_null(song.artist)),
                ("disc_no"@, meta_field(m, "discNo"@)),
                ("duration"@, meta_field(m, "duration"@)),
                ("duration_ms"@, meta_field(m, "durationMs"@)),
                ("file"@, JsonV::Str(song.url@)),
                ("id"@, num(idx)),
                ("title"@, str_or_null(song.title)),
                ("track_no"@, meta_field(m, "trackNo"@)),
            ],
        ),
        None => JsonV::Object(
            seq![
                ("album_id"@, JsonV::Null),
                ("artist"@, str_or_null(song.artist)),
                ("disc_no"@, num(1)),
                ("duration"@, JsonV::Str(Seq::empty())),
                ("duration_ms"@, num(0)),
                ("file"@, JsonV::Str(song.url@)),
                ("id"@, num(idx)),
                ("title"@, str_or_null(song.title)),
                ("track_no"@, JsonV::Null),
            ],
        ),
    }
}

fn queue_entry(idx: u64, song: &QueuedSong, meta: &Option<Json>) -> (r: Json)
    ensures
        r@ == queue_entry_view(
            idx,
            *song,
            match meta {
                Some(m) => Some(m@),
                None => None,
            },
        ),
{
    proof {
        reveal_strlit("");
        assert(""@ =~= Seq::<char>::empty());
    }
    let mut es: Vec<(String, Json)> = Vec::new();
    match meta {
        Some(m) => {
            es.push((str_to_string("album_id"), meta_field_json(m, "albumId")));
            es.push((str_to_string("artist"), str_or_null_json(&song.artist)));
            es.push((str_to_string("disc_no"), meta_field_json(m, "discNo")));
            es.push((str_to_string("duration"), meta_field_json(m, "duration")));
            es.push((str_to_string("duration_ms"), meta_field_json(m, "durationMs")));
            es.push((str_to_string("file"), Json::Str(song.url.clone())));
            es.push((str_to_string("id"), ju64_value(idx)));
            es.push((str_to_string("title"), str_or_null_json(&song.title)));
            es.push((str_to_string("track_no"), meta_field_json(m, "trackNo")));
            let ghost ev = es@;
            let r = object(es);
            assert(ev.map_values(|e: (String, Json)| (e.0@, e.1@)) =~= queue_entry_view(idx, *song, Some(m@))->Object_0);
            r
        },
        None => {
            es.push((str_to_string("album_id"), Json::Null));
            es.push((str_to_string("artist"), str_or_null_json(&song.artist)));
            es.push((str_to_string("disc_no"), ju64_value(1)));
            es.push((str_to_string("duration"), Json::Str(str_to_string(""))));
            es.push((str_to_string("duration_ms"), ju64_value(0)));
            es.push((str_to_string("file"), Json::Str(song.url.clone())));
            es.push((str_to_string("id"), ju64_value(idx)));
            es.push((str_to_string("title"), str_or_null_json(&song.title)));
            es.push((str_to_string("track_no"), Json::Null));
            let ghost ev = es@;
            let r = object(es);
            assert(ev.map_values(|e: (String, Json)| (e.0@, e.1@)) =~= queue_entry_view(idx, *song, None)->Object_0);
            r
        },
    }
}

/// The queue as clients see it: one entry per song, in order, each with the
/// library's entry for that song's file (`None` when it has none).
pub fn queue_json(songs: &Vec<QueuedSong>, metas: &Vec<Option<Json>>) -> (r: Json)
    requires
        songs@.len() == metas@.len(),
        songs@.len() <= u64::MAX,
    ensures
        r@ == JsonV::Array(
            Seq::new(
                songs@.len(),
                |i: int|
                    queue_entry_view(
                        i as u64,
                        songs@[i],
                        match metas@[i] {
                            Some(m) => Some(m@),
                            None => None,
                        },
                    ),
            ),
        ),
{
    let ghost target = Seq::new(
        songs@.len(),
        |i: int|
            queue_entry_view(
                i as u64,
                songs@[i],
                match metas@[i] {
                    Some(m) => Some(m@),
                    None => None,
                },
            ),
    );
    let mut items: Vec<Json> = Vec::new();
    let mut i: usize = 0;
    while i < songs.len()
        invariant
            0 <= i <= songs@.len(),
            songs@.len() == metas@.len(),
            songs@.len() <= u64::MAX,
            target == Seq::new(
                songs@.len(),
                |i: int|
                    queue_entry_view(
                        i as u64,
                        songs@[i],
                        match metas@[i] {
                            Some(m) => Some(m@),
                            None => None,
                        },
                    ),
            ),
            items@.map_values(|x: Json| x@) == target.take(i as int),
        decreases songs@.len() - i,
    {
        let ghost before = items@.map_values(|x: Json| x@);
        let e = queue_entry(i as u64, &songs[i], &metas[i]);
        items.push(e);
        assert(items@.map_values(|x: Json| x@) =~= before.push(target[i as int]));
        assert(target.take(i + 1) =~= target.take(i as int).push(target[i as int]));
        i = i + 1;
    }
    assert(target.take(i as int) =~= target);
    crate::lockbuild::array(items)
}

/// The song that plays, as the status reports it: its file, title and
/// first artist; an empty file and no title or artist when nothing plays.
pub fn current_fields(song: Option<QueuedSong>) -> (r: (String, Option<String>, Option<String>))
    ensures
        match song {
            Some(s) => r.0@ == s.url@ && r.1 == s.title && r.2 == s.artist,
            None => r.0@.len() == 0 && r.1 is None && r.2 is None,
        },
{
    match song {
        Some(s) => (s.url, s.title, s.artist),
        None => {
            proof {
                reveal_strlit("");
            }
            (str_to_string(""), None, None)
        },
    }
}

/// The status message: its type, the state, the song that plays with the
/// album it belongs to, the elapsed time and the length (numbers the player
/// reports in seconds), and the queue.
pub open spec fn status_view(
    state: PlayState,
    file: Seq<char>,
    album_id: Option<String>,
    title: Option<String>,
    artist: Option<String>,
    elapsed: JsonV,
    duration: JsonV,
    queue: JsonV,
) -> JsonV {
    JsonV::Object(
        seq![
            ("album_id"@, str_or_null(album_id)),
            ("artist"@, str_or_null(artist)),
            ("duration"@, duration),
            ("elapsed"@, elapsed),
            ("file"@, JsonV::Str(file)),
            ("queue"@, queue),
            ("state"@, JsonV::Str(state_name(state))),
            ("title"@, str_or_null(title)),
            ("type"@, JsonV::Str("MPD_STATUS"@)),
        ],
    )
}

pub fn status_payload(
    state: &PlayState,
    file: &str,
    album_id: &Option<String>,
    title: &Option<String>,
    artist: &Option<String>,
    elapsed: Json,
    duration: Json,
    queue: Json,
) -> (r: Json)
    ensures
        r@ == status_view(*state, file@, *album_id, *title, *artist, elapsed@, duration@, queue@),
{
    let ghost target = status_view(*state, file@, *album_id, *title, *artist, elapsed@, duration@, queue@);
    let mut es: Vec<(String, Json)> = Vec::new();
    es.push((str_to_string("album_id"), str_or_null_json(album_id)));
    es.push((str_to_string("artist"), str_or_null_json(artist)));
    es.push((str_to_string("duration"), duration));
    es.push((str_to_string("elapsed"), elapsed));
    es.push((str_to_string("file"), Json::Str(str_to_string(file))));
    es.push((str_to_string("queue"), queue));
    es.push((str_to_string("state"), Json::Str(play_state_name(state))));
    es.push((str_to_string("title"), str_or_null_json(title)));
    es.push((str_to_string("type"), Json::Str(str_to_string("MPD_STATUS"))));
    let ghost ev = es@;
    let r = object(es);
    assert(ev.map_values(|e: (String, Json)| (e.0@, e.1@)) =~= target->Object_0);
    r
}

} // verus!

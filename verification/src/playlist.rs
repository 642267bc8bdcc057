//! The files queued when an album (or one of its discs) is played: each
//! track's file, under the library root, in the order of the lock file.
use vstd::prelude::*;
use crate::album::{path_strip_prefix, strip_path_prefix};
use crate::json::{Json, JsonV, jget, jstr, ju64};
use crate::paths::{join_path, join_path_str};
use crate::text::{chars_of, parse_u32, parse_unsigned};

verus! {

/// The disc a track is on when choosing what to play: its `discnumber`
/// when that is an unsigned integer that fits a `u32`, else 1.
pub open spec fn play_disc_of(t: JsonV) -> int {
    match ju64(jget(t, "discnumber"@)) {
        Some(n) => if n <= u32::MAX { n as int } else { 1 },
        None => 1,
    }
}

/// The disc asked for: the parameter read as a `u32`; none when it is
/// missing or does not read as one.
pub open spec fn disc_asked(disc: Option<Seq<char>>) -> Option<int> {
    match disc {
        Some(d) => match parse_unsigned(d, u32::MAX as nat) {
            Some(n) => Some(n as int),
            None => None,
        },
        None => None,
    }
}

/// The file of one track to queue, if it is played: on the disc asked
/// for (any disc when none is), with a file path, under the root once
/// joined to the album's folder.
pub open spec fn queued_file(t: JsonV, root: Seq<char>, id: Seq<char>, disc: Option<int>) -> Option<Seq<char>> {
    if disc matches Some(d) && play_disc_of(t) != d {
        None
    } else {
        match jstr(jget(jget(t, "file"@).unwrap_or(JsonV::Null), "path"@)) {
            Some(tp) => path_strip_prefix(join_path(join_path(root, id), tp), root),
            None => None,
        }
    }
}

/// The files queued for the given tracks, in order.
pub open spec fn queued_files(ts: Seq<JsonV>, root: Seq<char>, id: Seq<char>, disc: Option<int>) -> Seq<Seq<char>>
    decreases ts.len(),
{
    if ts.len() == 0 {
        Seq::empty()
    } else {
        let prev = queued_files(ts.drop_last(), root, id, disc);
        match queued_file(ts.last(), root, id, disc) {
            Some(f) => prev.push(f),
            None => prev,
        }
    }
}

/// The tracks of a lock file: its `tracks` list, or none.
pub open spec fn lock_tracks(lock: JsonV) -> Seq<JsonV> {
    match jget(lock, "tracks"@) {
        Some(JsonV::Array(ts)) => ts,
        _ => Seq::empty(),
    }
}

fn disc_of_track(t: &Json) -> (r: u32)
    ensures
        r == play_disc_of(t@),
{
    match t.get("discnumber") {
        Some(v) => match v.as_u64() {
            Some(n) => if n <= u32::MAX as u64 {
                n as u32
            } else {
                1
            },
            None => 1,
        },
        None => 1,
    }
}

fn file_of_track(t: &Json, root: &str, id: &str, disc: Option<u32>) -> (r: Option<String>)
    ensures
        match r {
            Some(f) => queued_file(t@, root@, id@, match disc {
                Some(d) => Some(d as int),
                None => None,
            }) == Some(f@),
            None => queued_file(t@, root@, id@, match disc {
                Some(d) => Some(d as int),
                None => None,
            }) is None,
        },
{
    if let Some(d) = disc {
        if disc_of_track(t) != d {
            return None;
        }
    }
    let path = match t.get("file") {
        Some(f) => match f.get("path") {
            Some(p) => p.as_str(),
            None => None,
        },
        None => {
            assert(jget(JsonV::Null, "path"@) is None);
            None
        },
    };
    match path {
        Some(tp) => {
            let album = join_path_str(root, id);
            let full = join_path_str(album.as_str(), tp.as_str());
            strip_path_prefix(full.as_str(), root)
        },
        None => None,
    }
}

/// The files to queue when album `id` is played (one disc of it when
/// `disc` reads as a disc number), from its lock file, each relative to
/// the library root.
pub fn album_track_paths(lock: &Json, root: &str, id: &str, disc: Option<String>) -> (r: Vec<String>)
    ensures
        r@.map_values(|s: String| s@) == queued_files(
            lock_tracks(lock@),
            root@,
            id@,
            disc_asked(match disc {
                Some(d) => Some(d@),
                None => None,
            }),
        ),
{
    let target: Option<u32> = match &disc {
        Some(d) => parse_u32(chars_of(d.as_str()).as_slice()),
        None => None,
    };
    let ghost dv = disc_asked(match disc {
        Some(d) => Some(d@),
        None => None,
    });
    assert(dv == match target {
        Some(d) => Some(d as int),
        None => None::<int>,
    });
    let ghost ts = lock_tracks(lock@);
    let mut r: Vec<String> = Vec::new();
    let tracks = match lock.get("tracks") {
        Some(v) => v.as_array(),
        None => None,
    };
    match tracks {
        Some(items) => {
            assert(ts == items@.map_values(|x: Json| x@));
            let mut i: usize = 0;
            while i < items.len()
                invariant
                    0 <= i <= items@.len(),
                    ts == items@.map_values(|x: Json| x@),
                    dv == match target {
                        Some(d) => Some(d as int),
                        None => None::<int>,
                    },
                    r@.map_values(|s: String| s@) == queued_files(ts.take(i as int), root@, id@, dv),
                decreases items@.len() - i,
            {
                let ghost before = r@.map_values(|s: String| s@);
                assert(ts.take(i + 1).drop_last() =~= ts.take(i as int));
                assert(ts.take(i + 1).last() == items@[i as int]@);
                match file_of_track(&items[i], root, id, target) {
                    Some(f) => {
                        let ghost fv = f@;
                        r.push(f);
                        assert(r@.map_values(|s: String| s@) =~= before.push(fv));
                    },
                    None => {},
                }
                i = i + 1;
            }
            assert(ts.take(i as int) =~= ts);
        },
        None => {
            assert(ts =~= Seq::<JsonV>::empty());
        },
    }
    r
}

} // verus!

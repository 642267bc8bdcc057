//! The folder an album's tracks share, and whether it holds audio that is
//! not theirs.
use vstd::prelude::*;
use crate::cache::{is_audio_ext, is_audio_ext_of};
use crate::library::{parent_of, path_parent};
use crate::targets::path_extension;
use crate::watch::{has_path_prefix, path_has_prefix};

verus! {

/// A folder climbed until it holds `p` (`Path::starts_with`), or until it
/// has no parent; `n` bounds the steps.
pub open spec fn climb(a: Seq<char>, p: Seq<char>, n: nat) -> Seq<char>
    decreases n,
{
    if n == 0 || path_has_prefix(p, a) {
        a
    } else {
        match path_parent(a) {
            Some(d) => climb(d, p, (n - 1) as nat),
            None => a,
        }
    }
}

/// The folder the first track is in (the track itself when it has none).
pub open spec fn start_folder(first: Seq<char>) -> Seq<char> {
    match path_parent(first) {
        Some(d) => d,
        None => first,
    }
}

/// The folder climbed for each further track in turn.
pub open spec fn anchor_after(a: Seq<char>, rest: Seq<Seq<char>>) -> Seq<char>
    decreases rest.len(),
{
    if rest.len() == 0 {
        a
    } else {
        let b = anchor_after(a, rest.drop_last());
        climb(b, rest.last(), b.len() + 1)
    }
}

/// `resolve_anchor`'s folder: the closest folder that holds every track,
/// climbing from the first track's folder.
pub open spec fn anchor_of(paths: Seq<Seq<char>>) -> Option<Seq<char>> {
    if paths.len() == 0 {
        None
    } else {
        Some(anchor_after(start_folder(paths[0]), paths.skip(1)))
    }
}

fn climb_exec(a: &str, p: &str) -> (r: String)
    ensures
        r@ == climb(a@, p@, a@.len() + 1),
{
    let ghost n0: nat = a@.len() + 1;
    let mut cur = crate::text::str_to_string(a);
    let ghost mut fuel: nat = n0;
    loop
        invariant
            fuel > cur@.len(),
            n0 == a@.len() + 1,
            climb(a@, p@, n0) == climb(cur@, p@, fuel),
        decreases cur@.len(),
    {
        if has_path_prefix(p, cur.as_str()) {
            return cur;
        }
        match parent_of(cur.as_str()) {
            Some(d) => {
                proof {
                    assert(climb(cur@, p@, fuel) == climb(d@, p@, (fuel - 1) as nat));
                    fuel = (fuel - 1) as nat;
                }
                cur = d;
            },
            None => {
                return cur;
            },
        }
    }
}

/// The folder an album's tracks share, climbing from the first track's.
pub fn resolve_anchor(paths: &Vec<String>) -> (r: Option<String>)
    ensures
        match r {
            Some(a) => anchor_of(paths@.map_values(|s: String| s@)) == Some(a@),
            None => anchor_of(paths@.map_values(|s: String| s@)) is None,
        },
{
    let ghost pv = paths@.map_values(|s: String| s@);
    if paths.len() == 0 {
        return None;
    }
    let mut a = match parent_of(paths[0].as_str()) {
        Some(d) => d,
        None => paths[0].clone(),
    };
    let ghost start = a@;
    let mut i: usize = 1;
    while i < paths.len()
        invariant
            1 <= i <= paths@.len(),
            pv == paths@.map_values(|s: String| s@),
            start == start_folder(pv[0]),
            a@ == anchor_after(start, pv.skip(1).take(i - 1)),
        decreases paths@.len() - i,
    {
        proof {
            assert(pv.skip(1).take(i as int).drop_last() =~= pv.skip(1).take(i - 1));
            assert(pv.skip(1).take(i as int).last() == pv[i as int]);
        }
        a = climb_exec(a.as_str(), paths[i].as_str());
        i = i + 1;
    }
    assert(pv.skip(1).take(i - 1) =~= pv.skip(1));
    Some(a)
}

/// The anchor holds no audio file that is not one of the album's tracks:
/// each file found under it whose extension, lowered and with a dot, is an
/// audio extension must be a track.
pub open spec fn exclusive(files: Seq<Seq<char>>, exts: Seq<Seq<char>>, tracks: Seq<Seq<char>>) -> bool {
    forall|i: int|
        0 <= i < files.len() ==> match #[trigger] path_extension(files[i]) {
            Some(e) => is_audio_ext_of(e, exts) ==> tracks.contains(files[i]),
            None => true,
        }
}

fn contains_string(v: &Vec<String>, s: &str) -> (r: bool)
    ensures
        r == v@.map_values(|x: String| x@).contains(s@),
{
    let ghost vv = v@.map_values(|x: String| x@);
    let mut i: usize = 0;
    while i < v.len()
        invariant
            0 <= i <= v@.len(),
            vv == v@.map_values(|x: String| x@),
            forall|m: int| 0 <= m < i ==> vv[m] != s@,
        decreases v@.len() - i,
    {
        if crate::text::str_eq(v[i].as_str(), s) {
            assert(vv[i as int] == s@);
            return true;
        }
        i = i + 1;
    }
    assert(!vv.contains(s@));
    false
}

/// Whether the files found under the anchor leave it to the album alone.
pub fn anchor_is_exclusive(files: &Vec<String>, exts: &Vec<String>, tracks: &Vec<String>) -> (r: bool)
    ensures
        r == exclusive(
            files@.map_values(|s: String| s@),
            exts@.map_values(|s: String| s@),
            tracks@.map_values(|s: String| s@),
        ),
{
    let ghost fv = files@.map_values(|s: String| s@);
    let ghost ev = exts@.map_values(|s: String| s@);
    let ghost tv = tracks@.map_values(|s: String| s@);
    let mut i: usize = 0;
    while i < files.len()
        invariant
            0 <= i <= files@.len(),
            fv == files@.map_values(|s: String| s@),
            ev == exts@.map_values(|s: String| s@),
            tv == tracks@.map_values(|s: String| s@),
            forall|m: int|
                0 <= m < i ==> match #[trigger] path_extension(fv[m]) {
                    Some(e) => is_audio_ext_of(e, ev) ==> tv.contains(fv[m]),
                    None => true,
                },
        decreases files@.len() - i,
    {
        assert(fv[i as int] == files@[i as int]@);
        match crate::targets::extension_of(files[i].as_str()) {
            Some(e) => {
                if is_audio_ext(e.as_str(), exts) && !contains_string(tracks, files[i].as_str()) {
                    assert(match path_extension(fv[i as int]) {
                        Some(e) => is_audio_ext_of(e, ev) ==> tv.contains(fv[i as int]),
                        None => true,
                    } == false);
                    return false;
                }
            },
            None => {},
        }
        i = i + 1;
    }
    true
}

} // verus!

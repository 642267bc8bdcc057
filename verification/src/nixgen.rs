//! Writing an `album.nix` for a torrent: the tracks it keeps, the order of
//! the metadata files, how the torrent is referred to, and the text of the
//! file itself.
use vstd::prelude::*;
use crate::collate::{lower, path_gt, sort_paths, to_lower};
use crate::collate::sort_by;
use crate::torrent::{bencode_depth, torrent_listing, torrent_parse, TorrentError, MAX_TORRENT_DEPTH};
use crate::nix::{source_name, build_globset, filter_globs, glob_accepts, globset_builds, FilterError, glob_set_matches, globs_match, law_safe_name_dashes, name_char, safe_name, safe_name_chars, set_patterns};
use crate::text::{chars_of, push_str, split, split_chars, str_to_string, string_of, trim, trim_chars};
use crate::toml::{Toml, TomlV, entries_view, nix_attributes, tget, to_nix_attributes};

verus! {

/// The files of a torrent the track filter keeps, in natural path order.
/// A torrent of several files lists them; a torrent of one file has its
/// name only.
pub open spec fn kept_paths(patterns: Seq<Seq<char>>, files: Option<Seq<Seq<char>>>, name: Seq<char>) -> Seq<Seq<char>> {
    let cands = match files {
        Some(fs) => fs,
        None => seq![name],
    };
    sort_by(cands.filter(|p: Seq<char>| globs_match(patterns, p)), path_gt())
}

pub fn torrent_track_paths(set: &globset::GlobSet, files: Option<Vec<String>>, name: &str) -> (r: Vec<String>)
    ensures
        r@.map_values(|s: String| s@) == kept_paths(
            set_patterns(*set),
            match files {
                Some(fs) => Some(fs@.map_values(|s: String| s@)),
                None => None,
            },
            name@,
        ),
{
    let ghost pats = set_patterns(*set);
    let ghost keep = |p: Seq<char>| globs_match(pats, p);
    let cands: Vec<String> = match files {
        Some(fs) => fs,
        None => {
            let mut v: Vec<String> = Vec::new();
            v.push(str_to_string(name));
            assert(v@.map_values(|s: String| s@) =~= seq![name@]);
            v
        },
    };
    let ghost cv = cands@.map_values(|s: String| s@);
    let mut kept: Vec<String> = Vec::new();
    let mut i: usize = 0;
    while i < cands.len()
        invariant
            0 <= i <= cands@.len(),
            cv == cands@.map_values(|s: String| s@),
            pats == set_patterns(*set),
            keep == (|p: Seq<char>| globs_match(pats, p)),
            kept@.map_values(|s: String| s@) == cv.take(i as int).filter(keep),
        decreases cands@.len() - i,
    {
        let ghost before = kept@.map_values(|s: String| s@);
        proof {
            reveal(Seq::filter);
            assert(cv.take(i + 1).drop_last() =~= cv.take(i as int));
            assert(cv.take(i + 1).last() == cands@[i as int]@);
        }
        if glob_set_matches(set, cands[i].as_str()) {
            kept.push(cands[i].clone());
            assert(kept@.map_values(|s: String| s@) =~= before.push(cands@[i as int]@));
        }
        i = i + 1;
    }
    assert(cv.take(i as int) =~= cv);
    sort_paths(kept)
}

/// How `album.nix` refers to the torrent: a path relative to the folder it
/// is written in as `./<path>`, an absolute one quoted.
pub open spec fn torrent_ref(rel: Seq<char>) -> Seq<char> {
    if rel.len() > 0 && rel[0] == '/' {
        seq!['"'] + rel + seq!['"']
    } else {
        "./"@ + rel
    }
}

pub fn torrent_nix_path(rel: &str) -> (r: String)
    ensures
        r@ == torrent_ref(rel@),
{
    let v = chars_of(rel);
    if v.len() > 0 && v[0] == '/' {
        let mut s = str_to_string("\"");
        push_str(&mut s, rel);
        push_str(&mut s, "\"");
        proof {
            reveal_strlit("\"");
            assert(s@ =~= seq!['"'] + rel@ + seq!['"']);
        }
        s
    } else {
        let mut s = str_to_string("./");
        push_str(&mut s, rel);
        s
    }
}

/// The metadata files named (comma-separated, each trimmed), in the order
/// they are merged: the last named first, so that earlier names win.
pub open spec fn merge_order(paths: Seq<char>) -> Seq<Seq<char>> {
    split(paths, ',').map_values(|p: Seq<char>| trim(p)).reverse()
}

pub fn metadata_merge_order(paths: &str) -> (r: Vec<String>)
    ensures
        r@.map_values(|s: String| s@) == merge_order(paths@),
{
    let parts = split_chars(chars_of(paths).as_slice(), ',');
    let ghost sp = split(paths@, ',');
    let ghost tv = sp.map_values(|p: Seq<char>| trim(p));
    let mut r: Vec<String> = Vec::new();
    let mut i: usize = parts.len();
    while i > 0
        invariant
            0 <= i <= parts@.len(),
            parts@.len() == sp.len(),
            forall|k: int| 0 <= k < parts@.len() ==> (#[trigger] parts@[k])@ == sp[k],
            tv == sp.map_values(|p: Seq<char>| trim(p)),
            r@.map_values(|s: String| s@) == tv.skip(i as int).reverse(),
        decreases i,
    {
        let ghost before = r@.map_values(|s: String| s@);
        i = i - 1;
        let t = trim_chars(parts[i].as_slice());
        r.push(string_of(t.as_slice()));
        assert(r@.map_values(|s: String| s@) =~= before.push(tv[i as int]));
        assert(tv.skip(i as int).reverse() =~= tv.skip(i + 1).reverse().push(tv[i as int]));
    }
    assert(tv.skip(0) =~= tv);
    r
}

// ---------------------------------------------------------------------------
// The text of album.nix
// ---------------------------------------------------------------------------

/// `Value::get` on a table.
pub open spec fn lookup(v: TomlV, k: Seq<char>) -> Option<TomlV> {
    match v {
        TomlV::Table(es) => tget(es, k),
        _ => None,
    }
}

fn lookup_exec<'a>(v: &'a Toml, k: &str) -> (r: Option<&'a Toml>)
    ensures
        match r {
            Some(x) => lookup(v@, k@) == Some(x@),
            None => lookup(v@, k@) is None,
        },
{
    match v {
        Toml::Table(es) => {
            proof {
                v.lemma_table_view();
            }
            let (j, found) = crate::toml::find_slot(es, k);
            if found {
                Some(&es[j].1)
            } else {
                None
            }
        },
        _ => None,
    }
}

/// A string under a key, if there is one.
pub open spec fn lookup_str(v: Option<TomlV>, k: Seq<char>) -> Option<Seq<char>> {
    match v {
        Some(t) => match lookup(t, k) {
            Some(TomlV::Str(s)) => Some(s),
            _ => None,
        },
        None => None,
    }
}

fn lookup_str_exec(v: Option<&Toml>, k: &str) -> (r: Option<String>)
    ensures
        match r {
            Some(s) => lookup_str(
                match v {
                    Some(t) => Some(t@),
                    None => None,
                },
                k@,
            ) == Some(s@),
            None => lookup_str(
                match v {
                    Some(t) => Some(t@),
                    None => None,
                },
                k@,
            ) is None,
        },
{
    match v {
        Some(t) => match lookup_exec(t, k) {
            Some(Toml::Str(s)) => Some(s.clone()),
            _ => None,
        },
        None => None,
    }
}

/// The album artist the merged metadata gives (`album.albumartist`), or
/// nothing.
pub open spec fn meta_artist(meta: TomlV) -> Seq<char> {
    match lookup_str(lookup(meta, "album"@), "albumartist"@) {
        Some(a) => a,
        None => Seq::empty(),
    }
}

/// The album title the merged metadata gives (`album.album`), or the
/// torrent's name.
pub open spec fn meta_album(meta: TomlV, torrent_name: Seq<char>) -> Seq<char> {
    match lookup_str(lookup(meta, "album"@), "album"@) {
        Some(a) => a,
        None => torrent_name,
    }
}

/// The package name: the album's artist and title (the torrent's name when
/// there is no title), each lowered, made safe.
pub open spec fn pname_of(meta: TomlV, torrent_name: Seq<char>) -> Seq<char> {
    let artist = meta_artist(meta);
    let album = meta_album(meta, torrent_name);
    let base = if artist.len() == 0 {
        lower(album)
    } else {
        lower(artist) + seq!['-'] + lower(album)
    };
    safe_name(base)
}

/// The generated file opens with the line that sets the package name: the
/// title (the torrent's name when there is none) sanitized as a source name
/// when the metadata gives no album artist, else the artist and the title,
/// each lowered, joined by a dash and made safe the same way.  It holds
/// only dashes and alphanumeric characters, starts and ends with neither a
/// dash, and never holds two dashes side by side.
pub proof fn law_nix_content_pname(
    name: Seq<char>,
    multi: bool,
    paths: Seq<Seq<char>>,
    hash: Seq<char>,
    nix_path: Seq<char>,
    meta: TomlV,
)
    ensures
        ({
            let p = pname_of(meta, name);
            let line = "{ vellum }:\n\nvellum.mkAlbum {\n\n  pname = \""@ + p + "\";\n"@;
            &&& nix_content(name, multi, paths, hash, nix_path, meta).subrange(0, line.len() as int) == line
            &&& meta_artist(meta).len() == 0 ==> p == source_name(meta_album(meta, name))
            &&& meta_artist(meta).len() > 0 ==> p == safe_name(
                lower(meta_artist(meta)) + seq!['-'] + lower(meta_album(meta, name)),
            )
            &&& forall|m: int| 0 <= m < p.len() ==> name_char(#[trigger] p[m])
            &&& p.len() > 0 ==> p[0] != '-' && p.last() != '-'
            &&& forall|m: int| 0 <= m < p.len() - 1 ==> !(#[trigger] p[m] == '-' && p[m + 1] == '-')
        }),
{
    let artist = meta_artist(meta);
    let album = meta_album(meta, name);
    let base = if artist.len() == 0 {
        lower(album)
    } else {
        lower(artist) + seq!['-'] + lower(album)
    };
    law_safe_name_dashes(base);
    let p = pname_of(meta, name);
    let head = "{ vellum }:\n\nvellum.mkAlbum {\n\n  pname = \""@;
    let line = head + p + "\";\n"@;
    let c = nix_content(name, multi, paths, hash, nix_path, meta);
    let lit = "\";\n\n  sourceTorrent = {\n    file = "@;
    reveal_strlit("\";\n\n  sourceTorrent = {\n    file = ");
    reveal_strlit("\";\n");
    let front = head + p + lit;
    assert(line =~= front.subrange(0, line.len() as int));
    assert(c.subrange(0, line.len() as int) =~= front.subrange(0, line.len() as int));
}

/// The tracks of the merged metadata, when it lists them.
pub open spec fn meta_tracks(meta: TomlV) -> Option<Seq<TomlV>> {
    match lookup(meta, "tracks"@) {
        Some(TomlV::Array(items)) => Some(items),
        _ => None,
    }
}

/// How many tracks `album.nix` lists: as many as the longer of the files
/// kept and the metadata's tracks.
pub open spec fn track_count(paths: Seq<Seq<char>>, meta: TomlV) -> nat {
    let m = match meta_tracks(meta) {
        Some(items) => items.len(),
        None => 0,
    };
    if paths.len() >= m {
        paths.len()
    } else {
        m
    }
}

/// The file of the `i`-th track: under the torrent's folder for a torrent of
/// several files; empty past the files kept.
pub open spec fn track_file(paths: Seq<Seq<char>>, multi: bool, name: Seq<char>, i: int) -> Seq<char> {
    if i < paths.len() {
        if multi {
            name + seq!['/'] + paths[i]
        } else {
            paths[i]
        }
    } else {
        Seq::empty()
    }
}

/// The metadata of the `i`-th track: its entry of the metadata's tracks, or
/// an empty table.
pub open spec fn track_meta(meta: TomlV, i: int) -> TomlV {
    match meta_tracks(meta) {
        Some(items) => if i < items.len() {
            items[i]
        } else {
            TomlV::Table(Seq::empty())
        },
        None => TomlV::Table(Seq::empty()),
    }
}

/// The block of the `i`-th track, with the line break that separates it
/// from the next.
pub open spec fn track_block(paths: Seq<Seq<char>>, multi: bool, name: Seq<char>, meta: TomlV, i: int) -> Seq<char> {
    "    {\n      file = \""@ + track_file(paths, multi, name, i) + "\";\n      metadata = {\n"@ + nix_attributes(
        track_meta(meta, i),
        "        "@,
    ) + "      };\n    }"@ + if i < track_count(paths, meta) - 1 {
        "\n"@
    } else {
        Seq::empty()
    }
}

/// The blocks of the first `n` tracks.
pub open spec fn track_blocks(paths: Seq<Seq<char>>, multi: bool, name: Seq<char>, meta: TomlV, n: nat) -> Seq<char>
    decreases n,
{
    if n == 0 {
        Seq::empty()
    } else {
        track_blocks(paths, multi, name, meta, (n - 1) as nat) + track_block(paths, multi, name, meta, n - 1)
    }
}

/// The text of `album.nix`.
pub open spec fn nix_content(
    name: Seq<char>,
    multi: bool,
    paths: Seq<Seq<char>>,
    hash: Seq<char>,
    nix_path: Seq<char>,
    meta: TomlV,
) -> Seq<char> {
    "{ vellum }:\n\nvellum.mkAlbum {\n\n  pname = \""@ + pname_of(meta, name)
        + "\";\n\n  sourceTorrent = {\n    file = "@ + nix_path + ";\n    hash = \""@ + hash
        + "\";\n  };\n\n  sourceDisk.hash = \"sha256-AAAAAAAAAAAAAAAAAAAAAAAAAAAAAAAAAAAAAAAAAAA=\";\n\n  album = {\n    metadata = {\n"@
        + match lookup(meta, "album"@) {
        Some(d) => nix_attributes(d, "      "@),
        None => Seq::empty(),
    } + "    };\n  };\n\n  cover = ./cover.png;\n\n  tracks = [\n"@ + track_blocks(
        paths,
        multi,
        name,
        meta,
        track_count(paths, meta),
    ) + "\n  ];\n}\n"@
}

fn pname(meta: &Toml, torrent_name: &str) -> (r: String)
    ensures
        r@ == pname_of(meta@, torrent_name@),
{
    let album_data = lookup_exec(meta, "album");
    let ghost adv = match album_data {
        Some(t) => Some(t@),
        None => None,
    };
    let artist = match lookup_str_exec(album_data, "albumartist") {
        Some(a) => a,
        None => {
            proof {
                reveal_strlit("");
                assert(""@ =~= Seq::<char>::empty());
            }
            str_to_string("")
        },
    };
    assert(adv == lookup(meta@, "album"@));
    assert(artist@ == match lookup_str(adv, "albumartist"@) {
        Some(a) => a,
        None => Seq::<char>::empty(),
    });
    let album = match lookup_str_exec(album_data, "album") {
        Some(a) => a,
        None => str_to_string(torrent_name),
    };
    assert(album@ == match lookup_str(adv, "album"@) {
        Some(a) => a,
        None => torrent_name@,
    });
    let base: Vec<char> = if artist.as_str().is_empty() {
        chars_of(to_lower(album.as_str()).as_str())
    } else {
        let mut b = chars_of(to_lower(artist.as_str()).as_str());
        b.push('-');
        let a = chars_of(to_lower(album.as_str()).as_str());
        crate::text::extend_chars(&mut b, a.as_slice());
        b
    };
    assert(base@ == if artist@.len() == 0 {
        lower(album@)
    } else {
        lower(artist@) + seq!['-'] + lower(album@)
    });
    let r = safe_name_chars(&base);
    string_of(r.as_slice())
}

fn track_block_text(name: &str, multi: bool, paths: &Vec<String>, tm: &Toml, i: usize, total: usize) -> (r: String)
    requires
        i < total,
    ensures
        r@ == "    {\n      file = \""@ + track_file(paths@.map_values(|s: String| s@), multi, name@, i as int)
            + "\";\n      metadata = {\n"@ + nix_attributes(tm@, "        "@) + "      };\n    }"@ + if i + 1 < total {
            "\n"@
        } else {
            Seq::empty()
        },
{
    proof {
        reveal_strlit("");
        assert(""@ =~= Seq::<char>::empty());
    }
    let ghost pv = paths@.map_values(|s: String| s@);
    let mut out = str_to_string("    {\n      file = \"");
    let ghost start = out@;
    if i < paths.len() {
        if multi {
            push_str(&mut out, name);
            push_str(&mut out, "/");
            push_str(&mut out, paths[i].as_str());
            proof {
                reveal_strlit("/");
                assert("/"@ =~= seq!['/']);
                assert(out@ =~= start + track_file(pv, multi, name@, i as int));
            }
        } else {
            push_str(&mut out, paths[i].as_str());
            assert(out@ =~= start + track_file(pv, multi, name@, i as int));
        }
    } else {
        assert(out@ =~= start + track_file(pv, multi, name@, i as int));
    }
    push_str(&mut out, "\";\n      metadata = {\n");
    let a = to_nix_attributes(tm, "        ");
    push_str(&mut out, a.as_str());
    push_str(&mut out, "      };\n    }");
    if i + 1 < total {
        push_str(&mut out, "\n");
    } else {
        push_str(&mut out, "");
    }
    out
}

/// `generate_nix_content`: the text of `album.nix` for a torrent (`multi`
/// when it holds several files), the files kept, its hash, how it is
/// referred to, and the merged metadata.
pub fn generate_nix_content(
    name: &str,
    multi: bool,
    paths: &Vec<String>,
    hash: &str,
    nix_path: &str,
    meta: &Toml,
) -> (r: String)
    ensures
        r@ == nix_content(name@, multi, paths@.map_values(|s: String| s@), hash@, nix_path@, meta@),
{
    let ghost pv = paths@.map_values(|s: String| s@);
    let ghost mv = meta@;
    let mut out = str_to_string("{ vellum }:\n\nvellum.mkAlbum {\n\n  pname = \"");
    let pn = pname(meta, name);
    push_str(&mut out, pn.as_str());
    push_str(&mut out, "\";\n\n  sourceTorrent = {\n    file = ");
    push_str(&mut out, nix_path);
    push_str(&mut out, ";\n    hash = \"");
    push_str(&mut out, hash);
    push_str(
        &mut out,
        "\";\n  };\n\n  sourceDisk.hash = \"sha256-AAAAAAAAAAAAAAAAAAAAAAAAAAAAAAAAAAAAAAAAAAA=\";\n\n  album = {\n    metadata = {\n",
    );
    match lookup_exec(meta, "album") {
        Some(d) => {
            let a = to_nix_attributes(d, "      ");
            push_str(&mut out, a.as_str());
        },
        None => {},
    }
    push_str(&mut out, "    };\n  };\n\n  cover = ./cover.png;\n\n  tracks = [\n");
    let ghost head = out@;
    let tracks: Option<&Vec<Toml>> = match lookup_exec(meta, "tracks") {
        Some(t) => match t {
            Toml::Array(items) => {
                proof {
                    t.lemma_array_view();
                }
                Some(items)
            },
            _ => None,
        },
        None => None,
    };
    assert(match tracks {
        Some(items) => meta_tracks(mv) == Some(items@.map_values(|x: Toml| x@)),
        None => meta_tracks(mv) is None,
    }) by {
        if let Some(items) = tracks {
            assert(items@.map_values(|x: Toml| x@) =~= meta_tracks(mv)->0);
        }
    }
    let m: usize = match tracks {
        Some(items) => items.len(),
        None => 0,
    };
    let total: usize = if paths.len() >= m {
        paths.len()
    } else {
        m
    };
    assert(total == track_count(pv, mv));
    let empty: Vec<(String, Toml)> = Vec::new();
    let empty_table = Toml::Table(empty);
    proof {
        empty_table.lemma_table_view();
        assert(entries_view(empty@) =~= Seq::<(Seq<char>, TomlV)>::empty());
    }
    let mut i: usize = 0;
    while i < total
        invariant
            0 <= i <= total,
            total == track_count(pv, mv),
            pv == paths@.map_values(|s: String| s@),
            mv == meta@,
            empty_table@ == TomlV::Table(Seq::empty()),
            match tracks {
                Some(items) => meta_tracks(mv) == Some(items@.map_values(|x: Toml| x@)),
                None => meta_tracks(mv) is None,
            },
            out@ == head + track_blocks(pv, multi, name@, mv, i as nat),
        decreases total - i,
    {
        let tm: &Toml = match tracks {
            Some(items) => if i < items.len() {
                &items[i]
            } else {
                &empty_table
            },
            None => &empty_table,
        };
        assert(tm@ == track_meta(mv, i as int));
        let b = track_block_text(name, multi, paths, tm, i, total);
        let ghost before = out@;
        push_str(&mut out, b.as_str());
        proof {
            assert(track_blocks(pv, multi, name@, mv, (i + 1) as nat) == track_blocks(pv, multi, name@, mv, i as nat)
                + track_block(pv, multi, name@, mv, i as int));
        }
        i = i + 1;
    }
    push_str(&mut out, "\n  ];\n}\n");
    out
}

/// Why the `album.nix` of a torrent could not be written.
pub enum ManifestError {
    /// The torrent could not be read.
    Torrent(TorrentError),
    /// The track filter is not a valid set of globs.
    Filter(FilterError),
}

/// Whether every glob of a track filter parses and together they build.
pub open spec fn filter_builds(filter: Seq<char>) -> bool {
    &&& forall|i: int| 0 <= i < filter_globs(filter).len() ==> glob_accepts(#[trigger] filter_globs(filter)[i])
    &&& globset_builds(filter_globs(filter))
}

/// The `album.nix` of a torrent, from the bytes of its file: the torrent is
/// read, the track filter built, the files it keeps sorted, and the text
/// written with the merged metadata.
pub fn torrent_manifest(bytes: &[u8], tracks_filter: &str, hash: &str, nix_path: &str, meta: &Toml) -> (r: Result<
    String,
    ManifestError,
>)
    ensures
        match r {
            Ok(t) => bencode_depth(bytes@) <= MAX_TORRENT_DEPTH && filter_builds(tracks_filter@) && match torrent_parse(
                bytes@,
            ) {
                Some(l) => t@ == nix_content(
                    l.0,
                    l.1 is Some,
                    kept_paths(filter_globs(tracks_filter@), l.1, l.0),
                    hash@,
                    nix_path@,
                    meta@,
                ),
                None => false,
            },
            Err(ManifestError::Torrent(TorrentError::TooDeep)) => bencode_depth(bytes@) > MAX_TORRENT_DEPTH,
            Err(ManifestError::Torrent(TorrentError::Malformed)) => bencode_depth(bytes@) <= MAX_TORRENT_DEPTH
                && torrent_parse(bytes@) is None,
            Err(ManifestError::Filter(e)) => bencode_depth(bytes@) <= MAX_TORRENT_DEPTH && torrent_parse(bytes@) is Some
                && !filter_builds(tracks_filter@) && match e {
                FilterError::InvalidGlob(p) => !glob_accepts(p@) && filter_globs(tracks_filter@).contains(p@),
                FilterError::Build => !globset_builds(filter_globs(tracks_filter@)),
            },
        },
        bencode_depth(bytes@) <= MAX_TORRENT_DEPTH && torrent_parse(bytes@) is Some && filter_builds(tracks_filter@)
            ==> r is Ok,
{
    let listing = match torrent_listing(bytes) {
        Ok(l) => l,
        Err(e) => {
            return Err(ManifestError::Torrent(e));
        },
    };
    let set = match build_globset(tracks_filter) {
        Ok(s) => s,
        Err(e) => {
            proof {
                if let FilterError::InvalidGlob(ref p) = e {
                    let i = choose|i: int|
                        0 <= i < filter_globs(tracks_filter@).len() && filter_globs(tracks_filter@)[i] == p@ && forall|k: int|
                            0 <= k < i ==> glob_accepts(#[trigger] filter_globs(tracks_filter@)[k]);
                    assert(filter_globs(tracks_filter@).contains(p@));
                }
            }
            return Err(ManifestError::Filter(e));
        },
    };
    let multi = listing.files.is_some();
    let name = listing.name;
    let paths = torrent_track_paths(&set, listing.files, name.as_str());
    Ok(generate_nix_content(name.as_str(), multi, &paths, hash, nix_path, meta))
}

} // verus!

//! The decisions of the Nix commands: what `album.nix` declares, where an
//! album's source disk is, which hashes need checking, the variables the
//! configured commands are filled with, and where the build's outputs and
//! roots go.
use vstd::prelude::*;
use crate::nix::{nix32_name, nix32_truncate, sanitize_source_name, source_name, strip_all_prefix};
use crate::paths::{join_path, join_path_str};
use crate::text::{chars_of, starts_with, starts_with_chars, str_eq, str_to_string, string_of, copy_range};
use crate::watch::{has_path_prefix, path_has_prefix};

verus! {

/// What `album.nix` declares of an album.
pub struct AlbumInfo {
    pub pname: String,
    pub source_disk_path: String,
    pub source_disk_hash: String,
    pub torrent_file: String,
    pub torrent_name: String,
    pub torrent_hash: String,
    pub cover_file: String,
    pub cover_hash: String,
}

/// The text itself, or a default when it is empty.
pub open spec fn or_default(s: Seq<char>, d: Seq<char>) -> Seq<char> {
    if s.len() == 0 {
        d
    } else {
        s
    }
}

fn or_default_exec(s: String, d: &str) -> (r: String)
    ensures
        r@ == or_default(s@, d@),
{
    if s.as_str().is_empty() {
        str_to_string(d)
    } else {
        s
    }
}

impl AlbumInfo {
    /// The fields as `album.nix` evaluates them; an empty name reads as
    /// `unknown`, an empty torrent name as `unknown-source`.
    pub fn new(
        pname: String,
        source_disk_path: String,
        source_disk_hash: String,
        torrent_file: String,
        torrent_name: String,
        torrent_hash: String,
        cover_file: String,
        cover_hash: String,
    ) -> (r: AlbumInfo)
        ensures
            r.pname@ == or_default(pname@, "unknown"@),
            r.source_disk_path@ == source_disk_path@,
            r.source_disk_hash@ == source_disk_hash@,
            r.torrent_file@ == torrent_file@,
            r.torrent_name@ == or_default(torrent_name@, "unknown-source"@),
            r.torrent_hash@ == torrent_hash@,
            r.cover_file@ == cover_file@,
            r.cover_hash@ == cover_hash@,
    {
        AlbumInfo {
            pname: or_default_exec(pname, "unknown"),
            source_disk_path,
            source_disk_hash,
            torrent_file,
            torrent_name: or_default_exec(torrent_name, "unknown-source"),
            torrent_hash,
            cover_file,
            cover_hash,
        }
    }
}

/// The torrent is read for its name only when `album.nix` names a torrent
/// file but no torrent name.
pub fn needs_torrent_name(torrent_name: &str, torrent_file: &str) -> (r: bool)
    ensures
        r == (torrent_name@.len() == 0 && torrent_file@.len() > 0),
{
    torrent_name.is_empty() && !torrent_file.is_empty()
}

fn strip_leading_dot_slash(s: &str) -> (r: String)
    ensures
        r@ == strip_all_prefix(s@, "./"@),
{
    proof {
        reveal_strlit("./");
    }
    let v = chars_of(s);
    let p: Vec<char> = vec!['.', '/'];
    assert(p@ =~= "./"@);
    let mut i: usize = 0;
    let ghost mut rest = v@;
    assert(v@.skip(0) =~= v@);
    while v.len() - i >= 2 && v[i] == '.' && v[i + 1] == '/'
        invariant
            0 <= i <= v@.len(),
            v@ == s@,
            "./"@ == seq!['.', '/'],
            rest == v@.skip(i as int),
            strip_all_prefix(s@, "./"@) == strip_all_prefix(rest, "./"@),
        decreases v@.len() - i,
    {
        proof {
            assert(rest.take(2) =~= seq!['.', '/']);
            assert(rest.skip(2) =~= v@.skip(i + 2));
            rest = v@.skip(i + 2);
        }
        i = i + 2;
    }
    proof {
        if starts_with(rest, "./"@) {
            assert(rest[0] == '.' && rest[1] == '/');
            assert(v@[i as int] == rest[0]);
            assert(v@[i + 1] == rest[1]);
        }
    }
    let r = copy_range(v.as_slice(), i, v.len());
    assert(r@ =~= rest);
    string_of(r.as_slice())
}

/// A path named in `album.nix`, relative to the album's folder: `./x` is
/// `x` there, an absolute path stays as it is, anything else is under the
/// folder.
pub open spec fn album_relative(dir: Seq<char>, p: Seq<char>) -> Seq<char> {
    if starts_with(p, "./"@) {
        join_path(dir, strip_all_prefix(p, "./"@))
    } else if starts_with(p, "/"@) {
        p
    } else {
        join_path(dir, p)
    }
}

pub fn resolve_relative(dir: &str, p: &str) -> (r: String)
    ensures
        r@ == album_relative(dir@, p@),
{
    proof {
        reveal_strlit("./");
        reveal_strlit("/");
    }
    let v = chars_of(p);
    let dot: Vec<char> = vec!['.', '/'];
    let slash: Vec<char> = vec!['/'];
    assert(dot@ =~= "./"@);
    assert(slash@ =~= "/"@);
    if starts_with_chars(v.as_slice(), dot.as_slice()) {
        let rest = strip_leading_dot_slash(p);
        join_path_str(dir, rest.as_str())
    } else if starts_with_chars(v.as_slice(), slash.as_slice()) {
        str_to_string(p)
    } else {
        join_path_str(dir, p)
    }
}

/// The source disk `album.nix` names, when it names one other than `.`.
pub open spec fn explicit_source(info: AlbumInfo, base: Seq<char>) -> Option<Seq<char>> {
    let p = info.source_disk_path@;
    if p.len() > 0 && p != "."@ {
        Some(album_relative(base, p))
    } else {
        None
    }
}

pub fn explicit_source_disk(info: &AlbumInfo, base: &str) -> (r: Option<String>)
    ensures
        match r {
            Some(s) => explicit_source(*info, base@) == Some(s@),
            None => explicit_source(*info, base@) is None,
        },
{
    if !info.source_disk_path.as_str().is_empty() && !str_eq(info.source_disk_path.as_str(), ".") {
        Some(resolve_relative(base, info.source_disk_path.as_str()))
    } else {
        None
    }
}

/// The name of an album's source under the store's roots: its torrent's
/// name made safe, a dash, and the first 32 characters of its hash in
/// Nix's base-32 (`converted`, what `nix hash to-base32` printed when it
/// succeeded).
pub open spec fn link_name(torrent_name: Seq<char>, torrent_hash: Seq<char>, converted: Option<Seq<char>>) -> Seq<char> {
    source_name(torrent_name) + seq!['-'] + nix32_name(torrent_hash, converted)
}

pub fn source_link_name(torrent_name: &str, torrent_hash: &str, converted: Option<String>) -> (r: String)
    ensures
        r@ == link_name(
            torrent_name@,
            torrent_hash@,
            match converted {
                Some(c) => Some(c@),
                None => None,
            },
        ),
{
    let mut s = sanitize_source_name(torrent_name);
    crate::text::push_char(&mut s, '-');
    let t = nix32_truncate(torrent_hash, converted);
    crate::text::push_str(&mut s, t.as_str());
    s
}

/// Where a source is kept once fetched: `<store>/gcroots/source/<link>`.
pub open spec fn gc_source_root(store: Seq<char>, link: Seq<char>) -> Seq<char> {
    join_path(join_path(join_path(store, "gcroots"@), "source"@), link)
}

pub fn gc_source_path(store: &str, link: &str) -> (r: String)
    ensures
        r@ == gc_source_root(store@, link@),
{
    let a = join_path_str(store, "gcroots");
    let b = join_path_str(a.as_str(), "source");
    join_path_str(b.as_str(), link)
}

/// Where the build's result is linked: `<store>/gcroots/albums/<pname>-<hash>`.
pub open spec fn result_link_of(store: Seq<char>, pname: Seq<char>, truncated: Seq<char>) -> Seq<char> {
    join_path(join_path(join_path(store, "gcroots"@), "albums"@), pname + seq!['-'] + truncated)
}

pub fn result_link(store: &str, pname: &str, truncated: &str) -> (r: String)
    ensures
        r@ == result_link_of(store@, pname@, truncated@),
{
    let a = join_path_str(store, "gcroots");
    let b = join_path_str(a.as_str(), "albums");
    let mut n = str_to_string(pname);
    crate::text::push_char(&mut n, '-');
    crate::text::push_str(&mut n, truncated);
    join_path_str(b.as_str(), n.as_str())
}

/// A source already in the store is not verified.
pub fn source_in_store(physical: &str, store: &str) -> (r: bool)
    ensures
        r == path_has_prefix(physical@, store@),
{
    has_path_prefix(physical, store)
}

/// A cover is verified when `album.nix` names it by an absolute path that
/// lies outside the store.
pub fn cover_needs_check(cover_file: &str, store: &str) -> (r: bool)
    ensures
        r == (starts_with(cover_file@, "/"@) && !path_has_prefix(cover_file@, store@)),
{
    proof {
        reveal_strlit("/");
    }
    let v = chars_of(cover_file);
    let slash: Vec<char> = vec!['/'];
    assert(slash@ =~= "/"@);
    starts_with_chars(v.as_slice(), slash.as_slice()) && !has_path_prefix(cover_file, store)
}

/// How `nix hash` reads a path: a folder as a `path`, anything else as a
/// `file`.
pub fn hash_mode(is_dir: bool) -> (r: String)
    ensures
        r@ == (if is_dir {
            "path"@
        } else {
            "file"@
        }),
{
    if is_dir {
        str_to_string("path")
    } else {
        str_to_string("file")
    }
}

/// The message when a hash is missing from `album.nix` or differs from the
/// one computed.
pub open spec fn hash_mismatch_message(name: Seq<char>, expected: Seq<char>, actual: Seq<char>) -> Seq<char> {
    name + " hash mismatch or missing in manifest.\n\nExpected: '"@ + or_default(expected, "none"@)
        + "'\nActual:   '"@ + actual + "'\n\nPlease update the hash in album.nix to the actual value."@
}

/// A hash checks out when one was declared and it is the one computed.
pub fn check_hash(name: &str, expected: &str, actual: &str) -> (r: Result<(), String>)
    ensures
        r is Ok <==> (expected@.len() > 0 && expected@ == actual@),
        r matches Err(m) ==> m@ == hash_mismatch_message(name@, expected@, actual@),
{
    if expected.is_empty() || !str_eq(expected, actual) {
        let mut m = str_to_string(name);
        crate::text::push_str(&mut m, " hash mismatch or missing in manifest.\n\nExpected: '");
        let e = or_default_exec(str_to_string(expected), "none");
        crate::text::push_str(&mut m, e.as_str());
        crate::text::push_str(&mut m, "'\nActual:   '");
        crate::text::push_str(&mut m, actual);
        crate::text::push_str(&mut m, "'\n\nPlease update the hash in album.nix to the actual value.");
        Err(m)
    } else {
        Ok(())
    }
}

/// The variables the configured commands are filled with.
pub open spec fn command_vars(source: Seq<char>, torrent_file: Seq<char>, hash: Seq<char>, name: Seq<char>) -> Map<Seq<char>, Seq<char>> {
    map![
        "sourceDisk.path"@ => source,
        "sourceTorrent.file"@ => torrent_file,
        "sourceTorrent.hash"@ => hash,
        "sourceTorrent.name"@ => name,
    ]
}

pub fn build_vars(source: &str, torrent_file: &str, hash: &str, name: &str) -> (r: Vec<(String, String)>)
    ensures
        crate::assoc::distinct(crate::assoc::skeys(r@)),
        crate::assoc::smap(r@).map_values(|s: String| s@) == command_vars(source@, torrent_file@, hash@, name@),
{
    let mut r: Vec<(String, String)> = Vec::new();
    crate::assoc::sput(&mut r, str_to_string("sourceDisk.path"), str_to_string(source));
    crate::assoc::sput(&mut r, str_to_string("sourceTorrent.file"), str_to_string(torrent_file));
    crate::assoc::sput(&mut r, str_to_string("sourceTorrent.hash"), str_to_string(hash));
    crate::assoc::sput(&mut r, str_to_string("sourceTorrent.name"), str_to_string(name));
    assert(crate::assoc::smap(r@).map_values(|s: String| s@) =~= command_vars(source@, torrent_file@, hash@, name@));
    r
}

/// A path of the Nix store as it lies under a store kept elsewhere: an
/// absolute path loses its leading `/` and goes under `store`.
pub open spec fn in_store(store: Seq<char>, p: Seq<char>) -> Seq<char> {
    if starts_with(p, "/"@) {
        join_path(store, p.skip(1))
    } else {
        p
    }
}

pub fn map_into_store(store: &str, p: &str) -> (r: String)
    ensures
        r@ == in_store(store@, p@),
{
    proof {
        reveal_strlit("/");
    }
    let v = chars_of(p);
    if v.len() > 0 && v[0] == '/' {
        let rest = copy_range(v.as_slice(), 1, v.len());
        assert(rest@ =~= p@.skip(1));
        assert(starts_with(p@, "/"@)) by {
            assert(p@.take(1) =~= "/"@);
        }
        join_path_str(store, string_of(rest.as_slice()).as_str())
    } else {
        assert(!starts_with(p@, "/"@)) by {
            if starts_with(p@, "/"@) {
                assert(p@.take(1)[0] == "/"@[0]);
            }
        }
        str_to_string(p)
    }
}

/// The source's store path the build reports, when it is one, as it lies
/// under the store kept here; nothing is pinned or seeded otherwise.
pub open spec fn pinned_source(store: Seq<char>, raw: Seq<char>) -> Option<Seq<char>> {
    if raw.len() == 0 || !starts_with(raw, "/nix/store"@) {
        None
    } else {
        Some(join_path(store, raw.skip(1)))
    }
}

pub fn pin_source_path(store: &str, raw: &str) -> (r: Option<String>)
    ensures
        match r {
            Some(s) => pinned_source(store@, raw@) == Some(s@),
            None => pinned_source(store@, raw@) is None,
        },
{
    proof {
        reveal_strlit("/nix/store");
        reveal_strlit("/");
    }
    let v = chars_of(raw);
    let pfx = chars_of("/nix/store");
    if v.len() == 0 || !starts_with_chars(v.as_slice(), pfx.as_slice()) {
        None
    } else {
        assert(v@[0] == '/') by {
            assert(v@.take(pfx@.len() as int)[0] == pfx@[0]);
        }
        let s = map_into_store(store, raw);
        assert(starts_with(raw@, "/"@)) by {
            assert(raw@.take(1) =~= "/"@);
        }
        Some(s)
    }
}

/// Where a link among the build's outputs really points: into the store
/// kept here for a Nix store path, beside the outputs for a relative one,
/// as it is otherwise.
pub open spec fn link_source(resolved: Seq<char>, store_dir: Seq<char>, store: Seq<char>) -> Seq<char> {
    if path_has_prefix(resolved, "/nix/store"@) {
        in_store(store, resolved)
    } else if !starts_with(resolved, "/"@) {
        join_path(store_dir, resolved)
    } else {
        resolved
    }
}

pub fn resolve_output_link(resolved: &str, store_dir: &str, store: &str) -> (r: String)
    ensures
        r@ == link_source(resolved@, store_dir@, store@),
{
    proof {
        reveal_strlit("/");
    }
    if has_path_prefix(resolved, "/nix/store") {
        map_into_store(store, resolved)
    } else {
        let v = chars_of(resolved);
        if !(v.len() > 0 && v[0] == '/') {
            assert(!starts_with(resolved@, "/"@)) by {
                if starts_with(resolved@, "/"@) {
                    assert(resolved@.take(1)[0] == "/"@[0]);
                }
            }
            join_path_str(store_dir, resolved)
        } else {
            assert(starts_with(resolved@, "/"@)) by {
                assert(resolved@.take(1) =~= "/"@);
            }
            str_to_string(resolved)
        }
    }
}

/// A flake named by a path (absolute, or under the home folder) is used as
/// `path:<folder>`.
pub fn flake_is_path(flake: &str) -> (r: bool)
    ensures
        r == (flake@.len() > 0 && (flake@[0] == '/' || flake@[0] == '~')),
{
    let v = chars_of(flake);
    v.len() > 0 && (v[0] == '/' || v[0] == '~')
}

pub fn path_flake_uri(dir: &str) -> (r: String)
    ensures
        r@ == "path:"@ + dir@,
{
    let mut s = str_to_string("path:");
    crate::text::push_str(&mut s, dir);
    s
}

/// The expression that builds the album against the flake's library.
pub open spec fn build_expr_of(flake: Seq<char>) -> Seq<char> {
    "(import ./album.nix { vellum = (builtins.getFlake \""@ + flake + "\").lib; })"@
}

pub fn build_expr(flake: &str) -> (r: String)
    ensures
        r@ == build_expr_of(flake@),
{
    let mut s = str_to_string("(import ./album.nix { vellum = (builtins.getFlake \"");
    crate::text::push_str(&mut s, flake);
    crate::text::push_str(&mut s, "\").lib; })");
    s
}

/// The expression that evaluates the store path of the album's source.
pub fn source_expr(flake: &str) -> (r: String)
    ensures
        r@ == build_expr_of(flake@) + ".sourceStorePath"@,
{
    let mut s = build_expr(flake);
    crate::text::push_str(&mut s, ".sourceStorePath");
    s
}

/// The expression that reads one field of `album.nix` as text (empty when
/// the field is missing).
pub open spec fn field_expr_of(path: Seq<char>, field: Seq<char>) -> Seq<char> {
    "let res = (import (/. + \""@ + path + "\") { vellum = { mkAlbum = x: x; }; }); in builtins.toString (res."@
        + field + " or \"\")"@
}

pub fn field_expr(path: &str, field: &str) -> (r: String)
    ensures
        r@ == field_expr_of(path@, field@),
{
    let mut s = str_to_string("let res = (import (/. + \"");
    crate::text::push_str(&mut s, path);
    crate::text::push_str(&mut s, "\") { vellum = { mkAlbum = x: x; }; }); in builtins.toString (res.");
    crate::text::push_str(&mut s, field);
    crate::text::push_str(&mut s, " or \"\")");
    s
}

} // verus!

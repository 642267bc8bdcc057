//! What the `update` command keeps between runs and decides from it: the
//! library's hash, the stamp of the configuration, the modification-time
//! sums of albums, which albums changed or went missing, and how the cache
//! is brought up to date afterwards.
use vstd::prelude::*;
use crate::assoc::{distinct, skeys, smap, sput, sremove};
use crate::album::{path_strip_prefix, rel_path};
use crate::collate::{lower, to_lower};
use crate::json::{Json, JsonV, jget, jbool};
use crate::paths::{join_path, join_path_str};
use crate::text::{chars_of, ends_with, starts_with, str_eq, str_to_string, string_of, contains_chars, starts_with_chars, ends_with_chars, copy_range};

verus! {

// ---------------------------------------------------------------------------
// Hashes
// ---------------------------------------------------------------------------

/// What `blake3::hash(data).to_hex()` gives for some bytes.
pub uninterp spec fn blake3_hex(data: Seq<u8>) -> Seq<char>;

pub open spec fn is_lower_hex(c: char) -> bool {
    ('0' <= c && c <= '9') || ('a' <= c && c <= 'f')
}

/// `blake3::hash` followed by `Hash::to_hex`: the 32-byte BLAKE3 digest of
/// the bytes, as 64 lowercase hexadecimal digits.  The digest itself is not
/// written out here; it is named `blake3_hex` of the bytes.
#[verifier::external_body]
fn hash_bytes(data: &[u8]) -> (r: String)
    ensures
        r@ == blake3_hex(data@),
        r@.len() == 64,
        forall|i: int| 0 <= i < 64 ==> is_lower_hex(#[trigger] r@[i]),
{
    blake3::hash(data).to_hex().to_string()
}

/// The hash that names a library: the BLAKE3 digest of its root's UTF-8
/// text, in hexadecimal.
pub fn calculate_hash(data: &str) -> (r: String)
    ensures
        r@ == blake3_hex(vstd::utf8::encode_utf8(data@)),
        r@.len() == 64,
        forall|i: int| 0 <= i < 64 ==> is_lower_hex(#[trigger] r@[i]),
{
    hash_bytes(data.as_bytes())
}

/// The text a cover's cache entry is keyed by: the cover's path, its size
/// and its modification time, separated by `:`.
pub open spec fn cover_cache_text(path: Seq<char>, size: u64, mtime: u64) -> Seq<char> {
    path + seq![':'] + crate::text::dec(size as nat) + seq![':'] + crate::text::dec(mtime as nat)
}

/// The name of a cover's cache entry: the BLAKE3 hex digest of its key text.
pub fn cover_cache_key(path: &str, size: u64, mtime: u64) -> (r: String)
    ensures
        r@ == blake3_hex(vstd::utf8::encode_utf8(cover_cache_text(path@, size, mtime))),
{
    let mut v = chars_of(path);
    v.push(':');
    crate::text::push_decimal(&mut v, size);
    v.push(':');
    crate::text::push_decimal(&mut v, mtime);
    let text = string_of(v.as_slice());
    assert(text@ =~= cover_cache_text(path@, size, mtime));
    calculate_hash(text.as_str())
}

/// Byte strings one after another.
pub open spec fn concat_bytes(parts: Seq<Seq<u8>>) -> Seq<u8>
    decreases parts.len(),
{
    if parts.len() == 0 {
        Seq::empty()
    } else {
        concat_bytes(parts.drop_last()) + parts.last()
    }
}

/// The stamp of the Lua configuration: the BLAKE3 digest of the contents of
/// its files that could be read, one after another (an incremental hasher
/// fed each file gives the same digest).
pub fn get_lua_config_hash(contents: &Vec<Vec<u8>>) -> (r: String)
    ensures
        r@ == blake3_hex(concat_bytes(contents@.map_values(|c: Vec<u8>| c@))),
        r@.len() == 64,
{
    let ghost cv = contents@.map_values(|c: Vec<u8>| c@);
    let mut all: Vec<u8> = Vec::new();
    let mut i: usize = 0;
    while i < contents.len()
        invariant
            0 <= i <= contents@.len(),
            cv == contents@.map_values(|c: Vec<u8>| c@),
            all@ == concat_bytes(cv.take(i as int)),
        decreases contents@.len() - i,
    {
        assert(cv.take(i + 1).drop_last() =~= cv.take(i as int));
        let part = &contents[i];
        let mut j: usize = 0;
        let ghost start = all@;
        while j < part.len()
            invariant
                0 <= j <= part@.len(),
                all@ == start + part@.take(j as int),
            decreases part@.len() - j,
        {
            all.push(part[j]);
            assert(part@.take(j + 1) =~= part@.take(j as int).push(part@[j as int]));
            j = j + 1;
        }
        assert(part@.take(j as int) =~= part@);
        i = i + 1;
    }
    assert(cv.take(i as int) =~= cv);
    hash_bytes(all.as_slice())
}

/// Whether the configuration changed since the stamp was written: the new
/// stamp differs from the one kept (an unreadable one reads as empty).
pub fn config_changed(hash: &str, previous: &str) -> (r: bool)
    ensures
        r == (hash@ != previous@),
{
    !str_eq(hash, previous)
}

// ---------------------------------------------------------------------------
// The library root
// ---------------------------------------------------------------------------

/// What an album's cache entry keeps: the sum of the modification times
/// that matter to it.
pub struct AlbumCacheEntry {
    pub mtime_sum: u64,
}

/// The state kept in `current.json`: the hash of the library root last
/// updated.
pub struct CurrentState {
    pub hash: String,
}

/// The library root is unchanged when a state was kept and its hash is the
/// current one; otherwise the state is written anew and the server reset.
pub fn library_root_unchanged(saved: &Option<CurrentState>, current_hash: &str) -> (r: bool)
    ensures
        r == (saved matches Some(s) && s.hash@ == current_hash@),
{
    match saved {
        Some(s) => str_eq(s.hash.as_str(), current_hash),
        None => false,
    }
}

/// The state written when the root changed.
pub fn current_state(current_hash: &str) -> (r: CurrentState)
    ensures
        r.hash@ == current_hash@,
{
    CurrentState { hash: str_to_string(current_hash) }
}

/// The cache directory of a library: `<cache>/libraries/<hash>`.
pub fn library_cache_dir(cache_root: &str, lib_hash: &str) -> (r: String)
    ensures
        r@ == join_path(join_path(cache_root@, "libraries"@), lib_hash@),
{
    let d = join_path_str(cache_root, "libraries");
    join_path_str(d.as_str(), lib_hash)
}

// ---------------------------------------------------------------------------
// Modification-time sums
// ---------------------------------------------------------------------------

/// The names a cover image may have, in the order they are looked for.
pub open spec fn cover_names() -> Seq<Seq<char>> {
    seq!["cover.jpg"@, "cover.png"@, "folder.jpg"@, "front.jpg"@]
}

pub fn cover_candidates() -> (r: Vec<String>)
    ensures
        r@.map_values(|s: String| s@) == cover_names(),
{
    let mut r: Vec<String> = Vec::new();
    r.push(str_to_string("cover.jpg"));
    r.push(str_to_string("cover.png"));
    r.push(str_to_string("folder.jpg"));
    r.push(str_to_string("front.jpg"));
    assert(r@.map_values(|s: String| s@) =~= cover_names());
    r
}

/// Whether a file's extension marks audio: `.` and the extension in lower
/// case is one of the configured extensions.
pub open spec fn is_audio_ext_of(ext: Seq<char>, exts: Seq<Seq<char>>) -> bool {
    exts.contains(seq!['.'] + lower(ext))
}

pub fn is_audio_ext(ext: &str, exts: &Vec<String>) -> (r: bool)
    ensures
        r == is_audio_ext_of(ext@, exts@.map_values(|s: String| s@)),
{
    let mut dotted = str_to_string(".");
    let low = to_lower(ext);
    crate::text::push_str(&mut dotted, low.as_str());
    assert(dotted@ =~= seq!['.'] + lower(ext@)) by {
        reveal_strlit(".");
    }
    let mut i: usize = 0;
    while i < exts.len()
        invariant
            0 <= i <= exts@.len(),
            dotted@ == seq!['.'] + lower(ext@),
            forall|m: int| 0 <= m < i ==> exts@[m]@ != dotted@,
        decreases exts@.len() - i,
    {
        if str_eq(exts[i].as_str(), dotted.as_str()) {
            assert(exts@.map_values(|s: String| s@)[i as int] == dotted@);
            return true;
        }
        i = i + 1;
    }
    assert(!exts@.map_values(|s: String| s@).contains(dotted@)) by {
        let ev = exts@.map_values(|s: String| s@);
        if ev.contains(dotted@) {
            let m = choose|m: int| 0 <= m < ev.len() && ev[m] == dotted@;
            assert(exts@[m]@ == dotted@);
        }
    }
    false
}

/// A sum of natural numbers.
pub open spec fn total(s: Seq<u64>) -> nat
    decreases s.len(),
{
    if s.len() == 0 {
        0
    } else {
        total(s.drop_last()) + (s.last() as nat)
    }
}

/// The sum an album's cache entry keeps: the folder's modification time,
/// the metadata file's and those of the manifests that exist, the first
/// cover image found (0 without one), and the audio files'.
pub open spec fn mtime_total(dir: u64, meta: u64, manifests: Seq<u64>, cover: u64, tracks: Seq<u64>) -> nat {
    (dir as nat) + (meta as nat) + total(manifests) + (cover as nat) + total(tracks)
}

proof fn lemma_total_prefix(s: Seq<u64>, i: int)
    requires
        0 <= i <= s.len(),
    ensures
        total(s.take(i)) <= total(s),
    decreases s.len() - i,
{
    if i < s.len() {
        lemma_total_prefix(s, i + 1);
        assert(s.take(i + 1).drop_last() =~= s.take(i));
    } else {
        assert(s.take(i) =~= s);
    }
}

pub(crate) fn sum_u64(s: &Vec<u64>, limit: u64) -> (r: u64)
    requires
        total(s@) <= limit,
    ensures
        r == total(s@),
{
    let mut acc: u64 = 0;
    let mut i: usize = 0;
    while i < s.len()
        invariant
            0 <= i <= s@.len(),
            total(s@) <= limit,
            acc == total(s@.take(i as int)),
        decreases s@.len() - i,
    {
        proof {
            lemma_total_prefix(s@, i + 1);
            assert(s@.take(i + 1).drop_last() =~= s@.take(i as int));
        }
        acc = acc + s[i];
        i = i + 1;
    }
    assert(s@.take(i as int) =~= s@);
    acc
}

/// The modification-time sum of an album.  The times are added with plain
/// addition, which must not wrap, so the sum is asked to fit.
pub fn get_mtime_sum(dir: u64, meta: u64, manifests: &Vec<u64>, cover: u64, tracks: &Vec<u64>) -> (r: u64)
    requires
        mtime_total(dir, meta, manifests@, cover, tracks@) <= u64::MAX,
    ensures
        r == mtime_total(dir, meta, manifests@, cover, tracks@),
{
    let m = sum_u64(manifests, u64::MAX);
    let t = sum_u64(tracks, u64::MAX);
    dir + meta + m + cover + t
}

// ---------------------------------------------------------------------------
// Albums that went missing, albums that changed
// ---------------------------------------------------------------------------

/// The album a cached file key belongs to, when it is an album's
/// `metadata.toml`: the library root's for the bare name, the folder before
/// `/metadata.toml` otherwise.
pub open spec fn cached_album(k: Seq<char>) -> Option<Seq<char>> {
    if k == "metadata.toml"@ {
        Some(Seq::empty())
    } else if ends_with(k, "/metadata.toml"@) {
        Some(k.take(k.len() - "/metadata.toml"@.len()))
    } else {
        None
    }
}

fn cached_album_of(k: &str) -> (r: Option<String>)
    ensures
        match r {
            Some(a) => cached_album(k@) == Some(a@),
            None => cached_album(k@) is None,
        },
{
    proof {
        reveal_strlit("");
    }
    if str_eq(k, "metadata.toml") {
        return Some(str_to_string(""));
    }
    let v = chars_of(k);
    let suffix = chars_of("/metadata.toml");
    if ends_with_chars(v.as_slice(), suffix.as_slice()) {
        let a = copy_range(v.as_slice(), 0, v.len() - suffix.len());
        assert(a@ =~= k@.take(k@.len() - "/metadata.toml"@.len()));
        Some(string_of(a.as_slice()))
    } else {
        None
    }
}

/// The albums of the cache that are no longer in the library: those whose
/// metadata file a key names and that no album found has for its id.
pub open spec fn missing_album(keys: Seq<Seq<char>>, current: Seq<Seq<char>>, id: Seq<char>) -> bool {
    (exists|i: int| 0 <= i < keys.len() && cached_album(keys[i]) == Some(id)) && !current.contains(id)
}

/// An album missing among the first `n` keys.
pub open spec fn seen_missing(keys: Seq<Seq<char>>, current: Seq<Seq<char>>, n: int, id: Seq<char>) -> bool {
    (exists|i: int| 0 <= i < n && cached_album(keys[i]) == Some(id)) && !current.contains(id)
}

proof fn lemma_seen_missing_step(keys: Seq<Seq<char>>, current: Seq<Seq<char>>, n: int, id: Seq<char>)
    requires
        0 <= n < keys.len(),
    ensures
        seen_missing(keys, current, n + 1, id) == (seen_missing(keys, current, n, id) || (cached_album(
            keys[n],
        ) == Some(id) && !current.contains(id))),
{
    if (exists|i: int| 0 <= i < n + 1 && cached_album(keys[i]) == Some(id)) {
        let i = choose|i: int| 0 <= i < n + 1 && cached_album(keys[i]) == Some(id);
        if i < n {
            assert(exists|i: int| 0 <= i < n && cached_album(keys[i]) == Some(id));
        }
    }
    if cached_album(keys[n]) == Some(id) {
        assert(exists|i: int| 0 <= i < n + 1 && cached_album(keys[i]) == Some(id));
    }
}

fn contains_str(v: &Vec<String>, s: &str) -> (r: bool)
    ensures
        r == v@.map_values(|x: String| x@).contains(s@),
{
    let mut i: usize = 0;
    while i < v.len()
        invariant
            0 <= i <= v@.len(),
            forall|m: int| 0 <= m < i ==> v@[m]@ != s@,
        decreases v@.len() - i,
    {
        if str_eq(v[i].as_str(), s) {
            assert(v@.map_values(|x: String| x@)[i as int] == s@);
            return true;
        }
        i = i + 1;
    }
    assert(!v@.map_values(|x: String| x@).contains(s@)) by {
        let vv = v@.map_values(|x: String| x@);
        if vv.contains(s@) {
            let m = choose|m: int| 0 <= m < vv.len() && vv[m] == s@;
            assert(v@[m]@ == s@);
        }
    }
    false
}

/// The folders of the albums that went missing: each missing album once,
/// under the library root.
pub fn find_missing_paths(albums: &Vec<String>, library_root: &str, cache_keys: &Vec<String>) -> (r: Vec<String>)
    ensures
        exists|ids: Seq<Seq<char>>| {
            &&& distinct(ids)
            &&& ids.len() == r@.len()
            &&& forall|i: int| 0 <= i < ids.len() ==> (#[trigger] r@[i])@ == join_path(library_root@, ids[i])
            &&& forall|id: Seq<char>| ids.contains(id) <==> missing_album(
                cache_keys@.map_values(|s: String| s@),
                albums@.map_values(|a: String| rel_of(a@, library_root@)),
                id,
            )
        },
{
    let ghost keys = cache_keys@.map_values(|s: String| s@);
    let ghost cur = albums@.map_values(|a: String| rel_of(a@, library_root@));
    let mut current: Vec<String> = Vec::new();
    let mut i: usize = 0;
    while i < albums.len()
        invariant
            0 <= i <= albums@.len(),
            cur == albums@.map_values(|a: String| rel_of(a@, library_root@)),
            current@.map_values(|s: String| s@) == cur.take(i as int),
        decreases albums@.len() - i,
    {
        let ghost before = current@.map_values(|s: String| s@);
        current.push(rel_path(albums[i].as_str(), library_root));
        assert(current@.map_values(|s: String| s@) =~= before.push(cur[i as int]));
        assert(cur.take(i + 1) =~= cur.take(i as int).push(cur[i as int]));
        i = i + 1;
    }
    assert(cur.take(i as int) =~= cur);
    let mut ids: Vec<String> = Vec::new();
    let mut out: Vec<String> = Vec::new();
    let mut j: usize = 0;
    while j < cache_keys.len()
        invariant
            0 <= j <= cache_keys@.len(),
            keys == cache_keys@.map_values(|s: String| s@),
            current@.map_values(|s: String| s@) == cur,
            distinct(ids@.map_values(|s: String| s@)),
            ids@.len() == out@.len(),
            forall|m: int| 0 <= m < ids@.len() ==> (#[trigger] out@[m])@ == join_path(library_root@, ids@[m]@),
            forall|id: Seq<char>| ids@.map_values(|s: String| s@).contains(id) <==> seen_missing(keys, cur, j as int, id),
        decreases cache_keys@.len() - j,
    {
        let ghost before = ids@.map_values(|s: String| s@);
        assert(keys[j as int] == cache_keys@[j as int]@);
        match cached_album_of(cache_keys[j].as_str()) {
            Some(a) => {
                let in_cur = contains_str(&current, a.as_str());
                let in_ids = contains_str(&ids, a.as_str());
                if !in_cur && !in_ids {
                    out.push(join_path_str(library_root, a.as_str()));
                    let ghost av = a@;
                    ids.push(a);
                    let ghost after = ids@.map_values(|s: String| s@);
                    assert(after =~= before.push(av));
                    assert forall|id: Seq<char>| after.contains(id) <==> seen_missing(keys, cur, j + 1, id) by {
                        lemma_seen_missing_step(keys, cur, j as int, id);
                        if id == av {
                            assert(after[before.len() as int] == av);
                        } else if after.contains(id) {
                            let q = choose|q: int| 0 <= q < after.len() && after[q] == id;
                            assert(before[q] == id);
                        } else if before.contains(id) {
                            let q = choose|q: int| 0 <= q < before.len() && before[q] == id;
                            assert(after[q] == id);
                        }
                    }
                } else {
                    assert forall|id: Seq<char>| before.contains(id) <==> seen_missing(keys, cur, j + 1, id) by {
                        lemma_seen_missing_step(keys, cur, j as int, id);
                    }
                }
            },
            None => {
                assert forall|id: Seq<char>| before.contains(id) <==> seen_missing(keys, cur, j + 1, id) by {
                    lemma_seen_missing_step(keys, cur, j as int, id);
                }
            },
        }
        j = j + 1;
    }
    proof {
        let idv = ids@.map_values(|s: String| s@);
        assert(keys.len() == cache_keys@.len());
        assert(j == keys.len());
        assert forall|id: Seq<char>| idv.contains(id) <==> missing_album(keys, cur, id) by {
            assert(seen_missing(keys, cur, j as int, id) == missing_album(keys, cur, id));
        }
    }
    out
}

/// An album's id: its folder relative to the library root, or the folder
/// itself elsewhere (`rel_path`).
pub open spec fn rel_of(target: Seq<char>, base: Seq<char>) -> Seq<char> {
    match path_strip_prefix(target, base) {
        Some(p) => p,
        None => target,
    }
}

/// What is known of a file: its modification time in seconds and its size.
pub struct FileStat {
    pub mtime: u64,
    pub size: u64,
}

/// Whether a cached file key belongs to an album: a key without `/` for
/// the album at the root, a key under `<id>/` otherwise.
pub open spec fn key_in_album(k: Seq<char>, album_id: Seq<char>) -> bool {
    if album_id.len() == 0 {
        !k.contains('/')
    } else {
        starts_with(k, album_id + seq!['/'])
    }
}

/// Whether an album must be compiled again: when forced, when it has no
/// lock file, when a file's size or time could not be read or differs from
/// the cache, or when the cache knows a file of the album that is gone.
pub open spec fn album_dirty(
    force: bool,
    has_lock: bool,
    album_id: Seq<char>,
    files: Seq<(Seq<char>, Option<(u64, u64)>)>,
    cache: Map<Seq<char>, (u64, u64)>,
) -> bool {
    ||| force
    ||| !has_lock
    ||| exists|i: int| 0 <= i < files.len() && match #[trigger] files[i].1 {
        None => true,
        Some(st) => !(cache.contains_key(files[i].0) && cache[files[i].0] == st),
    }
    ||| exists|k: Seq<char>| #[trigger] cache.contains_key(k) && key_in_album(k, album_id) && !(exists|i: int|
        0 <= i < files.len() && files[i].0 == k)
}

pub open spec fn stat_view(s: Option<FileStat>) -> Option<(u64, u64)> {
    match s {
        Some(f) => Some((f.mtime, f.size)),
        None => None,
    }
}

pub open spec fn cache_view(c: Seq<(String, FileStat)>) -> Map<Seq<char>, (u64, u64)> {
    smap(c).map_values(|f: FileStat| (f.mtime, f.size))
}

fn key_in_album_exec(k: &str, album_id: &str) -> (r: bool)
    ensures
        r == key_in_album(k@, album_id@),
{
    let kv = chars_of(k);
    let av = chars_of(album_id);
    if av.len() == 0 {
        let slash: Vec<char> = vec!['/'];
        let c = contains_chars(kv.as_slice(), slash.as_slice());
        proof {
            assert(slash@ =~= seq!['/']);
            if c {
                let i = choose|i: int| crate::text::occurs_at(kv@, seq!['/'], i);
                assert(kv@.subrange(i, i + 1)[0] == '/');
                assert(k@[i] == '/');
                assert(k@.contains('/'));
            }
            if k@.contains('/') {
                let i = choose|i: int| 0 <= i < k@.len() && k@[i] == '/';
                assert(crate::text::occurs_at(kv@, seq!['/'], i)) by {
                    assert(kv@.subrange(i, i + 1) =~= seq!['/']);
                }
            }
        }
        !c
    } else {
        let mut p = av;
        p.push('/');
        assert(p@ =~= album_id@ + seq!['/']);
        starts_with_chars(kv.as_slice(), p.as_slice())
    }
}

/// Whether an album must be compiled again; `files` are the files walked
/// under its folder, each relative to the library root with its time and
/// size (`None` where they could not be read), in the order walked.
pub fn verify_album(
    force: bool,
    has_lock: bool,
    album_root: &str,
    library_root: &str,
    files: &Vec<(String, Option<FileStat>)>,
    cache: &Vec<(String, FileStat)>,
) -> (r: bool)
    requires
        distinct(skeys(cache@)),
    ensures
        r == album_dirty(
            force,
            has_lock,
            rel_of(album_root@, library_root@),
            files@.map_values(|f: (String, Option<FileStat>)| (f.0@, stat_view(f.1))),
            cache_view(cache@),
        ),
{
    let ghost fv = files@.map_values(|f: (String, Option<FileStat>)| (f.0@, stat_view(f.1)));
    let ghost cv = cache_view(cache@);
    if force || !has_lock {
        return true;
    }
    let album_id = rel_path(album_root, library_root);
    let mut i: usize = 0;
    while i < files.len()
        invariant
            0 <= i <= files@.len(),
            distinct(skeys(cache@)),
            fv == files@.map_values(|f: (String, Option<FileStat>)| (f.0@, stat_view(f.1))),
            cv == cache_view(cache@),
            forall|m: int| 0 <= m < i ==> match #[trigger] fv[m].1 {
                None => false,
                Some(st) => cv.contains_key(fv[m].0) && cv[fv[m].0] == st,
            },
        decreases files@.len() - i,
    {
        let ghost m = i as int;
        match &files[i].1 {
            None => {
                assert(fv[m].1 is None);
                return true;
            },
            Some(st) => {
                match crate::assoc::sfind(cache, files[i].0.as_str()) {
                    Some(p) => {
                        proof {
                            crate::assoc::lemma_smap_at(cache@, p as int);
                        }
                        if cache[p].1.mtime != st.mtime || cache[p].1.size != st.size {
                            assert(!(cv.contains_key(fv[m].0) && cv[fv[m].0] == fv[m].1->0));
                            return true;
                        }
                    },
                    None => {
                        assert(!cv.contains_key(fv[m].0));
                        return true;
                    },
                }
            },
        }
        i = i + 1;
    }
    let mut j: usize = 0;
    while j < cache.len()
        invariant
            0 <= j <= cache@.len(),
            distinct(skeys(cache@)),
            fv == files@.map_values(|f: (String, Option<FileStat>)| (f.0@, stat_view(f.1))),
            cv == cache_view(cache@),
            album_id@ == rel_of(album_root@, library_root@),
            forall|m: int| 0 <= m < fv.len() ==> match #[trigger] fv[m].1 {
                None => false,
                Some(st) => cv.contains_key(fv[m].0) && cv[fv[m].0] == st,
            },
            forall|q: int| 0 <= q < j ==> !key_in_album(#[trigger] cache@[q].0@, album_id@) || (exists|m: int|
                0 <= m < fv.len() && fv[m].0 == cache@[q].0@),
        decreases cache@.len() - j,
    {
        let k = cache[j].0.as_str();
        if key_in_album_exec(k, album_id.as_str()) {
            let mut seen = false;
            let mut m: usize = 0;
            while m < files.len()
                invariant
                    0 <= m <= files@.len(),
                    fv == files@.map_values(|f: (String, Option<FileStat>)| (f.0@, stat_view(f.1))),
                    seen ==> exists|x: int| 0 <= x < fv.len() && fv[x].0 == k@,
                    !seen ==> forall|x: int| 0 <= x < m ==> fv[x].0 != k@,
                decreases files@.len() - m,
            {
                if str_eq(files[m].0.as_str(), k) {
                    assert(fv[m as int].0 == k@);
                    seen = true;
                }
                m = m + 1;
            }
            if !seen {
                proof {
                    crate::assoc::lemma_smap_at(cache@, j as int);
                    assert(cv.contains_key(k@));
                }
                return true;
            }
        }
        j = j + 1;
    }
    proof {
        assert forall|k: Seq<char>| #[trigger] cv.contains_key(k) && key_in_album(k, album_id@) implies (exists|i: int|
            0 <= i < fv.len() && fv[i].0 == k) by {
            let q = choose|q: int| 0 <= q < cache@.len() && cache@[q].0@ == k;
        }
        assert(!(exists|i: int| 0 <= i < fv.len() && match #[trigger] fv[i].1 {
            None => true,
            Some(st) => !(cv.contains_key(fv[i].0) && cv[fv[i].0] == st),
        }));
    }
    false
}

// ---------------------------------------------------------------------------
// The server's list of tracked albums
// ---------------------------------------------------------------------------

/// The albums the server tracked since the last update, when it answered
/// that no full rescan is needed: the string items of `tracked_albums`.
pub open spec fn tracked_ids(data: JsonV) -> Option<Seq<Seq<char>>> {
    if jbool(jget(data, "full_rescan"@)) != Some(false) {
        None
    } else {
        match jget(data, "tracked_albums"@) {
            Some(JsonV::Array(items)) => Some(strings_in(items)),
            _ => None,
        }
    }
}

/// The string items of a list, in order.
pub open spec fn strings_in(items: Seq<JsonV>) -> Seq<Seq<char>>
    decreases items.len(),
{
    if items.len() == 0 {
        Seq::empty()
    } else {
        let prev = strings_in(items.drop_last());
        match items.last() {
            JsonV::Str(s) => prev.push(s),
            _ => prev,
        }
    }
}

/// The folders of the albums the server tracked, under the library root,
/// or `None` when a full scan is needed.
pub fn tracked_album_paths(data: &Json, library_root: &str) -> (r: Option<Vec<String>>)
    ensures
        match r {
            Some(v) => tracked_ids(data@) matches Some(ids) && v@.len() == ids.len() && forall|i: int|
                0 <= i < ids.len() ==> (#[trigger] v@[i])@ == join_path(library_root@, ids[i]),
            None => tracked_ids(data@) is None,
        },
{
    let full = match data.get("full_rescan") {
        Some(v) => v.as_bool(),
        None => None,
    };
    match full {
        Some(false) => {},
        _ => {
            return None;
        },
    }
    let items = match data.get("tracked_albums") {
        Some(v) => match v.as_array() {
            Some(a) => a,
            None => {
                return None;
            },
        },
        None => {
            return None;
        },
    };
    let ghost iv = items@.map_values(|x: Json| x@);
    let mut out: Vec<String> = Vec::new();
    let mut i: usize = 0;
    while i < items.len()
        invariant
            0 <= i <= items@.len(),
            iv == items@.map_values(|x: Json| x@),
            out@.len() == strings_in(iv.take(i as int)).len(),
            forall|m: int| 0 <= m < out@.len() ==> (#[trigger] out@[m])@ == join_path(library_root@, strings_in(iv.take(i as int))[m]),
        decreases items@.len() - i,
    {
        assert(iv.take(i + 1).drop_last() =~= iv.take(i as int));
        match items[i].as_str() {
            Some(s) => {
                out.push(join_path_str(library_root, s.as_str()));
            },
            None => {},
        }
        i = i + 1;
    }
    assert(iv.take(i as int) =~= iv);
    Some(out)
}

// ---------------------------------------------------------------------------
// Bringing the cache up to date
// ---------------------------------------------------------------------------

/// The cache after an update: each album compiled gets its new sum, in
/// order, then each missing album is forgotten.
pub open spec fn cache_after(
    cache: Map<Seq<char>, u64>,
    updated: Seq<(Seq<char>, u64)>,
    missing: Seq<Seq<char>>,
) -> Map<Seq<char>, u64>
    decreases updated.len() + missing.len(),
{
    if missing.len() > 0 {
        cache_after(cache, updated, missing.drop_last()).remove(missing.last())
    } else if updated.len() > 0 {
        let p = updated.last();
        cache_after(cache, updated.drop_last(), missing).insert(p.0, p.1)
    } else {
        cache
    }
}

pub open spec fn sums_view(c: Seq<(String, AlbumCacheEntry)>) -> Map<Seq<char>, u64> {
    smap(c).map_values(|e: AlbumCacheEntry| e.mtime_sum)
}

/// Records the new sums of the albums compiled and forgets the missing
/// ones; returns the folders to report to the server, compiled first.
pub fn apply_updates(
    cache: &mut Vec<(String, AlbumCacheEntry)>,
    updated: &Vec<(String, u64)>,
    missing: &Vec<String>,
) -> (r: Vec<String>)
    requires
        distinct(skeys(old(cache)@)),
    ensures
        distinct(skeys(final(cache)@)),
        sums_view(final(cache)@) == cache_after(
            sums_view(old(cache)@),
            updated@.map_values(|u: (String, u64)| (u.0@, u.1)),
            missing@.map_values(|s: String| s@),
        ),
        r@.map_values(|s: String| s@) == updated@.map_values(|u: (String, u64)| u.0@) + missing@.map_values(
            |s: String| s@,
        ),
{
    let ghost uv = updated@.map_values(|u: (String, u64)| (u.0@, u.1));
    let ghost mv = missing@.map_values(|s: String| s@);
    let ghost c0 = sums_view(cache@);
    let mut out: Vec<String> = Vec::new();
    let mut i: usize = 0;
    while i < updated.len()
        invariant
            0 <= i <= updated@.len(),
            uv == updated@.map_values(|u: (String, u64)| (u.0@, u.1)),
            c0 == sums_view(old(cache)@),
            distinct(skeys(cache@)),
            sums_view(cache@) == cache_after(c0, uv.take(i as int), Seq::empty()),
            out@.map_values(|s: String| s@) == updated@.map_values(|u: (String, u64)| u.0@).take(i as int),
        decreases updated@.len() - i,
    {
        let ghost before = smap(cache@);
        let ghost ob = out@.map_values(|s: String| s@);
        let k = updated[i].0.clone();
        sput(cache, k, AlbumCacheEntry { mtime_sum: updated[i].1 });
        out.push(updated[i].0.clone());
        proof {
            assert(uv.take(i + 1).drop_last() =~= uv.take(i as int));
            assert(sums_view(cache@) =~= cache_after(c0, uv.take(i as int), Seq::empty()).insert(
                uv[i as int].0,
                uv[i as int].1,
            ));
            assert(out@.map_values(|s: String| s@) =~= ob.push(updated@[i as int].0@));
            assert(updated@.map_values(|u: (String, u64)| u.0@).take(i + 1) =~= updated@.map_values(
                |u: (String, u64)| u.0@,
            ).take(i as int).push(updated@[i as int].0@));
        }
        i = i + 1;
    }
    proof {
        assert(uv.take(i as int) =~= uv);
        assert(updated@.map_values(|u: (String, u64)| u.0@).take(i as int) =~= updated@.map_values(
            |u: (String, u64)| u.0@,
        ));
    }
    let ghost upd_keys = updated@.map_values(|u: (String, u64)| u.0@);
    assert(mv.take(0) =~= Seq::<Seq<char>>::empty());
    assert(upd_keys + mv.take(0) =~= upd_keys);
    let mut j: usize = 0;
    while j < missing.len()
        invariant
            0 <= j <= missing@.len(),
            mv == missing@.map_values(|s: String| s@),
            distinct(skeys(cache@)),
            sums_view(cache@) == cache_after(c0, uv, mv.take(j as int)),
            out@.map_values(|s: String| s@) == upd_keys + mv.take(j as int),
        decreases missing@.len() - j,
    {
        let ghost ob = out@.map_values(|s: String| s@);
        let _ = sremove(cache, missing[j].as_str());
        out.push(missing[j].clone());
        proof {
            assert(mv.take(j + 1).drop_last() =~= mv.take(j as int));
            assert(sums_view(cache@) =~= cache_after(c0, uv, mv.take(j as int)).remove(mv[j as int]));
            assert(out@.map_values(|s: String| s@) =~= ob.push(mv[j as int]));
            assert(upd_keys + mv.take(j + 1) =~= (upd_keys + mv.take(j as int)).push(mv[j as int]));
        }
        j = j + 1;
    }
    assert(mv.take(j as int) =~= mv);
    out
}

/// After an update, no album that went missing is left in the cache.
pub proof fn law_missing_forgotten(
    cache: Map<Seq<char>, u64>,
    updated: Seq<(Seq<char>, u64)>,
    missing: Seq<Seq<char>>,
    m: Seq<char>,
)
    requires
        missing.contains(m),
    ensures
        !cache_after(cache, updated, missing).contains_key(m),
    decreases missing.len(),
{
    if missing.last() != m {
        let i = choose|i: int| 0 <= i < missing.len() && missing[i] == m;
        assert(missing.drop_last()[i] == m);
        law_missing_forgotten(cache, updated, missing.drop_last(), m);
    }
}

/// After an update, an album compiled and not missing keeps the sum last
/// recorded for it.
pub proof fn law_updated_recorded(
    cache: Map<Seq<char>, u64>,
    updated: Seq<(Seq<char>, u64)>,
    missing: Seq<Seq<char>>,
)
    requires
        updated.len() > 0,
        !missing.contains(updated.last().0),
    ensures
        cache_after(cache, updated, missing).contains_key(updated.last().0),
        cache_after(cache, updated, missing)[updated.last().0] == updated.last().1,
    decreases missing.len(),
{
    if missing.len() > 0 {
        assert(!missing.drop_last().contains(updated.last().0)) by {
            if missing.drop_last().contains(updated.last().0) {
                let i = choose|i: int| 0 <= i < missing.drop_last().len() && missing.drop_last()[i] == updated.last().0;
                assert(missing[i] == updated.last().0);
            }
        }
        law_updated_recorded(cache, updated, missing.drop_last());
    }
}

} // verus!

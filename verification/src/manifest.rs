//! Writing manifests from harvested tags: tags shared by every track move up
//! to the album, tracks are grouped into albums and ordered, and the result
//! is written as TOML.
use vstd::prelude::*;
use crate::json::{Json, JsonV, jget, entry_keys};
use crate::jtext::{jtext, quoted, push_quoted, push_json};
use crate::resolve::{strings_of, plain_text};
use crate::text::{trim, before, join, parse_unsigned, chars_of, string_of, trim_chars, trim_str, split_chars, join_chars, parse_u32, lemma_split_nonempty, str_to_string, str_eq, extend_chars, push_str};
use crate::collate::{sort_by, lex_gt, sort_strings, lemma_insert_at, alnum_order, alnum_path_compare, preorder_for};
use crate::tagcheck::{obj_put, put_entry};

verus! {

/// The texts of a list of strings.
pub open spec fn strs(v: Seq<String>) -> Seq<Seq<char>> {
    v.map_values(|s: String| s@)
}

/// The entries of an object, as values.
pub open spec fn ents(v: Seq<(String, Json)>) -> Seq<(Seq<char>, JsonV)> {
    v.map_values(|e: (String, Json)| (e.0@, e.1@))
}

// ---------------------------------------------------------------------------
// Tag text
// ---------------------------------------------------------------------------

/// `normalize_tag`: a tag as one text.
pub open spec fn normalized(v: Option<JsonV>) -> Seq<char> {
    match v {
        Some(JsonV::Str(s)) => trim(s),
        Some(JsonV::Array(a)) => join(strings_of(a), seq![';', ' ']),
        Some(x) => plain_text(x),
        None => Seq::empty(),
    }
}

/// `parse_sort_int`: the number a disc or track tag starts with, 0 when
/// unreadable.
pub open spec fn sort_int(v: Option<JsonV>) -> nat {
    match parse_unsigned(trim(before(normalized(v), '/')), u32::MAX as nat) {
        Some(n) => n,
        None => 0,
    }
}

/// A tag as one text.
pub fn normalize_tag(value: Option<&Json>) -> (r: String)
    ensures
        r@ == normalized(
            match value {
                Some(x) => Some(x@),
                None => None,
            },
        ),
{
    match value {
        Some(v) => match v {
            Json::Str(s) => trim_str(s.as_str()),
            Json::Array(items) => {
                proof {
                    v.lemma_array_view();
                }
                crate::resolve::join_strings(items)
            },
            _ => crate::resolve::plain_text_of(v),
        },
        None => String::new(),
    }
}

/// The number a disc or track tag starts with.
pub fn parse_sort_int(value: Option<&Json>) -> (r: u32)
    ensures
        r == sort_int(
            match value {
                Some(x) => Some(x@),
                None => None,
            },
        ),
{
    let s = normalize_tag(value);
    let c = chars_of(s.as_str());
    let parts = split_chars(c.as_slice(), '/');
    proof {
        lemma_split_nonempty(s@, '/');
    }
    let t = trim_chars(parts[0].as_slice());
    match parse_u32(t.as_slice()) {
        Some(n) => n,
        None => 0,
    }
}

// ---------------------------------------------------------------------------
// Compression: tags shared by every track move to the album
// ---------------------------------------------------------------------------

/// Keys that always stay with the tracks.
pub open spec fn forced_track_key(k: Seq<char>) -> bool {
    k == "tracknumber"@ || k == "discnumber"@ || k == "title"@
}

/// Whether `k` moves to the album: every track has it, with the value the
/// first track has, and it is not a key that stays with the tracks.
pub open spec fn promoted(ts: Seq<Seq<(Seq<char>, JsonV)>>, k: Seq<char>) -> bool {
    &&& ts.len() > 0
    &&& !forced_track_key(k)
    &&& forall|i: int|
        0 <= i < ts.len() ==> jget(JsonV::Object(#[trigger] ts[i]), k) is Some && jget(JsonV::Object(ts[i]), k)
            == jget(JsonV::Object(ts[0]), k)
}

/// The album's tags: the promoted entries of the first track, in its order.
pub open spec fn album_pool(ts: Seq<Seq<(Seq<char>, JsonV)>>) -> Seq<(Seq<char>, JsonV)> {
    if ts.len() == 0 {
        Seq::empty()
    } else {
        ts[0].filter(|e: (Seq<char>, JsonV)| promoted(ts, e.0)).map_values(
            |e: (Seq<char>, JsonV)|
                (
                    e.0,
                    match jget(JsonV::Object(ts[0]), e.0) {
                        Some(v) => v,
                        None => JsonV::Null,
                    },
                ),
        )
    }
}

/// A track's tags without the promoted ones.
pub open spec fn track_rest(ts: Seq<Seq<(Seq<char>, JsonV)>>, t: Seq<(Seq<char>, JsonV)>) -> Seq<(Seq<char>, JsonV)> {
    t.filter(|e: (Seq<char>, JsonV)| !promoted(ts, e.0))
}

fn is_promoted(ts: &Vec<Vec<(String, Json)>>, k: &str) -> (r: bool)
    ensures
        r == promoted(ts@.map_values(|t: Vec<(String, Json)>| ents(t@)), k@),
{
    let ghost tv = ts@.map_values(|t: Vec<(String, Json)>| ents(t@));
    if ts.len() == 0 {
        return false;
    }
    if str_eq(k, "tracknumber") || str_eq(k, "discnumber") || str_eq(k, "title") {
        return false;
    }
    let first = Json::Object(crate::json::dup_entries(&ts[0]));
    proof {
        first.lemma_object_view();
    }
    let fv = first.get(k);
    let mut i: usize = 0;
    while i < ts.len()
        invariant
            0 <= i <= ts@.len(),
            ts@.len() > 0,
            tv == ts@.map_values(|t: Vec<(String, Json)>| ents(t@)),
            first@ == JsonV::Object(tv[0]),
            match fv {
                Some(x) => jget(first@, k@) == Some(x@),
                None => jget(first@, k@) is None,
            },
            forall|m: int|
                0 <= m < i ==> jget(JsonV::Object(#[trigger] tv[m]), k@) is Some && jget(JsonV::Object(tv[m]), k@)
                    == jget(JsonV::Object(tv[0]), k@),
        decreases ts@.len() - i,
    {
        let t = Json::Object(crate::json::dup_entries(&ts[i]));
        proof {
            t.lemma_object_view();
        }
        assert(tv[i as int] == ents(ts@[i as int]@));
        assert(t@ == JsonV::Object(tv[i as int]));
        let same = match (t.get(k), fv) {
            (Some(a), Some(b)) => crate::json::json_eq(a, b),
            _ => false,
        };
        if !same {
            proof {
                assert(tv[0] == ents(ts@[0]@));
                if promoted(tv, k@) {
                    assert(jget(JsonV::Object(tv[i as int]), k@) is Some);
                    assert(jget(JsonV::Object(tv[0]), k@) is Some);
                }
            }
            return false;
        }
        i = i + 1;
    }
    true
}

/// `compress`: moves the tags shared by every track (with one value, and
/// not a track or disc number or a title) to the album.
pub fn compress(raw_tracks: Vec<Vec<(String, Json)>>) -> (r: (Vec<(String, Json)>, Vec<Vec<(String, Json)>>))
    ensures
        ents(r.0@) == album_pool(raw_tracks@.map_values(|t: Vec<(String, Json)>| ents(t@))),
        r.1@.map_values(|t: Vec<(String, Json)>| ents(t@)) == raw_tracks@.map_values(
            |t: Vec<(String, Json)>| ents(t@),
        ).map_values(
            |t: Seq<(Seq<char>, JsonV)>|
                track_rest(raw_tracks@.map_values(|t: Vec<(String, Json)>| ents(t@)), t),
        ),
{
    let ghost tv = raw_tracks@.map_values(|t: Vec<(String, Json)>| ents(t@));
    if raw_tracks.len() == 0 {
        let r = (Vec::new(), Vec::new());
        assert(ents(r.0@) =~= album_pool(tv));
        assert(r.1@.map_values(|t: Vec<(String, Json)>| ents(t@)) =~= tv.map_values(
            |t: Seq<(Seq<char>, JsonV)>| track_rest(tv, t),
        ));
        return r;
    }
    let first = Json::Object(crate::json::dup_entries(&raw_tracks[0]));
    proof {
        first.lemma_object_view();
    }
    let ghost fe = tv[0];
    let ghost keep = |e: (Seq<char>, JsonV)| promoted(tv, e.0);
    let ghost val = |e: (Seq<char>, JsonV)|
        (
            e.0,
            match jget(JsonV::Object(tv[0]), e.0) {
                Some(v) => v,
                None => JsonV::Null,
            },
        );
    let mut pool: Vec<(String, Json)> = Vec::new();
    let mut j: usize = 0;
    while j < raw_tracks[0].len()
        invariant
            0 <= j <= fe.len(),
            raw_tracks@.len() > 0,
            tv == raw_tracks@.map_values(|t: Vec<(String, Json)>| ents(t@)),
            fe == tv[0],
            fe.len() == raw_tracks@[0]@.len(),
            first@ == JsonV::Object(fe),
            keep == (|e: (Seq<char>, JsonV)| promoted(tv, e.0)),
            val == (|e: (Seq<char>, JsonV)|
                (
                    e.0,
                    match jget(JsonV::Object(tv[0]), e.0) {
                        Some(v) => v,
                        None => JsonV::Null,
                    },
                )),
            ents(pool@) == fe.take(j as int).filter(keep).map_values(val),
        decreases fe.len() - j,
    {
        let k = &raw_tracks[0][j].0;
        let ghost before = ents(pool@);
        proof {
            reveal(Seq::filter);
            assert(fe.take(j + 1).drop_last() =~= fe.take(j as int));
            assert(fe.take(j + 1).last() == fe[j as int]);
            assert(fe[j as int].0 == k@);
        }
        if is_promoted(&raw_tracks, k.as_str()) {
            let v = match first.get(k.as_str()) {
                Some(x) => x.dup(),
                None => Json::Null,
            };
            pool.push((k.clone(), v));
            assert(ents(pool@) =~= before.push(val(fe[j as int])));
            assert(fe.take(j + 1).filter(keep) == fe.take(j as int).filter(keep).push(fe[j as int]));
            assert(fe.take(j + 1).filter(keep).map_values(val) =~= before.push(val(fe[j as int])));
        } else {
            assert(fe.take(j + 1).filter(keep).map_values(val) =~= before);
        }
        j = j + 1;
    }
    assert(fe.take(j as int) =~= fe);
    let mut out: Vec<Vec<(String, Json)>> = Vec::new();
    let mut i: usize = 0;
    while i < raw_tracks.len()
        invariant
            0 <= i <= raw_tracks@.len(),
            tv == raw_tracks@.map_values(|t: Vec<(String, Json)>| ents(t@)),
            out@.len() == i,
            forall|m: int| 0 <= m < i ==> ents((#[trigger] out@[m])@) == track_rest(tv, tv[m]),
        decreases raw_tracks@.len() - i,
    {
        let t = &raw_tracks[i];
        let ghost te = tv[i as int];
        let ghost drop = |e: (Seq<char>, JsonV)| !promoted(tv, e.0);
        let mut kept: Vec<(String, Json)> = Vec::new();
        let mut q: usize = 0;
        while q < t.len()
            invariant
                0 <= q <= te.len(),
                te == ents(t@),
                drop == (|e: (Seq<char>, JsonV)| !promoted(tv, e.0)),
                tv == raw_tracks@.map_values(|t: Vec<(String, Json)>| ents(t@)),
                ents(kept@) == te.take(q as int).filter(drop),
            decreases te.len() - q,
        {
            let ghost before = ents(kept@);
            proof {
                reveal(Seq::filter);
                assert(te.take(q + 1).drop_last() =~= te.take(q as int));
                assert(te.take(q + 1).last() == te[q as int]);
            }
            if !is_promoted(&raw_tracks, t[q].0.as_str()) {
                kept.push((t[q].0.clone(), t[q].1.dup()));
                assert(ents(kept@) =~= before.push(te[q as int]));
            }
            q = q + 1;
        }
        assert(te.take(q as int) =~= te);
        out.push(kept);
        i = i + 1;
    }
    assert(out@.map_values(|t: Vec<(String, Json)>| ents(t@)) =~= tv.map_values(
        |t: Seq<(Seq<char>, JsonV)>| track_rest(tv, t),
    ));
    assert(ents(pool@) =~= album_pool(tv));
    (pool, out)
}

// ---------------------------------------------------------------------------
// TOML text
// ---------------------------------------------------------------------------

/// `format_toml_value`: a value as TOML text.  Strings are written as JSON
/// string literals, lists as `[a, b]`, other values as JSON.
pub open spec fn toml_text(v: JsonV) -> Seq<char>
    decreases v, 1int,
{
    match v {
        JsonV::Str(s) => quoted(s),
        JsonV::Number(t, _, _) => t,
        JsonV::Bool(b) => if b {
            "true"@
        } else {
            "false"@
        },
        JsonV::Array(items) => seq!['['] + toml_items(items) + seq![']'],
        _ => jtext(v),
    }
}

/// List items as TOML text, separated by `, `.
pub open spec fn toml_items(items: Seq<JsonV>) -> Seq<char>
    decreases items, 0int,
{
    if items.len() == 0 {
        Seq::empty()
    } else if items.len() == 1 {
        toml_text(items[0])
    } else {
        toml_items(items.drop_last()) + seq![',', ' '] + toml_text(items.last())
    }
}

/// `format_toml_value_with_cast`: a track or disc number written as a
/// string is written bare when its part before any `/`, trimmed, reads as a
/// number.
pub open spec fn toml_cast(v: JsonV, key: Seq<char>) -> Seq<char> {
    match v {
        JsonV::Str(s) if (key == "tracknumber"@ || key == "discnumber"@) && parse_unsigned(
            trim(before(s, '/')),
            u32::MAX as nat,
        ) is Some => trim(before(s, '/')),
        _ => toml_text(v),
    }
}

fn push_toml(out: &mut Vec<char>, v: &Json)
    ensures
        final(out)@ == old(out)@ + toml_text(v@),
    decreases v,
{
    match v {
        Json::Str(s) => {
            let c = chars_of(s.as_str());
            push_quoted(out, c.as_slice());
        },
        Json::Number(n) => {
            let c = chars_of(n.text.as_str());
            extend_chars(out, c.as_slice());
        },
        Json::Bool(b) => {
            let c = if *b {
                chars_of("true")
            } else {
                chars_of("false")
            };
            extend_chars(out, c.as_slice());
        },
        Json::Array(items) => {
            let ghost iv = v@->Array_0;
            out.push('[');
            let mut i: usize = 0;
            while i < items.len()
                invariant
                    *v == Json::Array(*items),
                    iv == v@->Array_0,
                    iv.len() == items@.len(),
                    0 <= i <= items@.len(),
                    out@ == old(out)@ + seq!['['] + toml_items(iv.take(i as int)),
                decreases items@.len() - i,
            {
                assert(decreases_to!(*v => v->Array_0));
                assert(decreases_to!(*items => items@));
                assert(decreases_to!(items@ => items@[i as int]));
                proof {
                    assert(iv.take(i + 1).drop_last() =~= iv.take(i as int));
                    assert(iv.take(i + 1).last() == items@[i as int]@);
                }
                if i > 0 {
                    out.push(',');
                    out.push(' ');
                }
                push_toml(out, &items[i]);
                i = i + 1;
                proof {
                    if i == 1 {
                        assert(iv.take(1)[0] == iv[0]);
                    }
                }
                assert(out@ =~= old(out)@ + seq!['['] + toml_items(iv.take(i as int)));
            }
            assert(iv.take(items@.len() as int) =~= iv);
            out.push(']');
            assert(out@ =~= old(out)@ + toml_text(v@));
        },
        _ => {
            push_json(out, v);
        },
    }
}

/// A value as TOML text.
pub fn format_toml_value(v: &Json) -> (r: String)
    ensures
        r@ == toml_text(v@),
{
    let mut out: Vec<char> = Vec::new();
    push_toml(&mut out, v);
    assert(out@ =~= toml_text(v@));
    string_of(out.as_slice())
}

/// A value as TOML text, track and disc numbers bare when they read as
/// numbers.
pub fn format_toml_value_with_cast(v: &Json, key: &str) -> (r: String)
    ensures
        r@ == toml_cast(v@, key@),
{
    if str_eq(key, "tracknumber") || str_eq(key, "discnumber") {
        match v {
            Json::Str(s) => {
                let c = chars_of(s.as_str());
                let parts = split_chars(c.as_slice(), '/');
                proof {
                    lemma_split_nonempty(s@, '/');
                }
                let clean = trim_chars(parts[0].as_slice());
                if parse_u32(clean.as_slice()).is_some() {
                    return string_of(clean.as_slice());
                }
            },
            _ => {},
        }
    }
    format_toml_value(v)
}

/// The line written for key `k` of a table, when the table has it.
pub open spec fn toml_line_fn(pool: Seq<(Seq<char>, JsonV)>) -> spec_fn(Seq<char>) -> Option<Seq<char>> {
    |k: Seq<char>|
        match jget(JsonV::Object(pool), k) {
            Some(v) => Some(k + " = "@ + toml_cast(v, k)),
            None => None,
        }
}

/// `render_toml_block`: one `key = value` line per key, keys in order.
pub open spec fn toml_lines(pool: Seq<(Seq<char>, JsonV)>) -> Seq<Seq<char>> {
    sort_by(entry_keys(pool), lex_gt()).filter_map(toml_line_fn(pool))
}

/// The lines of a TOML table.
pub fn render_toml_block(pool: &Vec<(String, Json)>) -> (r: Vec<String>)
    ensures
        strs(r@) == toml_lines(ents(pool@)),
{
    let ghost pv = ents(pool@);
    let obj = Json::Object(crate::json::dup_entries(pool));
    proof {
        obj.lemma_object_view();
    }
    let mut keys: Vec<String> = Vec::new();
    let mut i: usize = 0;
    while i < pool.len()
        invariant
            0 <= i <= pool@.len(),
            pv == ents(pool@),
            strs(keys@) == entry_keys(pv).take(i as int),
        decreases pool@.len() - i,
    {
        let ghost before = strs(keys@);
        let k = pool[i].0.clone();
        assert(k@ == entry_keys(pv)[i as int]);
        keys.push(k);
        assert(strs(keys@) =~= before.push(k@));
        assert(entry_keys(pv).take(i + 1) =~= entry_keys(pv).take(i as int).push(k@));
        i = i + 1;
    }
    assert(entry_keys(pv).take(i as int) =~= entry_keys(pv));
    let sorted = sort_strings(keys);
    let ghost sv = strs(sorted@);
    let ghost f = toml_line_fn(pv);
    let mut lines: Vec<String> = Vec::new();
    let mut j: usize = 0;
    while j < sorted.len()
        invariant
            0 <= j <= sorted@.len(),
            sv == strs(sorted@),
            f == toml_line_fn(pv),
            obj@ == JsonV::Object(pv),
            strs(lines@) == sv.take(j as int).filter_map(f),
        decreases sorted@.len() - j,
    {
        let ghost before = strs(lines@);
        proof {
            sv.lemma_filter_map_take_succ(f, j as int);
        }
        let k = &sorted[j];
        match obj.get(k.as_str()) {
            Some(v) => {
                let mut line = k.clone();
                push_str(&mut line, " = ");
                let t = format_toml_value_with_cast(v, k.as_str());
                push_str(&mut line, t.as_str());
                assert(f(sv[j as int]) == Some(line@));
                lines.push(line);
                assert(strs(lines@) =~= before + seq![line@]);
            },
            None => {
                assert(f(sv[j as int]) is None);
            },
        }
        j = j + 1;
        assert(strs(lines@) =~= sv.take(j as int).filter_map(f));
    }
    assert(sv.take(j as int) =~= sv);
    lines
}

/// The text of one manifest section: its header, its lines and a blank
/// line; nothing when it has no lines.
pub open spec fn toml_section(header: Seq<char>, lines: Seq<Seq<char>>) -> Seq<char> {
    if lines.len() == 0 {
        Seq::empty()
    } else {
        header + seq!['\n'] + join(lines, seq!['\n']) + seq!['\n', '\n']
    }
}

/// The track sections of a manifest.
pub open spec fn track_sections(tracks: Seq<Seq<(Seq<char>, JsonV)>>) -> Seq<char>
    decreases tracks.len(),
{
    if tracks.len() == 0 {
        Seq::empty()
    } else {
        track_sections(tracks.drop_last()) + toml_section("[[tracks]]"@, toml_lines(tracks.last()))
    }
}

/// `serialize_manifest`: the `[album]` table, then one `[[tracks]]` table
/// per track.
pub open spec fn manifest_text(album: Seq<(Seq<char>, JsonV)>, tracks: Seq<Seq<(Seq<char>, JsonV)>>) -> Seq<char> {
    toml_section("[album]"@, toml_lines(album)) + track_sections(tracks)
}

fn push_section(out: &mut String, header: &str, lines: &Vec<String>)
    ensures
        final(out)@ == old(out)@ + toml_section(header@, strs(lines@)),
{
    if lines.len() == 0 {
        assert(old(out)@ + toml_section(header@, strs(lines@)) =~= old(out)@);
        return;
    }
    push_str(out, header);
    push_str(out, "\n");
    let mut parts: Vec<Vec<char>> = Vec::new();
    let mut i: usize = 0;
    while i < lines.len()
        invariant
            0 <= i <= lines@.len(),
            parts@.map_values(|p: Vec<char>| p@) == strs(lines@).take(i as int),
        decreases lines@.len() - i,
    {
        let ghost before = parts@.map_values(|p: Vec<char>| p@);
        let c = chars_of(lines[i].as_str());
        assert(c@ == strs(lines@)[i as int]);
        parts.push(c);
        assert(parts@.map_values(|p: Vec<char>| p@) =~= before.push(c@));
        assert(strs(lines@).take(i + 1) =~= strs(lines@).take(i as int).push(c@));
        i = i + 1;
    }
    assert(strs(lines@).take(i as int) =~= strs(lines@));
    let nl: Vec<char> = vec!['\n'];
    let j = join_chars(&parts, nl.as_slice());
    assert(nl@ =~= seq!['\n']);
    push_str(out, string_of(j.as_slice()).as_str());
    push_str(out, "\n\n");
    proof {
        reveal_strlit("\n");
        reveal_strlit("\n\n");
    }
    assert(out@ =~= old(out)@ + toml_section(header@, strs(lines@)));
}

/// A manifest's TOML text.
pub fn serialize_manifest(album_pool: &Vec<(String, Json)>, track_pools: &Vec<Vec<(String, Json)>>) -> (r: String)
    ensures
        r@ == manifest_text(ents(album_pool@), track_pools@.map_values(|t: Vec<(String, Json)>| ents(t@))),
{
    let ghost tv = track_pools@.map_values(|t: Vec<(String, Json)>| ents(t@));
    let mut out = String::new();
    let album_lines = render_toml_block(album_pool);
    push_section(&mut out, "[album]", &album_lines);
    let ghost head = out@;
    let mut i: usize = 0;
    while i < track_pools.len()
        invariant
            0 <= i <= track_pools@.len(),
            tv == track_pools@.map_values(|t: Vec<(String, Json)>| ents(t@)),
            out@ == head + track_sections(tv.take(i as int)),
        decreases track_pools@.len() - i,
    {
        let lines = render_toml_block(&track_pools[i]);
        proof {
            assert(tv.take(i + 1).drop_last() =~= tv.take(i as int));
            assert(tv.take(i + 1).last() == ents(track_pools@[i as int]@));
        }
        push_section(&mut out, "[[tracks]]", &lines);
        i = i + 1;
        assert(out@ =~= head + track_sections(tv.take(i as int)));
    }
    assert(tv.take(i as int) =~= tv);
    out
}

// ---------------------------------------------------------------------------
// Manifest names
// ---------------------------------------------------------------------------

/// The manifest names each layout entry lists, in order.
pub open spec fn listed_manifests(ms: Seq<Option<Seq<char>>>) -> Seq<Seq<char>>
    decreases ms.len(),
{
    if ms.len() == 0 {
        Seq::empty()
    } else {
        listed_manifests(ms.drop_last()) + match ms.last() {
            Some(s) => crate::resolve::fallback_keys(s),
            None => Seq::empty(),
        }
    }
}

/// The items of `s` without repeats, each where it first occurs.
pub open spec fn dedup(s: Seq<Seq<char>>) -> Seq<Seq<char>>
    decreases s.len(),
{
    if s.len() == 0 {
        s
    } else if dedup(s.drop_last()).contains(s.last()) {
        dedup(s.drop_last())
    } else {
        dedup(s.drop_last()).push(s.last())
    }
}

/// `get_unique_manifests`: `metadata` and every manifest the layout names,
/// once each, in order.  (The names are distinct, so any order they are
/// gathered in sorts the same.)
pub open spec fn unique_manifests(ms: Seq<Option<Seq<char>>>) -> Seq<Seq<char>> {
    sort_by(dedup(seq!["metadata"@] + listed_manifests(ms)), lex_gt())
}

fn push_unique(out: &mut Vec<String>, s: String)
    ensures
        strs(final(out)@) == dedup_step(strs(old(out)@), s@),
{
    let mut i: usize = 0;
    while i < out.len()
        invariant
            0 <= i <= out@.len(),
            forall|m: int| 0 <= m < i ==> out@[m]@ != s@,
        decreases out@.len() - i,
    {
        if str_eq(out[i].as_str(), s.as_str()) {
            assert(strs(out@)[i as int] == s@);
            return;
        }
        i = i + 1;
    }
    let ghost before = strs(out@);
    assert(!before.contains(s@)) by {
        if before.contains(s@) {
            let m = choose|m: int| 0 <= m < before.len() && before[m] == s@;
            assert(out@[m]@ == s@);
        }
    }
    let ghost sv = s@;
    out.push(s);
    assert(strs(out@) =~= before.push(sv));
}

/// One step of `dedup`.
pub open spec fn dedup_step(acc: Seq<Seq<char>>, x: Seq<char>) -> Seq<Seq<char>> {
    if acc.contains(x) {
        acc
    } else {
        acc.push(x)
    }
}

/// The manifests to write: `metadata` and every one the layout names.
pub fn get_unique_manifests(manifests: &Vec<Option<String>>) -> (r: Vec<String>)
    ensures
        strs(r@) == unique_manifests(
            manifests@.map_values(
                |m: Option<String>|
                    match m {
                        Some(s) => Some(s@),
                        None => None,
                    },
            ),
        ),
{
    let ghost mv = manifests@.map_values(
        |m: Option<String>|
            match m {
                Some(s) => Some(s@),
                None => None,
            },
    );
    let mut names: Vec<String> = Vec::new();
    assert(strs(names@) =~= Seq::<Seq<char>>::empty());
    push_unique(&mut names, str_to_string("metadata"));
    proof {
        assert(seq!["metadata"@].drop_last() =~= Seq::<Seq<char>>::empty());
        assert(dedup(Seq::<Seq<char>>::empty()) == Seq::<Seq<char>>::empty());
        assert(!Seq::<Seq<char>>::empty().contains("metadata"@));
        assert(dedup(seq!["metadata"@]) =~= seq!["metadata"@]);
        assert(strs(names@) =~= seq!["metadata"@]);
        assert(mv.take(0) =~= Seq::<Option<Seq<char>>>::empty());
        assert((seq!["metadata"@] + listed_manifests(mv.take(0))).drop_last() =~= Seq::<Seq<char>>::empty());
        assert(seq!["metadata"@] + listed_manifests(mv.take(0)) =~= seq!["metadata"@]);
    }
    let mut i: usize = 0;
    while i < manifests.len()
        invariant
            0 <= i <= manifests@.len(),
            mv == manifests@.map_values(
                |m: Option<String>|
                    match m {
                        Some(s) => Some(s@),
                        None => None,
                    },
            ),
            strs(names@) == dedup(seq!["metadata"@] + listed_manifests(mv.take(i as int))),
        decreases manifests@.len() - i,
    {
        let ghost cur = seq!["metadata"@] + listed_manifests(mv.take(i as int));
        proof {
            assert(mv.take(i + 1).drop_last() =~= mv.take(i as int));
            assert(mv.take(i + 1).last() == mv[i as int]);
        }
        match &manifests[i] {
            Some(s) => {
                let pieces = crate::resolve::fallback_keys_of(s.as_str());
                let ghost pv = strs(pieces@);
                let mut k: usize = 0;
                assert(cur + pv.take(0) =~= cur);
                while k < pieces.len()
                    invariant
                        0 <= k <= pieces@.len(),
                        pv == strs(pieces@),
                        strs(names@) == dedup(cur + pv.take(k as int)),
                    decreases pieces@.len() - k,
                {
                    proof {
                        assert((cur + pv.take(k + 1)).drop_last() =~= cur + pv.take(k as int));
                        assert((cur + pv.take(k + 1)).last() == pieces@[k as int]@);
                    }
                    push_unique(&mut names, pieces[k].clone());
                    k = k + 1;
                }
                proof {
                    assert(pv.take(k as int) =~= pv);
                    assert(mv[i as int] == Some(s@));
                    assert(cur + pv =~= seq!["metadata"@] + listed_manifests(mv.take(i + 1)));
                }
            },
            None => {
                proof {
                    assert(cur =~= seq!["metadata"@] + listed_manifests(mv.take(i + 1)));
                }
            },
        }
        i = i + 1;
    }
    proof {
        assert(mv.take(i as int) =~= mv);
    }
    sort_strings(names)
}

// ---------------------------------------------------------------------------
// Grouping and ordering tracks
// ---------------------------------------------------------------------------

/// A harvested track: its file path and its tags.
pub open spec fn track_view(t: (String, Vec<(String, Json)>)) -> (Seq<char>, Seq<(Seq<char>, JsonV)>) {
    (t.0@, ents(t.1@))
}

/// The album a track belongs to: its normalised tags under `keys`.
pub open spec fn group_key(t: Seq<(Seq<char>, JsonV)>, keys: Seq<Seq<char>>) -> Seq<Seq<char>> {
    keys.map_values(|k: Seq<char>| normalized(jget(JsonV::Object(t), k)))
}

/// A track's tags with its absolute path added.
pub open spec fn tagged(path: Seq<char>, t: Seq<(Seq<char>, JsonV)>) -> Seq<(Seq<char>, JsonV)> {
    obj_put(t, "track_path_absolute"@, JsonV::Str(path))
}

pub open spec fn bucket_index(
    bs: Seq<(Seq<Seq<char>>, Seq<(Seq<char>, Seq<(Seq<char>, JsonV)>)>)>,
    g: Seq<Seq<char>>,
) -> Option<int>
    decreases bs.len(),
{
    if bs.len() == 0 {
        None
    } else {
        match bucket_index(bs.drop_last(), g) {
            Some(i) => Some(i),
            None => if bs.last().0 == g {
                Some(bs.len() - 1)
            } else {
                None
            },
        }
    }
}

/// `group_tracks`: the tracks grouped by album, each group in the order its
/// tracks came, groups in the order their first track came.
pub open spec fn buckets(
    items: Seq<(Seq<char>, Seq<(Seq<char>, JsonV)>)>,
    keys: Seq<Seq<char>>,
) -> Seq<(Seq<Seq<char>>, Seq<(Seq<char>, Seq<(Seq<char>, JsonV)>)>)>
    decreases items.len(),
{
    if items.len() == 0 {
        Seq::empty()
    } else {
        let bs = buckets(items.drop_last(), keys);
        let (p, t) = items.last();
        let g = group_key(t, keys);
        let item = (p, tagged(p, t));
        match bucket_index(bs, g) {
            Some(i) => bs.update(i, (g, bs[i].1.push(item))),
            None => bs.push((g, seq![item])),
        }
    }
}

pub open spec fn bucket_view(b: (Vec<String>, Vec<(String, Vec<(String, Json)>)>)) -> (
    Seq<Seq<char>>,
    Seq<(Seq<char>, Seq<(Seq<char>, JsonV)>)>,
) {
    (strs(b.0@), b.1@.map_values(|t: (String, Vec<(String, Json)>)| track_view(t)))
}

fn strings_equal(a: &Vec<String>, b: &Vec<String>) -> (r: bool)
    ensures
        r == (strs(a@) == strs(b@)),
{
    if a.len() != b.len() {
        assert(strs(a@).len() != strs(b@).len());
        return false;
    }
    let mut i: usize = 0;
    while i < a.len()
        invariant
            0 <= i <= a@.len(),
            a@.len() == b@.len(),
            forall|m: int| 0 <= m < i ==> a@[m]@ == b@[m]@,
        decreases a@.len() - i,
    {
        if !str_eq(a[i].as_str(), b[i].as_str()) {
            assert(strs(a@)[i as int] != strs(b@)[i as int]);
            return false;
        }
        i = i + 1;
    }
    assert(strs(a@) =~= strs(b@));
    true
}

fn find_bucket(bs: &Vec<(Vec<String>, Vec<(String, Vec<(String, Json)>)>)>, g: &Vec<String>) -> (r: Option<usize>)
    ensures
        match r {
            Some(i) => bucket_index(bs@.map_values(|b: (Vec<String>, Vec<(String, Vec<(String, Json)>)>)| bucket_view(b)), strs(g@)) == Some(i as int) && i < bs@.len(),
            None => bucket_index(bs@.map_values(|b: (Vec<String>, Vec<(String, Vec<(String, Json)>)>)| bucket_view(b)), strs(g@)) is None,
        },
{
    let ghost bv = bs@.map_values(|b: (Vec<String>, Vec<(String, Vec<(String, Json)>)>)| bucket_view(b));
    let ghost gv = strs(g@);
    let mut i: usize = 0;
    while i < bs.len()
        invariant
            0 <= i <= bs@.len(),
            bv == bs@.map_values(|b: (Vec<String>, Vec<(String, Vec<(String, Json)>)>)| bucket_view(b)),
            gv == strs(g@),
            bucket_index(bv.take(i as int), gv) is None,
        decreases bs@.len() - i,
    {
        proof {
            assert(bv.take(i + 1).drop_last() =~= bv.take(i as int));
            assert(bv.take(i + 1).last() == bv[i as int]);
        }
        if strings_equal(&bs[i].0, g) {
            proof {
                assert(bv[i as int].0 == strs(bs@[i as int].0@));
                let t = bv.take(i + 1);
                assert(t.drop_last() == bv.take(i as int));
                assert(bucket_index(t.drop_last(), gv) is None);
                assert(t.last().0 == gv);
                assert(bucket_index(t, gv) == Some(i as int));
                lemma_bucket_index_prefix(bv, i + 1, gv);
            }
            return Some(i);
        }
        proof {
            assert(bv[i as int].0 == strs(bs@[i as int].0@));
            let t = bv.take(i + 1);
            assert(t.drop_last() == bv.take(i as int));
            assert(bucket_index(t.drop_last(), gv) is None);
            assert(t.last().0 != gv);
        }
        i = i + 1;
    }
    assert(bv.take(i as int) =~= bv);
    None
}

proof fn lemma_bucket_index_key(
    bs: Seq<(Seq<Seq<char>>, Seq<(Seq<char>, Seq<(Seq<char>, JsonV)>)>)>,
    g: Seq<Seq<char>>,
)
    ensures
        match bucket_index(bs, g) {
            Some(i) => 0 <= i < bs.len() && bs[i].0 == g,
            None => forall|i: int| 0 <= i < bs.len() ==> bs[i].0 != g,
        },
    decreases bs.len(),
{
    if bs.len() > 0 {
        lemma_bucket_index_key(bs.drop_last(), g);
        assert forall|i: int| 0 <= i < bs.len() - 1 implies bs.drop_last()[i] == bs[i] by {}
    }
}

proof fn lemma_bucket_index_prefix(
    bs: Seq<(Seq<Seq<char>>, Seq<(Seq<char>, Seq<(Seq<char>, JsonV)>)>)>,
    n: int,
    g: Seq<Seq<char>>,
)
    requires
        0 <= n <= bs.len(),
        bucket_index(bs.take(n), g) is Some,
    ensures
        bucket_index(bs, g) == bucket_index(bs.take(n), g),
    decreases bs.len() - n,
{
    if n < bs.len() {
        assert(bs.take(n + 1).drop_last() =~= bs.take(n));
        lemma_bucket_index_prefix(bs, n + 1, g);
    } else {
        assert(bs.take(n) =~= bs);
    }
}

/// Groups harvested tracks by album, tagging each with its path.
pub fn group_tracks(
    tracks: Vec<(String, Vec<(String, Json)>)>,
    keys: &Vec<String>,
) -> (r: Vec<(Vec<String>, Vec<(String, Vec<(String, Json)>)>)>)
    ensures
        r@.map_values(|b: (Vec<String>, Vec<(String, Vec<(String, Json)>)>)| bucket_view(b)) == buckets(
            tracks@.map_values(|t: (String, Vec<(String, Json)>)| track_view(t)),
            strs(keys@),
        ),
{
    let ghost tv = tracks@.map_values(|t: (String, Vec<(String, Json)>)| track_view(t));
    let ghost kv = strs(keys@);
    let mut rest = tracks;
    let mut bs: Vec<(Vec<String>, Vec<(String, Vec<(String, Json)>)>)> = Vec::new();
    let ghost mut i: int = 0;
    while rest.len() > 0
        invariant
            0 <= i <= tv.len(),
            kv == strs(keys@),
            rest@.map_values(|t: (String, Vec<(String, Json)>)| track_view(t)) == tv.skip(i),
            bs@.map_values(|b: (Vec<String>, Vec<(String, Vec<(String, Json)>)>)| bucket_view(b)) == buckets(tv.take(i), kv),
        decreases rest@.len(),
    {
        let ghost rv = rest@.map_values(|t: (String, Vec<(String, Json)>)| track_view(t));
        let ghost before = bs@.map_values(|b: (Vec<String>, Vec<(String, Vec<(String, Json)>)>)| bucket_view(b));
        assert(rv.len() == tv.len() - i);
        let (path, mut tags) = rest.remove(0);
        proof {
            assert(rest@.map_values(|t: (String, Vec<(String, Json)>)| track_view(t)) =~= rv.skip(1));
            assert(rv.skip(1) =~= tv.skip(i + 1));
            assert(rv[0] == (path@, ents(tags@)));
            assert(tv.skip(i)[0] == tv[i]);
            assert(tv.take(i + 1).drop_last() =~= tv.take(i));
            assert(tv.take(i + 1).last() == tv[i]);
        }
        let obj = Json::Object(crate::json::dup_entries(&tags));
        proof {
            obj.lemma_object_view();
        }
        let mut g: Vec<String> = Vec::new();
        let mut k: usize = 0;
        while k < keys.len()
            invariant
                0 <= k <= keys@.len(),
                kv == strs(keys@),
                obj@ == JsonV::Object(ents(tags@)),
                strs(g@) == group_key(ents(tags@), kv).take(k as int),
            decreases keys@.len() - k,
        {
            let ghost gb = strs(g@);
            let n = normalize_tag(obj.get(keys[k].as_str()));
            assert(n@ == group_key(ents(tags@), kv)[k as int]);
            g.push(n);
            assert(strs(g@) =~= gb.push(group_key(ents(tags@), kv)[k as int]));
            assert(group_key(ents(tags@), kv).take(k + 1) =~= group_key(ents(tags@), kv).take(k as int).push(group_key(ents(tags@), kv)[k as int]));
            k = k + 1;
        }
        assert(group_key(ents(tags@), kv).take(k as int) =~= group_key(ents(tags@), kv));
        let ghost gv = strs(g@);
        let ghost pv = path@;
        let ghost tg = tagged(path@, ents(tags@));
        let pv2 = path.clone();
        put_entry(&mut tags, "track_path_absolute", Json::Str(pv2));
        assert(ents(tags@) == tg);
        let item = (path, tags);
        match find_bucket(&bs, &g) {
            Some(j) => {
                proof {
                    lemma_bucket_index_key(before, gv);
                }
                let (bk, mut items) = bs.remove(j);
                let ghost old_items = items@.map_values(|t: (String, Vec<(String, Json)>)| track_view(t));
                assert(strs(bk@) == gv);
                items.push(item);
                assert(items@.map_values(|t: (String, Vec<(String, Json)>)| track_view(t)) =~= old_items.push((pv, tg)));
                bs.insert(j, (bk, items));
                proof {
                    assert(bs@.map_values(|b: (Vec<String>, Vec<(String, Vec<(String, Json)>)>)| bucket_view(b)) =~= before.update(
                        j as int,
                        (gv, before[j as int].1.push((pv, tg))),
                    ));
                }
            },
            None => {
                let mut items: Vec<(String, Vec<(String, Json)>)> = Vec::new();
                items.push(item);
                assert(items@.map_values(|t: (String, Vec<(String, Json)>)| track_view(t)) =~= seq![(pv, tg)]);
                let nb = (g, items);
                assert(bucket_view(nb) == (gv, seq![(pv, tg)]));
                bs.push(nb);
                proof {
                    assert(bs@.map_values(|b: (Vec<String>, Vec<(String, Vec<(String, Json)>)>)| bucket_view(b)) =~= before.push(
                        (gv, seq![(pv, tg)]),
                    ));
                }
            },
        }
        proof {
            i = i + 1;
        }
    }
    proof {
        assert(tv.skip(i).len() == 0);
        assert(tv.take(i) =~= tv);
    }
    bs
}

/// `sort_album_tracks` order: by disc number, then track number, then path
/// in natural order.
pub open spec fn track_gt() -> spec_fn((Seq<char>, Seq<(Seq<char>, JsonV)>), (Seq<char>, Seq<(Seq<char>, JsonV)>)) -> bool {
    |a: (Seq<char>, Seq<(Seq<char>, JsonV)>), b: (Seq<char>, Seq<(Seq<char>, JsonV)>)|
        {
            let da = sort_int(jget(JsonV::Object(a.1), "discnumber"@));
            let db = sort_int(jget(JsonV::Object(b.1), "discnumber"@));
            let ta = sort_int(jget(JsonV::Object(a.1), "tracknumber"@));
            let tb = sort_int(jget(JsonV::Object(b.1), "tracknumber"@));
            if da != db {
                da > db
            } else if ta != tb {
                ta > tb
            } else {
                alnum_order(a.0, b.0) == 1
            }
        }
}

fn track_after(a: &(String, Vec<(String, Json)>), b: &(String, Vec<(String, Json)>)) -> (r: bool)
    ensures
        r == track_gt()(track_view(*a), track_view(*b)),
{
    let oa = Json::Object(crate::json::dup_entries(&a.1));
    let ob = Json::Object(crate::json::dup_entries(&b.1));
    proof {
        oa.lemma_object_view();
        ob.lemma_object_view();
    }
    let da = parse_sort_int(oa.get("discnumber"));
    let db = parse_sort_int(ob.get("discnumber"));
    if da != db {
        return da > db;
    }
    let ta = parse_sort_int(oa.get("tracknumber"));
    let tb = parse_sort_int(ob.get("tracknumber"));
    if ta != tb {
        return ta > tb;
    }
    alnum_path_compare(a.0.as_str(), b.0.as_str()) == 1
}

/// Orders an album's tracks by disc, track number and path.
pub fn sort_album_tracks(tracks: &mut Vec<(String, Vec<(String, Json)>)>)
    ensures
        final(tracks)@.map_values(|t: (String, Vec<(String, Json)>)| track_view(t)) == sort_by(
            old(tracks)@.map_values(|t: (String, Vec<(String, Json)>)| track_view(t)),
            track_gt(),
        ),
{
    let ghost sv = tracks@.map_values(|t: (String, Vec<(String, Json)>)| track_view(t));
    let mut rest: Vec<(String, Vec<(String, Json)>)> = Vec::new();
    std::mem::swap(tracks, &mut rest);
    let mut out: Vec<(String, Vec<(String, Json)>)> = Vec::new();
    let ghost mut i: int = 0;
    while rest.len() > 0
        invariant
            0 <= i <= sv.len(),
            rest@.map_values(|t: (String, Vec<(String, Json)>)| track_view(t)) == sv.skip(i),
            out@.map_values(|t: (String, Vec<(String, Json)>)| track_view(t)) == sort_by(sv.take(i), track_gt()),
        decreases rest@.len(),
    {
        let ghost before = out@.map_values(|t: (String, Vec<(String, Json)>)| track_view(t));
        let ghost rv = rest@.map_values(|t: (String, Vec<(String, Json)>)| track_view(t));
        assert(rv.len() == sv.len() - i);
        let e = rest.remove(0);
        proof {
            assert(rest@.map_values(|t: (String, Vec<(String, Json)>)| track_view(t)) =~= rv.skip(1));
            assert(rv.skip(1) =~= sv.skip(i + 1));
            assert(rv[0] == track_view(e));
            assert(sv.skip(i)[0] == sv[i]);
        }
        let mut p: usize = out.len();
        while p > 0 && track_after(&out[p - 1], &e)
            invariant
                0 <= p <= out@.len(),
                before == out@.map_values(|t: (String, Vec<(String, Json)>)| track_view(t)),
                forall|q: int| p <= q < before.len() ==> track_gt()(#[trigger] before[q], track_view(e)),
            decreases p,
        {
            p = p - 1;
        }
        proof {
            assert(sv.take(i + 1).drop_last() =~= sv.take(i));
            assert(sv.take(i + 1).last() == track_view(e));
            lemma_insert_at(before, track_view(e), p as int, track_gt());
        }
        let ghost ev = track_view(e);
        out.insert(p, e);
        proof {
            assert(out@.map_values(|t: (String, Vec<(String, Json)>)| track_view(t)) =~= before.take(p as int).push(ev)
                + before.skip(p as int));
            i = i + 1;
        }
    }
    proof {
        assert(sv.skip(i).len() == 0);
        assert(sv.take(i) =~= sv);
    }
    *tracks = out;
}


// ---------------------------------------------------------------------------
// What compression keeps
// ---------------------------------------------------------------------------

proof fn lemma_index_from_shift(a: Seq<char>, ks: Seq<Seq<char>>, k: Seq<char>, i: int)
    requires
        0 <= i,
    ensures
        crate::json::index_from(seq![a] + ks, k, i + 1) == (match crate::json::index_from(ks, k, i) {
            Some(j) => Some(j + 1),
            None => None,
        }),
    decreases ks.len() - i,
{
    let all = seq![a] + ks;
    if i < ks.len() {
        assert(all[i + 1] == ks[i]);
        if ks[i] != k {
            lemma_index_from_shift(a, ks, k, i + 1);
        }
    }
}

/// Looking a key up in entries that start with `x`.
proof fn lemma_jget_cons(x: (Seq<char>, JsonV), rest: Seq<(Seq<char>, JsonV)>, k: Seq<char>)
    ensures
        jget(JsonV::Object(seq![x] + rest), k) == (if x.0 == k {
            Some(x.1)
        } else {
            jget(JsonV::Object(rest), k)
        }),
{
    let all = seq![x] + rest;
    assert(entry_keys(all) =~= seq![x.0] + entry_keys(rest));
    assert(entry_keys(all)[0] == x.0);
    if x.0 != k {
        lemma_index_from_shift(x.0, entry_keys(rest), k, 0);
        crate::json::lemma_index_of(entry_keys(rest), k);
        match crate::json::index_of(entry_keys(rest), k) {
            Some(j) => assert(all[j + 1] == rest[j]),
            None => {},
        }
    }
}

/// Filtering entries by a test that every entry under `k` passes (or every
/// one fails) keeps (or drops) the value under `k`.
proof fn lemma_jget_filter(
    t: Seq<(Seq<char>, JsonV)>,
    p: spec_fn((Seq<char>, JsonV)) -> bool,
    k: Seq<char>,
    keep: bool,
)
    requires
        forall|v: JsonV| #[trigger] p((k, v)) == keep,
    ensures
        keep ==> jget(JsonV::Object(t.filter(p)), k) == jget(JsonV::Object(t), k),
        !keep ==> jget(JsonV::Object(t.filter(p)), k) is None,
    decreases t.len(),
{
    if t.len() == 0 {
        reveal(Seq::filter);
        assert(entry_keys(t.filter(p)).len() == 0);
        crate::json::lemma_index_of(entry_keys(t.filter(p)), k);
        crate::json::lemma_index_of(entry_keys(t), k);
    } else {
        let x = t[0];
        let rest = t.skip(1);
        assert(t =~= seq![x] + rest);
        rest.lemma_filter_prepend(x, p);
        lemma_jget_filter(rest, p, k, keep);
        lemma_jget_cons(x, rest, k);
        if x.0 == k {
            assert(x == (k, x.1));
            assert(p((k, x.1)) == keep);
        }
        if p(x) {
            lemma_jget_cons(x, rest.filter(p), k);
            assert(t.filter(p) == seq![x] + rest.filter(p));
        } else {
            assert(t.filter(p) =~= rest.filter(p));
        }
    }
}

/// Looking a key up in entries whose values were all replaced by a
/// function of their keys.
proof fn lemma_jget_rekeyed(s: Seq<(Seq<char>, JsonV)>, f: spec_fn(Seq<char>) -> JsonV, k: Seq<char>)
    requires
        jget(JsonV::Object(s), k) is Some,
    ensures
        jget(JsonV::Object(s.map_values(|e: (Seq<char>, JsonV)| (e.0, f(e.0)))), k) == Some(f(k)),
{
    let m = s.map_values(|e: (Seq<char>, JsonV)| (e.0, f(e.0)));
    assert(entry_keys(m) =~= entry_keys(s));
    crate::json::lemma_index_of(entry_keys(s), k);
}

/// Compressing a group of tracks loses no tag and invents none: a tag of a
/// track moved to the album has there the value the track gave it, and is
/// no longer among the track's own tags; a tag that was not moved stays
/// among the track's own tags with its value.
pub proof fn law_compress_keeps_tags(ts: Seq<Seq<(Seq<char>, JsonV)>>, n: int, k: Seq<char>)
    requires
        0 <= n < ts.len(),
    ensures
        promoted(ts, k) ==> jget(JsonV::Object(album_pool(ts)), k) == jget(JsonV::Object(ts[n]), k),
        promoted(ts, k) ==> jget(JsonV::Object(track_rest(ts, ts[n])), k) is None,
        !promoted(ts, k) ==> jget(JsonV::Object(track_rest(ts, ts[n])), k) == jget(JsonV::Object(ts[n]), k),
{
    let rest_test = |e: (Seq<char>, JsonV)| !promoted(ts, e.0);
    assert(track_rest(ts, ts[n]) == ts[n].filter(rest_test));
    lemma_jget_filter(ts[n], rest_test, k, !promoted(ts, k));
    if promoted(ts, k) {
        let pool_test = |e: (Seq<char>, JsonV)| promoted(ts, e.0);
        let f = |key: Seq<char>|
            match jget(JsonV::Object(ts[0]), key) {
                Some(v) => v,
                None => JsonV::Null,
            };
        lemma_jget_filter(ts[0], pool_test, k, true);
        let kept = ts[0].filter(pool_test);
        lemma_jget_rekeyed(kept, f, k);
        assert(album_pool(ts) == kept.map_values(|e: (Seq<char>, JsonV)| (e.0, f(e.0))));
    }
}

/// The album's tags are exactly the promoted ones: a key is among them if
/// and only if every track has it with one value and it is not a track or
/// disc number or a title.
pub proof fn law_compress_pool_keys(ts: Seq<Seq<(Seq<char>, JsonV)>>, k: Seq<char>)
    ensures
        jget(JsonV::Object(album_pool(ts)), k) is Some <==> promoted(ts, k),
{
    if promoted(ts, k) {
        law_compress_keeps_tags(ts, 0, k);
    } else if ts.len() > 0 {
        let pool_test = |e: (Seq<char>, JsonV)| promoted(ts, e.0);
        let f = |key: Seq<char>|
            match jget(JsonV::Object(ts[0]), key) {
                Some(v) => v,
                None => JsonV::Null,
            };
        lemma_jget_filter(ts[0], pool_test, k, false);
        let kept = ts[0].filter(pool_test);
        let m = kept.map_values(|e: (Seq<char>, JsonV)| (e.0, f(e.0)));
        assert(album_pool(ts) == m);
        assert(entry_keys(m) =~= entry_keys(kept));
    }
}

/// What `compress` gives for a group of tracks, taken whole: one rest per
/// track; for every track, its rest and the album's tags share no key and
/// together give back exactly the track's tags, each with its value; the
/// album's keys are exactly those every track has, with the value the first
/// track has, other than `tracknumber`, `discnumber` and `title`; and no
/// tracks give no album tags.
pub proof fn law_compress(
    raw: Seq<Seq<(Seq<char>, JsonV)>>,
    pool: Seq<(Seq<char>, JsonV)>,
    rests: Seq<Seq<(Seq<char>, JsonV)>>,
)
    requires
        pool == album_pool(raw),
        rests == raw.map_values(|t: Seq<(Seq<char>, JsonV)>| track_rest(raw, t)),
    ensures
        rests.len() == raw.len(),
        raw.len() == 0 ==> pool.len() == 0,
        forall|n: int, k: Seq<char>|
            0 <= n < raw.len() ==> !(#[trigger] jget(JsonV::Object(rests[n]), k) is Some && jget(
                JsonV::Object(pool),
                k,
            ) is Some),
        forall|n: int, k: Seq<char>|
            0 <= n < raw.len() ==> jget(JsonV::Object(raw[n]), k) == if #[trigger] jget(
                JsonV::Object(rests[n]),
                k,
            ) is Some {
                jget(JsonV::Object(rests[n]), k)
            } else {
                jget(JsonV::Object(pool), k)
            },
        forall|k: Seq<char>|
            #[trigger] jget(JsonV::Object(pool), k) is Some <==> raw.len() > 0 && !forced_track_key(k) && forall|i: int|
                0 <= i < raw.len() ==> jget(JsonV::Object(#[trigger] raw[i]), k) is Some && jget(
                    JsonV::Object(raw[i]),
                    k,
                ) == jget(JsonV::Object(raw[0]), k),
{
    assert forall|n: int, k: Seq<char>| 0 <= n < raw.len() implies !(#[trigger] jget(
        JsonV::Object(rests[n]),
        k,
    ) is Some && jget(JsonV::Object(pool), k) is Some) && jget(JsonV::Object(raw[n]), k) == if jget(
        JsonV::Object(rests[n]),
        k,
    ) is Some {
        jget(JsonV::Object(rests[n]), k)
    } else {
        jget(JsonV::Object(pool), k)
    } by {
        assert(rests[n] == track_rest(raw, raw[n]));
        law_compress_keeps_tags(raw, n, k);
        law_compress_pool_keys(raw, k);
    }
    assert forall|k: Seq<char>| #[trigger] jget(JsonV::Object(pool), k) is Some <==> promoted(raw, k) by {
        law_compress_pool_keys(raw, k);
    }
}

/// The disc number a harvested track is sorted by.
pub open spec fn disc_of(t: (Seq<char>, Seq<(Seq<char>, JsonV)>)) -> nat {
    sort_int(jget(JsonV::Object(t.1), "discnumber"@))
}

/// The track number a harvested track is sorted by.
pub open spec fn number_of(t: (Seq<char>, Seq<(Seq<char>, JsonV)>)) -> nat {
    sort_int(jget(JsonV::Object(t.1), "tracknumber"@))
}

/// Sorting an album's tracks keeps exactly the tracks it was given and
/// orders them by disc number first, whatever their track numbers, and by
/// track number within a disc: of two tracks, the one on the smaller disc
/// comes first, and on one disc the one with the smaller track number.
pub proof fn law_tracks_by_disc_then_number(ts: Seq<(Seq<char>, Seq<(Seq<char>, JsonV)>)>)
    ensures
        sort_by(ts, track_gt()).to_multiset() == ts.to_multiset(),
        forall|i: int, j: int|
            0 <= i < j < sort_by(ts, track_gt()).len() ==> disc_of(#[trigger] sort_by(ts, track_gt())[i]) <= disc_of(
                #[trigger] sort_by(ts, track_gt())[j],
            ),
        forall|i: int, j: int|
            0 <= i < j < sort_by(ts, track_gt()).len() && disc_of(#[trigger] sort_by(ts, track_gt())[i]) == disc_of(
                #[trigger] sort_by(ts, track_gt())[j],
            ) ==> number_of(sort_by(ts, track_gt())[i]) <= number_of(sort_by(ts, track_gt())[j]),
{
    let le = |a: (Seq<char>, Seq<(Seq<char>, JsonV)>), b: (Seq<char>, Seq<(Seq<char>, JsonV)>)|
        disc_of(a) < disc_of(b) || (disc_of(a) == disc_of(b) && number_of(a) <= number_of(b));
    let gt = track_gt();
    assert forall|a: (Seq<char>, Seq<(Seq<char>, JsonV)>), b: (Seq<char>, Seq<(Seq<char>, JsonV)>)|
        #[trigger] gt(a, b) implies le(b, a) by {}
    assert forall|a: (Seq<char>, Seq<(Seq<char>, JsonV)>), b: (Seq<char>, Seq<(Seq<char>, JsonV)>)|
        !#[trigger] gt(a, b) implies le(a, b) by {}
    assert(preorder_for(gt, le));
    crate::collate::lemma_sort_by_ordered(ts, gt, le);
    crate::collate::lemma_sort_by_multiset(ts, gt);
    let s = sort_by(ts, gt);
    assert forall|i: int, j: int| 0 <= i < j < s.len() implies disc_of(#[trigger] s[i]) <= disc_of(#[trigger] s[j]) by {
        assert(le(s[i], s[j]));
    }
}

} // verus!

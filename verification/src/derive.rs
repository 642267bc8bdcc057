//! The sets that the engine derives from the logic results: library,
//! filter and shelf membership, and the facet values of each grouper.
//!
//! Each logic result is a JSON object whose sections (`libraries`,
//! `filters`, `groupers`, `shelves`) are objects keyed by name.  A result is
//! folded into the tables one section entry at a time, in the order the
//! entries come.
use vstd::prelude::*;
use roaring::RoaringBitmap;
use crate::assoc::{distinct, skeys, smap, sput, sremove};
use crate::bitmap::{bitmap_set, bitmap_new, bitmap_insert};
use crate::json::{Json, JsonV, jget};
use crate::jtext::{jtext, json_text};

verus! {

/// The entries of section `key` of a logic result, or none.
pub open spec fn section(eval: JsonV, key: Seq<char>) -> Seq<(Seq<char>, JsonV)> {
    match jget(eval, key) {
        Some(JsonV::Object(es)) => es,
        _ => Seq::empty(),
    }
}

/// The set under `k`, or the empty set.
pub open spec fn bset(m: Map<Seq<char>, Set<u32>>, k: Seq<char>) -> Set<u32> {
    if m.contains_key(k) {
        m[k]
    } else {
        Set::empty()
    }
}

/// The sequence under `k`, or the empty sequence.
pub open spec fn sget(m: Map<Seq<char>, Seq<u32>>, k: Seq<char>) -> Seq<u32> {
    if m.contains_key(k) {
        m[k]
    } else {
        Seq::empty()
    }
}

/// The value map under `k`, or the empty map.
pub open spec fn fget(m: Map<Seq<char>, Map<Seq<char>, Set<u32>>>, k: Seq<char>) -> Map<Seq<char>, Set<u32>> {
    if m.contains_key(k) {
        m[k]
    } else {
        Map::empty()
    }
}

/// Adds `u` to the set of every name that `sec` marks `true`.
pub open spec fn mark_step(m: Map<Seq<char>, Set<u32>>, sec: Seq<(Seq<char>, JsonV)>, u: u32) -> Map<Seq<char>, Set<u32>>
    decreases sec.len(),
{
    if sec.len() == 0 {
        m
    } else {
        let m0 = mark_step(m, sec.drop_last(), u);
        if sec.last().1 == JsonV::Bool(true) {
            m0.insert(sec.last().0, bset(m0, sec.last().0).insert(u))
        } else {
            m0
        }
    }
}

/// Appends `u` to the list of every name that `sec` marks `true`.
pub open spec fn shelf_step(m: Map<Seq<char>, Seq<u32>>, sec: Seq<(Seq<char>, JsonV)>, u: u32) -> Map<Seq<char>, Seq<u32>>
    decreases sec.len(),
{
    if sec.len() == 0 {
        m
    } else {
        let m0 = shelf_step(m, sec.drop_last(), u);
        if sec.last().1 == JsonV::Bool(true) {
            m0.insert(sec.last().0, sget(m0, sec.last().0).push(u))
        } else {
            m0
        }
    }
}

/// The facet value that an array item stands for: a string as it is,
/// anything else as its JSON text.
pub open spec fn facet_key(x: JsonV) -> Seq<char> {
    match x {
        JsonV::Str(s) => s,
        _ => jtext(x),
    }
}

/// The facet values that a grouper's result stands for.
pub open spec fn facet_keys(v: JsonV) -> Seq<Seq<char>> {
    match v {
        JsonV::Array(items) => items.map_values(|x: JsonV| facet_key(x)),
        JsonV::Str(s) => seq![s],
        _ => seq![jtext(v)],
    }
}

/// Adds `u` to the set of each of the given values.
pub open spec fn value_step(fm: Map<Seq<char>, Set<u32>>, keys: Seq<Seq<char>>, u: u32) -> Map<Seq<char>, Set<u32>>
    decreases keys.len(),
{
    if keys.len() == 0 {
        fm
    } else {
        let f0 = value_step(fm, keys.drop_last(), u);
        f0.insert(keys.last(), bset(f0, keys.last()).insert(u))
    }
}

/// Adds `u` under every grouper of `sec`, to each value it stands for.
pub open spec fn facet_step(
    m: Map<Seq<char>, Map<Seq<char>, Set<u32>>>,
    sec: Seq<(Seq<char>, JsonV)>,
    u: u32,
) -> Map<Seq<char>, Map<Seq<char>, Set<u32>>>
    decreases sec.len(),
{
    if sec.len() == 0 {
        m
    } else {
        let m0 = facet_step(m, sec.drop_last(), u);
        let g = sec.last().0;
        m0.insert(g, value_step(fget(m0, g), facet_keys(sec.last().1), u))
    }
}

/// The membership table of section `key` over the results `es`, in order.
pub open spec fn member_table(es: Seq<(u32, JsonV)>, key: Seq<char>) -> Map<Seq<char>, Set<u32>>
    decreases es.len(),
{
    if es.len() == 0 {
        Map::empty()
    } else {
        mark_step(member_table(es.drop_last(), key), section(es.last().1, key), es.last().0)
    }
}

/// The shelf lists over the results `es`, in order.
pub open spec fn shelf_table(es: Seq<(u32, JsonV)>) -> Map<Seq<char>, Seq<u32>>
    decreases es.len(),
{
    if es.len() == 0 {
        Map::empty()
    } else {
        shelf_step(shelf_table(es.drop_last()), section(es.last().1, "shelves"@), es.last().0)
    }
}

/// The facet table over the results `es`, in order.
pub open spec fn facet_table(es: Seq<(u32, JsonV)>) -> Map<Seq<char>, Map<Seq<char>, Set<u32>>>
    decreases es.len(),
{
    if es.len() == 0 {
        Map::empty()
    } else {
        facet_step(facet_table(es.drop_last()), section(es.last().1, "groupers"@), es.last().0)
    }
}

pub open spec fn bitmaps_view(v: Seq<(String, RoaringBitmap)>) -> Map<Seq<char>, Set<u32>> {
    smap(v).map_values(|b: RoaringBitmap| bitmap_set(b))
}

pub open spec fn lists_view(v: Seq<(String, Vec<u32>)>) -> Map<Seq<char>, Seq<u32>> {
    smap(v).map_values(|l: Vec<u32>| l@)
}

pub open spec fn facets_view(v: Seq<(String, Vec<(String, RoaringBitmap)>)>) -> Map<Seq<char>, Map<Seq<char>, Set<u32>>> {
    smap(v).map_values(|f: Vec<(String, RoaringBitmap)>| bitmaps_view(f@))
}

/// Every value map of a facet table is keyed without repetition.
pub open spec fn facets_wf(v: Seq<(String, Vec<(String, RoaringBitmap)>)>) -> bool {
    &&& distinct(skeys(v))
    &&& forall|k: Seq<char>| #[trigger] smap(v).contains_key(k) ==> distinct(skeys(smap(v)[k]@))
}

/// Adds `u` to the bitmap under `name`, which is created when missing.
pub fn add_member(cache: &mut Vec<(String, RoaringBitmap)>, name: &str, u: u32)
    requires
        distinct(skeys(old(cache)@)),
    ensures
        distinct(skeys(final(cache)@)),
        bitmaps_view(final(cache)@) == bitmaps_view(old(cache)@).insert(
            name@,
            bset(bitmaps_view(old(cache)@), name@).insert(u),
        ),
{
    let ghost before = bitmaps_view(cache@);
    let mut b = match sremove(cache, name) {
        Some(b) => b,
        None => bitmap_new(),
    };
    bitmap_insert(&mut b, u);
    let ghost bv = bitmap_set(b);
    sput(cache, crate::text::str_to_string(name), b);
    assert(bitmaps_view(cache@) =~= before.insert(name@, bv));
}

/// Adds `u` to every name that `sec` marks `true`.
pub fn mark_section(cache: &mut Vec<(String, RoaringBitmap)>, sec: &Vec<(String, Json)>, u: u32)
    requires
        distinct(skeys(old(cache)@)),
    ensures
        distinct(skeys(final(cache)@)),
        bitmaps_view(final(cache)@) == mark_step(
            bitmaps_view(old(cache)@),
            sec@.map_values(|e: (String, Json)| (e.0@, e.1@)),
            u,
        ),
{
    let ghost sv = sec@.map_values(|e: (String, Json)| (e.0@, e.1@));
    let ghost m0 = bitmaps_view(cache@);
    let mut j: usize = 0;
    while j < sec.len()
        invariant
            0 <= j <= sec@.len(),
            sv == sec@.map_values(|e: (String, Json)| (e.0@, e.1@)),
            distinct(skeys(cache@)),
            bitmaps_view(cache@) == mark_step(m0, sv.take(j as int), u),
        decreases sec@.len() - j,
    {
        proof {
            assert(sv.take(j + 1).drop_last() =~= sv.take(j as int));
            assert(sv.take(j + 1).last() == sv[j as int]);
        }
        match sec[j].1.as_bool() {
            Some(true) => {
                add_member(cache, sec[j].0.as_str(), u);
            },
            _ => {},
        }
        j = j + 1;
    }
    assert(sv.take(sec@.len() as int) =~= sv);
}

/// Appends `u` to the list under `name`, which is created when missing.
pub fn append_member(cache: &mut Vec<(String, Vec<u32>)>, name: &str, u: u32)
    requires
        distinct(skeys(old(cache)@)),
    ensures
        distinct(skeys(final(cache)@)),
        lists_view(final(cache)@) == lists_view(old(cache)@).insert(
            name@,
            sget(lists_view(old(cache)@), name@).push(u),
        ),
{
    let ghost before = lists_view(cache@);
    let mut l = match sremove(cache, name) {
        Some(l) => l,
        None => Vec::new(),
    };
    l.push(u);
    let ghost lv = l@;
    sput(cache, crate::text::str_to_string(name), l);
    assert(lists_view(cache@) =~= before.insert(name@, lv));
}

/// Puts list `l` under `name`, replacing what was there.
pub fn put_list(cache: &mut Vec<(String, Vec<u32>)>, name: String, l: Vec<u32>)
    requires
        distinct(skeys(old(cache)@)),
    ensures
        distinct(skeys(final(cache)@)),
        lists_view(final(cache)@) == lists_view(old(cache)@).insert(name@, l@),
{
    let ghost before = lists_view(cache@);
    let ghost nv = name@;
    let ghost lv = l@;
    sput(cache, name, l);
    assert(lists_view(cache@) =~= before.insert(nv, lv));
}

/// Appends `u` to every shelf that `sec` marks `true`.
pub fn shelve_section(cache: &mut Vec<(String, Vec<u32>)>, sec: &Vec<(String, Json)>, u: u32)
    requires
        distinct(skeys(old(cache)@)),
    ensures
        distinct(skeys(final(cache)@)),
        lists_view(final(cache)@) == shelf_step(
            lists_view(old(cache)@),
            sec@.map_values(|e: (String, Json)| (e.0@, e.1@)),
            u,
        ),
{
    let ghost sv = sec@.map_values(|e: (String, Json)| (e.0@, e.1@));
    let ghost m0 = lists_view(cache@);
    let mut j: usize = 0;
    while j < sec.len()
        invariant
            0 <= j <= sec@.len(),
            sv == sec@.map_values(|e: (String, Json)| (e.0@, e.1@)),
            distinct(skeys(cache@)),
            lists_view(cache@) == shelf_step(m0, sv.take(j as int), u),
        decreases sec@.len() - j,
    {
        proof {
            assert(sv.take(j + 1).drop_last() =~= sv.take(j as int));
            assert(sv.take(j + 1).last() == sv[j as int]);
        }
        match sec[j].1.as_bool() {
            Some(true) => {
                append_member(cache, sec[j].0.as_str(), u);
            },
            _ => {},
        }
        j = j + 1;
    }
    assert(sv.take(sec@.len() as int) =~= sv);
}

/// The facet values that a grouper's result stands for.
pub fn facet_keys_of(v: &Json) -> (r: Vec<String>)
    ensures
        r@.map_values(|s: String| s@) == facet_keys(v@),
{
    let mut r: Vec<String> = Vec::new();
    match v {
        Json::Array(items) => {
            proof {
                v.lemma_array_view();
            }
            let ghost iv = v@->Array_0;
            let mut i: usize = 0;
            while i < items.len()
                invariant
                    *v == Json::Array(*items),
                    iv == v@->Array_0,
                    iv == items@.map_values(|x: Json| x@),
                    0 <= i <= items@.len(),
                    r@.len() == i,
                    forall|m: int| 0 <= m < i ==> (#[trigger] r@[m])@ == facet_key(iv[m]),
                decreases items@.len() - i,
            {
                let k = match items[i].as_str() {
                    Some(s) => s.clone(),
                    None => json_text(&items[i]),
                };
                r.push(k);
                i = i + 1;
            }
            assert(r@.map_values(|s: String| s@) =~= facet_keys(v@));
        },
        Json::Str(s) => {
            r.push(s.clone());
            assert(r@.map_values(|s: String| s@) =~= facet_keys(v@));
        },
        _ => {
            r.push(json_text(v));
            assert(r@.map_values(|s: String| s@) =~= facet_keys(v@));
        },
    }
    r
}

/// Adds `u` under the grouper's value map to each of the given values.
pub fn add_values(fm: &mut Vec<(String, RoaringBitmap)>, keys: &Vec<String>, u: u32)
    requires
        distinct(skeys(old(fm)@)),
    ensures
        distinct(skeys(final(fm)@)),
        bitmaps_view(final(fm)@) == value_step(
            bitmaps_view(old(fm)@),
            keys@.map_values(|s: String| s@),
            u,
        ),
{
    let ghost kv = keys@.map_values(|s: String| s@);
    let ghost m0 = bitmaps_view(fm@);
    let mut j: usize = 0;
    while j < keys.len()
        invariant
            0 <= j <= keys@.len(),
            kv == keys@.map_values(|s: String| s@),
            distinct(skeys(fm@)),
            bitmaps_view(fm@) == value_step(m0, kv.take(j as int), u),
        decreases keys@.len() - j,
    {
        proof {
            assert(kv.take(j + 1).drop_last() =~= kv.take(j as int));
            assert(kv.take(j + 1).last() == kv[j as int]);
        }
        add_member(fm, keys[j].as_str(), u);
        j = j + 1;
    }
    assert(kv.take(keys@.len() as int) =~= kv);
}

/// Adds `u` under every grouper of `sec`.
pub fn facet_section(cache: &mut Vec<(String, Vec<(String, RoaringBitmap)>)>, sec: &Vec<(String, Json)>, u: u32)
    requires
        facets_wf(old(cache)@),
    ensures
        facets_wf(final(cache)@),
        facets_view(final(cache)@) == facet_step(
            facets_view(old(cache)@),
            sec@.map_values(|e: (String, Json)| (e.0@, e.1@)),
            u,
        ),
{
    let ghost sv = sec@.map_values(|e: (String, Json)| (e.0@, e.1@));
    let ghost m0 = facets_view(cache@);
    let mut j: usize = 0;
    while j < sec.len()
        invariant
            0 <= j <= sec@.len(),
            sv == sec@.map_values(|e: (String, Json)| (e.0@, e.1@)),
            facets_wf(cache@),
            facets_view(cache@) == facet_step(m0, sv.take(j as int), u),
        decreases sec@.len() - j,
    {
        proof {
            assert(sv.take(j + 1).drop_last() =~= sv.take(j as int));
            assert(sv.take(j + 1).last() == sv[j as int]);
        }
        let ghost before = facets_view(cache@);
        let g = sec[j].0.as_str();
        let ghost pre_cache = cache@;
        let prev = sremove(cache, g);
        proof {
            assert forall|k: Seq<char>| #[trigger] smap(cache@).contains_key(k) implies distinct(skeys(smap(cache@)[k]@)) by {
                assert(smap(pre_cache).contains_key(k));
            }
        }
        let mut fm = match prev {
            Some(f) => f,
            None => Vec::new(),
        };
        proof {
            assert(bitmaps_view(fm@) =~= fget(before, g@));
            assert(sv[j as int] == (g@, sec@[j as int].1@));
        }
        let keys = facet_keys_of(&sec[j].1);
        add_values(&mut fm, &keys, u);
        let ghost fv = bitmaps_view(fm@);
        let ghost fmv = fm@;
        let ghost mid_cache = cache@;
        sput(cache, crate::text::str_to_string(g), fm);
        proof {
            assert(facets_view(cache@) =~= before.insert(g@, fv));
            assert forall|k: Seq<char>| #[trigger] smap(cache@).contains_key(k) implies distinct(skeys(smap(cache@)[k]@)) by {
                if k != g@ {
                    assert(smap(mid_cache).contains_key(k));
                }
            }
        }
        j = j + 1;
    }
    assert(sv.take(sec@.len() as int) =~= sv);
}

/// Whether `sec` has an entry `name: true`.
pub open spec fn marks(sec: Seq<(Seq<char>, JsonV)>, name: Seq<char>) -> bool {
    exists|j: int| 0 <= j < sec.len() && sec[j].0 == name && sec[j].1 == JsonV::Bool(true)
}

/// Whether section `key` of a logic result marks `name` as `true`.
pub open spec fn marked(eval: JsonV, key: Seq<char>, name: Seq<char>) -> bool {
    marks(section(eval, key), name)
}

pub proof fn lemma_mark_step(m: Map<Seq<char>, Set<u32>>, sec: Seq<(Seq<char>, JsonV)>, u: u32, name: Seq<char>, x: u32)
    ensures
        mark_step(m, sec, u).contains_key(name) <==> m.contains_key(name) || marks(sec, name),
        bset(mark_step(m, sec, u), name).contains(x) <==> bset(m, name).contains(x) || (x == u
            && marks(sec, name)),
    decreases sec.len(),
{
    if sec.len() > 0 {
        let d = sec.drop_last();
        lemma_mark_step(m, d, u, name, x);
        if marks(sec, name) {
            let j = choose|j: int| 0 <= j < sec.len() && sec[j].0 == name && sec[j].1 == JsonV::Bool(true);
            if j < d.len() {
                assert(d[j] == sec[j]);
            }
        }
        if marks(d, name) {
            let j = choose|j: int| 0 <= j < d.len() && d[j].0 == name && d[j].1 == JsonV::Bool(true);
            assert(sec[j] == d[j]);
        }
    }
}

pub proof fn lemma_member_table(es: Seq<(u32, JsonV)>, key: Seq<char>, name: Seq<char>, x: u32)
    ensures
        member_table(es, key).contains_key(name) <==> exists|i: int|
            0 <= i < es.len() && marked(#[trigger] es[i].1, key, name),
        bset(member_table(es, key), name).contains(x) <==> exists|i: int|
            0 <= i < es.len() && es[i].0 == x && marked(#[trigger] es[i].1, key, name),
    decreases es.len(),
{
    if es.len() > 0 {
        let d = es.drop_last();
        let l = es.last();
        lemma_member_table(d, key, name, x);
        lemma_mark_step(member_table(d, key), section(l.1, key), l.0, name, x);
        if exists|i: int| 0 <= i < es.len() && marked(#[trigger] es[i].1, key, name) {
            let i = choose|i: int| 0 <= i < es.len() && marked(#[trigger] es[i].1, key, name);
            if i < d.len() {
                assert(d[i] == es[i]);
            }
        }
        if exists|i: int| 0 <= i < es.len() && es[i].0 == x && marked(#[trigger] es[i].1, key, name) {
            let i = choose|i: int| 0 <= i < es.len() && es[i].0 == x && marked(#[trigger] es[i].1, key, name);
            if i < d.len() {
                assert(d[i] == es[i]);
            }
        }
        if exists|i: int| 0 <= i < d.len() && marked(#[trigger] d[i].1, key, name) {
            let i = choose|i: int| 0 <= i < d.len() && marked(#[trigger] d[i].1, key, name);
            assert(es[i] == d[i]);
        }
        if exists|i: int| 0 <= i < d.len() && d[i].0 == x && marked(#[trigger] d[i].1, key, name) {
            let i = choose|i: int| 0 <= i < d.len() && d[i].0 == x && marked(#[trigger] d[i].1, key, name);
            assert(es[i] == d[i]);
        }
    }
}

} // verus!

//! `sort_json_keys`: every object of a JSON value, at any depth, with its
//! entries in key order.
use vstd::prelude::*;
use crate::collate::{lemma_insert_at, lex_less, lex_lt, sort_by};
use crate::jmap::ents;
use crate::json::{Json, JsonV};

verus! {

/// Entries ordered by key, as `str::cmp` orders them.
pub open spec fn entry_gt() -> spec_fn((Seq<char>, JsonV), (Seq<char>, JsonV)) -> bool {
    |a: (Seq<char>, JsonV), b: (Seq<char>, JsonV)| lex_lt(b.0, a.0)
}

/// A value with the entries of each of its objects sorted by key (stably).
pub open spec fn sorted_keys(v: JsonV) -> JsonV
    decreases v,
{
    match v {
        JsonV::Object(es) => JsonV::Object(sort_by(sorted_entries(es), entry_gt())),
        JsonV::Array(items) => JsonV::Array(sorted_items(items)),
        _ => v,
    }
}

/// An object's entries, each value sorted.
pub open spec fn sorted_entries(es: Seq<(Seq<char>, JsonV)>) -> Seq<(Seq<char>, JsonV)>
    decreases es,
{
    Seq::new(
        es.len(),
        |i: int|
            if 0 <= i < es.len() {
                (es[i].0, sorted_keys(es[i].1))
            } else {
                (Seq::empty(), JsonV::Null)
            },
    )
}

/// A list's items, each sorted.
pub open spec fn sorted_items(items: Seq<JsonV>) -> Seq<JsonV>
    decreases items,
{
    Seq::new(
        items.len(),
        |i: int|
            if 0 <= i < items.len() {
                sorted_keys(items[i])
            } else {
                JsonV::Null
            },
    )
}

/// Entries sorted by key, stably.
fn sort_entries(v: Vec<(String, Json)>) -> (r: Vec<(String, Json)>)
    ensures
        ents(r@) == sort_by(ents(v@), entry_gt()),
{
    let ghost sv = ents(v@);
    let mut rest = v;
    let mut out: Vec<(String, Json)> = Vec::new();
    let ghost mut i: int = 0;
    while rest.len() > 0
        invariant
            0 <= i <= sv.len(),
            ents(rest@) == sv.skip(i),
            ents(out@) == sort_by(sv.take(i), entry_gt()),
        decreases rest@.len(),
    {
        let ghost before = ents(out@);
        let ghost rv = ents(rest@);
        assert(rv.len() == sv.len() - i);
        let e = rest.remove(0);
        proof {
            assert(ents(rest@) =~= rv.skip(1));
            assert(rv.skip(1) =~= sv.skip(i + 1));
            assert(rv[0] == (e.0@, e.1@));
            assert(sv.skip(i)[0] == sv[i]);
        }
        let mut p: usize = out.len();
        while p > 0 && lex_less(e.0.as_str(), out[p - 1].0.as_str())
            invariant
                0 <= p <= out@.len(),
                before == ents(out@),
                forall|q: int| p <= q < before.len() ==> entry_gt()(#[trigger] before[q], (e.0@, e.1@)),
            decreases p,
        {
            assert(before[p - 1] == (out@[p - 1].0@, out@[p - 1].1@));
            p = p - 1;
        }
        proof {
            assert(sv.take(i + 1).drop_last() =~= sv.take(i));
            assert(sv.take(i + 1).last() == (e.0@, e.1@));
            if p > 0 {
                assert(before[p - 1] == (out@[p - 1].0@, out@[p - 1].1@));
            }
            lemma_insert_at(before, (e.0@, e.1@), p as int, entry_gt());
        }
        let ghost ev = (e.0@, e.1@);
        out.insert(p, e);
        proof {
            assert(ents(out@) =~= before.take(p as int).push(ev) + before.skip(p as int));
            i = i + 1;
        }
    }
    proof {
        assert(sv.skip(i).len() == 0);
        assert(sv.take(i) =~= sv);
    }
    out
}

fn sorted_value(v: Json, Ghost(m): Ghost<JsonV>) -> (r: Json)
    requires
        m == v@,
    ensures
        r@ == sorted_keys(v@),
    decreases m,
{
    let ghost vv = v@;
    match v {
        Json::Object(es) => {
            let ghost ev = ents(es@);
            assert(ev =~= vv->Object_0);
            let ghost target = sorted_entries(ev);
            let mut rest = es;
            let mut done: Vec<(String, Json)> = Vec::new();
            let ghost mut i: int = 0;
            while rest.len() > 0
                invariant
                    0 <= i <= ev.len(),
                    ev == vv->Object_0,
                    m == vv,
                    vv is Object,
                    ents(rest@) == ev.skip(i),
                    target == sorted_entries(ev),
                    ents(done@) == target.take(i),
                decreases rest@.len(),
            {
                let ghost rv = ents(rest@);
                assert(rv.len() == ev.len() - i);
                let (k, x) = rest.remove(0);
                proof {
                    assert(ents(rest@) =~= rv.skip(1));
                    assert(rv.skip(1) =~= ev.skip(i + 1));
                    assert(rv[0] == (k@, x@));
                    assert(ev[i] == (k@, x@));
                    assert(decreases_to!(m => m->Object_0));
                    assert(decreases_to!(m->Object_0 => m->Object_0[i]));
                    assert(decreases_to!(m->Object_0[i] => m->Object_0[i].1));
                }
                let ghost before = ents(done@);
                let y = sorted_value(x, Ghost(ev[i].1));
                done.push((k, y));
                proof {
                    assert(ents(done@) =~= before.push(target[i]));
                    assert(target.take(i + 1) =~= target.take(i).push(target[i]));
                    i = i + 1;
                }
            }
            assert(target.take(i) =~= target);
            let sorted = sort_entries(done);
            crate::lockbuild::object(sorted)
        },
        Json::Array(items) => {
            let ghost iv = items@.map_values(|x: Json| x@);
            assert(iv =~= vv->Array_0);
            let ghost target = sorted_items(iv);
            let mut rest = items;
            let mut done: Vec<Json> = Vec::new();
            let ghost mut i: int = 0;
            while rest.len() > 0
                invariant
                    0 <= i <= iv.len(),
                    iv == vv->Array_0,
                    m == vv,
                    vv is Array,
                    rest@.map_values(|x: Json| x@) == iv.skip(i),
                    target == sorted_items(iv),
                    done@.map_values(|x: Json| x@) == target.take(i),
                decreases rest@.len(),
            {
                let ghost rv = rest@.map_values(|x: Json| x@);
                assert(rv.len() == iv.len() - i);
                let x = rest.remove(0);
                proof {
                    assert(rest@.map_values(|x: Json| x@) =~= rv.skip(1));
                    assert(rv.skip(1) =~= iv.skip(i + 1));
                    assert(rv[0] == x@);
                    assert(iv[i] == x@);
                    assert(decreases_to!(m => m->Array_0));
                    assert(decreases_to!(m->Array_0 => m->Array_0[i]));
                }
                let ghost before = done@.map_values(|x: Json| x@);
                let y = sorted_value(x, Ghost(iv[i]));
                done.push(y);
                proof {
                    assert(done@.map_values(|x: Json| x@) =~= before.push(target[i]));
                    assert(target.take(i + 1) =~= target.take(i).push(target[i]));
                    i = i + 1;
                }
            }
            assert(target.take(i) =~= target);
            crate::lockbuild::array(done)
        },
        other => other,
    }
}

/// Sorts the entries of every object of a value by key, at every depth.
pub fn sort_json_keys(value: &mut Json)
    ensures
        final(value)@ == sorted_keys(old(value)@),
{
    let mut v = Json::Null;
    std::mem::swap(&mut v, value);
    let ghost m = v@;
    *value = sorted_value(v, Ghost(m));
}

/// Sorting an object's keys keeps every entry: the sorted entries are a
/// rearrangement of the entries with their values sorted.
pub proof fn law_sort_keeps_entries(es: Seq<(Seq<char>, JsonV)>)
    ensures
        sort_by(sorted_entries(es), entry_gt()).to_multiset() == sorted_entries(es).to_multiset(),
{
    crate::collate::lemma_sort_by_multiset(sorted_entries(es), entry_gt());
}

} // verus!

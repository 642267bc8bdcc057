//! JSON objects kept in key order, as `serde_json`'s map keeps them:
//! inserting a key, and merging one object's entries into another.
use vstd::prelude::*;
use crate::collate::{lex_less, lex_lt};
use crate::json::{Json, JsonV};
use crate::text::str_eq;

verus! {

/// Where a key belongs in an object: at the first entry whose key is the
/// same or comes after it, else at the end.
pub open spec fn jslot(es: Seq<(Seq<char>, JsonV)>, k: Seq<char>) -> int
    decreases es.len(),
{
    if es.len() == 0 {
        0
    } else if es[0].0 == k || lex_lt(k, es[0].0) {
        0
    } else {
        1 + jslot(es.skip(1), k)
    }
}

/// The object with `v` under `k` (`Map::insert`): the entry replaced where
/// the key is, else a new entry where the key belongs.
pub open spec fn jput(es: Seq<(Seq<char>, JsonV)>, k: Seq<char>, v: JsonV) -> Seq<(Seq<char>, JsonV)> {
    let j = jslot(es, k);
    if j < es.len() && es[j].0 == k {
        es.update(j, (k, v))
    } else {
        es.insert(j, (k, v))
    }
}

proof fn lemma_jslot_at(es: Seq<(Seq<char>, JsonV)>, k: Seq<char>, j: int)
    requires
        0 <= j <= es.len(),
        forall|m: int| 0 <= m < j ==> es[m].0 != k && !lex_lt(k, #[trigger] es[m].0),
        j < es.len() ==> (es[j].0 == k || lex_lt(k, es[j].0)),
    ensures
        jslot(es, k) == j,
    decreases j,
{
    if j > 0 {
        let t = es.skip(1);
        assert forall|m: int| 0 <= m < j - 1 implies t[m].0 != k && !lex_lt(k, #[trigger] t[m].0) by {
            assert(t[m] == es[m + 1]);
        }
        if j - 1 < t.len() {
            assert(t[j - 1] == es[j]);
        }
        lemma_jslot_at(t, k, j - 1);
        assert(!(es[0].0 == k || lex_lt(k, es[0].0)));
    }
}

pub open spec fn ents(es: Seq<(String, Json)>) -> Seq<(Seq<char>, JsonV)> {
    es.map_values(|e: (String, Json)| (e.0@, e.1@))
}

fn jfind_slot(es: &Vec<(String, Json)>, k: &str) -> (r: (usize, bool))
    ensures
        r.0 <= es@.len(),
        r.0 == jslot(ents(es@), k@),
        r.1 == (r.0 < es@.len() && ents(es@)[r.0 as int].0 == k@),
{
    let ghost ev = ents(es@);
    let mut j: usize = 0;
    while j < es.len()
        invariant
            0 <= j <= es@.len(),
            ev == ents(es@),
            forall|m: int| 0 <= m < j ==> ev[m].0 != k@ && !lex_lt(k@, #[trigger] ev[m].0),
        decreases es@.len() - j,
    {
        assert(ev[j as int].0 == es@[j as int].0@);
        if str_eq(es[j].0.as_str(), k) {
            proof {
                lemma_jslot_at(ev, k@, j as int);
            }
            return (j, true);
        }
        if lex_less(k, es[j].0.as_str()) {
            proof {
                lemma_jslot_at(ev, k@, j as int);
            }
            return (j, false);
        }
        j = j + 1;
    }
    proof {
        lemma_jslot_at(ev, k@, j as int);
    }
    (j, false)
}

/// Puts `v` under `k`, keeping the object's key order.
pub fn object_put(es: &mut Vec<(String, Json)>, k: String, v: Json)
    ensures
        ents(final(es)@) == jput(ents(old(es)@), k@, v@),
{
    let ghost ev = ents(es@);
    let (j, found) = jfind_slot(es, k.as_str());
    let ghost kv = k@;
    let ghost vv = v@;
    if found {
        es.set(j, (k, v));
        assert(ents(es@) =~= ev.update(j as int, (kv, vv)));
    } else {
        es.insert(j, (k, v));
        assert(ents(es@) =~= ev.insert(j as int, (kv, vv)));
    }
}

/// Each entry put in turn.
pub open spec fn jput_all(es: Seq<(Seq<char>, JsonV)>, add: Seq<(Seq<char>, JsonV)>) -> Seq<(Seq<char>, JsonV)>
    decreases add.len(),
{
    if add.len() == 0 {
        es
    } else {
        let p = add.last();
        jput(jput_all(es, add.drop_last()), p.0, p.1)
    }
}

/// The entries of `add` put into an object, in order.
pub fn object_put_all(es: &mut Vec<(String, Json)>, add: Vec<(String, Json)>)
    ensures
        ents(final(es)@) == jput_all(ents(old(es)@), ents(add@)),
{
    let ghost av = ents(add@);
    let ghost e0 = ents(es@);
    let mut rest = add;
    let ghost mut i: int = 0;
    while rest.len() > 0
        invariant
            0 <= i <= av.len(),
            ents(rest@) == av.skip(i),
            e0 == ents(old(es)@),
            ents(es@) == jput_all(e0, av.take(i)),
        decreases rest@.len(),
    {
        let ghost rv = ents(rest@);
        assert(rv.len() == av.len() - i);
        let (k, v) = rest.remove(0);
        proof {
            assert(ents(rest@) =~= rv.skip(1));
            assert(rv.skip(1) =~= av.skip(i + 1));
            assert(rv[0] == (k@, v@));
            assert(av.take(i + 1).drop_last() =~= av.take(i));
            assert(av.take(i + 1).last() == av[i]);
        }
        object_put(es, k, v);
        proof {
            i = i + 1;
        }
    }
    assert(av.take(i) =~= av);
}

/// `update_state`: a payload object's entries put into the saved interface
/// state, when both are objects; the state is kept as it is otherwise.
pub open spec fn state_after(ui: JsonV, payload: JsonV) -> JsonV {
    match (ui, payload) {
        (JsonV::Object(u), JsonV::Object(p)) => JsonV::Object(jput_all(u, p)),
        _ => ui,
    }
}

pub fn update_state(ui: Json, payload: &Json) -> (r: Json)
    ensures
        r@ == state_after(ui@, payload@),
{
    let ghost uv = ui@;
    match payload.as_object() {
        Some(p) => {
            let add = crate::json::dup_entries(p);
            match ui {
                Json::Object(u) => {
                    let mut es = u;
                    assert(ents(es@) =~= uv->Object_0);
                    object_put_all(&mut es, add);
                    crate::lockbuild::object(es)
                },
                other => other,
            }
        },
        None => ui,
    }
}

/// Reading a key back after putting a value under it gives that value.
pub proof fn law_object_get_after_put(es: Seq<(Seq<char>, JsonV)>, k: Seq<char>, v: JsonV)
    ensures
        ({
            let t = jput(es, k, v);
            let j = jslot(t, k);
            j < t.len() && t[j] == (k, v)
        }),
{
    lemma_jslot_bounds(es, k);
    let j = jslot(es, k);
    let t = jput(es, k, v);
    assert forall|m: int| 0 <= m < j implies t[m].0 != k && !lex_lt(k, #[trigger] t[m].0) by {
        assert(t[m] == es[m]);
    }
    lemma_jslot_at(t, k, j);
}

proof fn lemma_jslot_bounds(es: Seq<(Seq<char>, JsonV)>, k: Seq<char>)
    ensures
        0 <= jslot(es, k) <= es.len(),
        forall|m: int| 0 <= m < jslot(es, k) ==> es[m].0 != k && !lex_lt(k, #[trigger] es[m].0),
    decreases es.len(),
{
    if es.len() > 0 && !(es[0].0 == k || lex_lt(k, es[0].0)) {
        lemma_jslot_bounds(es.skip(1), k);
        assert forall|m: int| 0 <= m < jslot(es, k) implies es[m].0 != k && !lex_lt(k, #[trigger] es[m].0) by {
            if m > 0 {
                assert(es[m] == es.skip(1)[m - 1]);
            }
        }
    }
}

} // verus!

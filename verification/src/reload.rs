//! What the server tells its clients after albums were read again: one album
//! updated, one removed, or a wider change of the logic.  Objects list their
//! keys in the order `serde_json` keeps them (by key).
use vstd::prelude::*;
use crate::jmap::{ents, jput_all, object_put_all};
use crate::json::{Json, JsonV};
use crate::library::UpdateResult;
use crate::lockbuild::{array, object};
use crate::text::str_to_string;

verus! {

/// The albums a batch of updates read again and removed, in order.
pub fn split_results(results: Vec<UpdateResult>) -> (r: (Vec<String>, Vec<String>))
    ensures
        r.0@.map_values(|s: String| s@) == updated_ids(results@),
        r.1@.map_values(|s: String| s@) == removed_ids(results@),
{
    let ghost rv = results@;
    let mut rest = results;
    let mut up: Vec<String> = Vec::new();
    let mut rm: Vec<String> = Vec::new();
    let ghost mut i: int = 0;
    while rest.len() > 0
        invariant
            0 <= i <= rv.len(),
            rest@ == rv.skip(i),
            up@.map_values(|s: String| s@) == updated_ids(rv.take(i)),
            rm@.map_values(|s: String| s@) == removed_ids(rv.take(i)),
        decreases rest@.len(),
    {
        let ghost before_up = up@.map_values(|s: String| s@);
        let ghost before_rm = rm@.map_values(|s: String| s@);
        let ghost rs = rest@;
        assert(rs.len() == rv.len() - i);
        let x = rest.remove(0);
        proof {
            assert(rest@ =~= rv.skip(i + 1));
            assert(x == rv[i]);
            assert(rv.take(i + 1).drop_last() =~= rv.take(i));
        }
        match x {
            UpdateResult::Updated(id) => {
                up.push(id);
                assert(up@.map_values(|s: String| s@) =~= before_up.push(rv[i]->Updated_0@));
                assert(rm@.map_values(|s: String| s@) =~= before_rm);
            },
            UpdateResult::Removed(id) => {
                rm.push(id);
                assert(rm@.map_values(|s: String| s@) =~= before_rm.push(rv[i]->Removed_0@));
                assert(up@.map_values(|s: String| s@) =~= before_up);
            },
        }
        proof {
            i = i + 1;
        }
    }
    assert(rv.take(i) =~= rv);
    (up, rm)
}

/// The ids of the albums read again, in order.
pub open spec fn updated_ids(rs: Seq<UpdateResult>) -> Seq<Seq<char>>
    decreases rs.len(),
{
    if rs.len() == 0 {
        Seq::empty()
    } else {
        match rs.last() {
            UpdateResult::Updated(id) => updated_ids(rs.drop_last()).push(id@),
            UpdateResult::Removed(_) => updated_ids(rs.drop_last()),
        }
    }
}

/// The ids of the albums removed, in order.
pub open spec fn removed_ids(rs: Seq<UpdateResult>) -> Seq<Seq<char>>
    decreases rs.len(),
{
    if rs.len() == 0 {
        Seq::empty()
    } else {
        match rs.last() {
            UpdateResult::Removed(id) => removed_ids(rs.drop_last()).push(id@),
            UpdateResult::Updated(_) => removed_ids(rs.drop_last()),
        }
    }
}

/// What clients are told after a batch.
pub enum BatchNotice {
    /// Nothing changed.
    Silent,
    /// Exactly one album was read again and none removed.
    AlbumUpdated(String),
    /// Exactly one album was removed and none read again.
    AlbumRemoved(String),
    /// Anything larger.
    LogicUpdate,
}

/// One album read again is announced with its entry, one removed with its
/// id, any other change as a change of the logic; nothing at all, nothing.
pub fn batch_notice(updated: &Vec<String>, removed: &Vec<String>) -> (r: BatchNotice)
    ensures
        updated@.len() == 0 && removed@.len() == 0 ==> r is Silent,
        updated@.len() == 1 && removed@.len() == 0 ==> (r matches BatchNotice::AlbumUpdated(id) && id@
            == updated@[0]@),
        removed@.len() == 1 && updated@.len() == 0 ==> (r matches BatchNotice::AlbumRemoved(id) && id@
            == removed@[0]@),
        updated@.len() + removed@.len() > 1 ==> r is LogicUpdate,
{
    if updated.len() == 0 && removed.len() == 0 {
        BatchNotice::Silent
    } else if updated.len() == 1 && removed.len() == 0 {
        BatchNotice::AlbumUpdated(updated[0].clone())
    } else if removed.len() == 1 && updated.len() == 0 {
        BatchNotice::AlbumRemoved(removed[0].clone())
    } else {
        BatchNotice::LogicUpdate
    }
}

/// The shelves as clients see them: each shelf's album ids, by shelf name.
pub open spec fn shelves_view(shelves: Seq<(Seq<char>, Seq<Seq<char>>)>) -> JsonV {
    JsonV::Object(
        jput_all(
            Seq::empty(),
            shelves.map_values(
                |e: (Seq<char>, Seq<Seq<char>>)|
                    (e.0, JsonV::Array(e.1.map_values(|s: Seq<char>| JsonV::Str(s)))),
            ),
        ),
    )
}

pub open spec fn shelf_pairs(shelves: Seq<(String, Vec<String>)>) -> Seq<(Seq<char>, Seq<Seq<char>>)> {
    shelves.map_values(|e: (String, Vec<String>)| (e.0@, e.1@.map_values(|s: String| s@)))
}

fn strings_json(ids: &Vec<String>) -> (r: Json)
    ensures
        r@ == JsonV::Array(ids@.map_values(|s: String| s@).map_values(|s: Seq<char>| JsonV::Str(s))),
{
    let ghost target = ids@.map_values(|s: String| s@).map_values(|s: Seq<char>| JsonV::Str(s));
    let mut items: Vec<Json> = Vec::new();
    let mut i: usize = 0;
    while i < ids.len()
        invariant
            0 <= i <= ids@.len(),
            target == ids@.map_values(|s: String| s@).map_values(|s: Seq<char>| JsonV::Str(s)),
            items@.map_values(|x: Json| x@) == target.take(i as int),
        decreases ids@.len() - i,
    {
        let ghost before = items@.map_values(|x: Json| x@);
        items.push(Json::Str(ids[i].clone()));
        assert(items@.map_values(|x: Json| x@) =~= before.push(target[i as int]));
        assert(target.take(i + 1) =~= target.take(i as int).push(target[i as int]));
        i = i + 1;
    }
    assert(target.take(i as int) =~= target);
    array(items)
}

pub fn shelves_json(shelves: &Vec<(String, Vec<String>)>) -> (r: Json)
    ensures
        r@ == shelves_view(shelf_pairs(shelves@)),
{
    let ghost sp = shelf_pairs(shelves@);
    let ghost target = sp.map_values(
        |e: (Seq<char>, Seq<Seq<char>>)| (e.0, JsonV::Array(e.1.map_values(|s: Seq<char>| JsonV::Str(s)))),
    );
    let mut add: Vec<(String, Json)> = Vec::new();
    let mut i: usize = 0;
    while i < shelves.len()
        invariant
            0 <= i <= shelves@.len(),
            sp == shelf_pairs(shelves@),
            target == sp.map_values(
                |e: (Seq<char>, Seq<Seq<char>>)| (e.0, JsonV::Array(e.1.map_values(|s: Seq<char>| JsonV::Str(s)))),
            ),
            ents(add@) == target.take(i as int),
        decreases shelves@.len() - i,
    {
        let ghost before = ents(add@);
        let j = strings_json(&shelves[i].1);
        add.push((shelves[i].0.clone(), j));
        assert(ents(add@) =~= before.push(target[i as int]));
        assert(target.take(i + 1) =~= target.take(i as int).push(target[i as int]));
        i = i + 1;
    }
    assert(target.take(i as int) =~= target);
    let mut es: Vec<(String, Json)> = Vec::new();
    assert(ents(es@) =~= Seq::<(Seq<char>, JsonV)>::empty());
    object_put_all(&mut es, add);
    object(es)
}

/// The message for one album read again: its id, its entry of the
/// dictionary (`{}` when it has none), and the shelves.
pub open spec fn updated_view(id: Seq<char>, entry: JsonV, shelves: JsonV) -> JsonV {
    JsonV::Object(
        seq![
            ("dictEntry"@, entry),
            ("id"@, JsonV::Str(id)),
            ("shelves"@, shelves),
            ("type"@, JsonV::Str("ALBUM_UPDATED"@)),
        ],
    )
}

pub fn album_updated_message(id: &str, entry: Option<Json>, shelves: Json) -> (r: Json)
    ensures
        r@ == updated_view(id@, crate::lockbuild::keys_or_empty(entry), shelves@),
{
    let ghost ev = crate::lockbuild::keys_or_empty(entry);
    let ghost sv = shelves@;
    let e = match entry {
        Some(e) => e,
        None => {
            let none: Vec<(String, Json)> = Vec::new();
            let o = object(none);
            assert(ents(none@) =~= Seq::<(Seq<char>, JsonV)>::empty());
            o
        },
    };
    let mut es: Vec<(String, Json)> = Vec::new();
    es.push((str_to_string("dictEntry"), e));
    es.push((str_to_string("id"), Json::Str(str_to_string(id))));
    es.push((str_to_string("shelves"), shelves));
    es.push((str_to_string("type"), Json::Str(str_to_string("ALBUM_UPDATED"))));
    let ghost v = es@;
    let r = object(es);
    assert(ents(v) =~= updated_view(id@, ev, sv)->Object_0);
    r
}

/// The message for one album removed: its id and the shelves.
pub open spec fn removed_view(id: Seq<char>, shelves: JsonV) -> JsonV {
    JsonV::Object(
        seq![("id"@, JsonV::Str(id)), ("shelves"@, shelves), ("type"@, JsonV::Str("ALBUM_REMOVED"@))],
    )
}

pub fn album_removed_message(id: &str, shelves: Json) -> (r: Json)
    ensures
        r@ == removed_view(id@, shelves@),
{
    let ghost sv = shelves@;
    let mut es: Vec<(String, Json)> = Vec::new();
    es.push((str_to_string("id"), Json::Str(str_to_string(id))));
    es.push((str_to_string("shelves"), shelves));
    es.push((str_to_string("type"), Json::Str(str_to_string("ALBUM_REMOVED"))));
    let ghost v = es@;
    let r = object(es);
    assert(ents(v) =~= removed_view(id@, sv)->Object_0);
    r
}

/// The message for any wider change.
pub fn logic_update_message() -> (r: Json)
    ensures
        r@ == JsonV::Object(seq![("type"@, JsonV::Str("LOGIC_UPDATE"@))]),
{
    let mut es: Vec<(String, Json)> = Vec::new();
    es.push((str_to_string("type"), Json::Str(str_to_string("LOGIC_UPDATE"))));
    let ghost v = es@;
    let r = object(es);
    assert(ents(v) =~= seq![("type"@, JsonV::Str("LOGIC_UPDATE"@))]);
    r
}

} // verus!

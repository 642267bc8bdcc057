//! What a client of the server's socket asks, and what it is answered.
//! Objects list their keys in the order `serde_json` keeps them (by key).
use vstd::prelude::*;
use crate::json::{Json, JsonV, jbool, jget, jstr};
use crate::lockbuild::{array, object};
use crate::text::{str_eq, str_to_string};
use crate::jtext::{json_parse, parse_json};

verus! {

/// A request of a client.
pub enum ClientRequest {
    /// The ids of a collection's albums in an order, optionally filtered.
    View {
        collection: String,
        sort: String,
        reverse: bool,
        filter_key: Option<String>,
        filter_val: Option<String>,
    },
    /// The ids of a shelf's albums.
    Shelf { shelf: String },
    /// The values of a grouper over a collection, with their counts.
    Group { collection: String, key: String },
    /// Anything else, which is not answered.
    Ignored,
}

/// A string of the request, or a default.
pub open spec fn str_or(v: JsonV, k: Seq<char>, d: Seq<char>) -> Seq<char> {
    match jstr(jget(v, k)) {
        Some(s) => s,
        None => d,
    }
}

fn str_or_exec(v: &Json, k: &str, d: &str) -> (r: String)
    ensures
        r@ == str_or(v@, k@, d@),
{
    match v.get(k) {
        Some(x) => match x.as_str() {
            Some(s) => s.clone(),
            None => str_to_string(d),
        },
        None => str_to_string(d),
    }
}

/// A string under `filter`, if there is one.
pub open spec fn filter_part(v: JsonV, k: Seq<char>) -> Option<Seq<char>> {
    match jget(v, "filter"@) {
        Some(f) => jstr(jget(f, k)),
        None => None,
    }
}

fn filter_part_exec(v: &Json, k: &str) -> (r: Option<String>)
    ensures
        match r {
            Some(s) => filter_part(v@, k@) == Some(s@),
            None => filter_part(v@, k@) is None,
        },
{
    match v.get("filter") {
        Some(f) => match f.get(k) {
            Some(x) => match x.as_str() {
                Some(s) => Some(s.clone()),
                None => None,
            },
            None => None,
        },
        None => None,
    }
}

/// How a request is read: by its `type`, with the defaults the server uses
/// for what is missing.
pub open spec fn request_matches(req: JsonV, r: ClientRequest) -> bool {
    let t = str_or(req, "type"@, Seq::empty());
    if t == "VIEW_REQUEST"@ {
        &&& r matches ClientRequest::View { collection, sort, reverse, filter_key, filter_val }
        &&& collection@ == str_or(req, "collection"@, "library"@)
        &&& sort@ == str_or(req, "sort"@, "default"@)
        &&& reverse == match jbool(jget(req, "reverse"@)) {
            Some(b) => b,
            None => false,
        }
        &&& match filter_key {
            Some(s) => filter_part(req, "key"@) == Some(s@),
            None => filter_part(req, "key"@) is None,
        }
        &&& match filter_val {
            Some(s) => filter_part(req, "val"@) == Some(s@),
            None => filter_part(req, "val"@) is None,
        }
    } else if t == "SHELF_REQUEST"@ {
        r matches ClientRequest::Shelf { shelf } && shelf@ == str_or(req, "shelf"@, Seq::empty())
    } else if t == "GROUP_REQUEST"@ {
        &&& r matches ClientRequest::Group { collection, key }
        &&& collection@ == str_or(req, "collection"@, "library"@)
        &&& key@ == str_or(req, "key"@, Seq::empty())
    } else {
        r is Ignored
    }
}

/// Reads a request that parsed as JSON.
pub fn parse_request(req: &Json) -> (r: ClientRequest)
    ensures
        request_matches(req@, r),
{
    proof {
        reveal_strlit("");
        assert(""@ =~= Seq::<char>::empty());
    }
    let t = str_or_exec(req, "type", "");
    if str_eq(t.as_str(), "VIEW_REQUEST") {
        let collection = str_or_exec(req, "collection", "library");
        let sort = str_or_exec(req, "sort", "default");
        let reverse = match req.get("reverse") {
            Some(v) => match v.as_bool() {
                Some(b) => b,
                None => false,
            },
            None => false,
        };
        let filter_key = filter_part_exec(req, "key");
        let filter_val = filter_part_exec(req, "val");
        ClientRequest::View { collection, sort, reverse, filter_key, filter_val }
    } else if str_eq(t.as_str(), "SHELF_REQUEST") {
        ClientRequest::Shelf { shelf: str_or_exec(req, "shelf", "") }
    } else if str_eq(t.as_str(), "GROUP_REQUEST") {
        ClientRequest::Group { collection: str_or_exec(req, "collection", "library"), key: str_or_exec(req, "key", "") }
    } else {
        ClientRequest::Ignored
    }
}

/// Reads a request from the text a client sent: text that is not JSON is
/// not answered.
pub fn read_request(text: &str) -> (r: ClientRequest)
    ensures
        match json_parse(text@) {
            Some(v) => request_matches(v, r),
            None => r is Ignored,
        },
{
    match parse_json(text) {
        Some(req) => parse_request(&req),
        None => ClientRequest::Ignored,
    }
}

/// The answer to a view or shelf request: the ids found.
pub open spec fn view_data_view(ids: Seq<Seq<char>>) -> JsonV {
    JsonV::Object(
        seq![
            ("ids"@, JsonV::Array(ids.map_values(|s: Seq<char>| JsonV::Str(s)))),
            ("type"@, JsonV::Str("VIEW_DATA"@)),
        ],
    )
}

pub fn view_data(ids: &Vec<String>) -> (r: Json)
    ensures
        r@ == view_data_view(ids@.map_values(|s: String| s@)),
{
    let ghost target = ids@.map_values(|s: String| s@).map_values(|s: Seq<char>| JsonV::Str(s));
    let mut items: Vec<Json> = Vec::new();
    let mut i: usize = 0;
    while i < ids.len()
        invariant
            0 <= i <= ids@.len(),
            target == ids@.map_values(|s: String| s@).map_values(|s: Seq<char>| JsonV::Str(s)),
            items@.map_values(|x: Json| x@) == target.take(i as int),
        decreases ids@.len() - i,
    {
        let ghost before = items@.map_values(|x: Json| x@);
        items.push(Json::Str(ids[i].clone()));
        assert(items@.map_values(|x: Json| x@) =~= before.push(target[i as int]));
        assert(target.take(i + 1) =~= target.take(i as int).push(target[i as int]));
        i = i + 1;
    }
    assert(target.take(i as int) =~= target);
    let mut es: Vec<(String, Json)> = Vec::new();
    es.push((str_to_string("ids"), array(items)));
    es.push((str_to_string("type"), Json::Str(str_to_string("VIEW_DATA"))));
    let ghost ev = es@;
    let r = object(es);
    assert(ev.map_values(|e: (String, Json)| (e.0@, e.1@)) =~= view_data_view(ids@.map_values(|s: String| s@))->Object_0);
    r
}

/// The answer to a group request: the grouper asked for and its values.
pub open spec fn group_result_view(key: Seq<char>, result: JsonV) -> JsonV {
    JsonV::Object(
        seq![("key"@, JsonV::Str(key)), ("result"@, result), ("type"@, JsonV::Str("GROUP_RESULT"@))],
    )
}

pub fn group_result(key: &str, result: Json) -> (r: Json)
    ensures
        r@ == group_result_view(key@, result@),
{
    let ghost target = group_result_view(key@, result@);
    let mut es: Vec<(String, Json)> = Vec::new();
    es.push((str_to_string("key"), Json::Str(str_to_string(key))));
    es.push((str_to_string("result"), result));
    es.push((str_to_string("type"), Json::Str(str_to_string("GROUP_RESULT"))));
    let ghost ev = es@;
    let r = object(es);
    assert(ev.map_values(|e: (String, Json)| (e.0@, e.1@)) =~= target->Object_0);
    r
}

/// The first message a client gets: the dictionary of albums, the tracks
/// by file, the view definitions, the saved interface state, and the
/// cover and shader settings.
pub open spec fn init_view(dict: JsonV, track_map: JsonV, manifest: JsonV, ui_state: JsonV, covers: JsonV, shader: JsonV) -> JsonV {
    JsonV::Object(
        seq![
            ("config"@, JsonV::Object(seq![("covers"@, covers), ("shader"@, shader)])),
            ("dict"@, dict),
            ("manifest"@, manifest),
            ("trackMap"@, track_map),
            ("type"@, JsonV::Str("INIT_DICT"@)),
            ("ui_state"@, ui_state),
        ],
    )
}

pub fn init_payload(dict: Json, track_map: Json, manifest: Json, ui_state: Json, covers: Json, shader: Json) -> (r: Json)
    ensures
        r@ == init_view(dict@, track_map@, manifest@, ui_state@, covers@, shader@),
{
    let ghost target = init_view(dict@, track_map@, manifest@, ui_state@, covers@, shader@);
    let mut c: Vec<(String, Json)> = Vec::new();
    c.push((str_to_string("covers"), covers));
    c.push((str_to_string("shader"), shader));
    let ghost cv = c@;
    let config = object(c);
    assert(cv.map_values(|e: (String, Json)| (e.0@, e.1@)) =~= target->Object_0[0].1->Object_0);
    let mut es: Vec<(String, Json)> = Vec::new();
    es.push((str_to_string("config"), config));
    es.push((str_to_string("dict"), dict));
    es.push((str_to_string("manifest"), manifest));
    es.push((str_to_string("trackMap"), track_map));
    es.push((str_to_string("type"), Json::Str(str_to_string("INIT_DICT"))));
    es.push((str_to_string("ui_state"), ui_state));
    let ghost ev = es@;
    let r = object(es);
    assert(ev.map_values(|e: (String, Json)| (e.0@, e.1@)) =~= target->Object_0);
    r
}

} // verus!

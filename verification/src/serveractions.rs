//! The server's handling of an action request: the albums its query
//! parameters select, the options and configuration handed on, where a
//! built-in action runs, and the interface state a new server starts with.
use vstd::prelude::*;
use crate::album::path_strip_prefix;
use crate::assoc::{distinct, sfind, skeys, smap};
use crate::jmap::{ents, jput_all, object_put_all};
use crate::json::{Json, JsonV};
use crate::lockbuild::{num, object};
use crate::paths::{join_path, join_path_str};
use crate::targets::TargetSource;
use crate::text::{str_eq, str_to_string};

verus! {

/// The parameters that choose the albums rather than pass options.
pub open spec fn reserved(k: Seq<char>) -> bool {
    k == "playing"@ || k == "id"@ || k == "query"@ || k == "directory"@ || k == "recursive"@ || k
        == "library"@
}

pub fn is_reserved(k: &str) -> (r: bool)
    ensures
        r == reserved(k@),
{
    str_eq(k, "playing") || str_eq(k, "id") || str_eq(k, "query") || str_eq(k, "directory") || str_eq(
        k,
        "recursive",
    ) || str_eq(k, "library")
}

/// One option: the key alone when its value is empty, `key=value` otherwise.
pub open spec fn option_text(k: Seq<char>, v: Seq<char>) -> Seq<char> {
    if v.len() == 0 {
        k
    } else {
        k + seq!['='] + v
    }
}

/// The options of the parameters that are not reserved, in the order given.
pub open spec fn options_of(params: Seq<(Seq<char>, Seq<char>)>) -> Seq<Seq<char>>
    decreases params.len(),
{
    if params.len() == 0 {
        Seq::empty()
    } else {
        let prev = options_of(params.drop_last());
        let p = params.last();
        if reserved(p.0) {
            prev
        } else {
            prev.push(option_text(p.0, p.1))
        }
    }
}

pub open spec fn pairs(params: Seq<(String, String)>) -> Seq<(Seq<char>, Seq<char>)> {
    params.map_values(|p: (String, String)| (p.0@, p.1@))
}

/// The options an action is given, from the request's parameters (in the
/// order the request's map yields them); they are joined by spaces.
pub fn action_options(params: &Vec<(String, String)>) -> (r: Vec<String>)
    ensures
        r@.map_values(|s: String| s@) == options_of(pairs(params@)),
{
    let ghost pv = pairs(params@);
    let mut r: Vec<String> = Vec::new();
    let mut i: usize = 0;
    while i < params.len()
        invariant
            0 <= i <= params@.len(),
            pv == pairs(params@),
            r@.map_values(|s: String| s@) == options_of(pv.take(i as int)),
        decreases params@.len() - i,
    {
        let ghost before = r@.map_values(|s: String| s@);
        assert(pv.take(i + 1).drop_last() =~= pv.take(i as int));
        assert(pv.take(i + 1).last() == (params@[i as int].0@, params@[i as int].1@));
        let k = params[i].0.as_str();
        let v = params[i].1.as_str();
        if !is_reserved(k) {
            let mut t = str_to_string(k);
            if !v.is_empty() {
                crate::text::push_char(&mut t, '=');
                crate::text::push_str(&mut t, v);
            }
            assert(t@ =~= option_text(k@, v@));
            r.push(t);
            assert(r@.map_values(|s: String| s@) =~= before.push(option_text(k@, v@)));
        }
        i = i + 1;
    }
    assert(pv.take(i as int) =~= pv);
    r
}

/// A parameter's value.
pub open spec fn param(params: Seq<(String, String)>, k: Seq<char>) -> Option<Seq<char>> {
    if smap(params).contains_key(k) {
        Some(smap(params)[k]@)
    } else {
        None
    }
}

fn param_of(params: &Vec<(String, String)>, k: &str) -> (r: Option<String>)
    requires
        distinct(skeys(params@)),
    ensures
        match r {
            Some(v) => param(params@, k@) == Some(v@),
            None => param(params@, k@) is None,
        },
{
    match sfind(params, k) {
        Some(i) => {
            proof {
                crate::assoc::lemma_smap_at(params@, i as int);
            }
            Some(params[i].1.clone())
        },
        None => None,
    }
}

/// The albums a request selects: a query first, then a non-empty id, then
/// the playing album, the whole library, a folder walked, or one folder;
/// `None` when it selects none.
pub open spec fn params_source_matches(params: Seq<(String, String)>, r: Option<TargetSource>) -> bool {
    match param(params, "query"@) {
        Some(q) => r matches Some(TargetSource::Query(x)) && x@ == q,
        None => match param(params, "id"@) {
            Some(i) => if i.len() > 0 {
                r matches Some(TargetSource::Id(x)) && x@ == i
            } else {
                r is None
            },
            None => if param(params, "playing"@) == Some("true"@) {
                r matches Some(TargetSource::Playing)
            } else if param(params, "library"@) == Some("true"@) {
                r matches Some(TargetSource::Library)
            } else {
                match param(params, "recursive"@) {
                    Some(d) => r matches Some(TargetSource::Recursive(x)) && x@ == d,
                    None => match param(params, "directory"@) {
                        Some(d) => r matches Some(TargetSource::Directory(x)) && x@ == d,
                        None => r is None,
                    },
                }
            },
        },
    }
}

pub fn params_target_source(params: &Vec<(String, String)>) -> (r: Option<TargetSource>)
    requires
        distinct(skeys(params@)),
    ensures
        params_source_matches(params@, r),
{
    let playing = match param_of(params, "playing") {
        Some(v) => str_eq(v.as_str(), "true"),
        None => false,
    };
    let library = match param_of(params, "library") {
        Some(v) => str_eq(v.as_str(), "true"),
        None => false,
    };
    if let Some(q) = param_of(params, "query") {
        Some(TargetSource::Query(q))
    } else if let Some(id) = param_of(params, "id") {
        if !id.as_str().is_empty() {
            Some(TargetSource::Id(id))
        } else {
            None
        }
    } else if playing {
        Some(TargetSource::Playing)
    } else if library {
        Some(TargetSource::Library)
    } else if let Some(d) = param_of(params, "recursive") {
        Some(TargetSource::Recursive(d))
    } else if let Some(d) = param_of(params, "directory") {
        Some(TargetSource::Directory(d))
    } else {
        None
    }
}

/// The id of the album that plays, when its folder lies under the library
/// root.
pub fn playing_album_id(folder: &str, root: &str) -> (r: Option<String>)
    ensures
        match r {
            Some(id) => path_strip_prefix(folder@, root@) == Some(id@),
            None => path_strip_prefix(folder@, root@) is None,
        },
{
    crate::album::strip_path_prefix(folder, root)
}

/// The action's configuration with the options of the request put in as
/// strings, when the configuration is an object.
pub open spec fn merged_config_of(config: JsonV, params: Seq<(Seq<char>, Seq<char>)>) -> JsonV {
    match config {
        JsonV::Object(es) => JsonV::Object(jput_all(es, option_entries(params))),
        _ => config,
    }
}

/// The parameters that are not reserved, each as a string entry.
pub open spec fn option_entries(params: Seq<(Seq<char>, Seq<char>)>) -> Seq<(Seq<char>, JsonV)>
    decreases params.len(),
{
    if params.len() == 0 {
        Seq::empty()
    } else {
        let prev = option_entries(params.drop_last());
        let p = params.last();
        if reserved(p.0) {
            prev
        } else {
            prev.push((p.0, JsonV::Str(p.1)))
        }
    }
}

pub fn merge_params(config: Json, params: &Vec<(String, String)>) -> (r: Json)
    ensures
        r@ == merged_config_of(config@, pairs(params@)),
{
    let ghost cv = config@;
    match config {
        Json::Object(es) => {
            let ghost pv = pairs(params@);
            let mut add: Vec<(String, Json)> = Vec::new();
            let mut i: usize = 0;
            while i < params.len()
                invariant
                    0 <= i <= params@.len(),
                    pv == pairs(params@),
                    ents(add@) == option_entries(pv.take(i as int)),
                decreases params@.len() - i,
            {
                let ghost before = ents(add@);
                assert(pv.take(i + 1).drop_last() =~= pv.take(i as int));
                assert(pv.take(i + 1).last() == (params@[i as int].0@, params@[i as int].1@));
                if !is_reserved(params[i].0.as_str()) {
                    add.push((params[i].0.clone(), Json::Str(params[i].1.clone())));
                    assert(ents(add@) =~= before.push((params@[i as int].0@, JsonV::Str(params@[i as int].1@))));
                }
                i = i + 1;
            }
            assert(pv.take(i as int) =~= pv);
            let mut out = es;
            assert(ents(out@) =~= cv->Object_0);
            object_put_all(&mut out, add);
            object(out)
        },
        other => other,
    }
}

/// Where a built-in action runs: once with no album for the action that
/// opens the configuration or when no album was selected, else once per
/// album, in its folder.
pub open spec fn builtin_runs(name_key: Seq<char>, ids: Seq<Seq<char>>, root: Seq<char>) -> Seq<Seq<char>> {
    if name_key == "open_config_in_terminal"@ || ids.len() == 0 {
        seq![Seq::empty()]
    } else {
        ids.map_values(|id: Seq<char>| join_path(root, id))
    }
}

pub fn builtin_paths(name_key: &str, ids: &Vec<String>, root: &str) -> (r: Vec<String>)
    ensures
        r@.map_values(|s: String| s@) == builtin_runs(name_key@, ids@.map_values(|s: String| s@), root@),
{
    let ghost iv = ids@.map_values(|s: String| s@);
    let mut r: Vec<String> = Vec::new();
    if str_eq(name_key, "open_config_in_terminal") || ids.len() == 0 {
        proof {
            reveal_strlit("");
            assert(""@ =~= Seq::<char>::empty());
        }
        r.push(str_to_string(""));
        assert(r@.map_values(|s: String| s@) =~= seq![Seq::<char>::empty()]);
        return r;
    }
    let ghost target = iv.map_values(|id: Seq<char>| join_path(root@, id));
    let mut i: usize = 0;
    while i < ids.len()
        invariant
            0 <= i <= ids@.len(),
            iv == ids@.map_values(|s: String| s@),
            target == iv.map_values(|id: Seq<char>| join_path(root@, id)),
            r@.map_values(|s: String| s@) == target.take(i as int),
        decreases ids@.len() - i,
    {
        let ghost before = r@.map_values(|s: String| s@);
        r.push(join_path_str(root, ids[i].as_str()));
        assert(r@.map_values(|s: String| s@) =~= before.push(target[i as int]));
        assert(target.take(i + 1) =~= target.take(i as int).push(target[i as int]));
        i = i + 1;
    }
    assert(target.take(i as int) =~= target);
    r
}

/// The error a request for an action that nothing runs is answered with.
pub fn unrecognized_action(name: &str) -> (r: String)
    ensures
        r@ == "Action '"@ + name@ + "' is not recognized or configured."@,
{
    let mut s = str_to_string("Action '");
    crate::text::push_str(&mut s, name);
    crate::text::push_str(&mut s, "' is not recognized or configured.");
    s
}

/// The interface state a server starts with when none was saved.
pub open spec fn default_state_view() -> JsonV {
    JsonV::Object(
        seq![
            ("activeCollection"@, JsonV::Str("library"@)),
            ("activeTab"@, JsonV::Str("home"@)),
            ("filter"@, JsonV::Object(seq![("key"@, JsonV::Null), ("val"@, JsonV::Null)])),
            ("groupKey"@, JsonV::Str("genre"@)),
            ("queuePanels"@, JsonV::Object(seq![("lyrics"@, JsonV::Bool(false)), ("tracks"@, JsonV::Bool(true))])),
            ("sidebarWidth"@, num(280)),
            ("sortKey"@, JsonV::Str("default"@)),
            ("sortOrder"@, JsonV::Str("default"@)),
        ],
    )
}

pub fn default_state() -> (r: Json)
    ensures
        r@ == default_state_view(),
{
    let mut f: Vec<(String, Json)> = Vec::new();
    f.push((str_to_string("key"), Json::Null));
    f.push((str_to_string("val"), Json::Null));
    let ghost fv = f@;
    let filter = object(f);
    assert(ents(fv) =~= seq![("key"@, JsonV::Null), ("val"@, JsonV::Null)]);
    let mut q: Vec<(String, Json)> = Vec::new();
    q.push((str_to_string("lyrics"), Json::Bool(false)));
    q.push((str_to_string("tracks"), Json::Bool(true)));
    let ghost qv = q@;
    let panels = object(q);
    assert(ents(qv) =~= seq![("lyrics"@, JsonV::Bool(false)), ("tracks"@, JsonV::Bool(true))]);
    let mut es: Vec<(String, Json)> = Vec::new();
    es.push((str_to_string("activeCollection"), Json::Str(str_to_string("library"))));
    es.push((str_to_string("activeTab"), Json::Str(str_to_string("home"))));
    es.push((str_to_string("filter"), filter));
    es.push((str_to_string("groupKey"), Json::Str(str_to_string("genre"))));
    es.push((str_to_string("queuePanels"), panels));
    es.push((str_to_string("sidebarWidth"), crate::json::ju64_value(280)));
    es.push((str_to_string("sortKey"), Json::Str(str_to_string("default"))));
    es.push((str_to_string("sortOrder"), Json::Str(str_to_string("default"))));
    let ghost ev = es@;
    let r = object(es);
    assert(ents(ev) =~= default_state_view()->Object_0);
    r
}

} // verus!

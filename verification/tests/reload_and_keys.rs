use vellum::anchor::{anchor_is_exclusive, resolve_anchor};
use vellum::jsort::sort_json_keys;
use vellum::json::{Json, JsonNumber};
use vellum::jtext::json_text;
use vellum::keys::{resolve_top_level_album_key, resolve_top_level_track_key};
use vellum::library::UpdateResult;
use vellum::reload::{
    album_removed_message, album_updated_message, batch_notice, logic_update_message, shelves_json, split_results,
    BatchNotice,
};

fn s(x: &str) -> Json {
    Json::Str(x.to_string())
}

fn n(x: u64) -> Json {
    Json::Number(JsonNumber { text: x.to_string(), signed: Some(x as i64), unsigned: Some(x) })
}

fn obj(es: Vec<(&str, Json)>) -> Json {
    Json::Object(es.into_iter().map(|(k, v)| (k.to_string(), v)).collect())
}

#[test]
fn batch_results_split_and_notices() {
    let (up, rm) = split_results(vec![
        UpdateResult::Updated("A".to_string()),
        UpdateResult::Removed("B".to_string()),
        UpdateResult::Updated("C".to_string()),
    ]);
    assert_eq!(up, vec!["A".to_string(), "C".to_string()]);
    assert_eq!(rm, vec!["B".to_string()]);
    assert!(matches!(batch_notice(&up, &rm), BatchNotice::LogicUpdate));
    assert!(matches!(batch_notice(&vec![], &vec![]), BatchNotice::Silent));
    assert!(matches!(batch_notice(&vec!["A".to_string()], &vec![]), BatchNotice::AlbumUpdated(ref id) if id == "A"));
    assert!(matches!(batch_notice(&vec![], &vec!["B".to_string()]), BatchNotice::AlbumRemoved(ref id) if id == "B"));
}

#[test]
fn reload_messages() {
    let shelves = shelves_json(&vec![("z".to_string(), vec!["A".to_string()]), ("a".to_string(), vec![])]);
    assert_eq!(json_text(&shelves), "{\"a\":[],\"z\":[\"A\"]}");
    let up = album_updated_message("A", None, shelves.dup());
    assert_eq!(json_text(&up), "{\"dictEntry\":{},\"id\":\"A\",\"shelves\":{\"a\":[],\"z\":[\"A\"]},\"type\":\"ALBUM_UPDATED\"}");
    let rm = album_removed_message("B", obj(vec![]));
    assert_eq!(json_text(&rm), "{\"id\":\"B\",\"shelves\":{},\"type\":\"ALBUM_REMOVED\"}");
    assert_eq!(json_text(&logic_update_message()), "{\"type\":\"LOGIC_UPDATE\"}");
}

#[test]
fn keys_sorted_at_every_depth() {
    let mut v = obj(vec![("b", Json::Array(vec![obj(vec![("y", n(1)), ("x", n(2))])])), ("a", n(0))]);
    sort_json_keys(&mut v);
    assert_eq!(json_text(&v), "{\"a\":0,\"b\":[{\"x\":2,\"y\":1}]}");
    let mut again = v.dup();
    sort_json_keys(&mut again);
    assert_eq!(json_text(&again), json_text(&v));
    let mut scalar = s("x");
    sort_json_keys(&mut scalar);
    assert_eq!(json_text(&scalar), "\"x\"");
}

#[test]
fn anchor_is_the_shared_folder() {
    assert_eq!(resolve_anchor(&vec![]), None);
    assert_eq!(resolve_anchor(&vec!["/m/A/CD1/1.flac".to_string()]), Some("/m/A/CD1".to_string()));
    assert_eq!(resolve_anchor(&vec!["/m/A/CD1/1.flac".to_string(), "/m/A/CD2/1.flac".to_string()]), Some("/m/A".to_string()));
    assert_eq!(resolve_anchor(&vec!["/m/A/1.flac".to_string(), "/x/2.flac".to_string()]), Some("/".to_string()));
    let exts = vec![".flac".to_string()];
    let tracks = vec!["/m/A/1.flac".to_string()];
    assert!(anchor_is_exclusive(&vec!["/m/A/1.flac".to_string(), "/m/A/cover.jpg".to_string()], &exts, &tracks));
    assert!(!anchor_is_exclusive(&vec!["/m/A/1.flac".to_string(), "/m/A/other.FLAC".to_string()], &exts, &tracks));
}

#[test]
fn standard_album_and_track_keys() {
    let src = obj(vec![("year", s("1999")), ("genre", Json::Array(vec![]))]);
    assert_eq!(json_text(&resolve_top_level_album_key("album", &src)), "\"Untitled\"");
    assert_eq!(json_text(&resolve_top_level_album_key("date", &src)), "\"1999\"");
    assert_eq!(json_text(&resolve_top_level_album_key("genre", &src)), "[\"Unknown\"]");
    assert_eq!(json_text(&resolve_top_level_album_key("genre", &obj(vec![("genre", s("Jazz; Funk"))]))), "[\"Jazz\",\"Funk\"]");
    assert_eq!(json_text(&resolve_top_level_album_key("comment", &obj(vec![("comment", s("c"))]))), "\"c\"");
    assert_eq!(json_text(&resolve_top_level_album_key("mood", &src)), "null");
    let album = obj(vec![("albumartist", s("Band"))]);
    assert_eq!(json_text(&resolve_top_level_track_key("artist", &obj(vec![]), &album)), "\"Band\"");
    assert_eq!(json_text(&resolve_top_level_track_key("title", &obj(vec![]), &album)), "\"Untitled\"");
    assert_eq!(json_text(&resolve_top_level_track_key("x", &obj(vec![]), &album)), "null");
}

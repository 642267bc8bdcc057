use vellum::json::{Json, JsonNumber};
use vellum::jtext::json_text;
use vellum::manifest::{
    compress, format_toml_value, format_toml_value_with_cast, get_unique_manifests, group_tracks, normalize_tag,
    parse_sort_int, render_toml_block, serialize_manifest, sort_album_tracks,
};
use vellum::lyrics::{
    clean_lyrics, first_song, html_breaks_to_newlines, lyrics_filename, sanitize_filename, Hit, SearchResponse,
    SearchResponseBody, SongResult,
};
use vellum::watch::classify_events;

fn s(x: &str) -> Json {
    Json::Str(x.to_string())
}

fn n(x: u64) -> Json {
    Json::Number(JsonNumber { text: x.to_string(), signed: Some(x as i64), unsigned: Some(x) })
}

fn ents(es: Vec<(&str, Json)>) -> Vec<(String, Json)> {
    es.into_iter().map(|(k, v)| (k.to_string(), v)).collect()
}

#[test]
fn tags_as_text_and_numbers() {
    assert_eq!(normalize_tag(Some(&s("  Jazz "))), "Jazz");
    assert_eq!(normalize_tag(Some(&Json::Array(vec![s("a"), n(1), s("b")]))), "a; b");
    assert_eq!(normalize_tag(Some(&n(12))), "12");
    assert_eq!(normalize_tag(None), "");
    assert_eq!(parse_sort_int(Some(&s("3/12"))), 3);
    assert_eq!(parse_sort_int(Some(&s("x"))), 0);
    assert_eq!(parse_sort_int(Some(&n(7))), 7);
}

#[test]
fn shared_tags_move_to_the_album() {
    let t1 = ents(vec![("album", s("R")), ("title", s("One")), ("tracknumber", n(1)), ("genre", s("Jazz"))]);
    let t2 = ents(vec![("album", s("R")), ("title", s("Two")), ("tracknumber", n(2)), ("genre", s("Funk"))]);
    let (album, tracks) = compress(vec![t1, t2]);
    assert_eq!(json_text(&Json::Object(album)), "{\"album\":\"R\"}");
    assert_eq!(tracks.len(), 2);
    assert_eq!(json_text(&Json::Object(tracks[0].iter().map(|e| (e.0.clone(), e.1.dup())).collect())), "{\"genre\":\"Jazz\",\"title\":\"One\",\"tracknumber\":1}");
    let (empty_album, empty_tracks) = compress(vec![]);
    assert!(empty_album.is_empty() && empty_tracks.is_empty());
}

#[test]
fn compression_keeps_every_tag_once() {
    let t1 = ents(vec![("album", s("R")), ("title", s("One")), ("artist", s("A")), ("genre", s("Jazz"))]);
    let t2 = ents(vec![("album", s("R")), ("title", s("Two")), ("artist", s("A")), ("genre", s("Funk"))]);
    let inputs: Vec<Vec<(String, Json)>> =
        vec![t1.iter().map(|e| (e.0.clone(), e.1.dup())).collect(), t2.iter().map(|e| (e.0.clone(), e.1.dup())).collect()];
    let (album, tracks) = compress(vec![t1, t2]);
    for (i, input) in inputs.iter().enumerate() {
        for (k, v) in input {
            let in_album = album.iter().find(|e| &e.0 == k).map(|e| json_text(&e.1));
            let in_track = tracks[i].iter().find(|e| &e.0 == k).map(|e| json_text(&e.1));
            assert!(in_album.is_some() != in_track.is_some());
            assert_eq!(in_album.or(in_track), Some(json_text(v)));
        }
    }
    assert_eq!(album.len(), 2);
}

#[test]
fn toml_values_and_blocks() {
    assert_eq!(format_toml_value(&s("a\"b")), "\"a\\\"b\"");
    assert_eq!(format_toml_value(&Json::Array(vec![n(1), s("x"), Json::Bool(false)])), "[1, \"x\", false]");
    assert_eq!(format_toml_value_with_cast(&s("3/12"), "tracknumber"), "3");
    assert_eq!(format_toml_value_with_cast(&s("3/12"), "title"), "\"3/12\"");
    assert_eq!(format_toml_value_with_cast(&s("x/12"), "discnumber"), "\"x/12\"");
    let lines = render_toml_block(&ents(vec![("title", s("One")), ("album", s("R"))]));
    assert_eq!(lines, vec!["album = \"R\"".to_string(), "title = \"One\"".to_string()]);
    let text = serialize_manifest(&ents(vec![("album", s("R"))]), &vec![ents(vec![("title", s("One"))]), vec![]]);
    assert_eq!(text, "[album]\nalbum = \"R\"\n\n[[tracks]]\ntitle = \"One\"\n\n");
}

#[test]
fn manifests_are_listed_once() {
    let r = get_unique_manifests(&vec![Some("metadata".to_string()), None, Some("local".to_string()), Some("metadata".to_string())]);
    assert!(r.contains(&"metadata".to_string()));
    assert!(r.contains(&"local".to_string()));
    assert_eq!(r.iter().filter(|x| x.as_str() == "metadata").count(), 1);
}

#[test]
fn tracks_group_and_sort() {
    let tracks = vec![
        ("/a/2.flac".to_string(), ents(vec![("album", s("R")), ("tracknumber", n(2))])),
        ("/a/1.flac".to_string(), ents(vec![("album", s("R")), ("tracknumber", n(1))])),
        ("/b/1.flac".to_string(), ents(vec![("album", s("S"))])),
    ];
    let groups = group_tracks(tracks, &vec!["album".to_string()]);
    assert_eq!(groups.len(), 2);
    let r = groups.iter().find(|g| g.0 == vec!["R".to_string()]).unwrap();
    assert_eq!(r.1.len(), 2);
    let mut members: Vec<(String, Vec<(String, Json)>)> = r.1.iter().map(|t| (t.0.clone(), t.1.iter().map(|e| (e.0.clone(), e.1.dup())).collect())).collect();
    assert!(members[0].1.iter().any(|e| e.0 == "track_path_absolute"));
    sort_album_tracks(&mut members);
    assert_eq!(members[0].0, "/a/1.flac");
    assert_eq!(members[1].0, "/a/2.flac");
}

#[test]
fn lyrics_files_and_text() {
    assert_eq!(sanitize_filename("a/b:c?"), "a_b_c_");
    assert_eq!(lyrics_filename("Song?", 3, 1, 1), "03 - Song_.txt");
    assert_eq!(lyrics_filename("Song", 12, 2, 2), "2.12 - Song.txt");
    let lines: Vec<String> = vec!["12 Contributors Song Lyrics", "[Verse 1]", "Hello (", "world", ")", "", "", "", "End", "Bye42Embed"]
        .into_iter()
        .map(|x| x.to_string())
        .collect();
    assert_eq!(clean_lyrics(&lines), "Hello (world)\n\nEnd\nBye");
    assert_eq!(html_breaks_to_newlines("a<br>b<BR />c"), "a\nb\nc");
    let res = SearchResponse { response: SearchResponseBody { hits: vec![Hit { result: SongResult { url: "u1".to_string() } }, Hit { result: SongResult { url: "u2".to_string() } }] } };
    assert_eq!(first_song(res).map(|s| s.url), Some("u1".to_string()));
    let none = SearchResponse { response: SearchResponseBody { hits: vec![] } };
    assert!(first_song(none).is_none());
}

#[test]
fn file_events_raise_reloads() {
    let paths = vec![
        "/cfg/init.lua".to_string(),
        "/cfg/logic.toml".to_string(),
        "/ui/app/node_modules/x.js".to_string(),
        "/ui/app/index.html".to_string(),
        "/ui/app/config.toml".to_string(),
        "/shelves/fav.txt".to_string(),
    ];
    let f = classify_events(
        &paths,
        "/cfg/init.lua",
        &vec!["/shelves/fav.txt".to_string()],
        &vec![("app".to_string(), "/ui/app".to_string())],
        &vec![],
    );
    assert!(f.config);
    assert!(f.logic);
    assert!(f.shelf);
    assert_eq!(f.interfaces_config, vec!["app".to_string()]);
    assert_eq!(f.interfaces_asset, vec!["app".to_string()]);
    let quiet = classify_events(&vec!["/x/.git/HEAD".to_string()], "/cfg/init.lua", &vec![], &vec![], &vec![]);
    assert!(!quiet.config && !quiet.logic && !quiet.shelf);
    assert!(quiet.interfaces_config.is_empty() && quiet.interfaces_asset.is_empty());
}

#[test]
fn classify_events_compares_paths_by_component() {
    let f = classify_events(
        &vec!["/cfg//init.lua".to_string(), "/shelves/./fav.txt".to_string(), "/ui/app/theme.toml/".to_string()],
        "/cfg/init.lua",
        &vec!["/shelves/fav.txt".to_string()],
        &vec![("app".to_string(), "/ui/app".to_string())],
        &vec![("app".to_string(), "/ui/app/theme.toml".to_string())],
    );
    assert!(f.config);
    assert!(f.shelf);
    assert!(!f.logic);
    assert_eq!(f.interfaces_config, vec!["app".to_string()]);
    assert!(f.interfaces_asset.is_empty());
}

use vellum::playlist::album_track_paths;
use vellum::assets::{asset_mime, cover_width, image_mime, split_asset_path};
use vellum::json::{Json, JsonNumber};
use vellum::jtext::json_text;
use vellum::targets::{
    action_key, action_path, action_payload, action_runner, default_action_run, lock_album_id, lock_ids, lock_text_id, read_locks,
    parse_env, query_line, query_source, target_source, ActionRunner, QueryFlags, QuerySource, TargetFlags,
    TargetSource,
};
use vellum::serveractions::{
    action_options, builtin_paths, default_state, is_reserved, merge_params, params_target_source,
    playing_album_id, unrecognized_action,
};
use vellum::socket::{group_result, init_payload, parse_request, read_request, view_data, ClientRequest};
use vellum::status::{current_fields, play_state_name, queue_json, status_payload, PlayState, QueuedSong};

fn s(x: &str) -> Json {
    Json::Str(x.to_string())
}

fn n(x: u64) -> Json {
    Json::Number(JsonNumber { text: x.to_string(), signed: Some(x as i64), unsigned: Some(x) })
}

fn obj(es: Vec<(&str, Json)>) -> Json {
    Json::Object(es.into_iter().map(|(k, v)| (k.to_string(), v)).collect())
}

fn flags() -> TargetFlags {
    TargetFlags { playing: false, id: None, query: None, directory: None, recursive: None, library: false }
}

#[test]
fn no_target_flag_means_current_folder() {
    match target_source(&flags()) {
        TargetSource::Directory(d) => assert_eq!(d, "."),
        _ => panic!("expected the current folder"),
    }
}

#[test]
fn query_wins_over_other_flags() {
    let mut f = flags();
    f.query = Some("genre = 'jazz'".to_string());
    f.id = Some("A".to_string());
    f.playing = true;
    match target_source(&f) {
        TargetSource::Query(q) => assert_eq!(q, "genre = 'jazz'"),
        _ => panic!("expected the query"),
    }
    let mut g = flags();
    g.playing = true;
    g.directory = Some("x".to_string());
    assert!(matches!(target_source(&g), TargetSource::Playing));
    let mut h = flags();
    h.recursive = Some("r".to_string());
    h.directory = Some("x".to_string());
    assert!(matches!(target_source(&h), TargetSource::Recursive(ref d) if d == "r"));
    let mut d = flags();
    d.directory = Some("x".to_string());
    assert!(matches!(target_source(&d), TargetSource::Directory(ref p) if p == "x"));
}

#[test]
fn lock_ids_come_from_album_id() {
    let good = obj(vec![("album", obj(vec![("id", s("A/B"))]))]);
    let no_id = obj(vec![("album", obj(vec![("id", n(3))]))]);
    assert_eq!(lock_album_id(&good), Some("A/B".to_string()));
    assert_eq!(lock_album_id(&no_id), None);
    let ids = lock_ids(&vec![
        Some(json_text(&good)),
        None,
        Some("{not json".to_string()),
        Some(json_text(&no_id)),
        Some("{\"album\": {\"id\": \"C\"}}".to_string()),
    ]);
    assert_eq!(ids, vec!["A/B".to_string(), "C".to_string()]);
    assert_eq!(lock_text_id("{\"album\":{\"id\":\"X/Y\",\"n\":1}}"), Some("X/Y".to_string()));
    assert_eq!(lock_text_id("[1, 2"), None);
    let locks = read_locks(&vec!["{\"a\": 1}".to_string(), "oops".to_string(), "[true, null]".to_string()]);
    assert_eq!(locks.len(), 2);
    assert_eq!(json_text(&locks[0]), "{\"a\":1}");
    assert_eq!(json_text(&locks[1]), "[true,null]");
}

#[test]
fn requests_are_read_from_text() {
    assert!(matches!(read_request("{\"type\": \"SHELF_REQUEST\", \"shelf\": \"fav\"}"), ClientRequest::Shelf { ref shelf } if shelf == "fav"));
    assert!(matches!(read_request("not json"), ClientRequest::Ignored));
    match read_request("{\"type\":\"VIEW_REQUEST\",\"reverse\":true}") {
        ClientRequest::View { collection, sort, reverse, filter_key, filter_val } => {
            assert_eq!(collection, "library");
            assert_eq!(sort, "default");
            assert!(reverse);
            assert!(filter_key.is_none() && filter_val.is_none());
        }
        _ => panic!("expected a view request"),
    }
}

#[test]
fn env_file_lines_are_read() {
    let text = "# comment\nKEY = \"value\"\n\nOTHER='x=y'\nbad line\nKEY=second\r\n";
    let vars = parse_env(text);
    let mut v: Vec<(String, String)> = vars.clone();
    v.sort();
    assert_eq!(v, vec![("KEY".to_string(), "second".to_string()), ("OTHER".to_string(), "x=y".to_string())]);
}

#[test]
fn action_names_and_paths() {
    assert_eq!(action_key("fetch-lyrics"), "fetch_lyrics");
    assert_eq!(default_action_run("fetch_lyrics"), "~/.local/share/vellum/actions/fetch_lyrics.sh");
    assert_eq!(action_path("/abs/run.sh", "/cfg"), "/abs/run.sh");
    assert_eq!(action_path("rel/run.py", "/cfg"), "/cfg/rel/run.py");
    assert!(matches!(action_runner("/a/b.py"), ActionRunner::Python));
    assert!(matches!(action_runner("/a/b.sh"), ActionRunner::Shell));
    assert!(matches!(action_runner("/a/b"), ActionRunner::Direct));
    assert!(matches!(action_runner("/a/.sh"), ActionRunner::Direct));
}

#[test]
fn action_payload_shape() {
    let p = action_payload(vec![obj(vec![("x", n(1))])], obj(vec![]), None, &vec!["--a".to_string(), "b".to_string()]);
    assert_eq!(json_text(&p), "{\"albums\":[{\"x\":1}],\"config\":{\"action\":null,\"vellum\":{}},\"options\":\"--a b\"}");
}

#[test]
fn query_command_sources_and_lines() {
    let f = QueryFlags { playing: false, lock: false, id: false, uid: false, json: false };
    assert!(matches!(query_source(Some("q".to_string()), &f), Ok(QuerySource::Server(ref q)) if q == "q"));
    match query_source(None, &f) {
        Err(m) => assert_eq!(m, "No query provided. Use --playing or provide an SQL query."),
        Ok(_) => panic!("expected an error"),
    }
    let p = QueryFlags { playing: true, lock: false, id: false, uid: false, json: false };
    assert!(matches!(query_source(None, &p), Ok(QuerySource::Playing)));
    assert_eq!(query_line(&f, "/lib", "A"), "/lib/A");
    let idf = QueryFlags { playing: false, lock: true, id: true, uid: false, json: false };
    assert_eq!(query_line(&idf, "/lib", "A"), "A");
    let lockf = QueryFlags { playing: false, lock: true, id: false, uid: false, json: false };
    assert_eq!(query_line(&lockf, "/lib", "A"), "/lib/A/album.lock.json");
    let uidf = QueryFlags { playing: false, lock: true, id: false, uid: true, json: false };
    assert_eq!(query_line(&uidf, "/lib", "A"), "/lib/A");
}

#[test]
fn server_action_parameters() {
    assert!(is_reserved("query"));
    assert!(!is_reserved("force"));
    let params = vec![
        ("playing".to_string(), "true".to_string()),
        ("force".to_string(), "".to_string()),
        ("level".to_string(), "3".to_string()),
    ];
    assert_eq!(action_options(&params), vec!["force".to_string(), "level=3".to_string()]);
    assert!(matches!(params_target_source(&params), Some(TargetSource::Playing)));
    let empty_id = vec![("id".to_string(), "".to_string())];
    assert!(params_target_source(&empty_id).is_none());
    let none: Vec<(String, String)> = vec![];
    assert!(params_target_source(&none).is_none());
    let dir = vec![("directory".to_string(), "/x".to_string()), ("library".to_string(), "false".to_string())];
    assert!(matches!(params_target_source(&dir), Some(TargetSource::Directory(ref d)) if d == "/x"));
    let merged = merge_params(obj(vec![("a", n(1)), ("level", n(1))]), &params);
    assert_eq!(json_text(&merged), "{\"a\":1,\"force\":\"\",\"level\":\"3\"}");
    let not_obj = merge_params(Json::Null, &params);
    assert_eq!(json_text(&not_obj), "null");
}

#[test]
fn builtins_run_once_or_per_album() {
    assert_eq!(builtin_paths("open_config_in_terminal", &vec!["A".to_string()], "/lib"), vec!["".to_string()]);
    assert_eq!(builtin_paths("open_folder", &vec![], "/lib"), vec!["".to_string()]);
    assert_eq!(builtin_paths("open_folder", &vec!["A".to_string(), "B".to_string()], "/lib"), vec!["/lib/A".to_string(), "/lib/B".to_string()]);
    assert_eq!(unrecognized_action("zap"), "Action 'zap' is not recognized or configured.");
    assert_eq!(playing_album_id("/lib/A/B", "/lib"), Some("A/B".to_string()));
    assert_eq!(playing_album_id("/other/A", "/lib"), None);
}

#[test]
fn default_interface_state() {
    assert_eq!(
        json_text(&default_state()),
        "{\"activeCollection\":\"library\",\"activeTab\":\"home\",\"filter\":{\"key\":null,\"val\":null},\"groupKey\":\"genre\",\"queuePanels\":{\"lyrics\":false,\"tracks\":true},\"sidebarWidth\":280,\"sortKey\":\"default\",\"sortOrder\":\"default\"}"
    );
}

#[test]
fn socket_requests_are_read_with_defaults() {
    let v = parse_request(&obj(vec![("type", s("VIEW_REQUEST")), ("filter", obj(vec![("key", s("genre")), ("val", s("jazz"))]))]));
    match v {
        ClientRequest::View { collection, sort, reverse, filter_key, filter_val } => {
            assert_eq!(collection, "library");
            assert_eq!(sort, "default");
            assert!(!reverse);
            assert_eq!(filter_key, Some("genre".to_string()));
            assert_eq!(filter_val, Some("jazz".to_string()));
        }
        _ => panic!("expected a view request"),
    }
    match parse_request(&obj(vec![("type", s("GROUP_REQUEST")), ("key", s("year"))])) {
        ClientRequest::Group { collection, key } => {
            assert_eq!(collection, "library");
            assert_eq!(key, "year");
        }
        _ => panic!("expected a group request"),
    }
    assert!(matches!(parse_request(&obj(vec![("type", s("SHELF_REQUEST"))])), ClientRequest::Shelf { ref shelf } if shelf.is_empty()));
    assert!(matches!(parse_request(&obj(vec![("type", s("PING"))])), ClientRequest::Ignored));
    assert!(matches!(parse_request(&Json::Null), ClientRequest::Ignored));
}

#[test]
fn socket_answers() {
    assert_eq!(json_text(&view_data(&vec!["A".to_string()])), "{\"ids\":[\"A\"],\"type\":\"VIEW_DATA\"}");
    assert_eq!(json_text(&group_result("year", Json::Array(vec![]))), "{\"key\":\"year\",\"result\":[],\"type\":\"GROUP_RESULT\"}");
    let init = init_payload(obj(vec![]), obj(vec![]), Json::Null, obj(vec![]), Json::Bool(true), Json::Null);
    assert_eq!(json_text(&init), "{\"config\":{\"covers\":true,\"shader\":null},\"dict\":{},\"manifest\":null,\"trackMap\":{},\"type\":\"INIT_DICT\",\"ui_state\":{}}");
}

#[test]
fn player_status_message() {
    assert_eq!(play_state_name(&PlayState::Playing), "play");
    assert_eq!(play_state_name(&PlayState::Paused), "pause");
    assert_eq!(play_state_name(&PlayState::Stopped), "stop");
    let songs = vec![
        QueuedSong { url: "A/1.flac".to_string(), title: Some("One".to_string()), artist: None },
        QueuedSong { url: "B/2.flac".to_string(), title: None, artist: Some("X".to_string()) },
    ];
    let metas = vec![Some(obj(vec![("albumId", s("A")), ("trackNo", n(1)), ("discNo", n(1)), ("duration", s("1:00")), ("durationMs", n(60000))])), None];
    let q = queue_json(&songs, &metas);
    assert_eq!(
        json_text(&q),
        "[{\"album_id\":\"A\",\"artist\":null,\"disc_no\":1,\"duration\":\"1:00\",\"duration_ms\":60000,\"file\":\"A/1.flac\",\"id\":0,\"title\":\"One\",\"track_no\":1},{\"album_id\":null,\"artist\":\"X\",\"disc_no\":1,\"duration\":\"\",\"duration_ms\":0,\"file\":\"B/2.flac\",\"id\":1,\"title\":null,\"track_no\":null}]"
    );
    let (file, title, artist) = current_fields(None);
    assert_eq!(file, "");
    assert!(title.is_none() && artist.is_none());
    let elapsed = Json::Number(JsonNumber { text: "1.5".to_string(), signed: None, unsigned: None });
    let p = status_payload(&PlayState::Paused, "A/1.flac", &Some("A".to_string()), &Some("One".to_string()), &None, elapsed, n(60), Json::Array(vec![]));
    assert_eq!(
        json_text(&p),
        "{\"album_id\":\"A\",\"artist\":null,\"duration\":60,\"elapsed\":1.5,\"file\":\"A/1.flac\",\"queue\":[],\"state\":\"pause\",\"title\":\"One\",\"type\":\"MPD_STATUS\"}"
    );
}

#[test]
fn cover_widths_and_image_types() {
    assert_eq!(cover_width("300px"), 300);
    assert_eq!(cover_width("300"), 300);
    assert_eq!(cover_width("10px"), 16);
    assert_eq!(cover_width("5000px"), 2048);
    assert_eq!(cover_width("abc"), 200);
    assert_eq!(cover_width("px"), 200);
    assert_eq!(image_mime("Band/Record/cover.png"), "image/png");
    assert_eq!(image_mime("Band/Record/cover.jpg"), "image/jpeg");
    assert_eq!(image_mime("Band/Record/cover"), "image/jpeg");
}

fn track(disc: Option<u64>, path: Option<&str>) -> Json {
    let mut es = vec![("title".to_string(), Json::Str("T".to_string()))];
    if let Some(d) = disc {
        es.push(("discnumber".to_string(), Json::Number(JsonNumber { text: d.to_string(), signed: Some(d as i64), unsigned: Some(d) })));
    }
    if let Some(p) = path {
        es.push(("file".to_string(), Json::Object(vec![("path".to_string(), Json::Str(p.to_string()))])));
    }
    Json::Object(es)
}

#[test]
fn played_album_queues_its_files_in_order() {
    let lock = Json::Object(vec![(
        "tracks".to_string(),
        Json::Array(vec![
            track(Some(1), Some("01.flac")),
            track(Some(2), Some("CD2/01.flac")),
            track(None, Some("02.flac")),
            track(Some(1), None),
        ]),
    )]);
    assert_eq!(
        album_track_paths(&lock, "/music", "Band/Record", None),
        vec!["Band/Record/01.flac".to_string(), "Band/Record/CD2/01.flac".to_string(), "Band/Record/02.flac".to_string()]
    );
    assert_eq!(
        album_track_paths(&lock, "/music", "Band/Record", Some("1".to_string())),
        vec!["Band/Record/01.flac".to_string(), "Band/Record/02.flac".to_string()]
    );
    assert_eq!(album_track_paths(&lock, "/music", "Band/Record", Some("2".to_string())), vec!["Band/Record/CD2/01.flac".to_string()]);
    assert_eq!(album_track_paths(&lock, "/music", "Band/Record", Some("x".to_string())).len(), 3);
    assert!(album_track_paths(&Json::Null, "/music", "Band/Record", None).is_empty());
}

#[test]
fn interface_assets_split_and_typed() {
    assert_eq!(split_asset_path("theme/css/main.css"), ("theme".to_string(), Some("css/main.css".to_string())));
    assert_eq!(split_asset_path("logo"), ("logo".to_string(), None));
    assert_eq!(split_asset_path("/x"), ("".to_string(), Some("x".to_string())));
    assert_eq!(split_asset_path("dir/"), ("dir".to_string(), Some("".to_string())));
    assert_eq!(asset_mime("a/main.css"), "text/css");
    assert_eq!(asset_mime("a/bg.frag"), "text/plain");
    assert_eq!(asset_mime("a/app.js"), "application/javascript");
    assert_eq!(asset_mime("a/data.json"), "application/json");
    assert_eq!(asset_mime("a/i.jpeg"), "image/jpeg");
    assert_eq!(asset_mime("a/i.svg"), "image/svg+xml");
    assert_eq!(asset_mime("a/f.woff2"), "font/woff2");
    assert_eq!(asset_mime("a/blob.bin"), "application/octet-stream");
    assert_eq!(asset_mime("a/noext"), "application/octet-stream");
}

use vellum::engine::{LogicEngine, IngestError};
use vellum::json::{Json, JsonNumber};
use vellum::jtext::json_text;
use vellum::logic_def::{GrouperDef, LibraryDef, LogicManifest, SqlDef, FilterDef, OrderDef};

fn s(x: &str) -> Json {
    Json::Str(x.to_string())
}

fn n(x: u64) -> Json {
    Json::Number(JsonNumber { text: x.to_string(), signed: Some(x as i64), unsigned: Some(x) })
}

fn obj(es: Vec<(&str, Json)>) -> Json {
    Json::Object(es.into_iter().map(|(k, v)| (k.to_string(), v)).collect())
}

fn lock(album: &str, artist: &str) -> Json {
    obj(vec![
        ("album", obj(vec![
            ("album", s(album)),
            ("albumartist", s(artist)),
            ("info", obj(vec![("total_discs", n(1)), ("total_tracks", n(1)), ("duration_formatted", s("0:01"))])),
        ])),
        ("tracks", Json::Array(vec![obj(vec![
            ("title", s("One")),
            ("tracknumber", n(1)),
            ("file", obj(vec![("path", s("01.flac"))])),
            ("info", obj(vec![("duration_milliseconds", n(1000)), ("duration_formatted", s("0:01"))])),
        ])])),
    ])
}

fn eval(lib: bool, genre: &str, fav: bool) -> Json {
    obj(vec![
        ("libraries", obj(vec![("main", Json::Bool(lib))])),
        ("filters", obj(vec![("recent", Json::Bool(true))])),
        ("groupers", obj(vec![("genre", s(genre))])),
        ("shelves", obj(vec![("fav", Json::Bool(fav))])),
    ])
}

fn engine() -> (LogicEngine, u32, u32) {
    let mut e = LogicEngine::new();
    let l1 = lock("Record", "Band");
    let l2 = lock("Other", "Group");
    let u1 = match e.ingest("Band/Record", &json_text(&l1)) {
        Ok(u) => u,
        Err(_) => panic!("expected a handle"),
    };
    let u2 = match e.ingest("Group/Other", &json_text(&l2)) {
        Ok(u) => u,
        Err(_) => panic!("expected a handle"),
    };
    e.record_evaluation(u1, eval(true, "Jazz", true));
    e.record_evaluation(u2, eval(true, "jazz", false));
    e.build_cache(&vec!["title".to_string()]);
    (e, u1, u2)
}

#[test]
fn ingest_registers_fresh_handles() {
    let (e, u1, u2) = engine();
    assert_eq!(u1, 1);
    assert_eq!(u2, 2);
    assert_eq!(e.get_album_json("Band/Record"), Some(json_text(&lock("Record", "Band"))));
    let a = e.album("Band/Record").unwrap();
    assert_eq!(a.get("album").and_then(|v| v.as_str()).map(|v| v.as_str()), Some("Record"));
    assert_eq!(e.album_of_path("Band/Record/01.flac").map(|v| v.as_str()), Some("Band/Record"));
    let t = e.track("Band/Record/01.flac").unwrap();
    assert_eq!(t.get("durationMs").and_then(|v| v.as_u64()), Some(1000));
    assert_eq!(t.get("albumId").and_then(|v| v.as_str()).map(|v| v.as_str()), Some("Band/Record"));
}

#[test]
fn ingest_of_text_that_is_not_json_still_registers() {
    let mut e = LogicEngine::new();
    match e.ingest("X", "not json") {
        Err(IngestError::InvalidJson) => {}
        Ok(_) => panic!("expected an error"),
    }
    assert_eq!(e.get_album_json("X"), Some("not json".to_string()));
    assert!(e.album("X").is_none());
}

#[test]
fn views_follow_orders_and_filters() {
    let (mut e, u1, u2) = engine();
    assert_eq!(e.request_view("main", None, "title", None, None, false), vec!["Band/Record".to_string(), "Group/Other".to_string()]);
    assert!(!e.set_order("title", vec![u2]));
    assert!(!e.set_order("title", vec![u2, u1, u1]));
    assert_eq!(e.request_view("main", None, "title", None, None, false).len(), 2);
    assert!(e.set_order("title", vec![u2, u1]));
    assert_eq!(e.request_view("main", None, "title", None, None, false), vec!["Group/Other".to_string(), "Band/Record".to_string()]);
    assert_eq!(e.request_view("main", None, "title", None, None, true), vec!["Band/Record".to_string(), "Group/Other".to_string()]);
    assert_eq!(e.request_view("main", None, "title", Some("search"), Some("BAND"), false), vec!["Band/Record".to_string()]);
    assert_eq!(e.request_view("main", None, "title", Some("genre"), Some("Jazz"), false), vec!["Band/Record".to_string()]);
    assert!(e.request_view("main", None, "title", Some("genre"), Some("Blues"), false).is_empty());
    assert_eq!(e.request_view("main", None, "title", Some("search"), Some("o"), false), vec!["Group/Other".to_string(), "Band/Record".to_string()]);
    assert_eq!(e.request_view("main", None, "title", Some("nokey"), Some("x"), false), vec!["Group/Other".to_string(), "Band/Record".to_string()]);
    assert_eq!(e.request_view("main", None, "title", Some("search"), Some("O"), true), vec!["Band/Record".to_string(), "Group/Other".to_string()]);
    assert_eq!(e.request_view("main", None, "title", Some("search"), Some("group"), true), vec!["Group/Other".to_string()]);
    assert!(e.request_view("main", None, "unknown", None, None, false).is_empty());
    assert!(e.request_view("other", None, "title", None, None, false).is_empty());
}

#[test]
fn groups_count_albums() {
    let (e, _, _) = engine();
    let g = e.request_group("main", None, "genre");
    let texts: Vec<String> = g.iter().map(json_text).collect();
    assert_eq!(texts.len(), 2);
    assert!(texts.contains(&"{\"count\":1,\"label\":\"Jazz\",\"value\":\"Jazz\"}".to_string()));
    assert!(texts.contains(&"{\"count\":1,\"label\":\"jazz\",\"value\":\"jazz\"}".to_string()));
}

#[test]
fn shelves_and_queries() {
    let (mut e, u1, _) = engine();
    assert_eq!(e.request_shelf_view("fav"), vec!["Band/Record".to_string()]);
    e.load_shelf("hand", "# mine\n Group/Other \n\nMissing/Id\nBand/Record\n");
    assert_eq!(e.request_shelf_view("hand"), vec!["Group/Other".to_string(), "Band/Record".to_string()]);
    assert_eq!(e.shelf_handles("fav"), Some(vec![u1]));
    assert_eq!(e.find_ids("main"), vec!["Band/Record".to_string(), "Group/Other".to_string()]);
    assert_eq!(e.find_ids("  group "), vec!["Group/Other".to_string()]);
    let mut all = e.find_ids("");
    all.sort();
    assert_eq!(all, vec!["Band/Record".to_string(), "Group/Other".to_string()]);
}

#[test]
fn removal_forgets_the_album_and_its_tracks() {
    let (mut e, u1, _) = engine();
    e.remove_album("Band/Record");
    assert!(e.album("Band/Record").is_none());
    assert!(e.get_album_json("Band/Record").is_none());
    assert!(e.track("Band/Record/01.flac").is_none());
    assert!(e.album_of_path("Band/Record/01.flac").is_none());
    assert!(e.result_of(u1).is_none());
    assert!(e.album("Group/Other").is_some());
    assert_eq!(e.request_view("main", None, "title", None, None, false), vec!["Group/Other".to_string()]);
    assert_eq!(e.request_shelf_view("fav"), Vec::<String>::new());
    assert_eq!(e.find_ids("main"), vec!["Group/Other".to_string()]);
    assert_eq!(e.find_ids(""), vec!["Group/Other".to_string()]);
    let mut cleared = e;
    cleared.clear();
    assert!(cleared.album("Group/Other").is_none());
}

fn sql() -> SqlDef {
    SqlDef { select: None, where_: None, order_by: None }
}

#[test]
fn manifest_normalisation() {
    let mut m = LogicManifest {
        filters: vec![("recent".to_string(), FilterDef { label: "Recent".to_string(), sql: sql() })],
        groupers: vec![
            ("genre".to_string(), GrouperDef { label: "Genre".to_string(), sql: sql(), strict: false, index: None, count: None }),
            ("label".to_string(), GrouperDef { label: "Label".to_string(), sql: sql(), strict: true, index: Some(true), count: None }),
        ],
        orders: vec![("date".to_string(), OrderDef { label: "Date".to_string(), sql: sql(), strict: true })],
        libraries: vec![(
            "main".to_string(),
            LibraryDef {
                label: "Main".to_string(),
                sql: None,
                filters: Some(vec!["recent".to_string(), "nope".to_string()]),
                strict: false,
                groupers: vec![],
                orders: vec!["date".to_string()],
                allowed_filters: vec![],
                allowed_groupers: vec![],
                allowed_orders: vec![],
            },
        )],
        shelves: vec![],
        filters_order: vec![],
        groupers_order: vec![],
        orders_order: vec![],
        libraries_order: vec![],
        shelves_order: vec![],
    };
    m.normalize();
    assert_eq!(m.groupers_order, vec!["genre".to_string(), "label".to_string()]);
    assert_eq!(m.groupers[0].1.index, Some(false));
    assert_eq!(m.groupers[0].1.count, Some(true));
    assert_eq!(m.groupers[1].1.index, Some(true));
    assert_eq!(m.groupers[1].1.count, Some(false));
    let lib = &m.libraries[0].1;
    assert_eq!(lib.allowed_filters, vec!["recent".to_string()]);
    assert_eq!(lib.allowed_groupers, vec!["genre".to_string()]);
    assert_eq!(lib.allowed_orders, vec!["date".to_string()]);
}

#[test]
fn summaries_and_handles_read_back() {
    let (e, u1, u2) = engine();
    assert_eq!(e.next_handle(), 3);
    assert_eq!(e.album_id_of(u1).map(|v| v.as_str()), Some("Band/Record"));
    assert_eq!(e.album_id_of(u2).map(|v| v.as_str()), Some("Group/Other"));
    assert_eq!(e.album_id_of(9), None);
    let albums = e.album_summaries();
    assert_eq!(albums.len(), 2);
    let ids: Vec<&str> = albums.iter().map(|(k, _)| k.as_str()).collect();
    assert!(ids.contains(&"Band/Record") && ids.contains(&"Group/Other"));
    let tracks = e.track_summaries();
    assert_eq!(tracks.len(), 2);
    assert!(tracks.iter().any(|(k, v)| k == "Band/Record/01.flac"
        && v.get("albumId").and_then(|x| x.as_str()).map(|x| x.as_str()) == Some("Band/Record")));
}

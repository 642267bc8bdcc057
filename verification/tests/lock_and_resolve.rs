use vellum::json::{Json, JsonNumber};
use vellum::jtext::json_text;
use vellum::lockbuild::{
    album_object, check_inventory, ctx_track, dispatch_ctx, final_track, info_object, lock_object,
    manifest_file_name, manifests_object, parse_mandatory_album_fields, primary_manifest, virtual_ctx_track,
    BuildError, Harvested,
};
use vellum::resolve::{
    format_ms, get_raw_value, resolve_generic_bool, resolve_generic_integer, resolve_generic_list,
    resolve_generic_string, resolve_generic_string_fallback,
};
use vellum::album::{calculate_total_discs, resolve_comment, resolve_yyyy_mm};
use vellum::colors::{is_valid_hex_color, validate_and_format_colors};

fn s(x: &str) -> Json {
    Json::Str(x.to_string())
}

fn n(x: u64) -> Json {
    Json::Number(JsonNumber { text: x.to_string(), signed: Some(x as i64), unsigned: Some(x) })
}

fn obj(es: Vec<(&str, Json)>) -> Json {
    Json::Object(es.into_iter().map(|(k, v)| (k.to_string(), v)).collect())
}

#[test]
fn formats_durations() {
    assert_eq!(format_ms(0), "0:00");
    assert_eq!(format_ms(61_000), "1:01");
    assert_eq!(format_ms(3_600_000), "1:00:00");
    assert_eq!(format_ms(3_725_999), "1:02:05");
}

#[test]
fn raw_values_skip_blank_and_fall_back() {
    let src = obj(vec![("a", s("  ")), ("b", Json::Array(vec![])), ("c", s("x")), ("d", Json::Null)]);
    assert!(get_raw_value(&src, "a", "").is_none());
    assert_eq!(get_raw_value(&src, "a", "b, d ,c").and_then(|v| v.as_str()).map(|v| v.as_str()), Some("x"));
    assert!(get_raw_value(&src, "zz", "").is_none());
}

#[test]
fn generic_resolvers() {
    let src = obj(vec![
        ("genre", Json::Array(vec![s("Jazz"), n(1), s("Funk")])),
        ("year", s(" 1999 ")),
        ("flag", s(" YES ")),
        ("n", n(5)),
        ("list", s("a; ;b")),
    ]);
    assert_eq!(json_text(&resolve_generic_string(&src, "genre", "", "none")), "\"Jazz; Funk\"");
    assert_eq!(json_text(&resolve_generic_string(&src, "missing", "", "none")), "\"none\"");
    assert_eq!(json_text(&resolve_generic_string(&src, "year", "", "")), "\"1999\"");
    assert_eq!(json_text(&resolve_generic_integer(&src, "year", "")), "1999");
    assert_eq!(json_text(&resolve_generic_integer(&src, "n", "")), "5");
    assert_eq!(json_text(&resolve_generic_integer(&src, "flag", "")), "0");
    assert_eq!(json_text(&resolve_generic_bool(&src, "flag", "")), "true");
    assert_eq!(json_text(&resolve_generic_bool(&src, "missing", "")), "false");
    assert_eq!(json_text(&resolve_generic_list(&src, "list", "")), "[\"a\",\"b\"]");
    assert_eq!(json_text(&resolve_generic_list(&src, "genre", "")), "[\"Jazz\",\"Funk\"]");
    assert_eq!(json_text(&resolve_generic_list(&src, "missing", "")), "[]");
    let album = obj(vec![("artist", s("Band"))]);
    let track = obj(vec![("artist", s(" "))]);
    assert_eq!(json_text(&resolve_generic_string_fallback(&track, &album, "artist", "artist", "?")), "\"\"");
    assert_eq!(json_text(&resolve_generic_string_fallback(&obj(vec![]), &album, "artist", "artist", "?")), "\"Band\"");
    assert_eq!(json_text(&resolve_generic_string_fallback(&obj(vec![]), &obj(vec![]), "a", "b", "?")), "\"?\"");
}

#[test]
fn counts_distinct_discs() {
    let tracks = vec![
        obj(vec![("discnumber", n(1))]),
        obj(vec![("discnumber", s("2/3"))]),
        obj(vec![("discnumber", n(2))]),
        obj(vec![]),
    ];
    assert_eq!(calculate_total_discs(&tracks), 2);
    assert_eq!(calculate_total_discs(&[]), 1);
}

#[test]
fn release_month_and_comment() {
    let src = obj(vec![("date", s("2001-05-02")), ("country", s("JP")), ("label", s("Label"))]);
    assert_eq!(resolve_yyyy_mm(&src, "release_yyyy_mm"), "2001-00");
    assert_eq!(resolve_yyyy_mm(&obj(vec![("release_yyyy_mm", s("1990-02"))]), "release_yyyy_mm"), "1990-02");
    assert_eq!(resolve_yyyy_mm(&obj(vec![]), "release_yyyy_mm"), "0000-00");
    assert_eq!(resolve_comment(&src), "2001 JP Label");
    assert_eq!(resolve_comment(&obj(vec![("comment", s("own"))])), "own");
    assert_eq!(resolve_comment(&obj(vec![])), "");
}

#[test]
fn hex_colors() {
    assert!(is_valid_hex_color("#fff"));
    assert!(is_valid_hex_color("#A0b1C2d3"));
    assert!(!is_valid_hex_color("fff"));
    assert!(!is_valid_hex_color("#ffff0"));
    assert!(!is_valid_hex_color("#ggg"));
    let ok = validate_and_format_colors(&obj(vec![("foreground", s("#000")), ("background", s("#fff"))]));
    match ok {
        Ok(v) => assert_eq!(json_text(&v), "{\"background\":[\"#fff\"],\"foreground\":\"#000\"}"),
        Err(_) => panic!("expected valid colors"),
    }
    let bad = validate_and_format_colors(&obj(vec![("background", Json::Array(vec![s("#fff"), s("red")]))]));
    match bad {
        Err(e) => {
            assert_eq!(e.key, "background[1]");
            assert_eq!(e.found, "red");
        }
        Ok(_) => panic!("expected an error"),
    }
}

#[test]
fn inventory_must_match_for_physical_albums() {
    assert!(check_inventory("/a", false, 3, 3).is_ok());
    assert!(check_inventory("/a", true, 0, 3).is_ok());
    match check_inventory("/a", false, 2, 3) {
        Err(BuildError::PhysicalInventoryMismatch { path, files_count, tracks_count }) => {
            assert_eq!(path, "/a");
            assert_eq!(files_count, 2);
            assert_eq!(tracks_count, 3);
        }
        _ => panic!("expected a mismatch"),
    }
}

#[test]
fn mandatory_album_fields() {
    let a = obj(vec![("artist", s("Band")), ("album", s("Record")), ("date", n(1999))]);
    match parse_mandatory_album_fields(&a, "/a") {
        Ok((artist, album, date)) => {
            assert_eq!(artist, "Band");
            assert_eq!(album, "Record");
            assert_eq!(date, "1999");
        }
        Err(_) => panic!("expected the fields"),
    }
    let b = obj(vec![("albumartist", s("")), ("album", s("Record")), ("date", s("1999"))]);
    match parse_mandatory_album_fields(&b, "/a") {
        Err(BuildError::TypeMismatch { path, key, expected_type, found_val }) => {
            assert_eq!(path, "/a");
            assert_eq!(key, "artist");
            assert_eq!(expected_type, "string");
            assert_eq!(found_val, "missing or empty");
        }
        _ => panic!("expected a missing artist"),
    }
    let c = obj(vec![("albumartist", s("A")), ("album", s("R"))]);
    assert!(matches!(parse_mandatory_album_fields(&c, "/a"), Err(BuildError::TypeMismatch { ref key, .. }) if key == "date"));
}

#[test]
fn manifest_names_and_records() {
    assert_eq!(manifest_file_name("local"), "local.toml");
    assert_eq!(manifest_file_name("metadata"), "metadata.toml");
    let m = manifests_object(vec![("metadata".to_string(), obj(vec![("path", s("metadata.toml"))]))]);
    assert_eq!(json_text(&m), "{\"metadata\":{\"file\":{\"path\":\"metadata.toml\"}}}");
}

#[test]
fn track_contexts() {
    assert_eq!(
        json_text(&virtual_ctx_track()),
        "{\"bitrate_kbps\":0,\"bits_per_sample\":0,\"channels\":0,\"duration_milliseconds\":0,\"embedded\":{},\"encoding\":\"\",\"file\":{\"byte_size\":0,\"mtime\":0,\"path\":\"\"},\"sample_rate\":0}"
    );
    let h = Harvested {
        sample_rate: n(44100),
        bits_per_sample: n(16),
        bitrate_kbps: n(900),
        encoding: s("FLAC"),
        channels: n(2),
        duration_milliseconds: n(61000),
        file: obj(vec![("path", s("01.flac"))]),
        embedded: obj(vec![]),
    };
    let c = ctx_track(h);
    assert_eq!(
        json_text(&c),
        "{\"bitrate_kbps\":900,\"bits_per_sample\":16,\"channels\":2,\"duration_milliseconds\":61000,\"embedded\":{},\"encoding\":\"FLAC\",\"file\":{\"path\":\"01.flac\"},\"sample_rate\":44100}"
    );
    let t = obj(vec![("title", s("Song"))]);
    match final_track(1, 2, &t, "Band", None, &c, Some(obj(vec![("path", s("lyrics/02.lrc"))])), "/a") {
        Ok(j) => assert_eq!(
            json_text(&j),
            "{\"artist\":\"Band\",\"discnumber\":1,\"file\":{\"path\":\"01.flac\"},\"info\":{\"bitrate_kbps\":900,\"bits_per_sample\":16,\"channels\":2,\"duration_formatted\":\"1:01\",\"duration_milliseconds\":61000,\"encoding\":\"FLAC\",\"sample_rate\":44100},\"keys\":{},\"lyrics\":{\"file\":{\"path\":\"lyrics/02.lrc\"}},\"title\":\"Song\",\"tracknumber\":2}"
        ),
        Err(_) => panic!("expected a track"),
    }
    match final_track(1, 1, &obj(vec![]), "Band", None, &c, None, "/a") {
        Err(BuildError::TypeMismatch { key, found_val, .. }) => {
            assert_eq!(key, "title");
            assert_eq!(found_val, "missing");
        }
        _ => panic!("expected a missing title"),
    }
}

#[test]
fn album_info_and_lock() {
    let info = info_object(2, 12, "2024-01-01T00:00:00.000Z", 3_725_999);
    assert_eq!(
        json_text(&info),
        "{\"date_added\":\"2024-01-01T00:00:00.000Z\",\"duration_formatted\":\"1:02:05\",\"duration_milliseconds\":3725999,\"total_discs\":2,\"total_tracks\":12}"
    );
    let album = album_object("Band", "Record", "1999", "Band/Record", obj(vec![]), obj(vec![]), obj(vec![]), Json::Null);
    assert_eq!(
        json_text(&album),
        "{\"album\":\"Record\",\"albumartist\":\"Band\",\"covers\":null,\"date\":\"1999\",\"id\":\"Band/Record\",\"info\":{},\"keys\":{},\"manifests\":{}}"
    );
    let with_cover = album_object("B", "R", "D", "I", obj(vec![]), obj(vec![]), obj(vec![]), obj(vec![("path", s("cover.jpg"))]));
    assert!(json_text(&with_cover).contains("\"covers\":{\"main\":{\"file\":{\"path\":\"cover.jpg\"}}}"));
    let lock = lock_object(obj(vec![]), vec![], vec![], "/lib/B/R", "/cfg", "/lib");
    assert_eq!(
        json_text(&lock),
        "{\"album\":{},\"ctx\":{\"harvest\":[],\"paths\":{\"album_root\":\"/lib/B/R\",\"library_root\":\"/lib\",\"project_root\":\"/cfg\"}},\"tracks\":[]}"
    );
    let ctx = dispatch_ctx(obj(vec![]), "B/R", 1, 2, 10, Json::Null, vec![]);
    assert_eq!(
        json_text(&ctx),
        "{\"config\":{},\"cover_metrics\":null,\"duration_milliseconds\":10,\"id\":\"B/R\",\"total_discs\":1,\"total_tracks\":2,\"tracks\":[]}"
    );
}

#[test]
fn primary_manifest_and_its_tracks() {
    let track = Json::Object(vec![("title".to_string(), Json::Str("One".to_string()))]);
    let meta = Json::Object(vec![("tracks".to_string(), Json::Array(vec![track]))]);
    let all = Json::Object(vec![("metadata".to_string(), meta)]);
    match primary_manifest(&all, "/a") {
        Ok((m, ts)) => {
            assert_eq!(ts.len(), 1);
            assert!(m.get("tracks").is_some());
        }
        Err(_) => panic!("expected the manifest"),
    }
    let no_tracks = Json::Object(vec![("metadata".to_string(), Json::Object(vec![]))]);
    assert!(matches!(primary_manifest(&no_tracks, "/a"), Err(BuildError::MissingTracksBlock { path }) if path == "/a"));
    let none = Json::Object(vec![("local".to_string(), Json::Object(vec![]))]);
    assert!(matches!(primary_manifest(&none, "/a"), Err(BuildError::MissingPrimaryManifest { path }) if path == "/a"));
}

#[test]
fn json_text_escapes_and_orders_by_key() {
    let v = Json::Object(vec![
        ("b".to_string(), Json::Str("q\"\n".to_string())),
        ("a".to_string(), Json::Bool(true)),
    ]);
    assert_eq!(json_text(&v), "{\"a\":true,\"b\":\"q\\\"\\n\"}");
}

#[test]
fn album_duration_sums_track_lengths() {
    assert_eq!(vellum::lockbuild::album_duration(&vec![]), 0);
    assert_eq!(vellum::lockbuild::album_duration(&vec![1000, 2500, 0]), 3500);
}

#[test]
fn json_text_reads_back() {
    let v = vellum::jtext::parse_json("{\"b\": [1, -2, 3.5, \"x\"], \"a\": null, \"c\": true}").unwrap();
    assert_eq!(vellum::jtext::json_text(&v), "{\"a\":null,\"b\":[1,-2,3.5,\"x\"],\"c\":true}");
    assert!(vellum::jtext::parse_json("{\"a\": }").is_none());
    assert!(vellum::jtext::parse_json("").is_none());
    match vellum::jtext::parse_json("18446744073709551615") {
        Some(vellum::json::Json::Number(n)) => {
            assert_eq!(n.unsigned, Some(u64::MAX));
            assert_eq!(n.signed, None);
            assert_eq!(n.text, "18446744073709551615");
        }
        _ => panic!("expected a number"),
    }
}

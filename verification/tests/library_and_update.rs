use vellum::cache::{
    apply_updates, calculate_hash, cover_cache_key, config_changed, cover_candidates, current_state, find_missing_paths,
    get_lua_config_hash, get_mtime_sum, is_audio_ext, library_cache_dir, library_root_unchanged,
    tracked_album_paths, verify_album, AlbumCacheEntry, CurrentState, FileStat,
};
use vellum::json::{Json, JsonNumber};
use vellum::library::{Library, UpdateResult};
use vellum::album::rel_path;

fn s(x: &str) -> Json {
    Json::Str(x.to_string())
}

fn obj(es: Vec<(&str, Json)>) -> Json {
    Json::Object(es.into_iter().map(|(k, v)| (k.to_string(), v)).collect())
}

#[test]
fn library_new_keeps_root() {
    let l = Library::new("/music".to_string());
    assert_eq!(l.root, "/music");
}

#[test]
fn lock_files_are_recognised_by_name() {
    assert!(Library::is_lock_file("/music/a/album.lock.json"));
    assert!(!Library::is_lock_file("/music/a/album.lock.json.bak"));
    assert!(!Library::is_lock_file("/music/a"));
    assert_eq!(Library::lock_path("/music/a"), "/music/a/album.lock.json");
}

#[test]
fn scan_uses_folder_place_as_id() {
    let l = Library::new("/music".to_string());
    assert_eq!(l.scan_album_id("/music/Artist/Album/album.lock.json", "Artist/Album"), "Artist/Album");
    assert_eq!(l.scan_album_id("/music/Artist/Album/album.lock.json", "stale/id"), "Artist/Album");
    assert_eq!(l.scan_album_id("/elsewhere/X/album.lock.json", "X"), "/elsewhere/X");
}

#[test]
fn update_album_with_lock_reingests() {
    let l = Library::new("/music".to_string());
    let u = l.update_album("/music/A/B", Some("old/id".to_string()));
    assert_eq!(u.removals, vec!["old/id".to_string(), "A/B".to_string()]);
    assert_eq!(u.ingest, Some("A/B".to_string()));
    match u.result {
        UpdateResult::Updated(id) => assert_eq!(id, "A/B"),
        UpdateResult::Removed(_) => panic!("expected an update"),
    }
}

#[test]
fn update_album_without_lock_removes() {
    let l = Library::new("/music".to_string());
    let u = l.update_album("/music/A/B", None);
    assert_eq!(u.removals, vec!["A/B".to_string()]);
    assert!(u.ingest.is_none());
    match u.result {
        UpdateResult::Removed(id) => assert_eq!(id, "A/B"),
        UpdateResult::Updated(_) => panic!("expected a removal"),
    }
}

#[test]
fn rel_path_strips_the_root_by_components() {
    assert_eq!(rel_path("/music/A/B", "/music"), "A/B");
    assert_eq!(rel_path("/musicx/A", "/music"), "/musicx/A");
    assert_eq!(rel_path("/music", "/music"), "");
}

#[test]
fn hashes_are_blake3_hex() {
    let h = calculate_hash("");
    assert_eq!(h, "af1349b9f5f9a1a6a0404dea36dcc9499bcb25c9adc112b7cc9a93cae41f3262");
    let h2 = calculate_hash("abc");
    assert_eq!(h2, "6437b3ac38465133ffb63b75273a8db548c558465d79db03fd359c6cd5bd9d85");
    assert_eq!(h2.len(), 64);
}

#[test]
fn config_hash_is_the_hash_of_all_contents() {
    let contents = vec![b"ab".to_vec(), b"c".to_vec()];
    assert_eq!(get_lua_config_hash(&contents), calculate_hash("abc"));
    assert_eq!(get_lua_config_hash(&vec![]), calculate_hash(""));
}

#[test]
fn config_change_compares_stamps() {
    assert!(config_changed("abc", ""));
    assert!(!config_changed("abc", "abc"));
}

#[test]
fn library_root_state() {
    let saved = Some(CurrentState { hash: "h1".to_string() });
    assert!(library_root_unchanged(&saved, "h1"));
    assert!(!library_root_unchanged(&saved, "h2"));
    assert!(!library_root_unchanged(&None, "h1"));
    assert_eq!(current_state("h2").hash, "h2");
    assert_eq!(library_cache_dir("/cache", "abc"), "/cache/libraries/abc");
}

#[test]
fn mtime_sum_adds_every_part() {
    assert_eq!(get_mtime_sum(10, 20, &vec![1, 2], 5, &vec![100, 200]), 338);
    assert_eq!(get_mtime_sum(0, 0, &vec![], 0, &vec![]), 0);
    let covers = cover_candidates();
    assert_eq!(covers, vec!["cover.jpg", "cover.png", "folder.jpg", "front.jpg"]);
}

#[test]
fn audio_extensions_match_lowercased_with_dot() {
    let exts = vec![".flac".to_string(), ".mp3".to_string()];
    assert!(is_audio_ext("FLAC", &exts));
    assert!(is_audio_ext("mp3", &exts));
    assert!(!is_audio_ext("ogg", &exts));
}

#[test]
fn missing_albums_are_cached_but_not_found() {
    let albums = vec!["/lib/A".to_string(), "/lib/B".to_string()];
    let keys = vec![
        "A/metadata.toml".to_string(),
        "C/metadata.toml".to_string(),
        "C/cover.jpg".to_string(),
        "metadata.toml".to_string(),
        "C/metadata.toml".to_string(),
    ];
    let r = find_missing_paths(&albums, "/lib", &keys);
    assert_eq!(r, vec!["/lib/C".to_string(), "/lib/".to_string()]);
}

fn st(m: u64, z: u64) -> FileStat {
    FileStat { mtime: m, size: z }
}

#[test]
fn album_is_clean_when_cache_matches() {
    let cache = vec![("A/x.flac".to_string(), st(1, 10)), ("A/metadata.toml".to_string(), st(2, 20)), ("B/y".to_string(), st(3, 30))];
    let files = vec![("A/x.flac".to_string(), Some(st(1, 10))), ("A/metadata.toml".to_string(), Some(st(2, 20)))];
    assert!(!verify_album(false, true, "/lib/A", "/lib", &files, &cache));
    assert!(verify_album(true, true, "/lib/A", "/lib", &files, &cache));
    assert!(verify_album(false, false, "/lib/A", "/lib", &files, &cache));
}

#[test]
fn album_is_dirty_when_a_file_changed_or_vanished() {
    let cache = vec![("A/x.flac".to_string(), st(1, 10)), ("A/metadata.toml".to_string(), st(2, 20))];
    let changed = vec![("A/x.flac".to_string(), Some(st(1, 11))), ("A/metadata.toml".to_string(), Some(st(2, 20)))];
    assert!(verify_album(false, true, "/lib/A", "/lib", &changed, &cache));
    let gone = vec![("A/x.flac".to_string(), Some(st(1, 10)))];
    assert!(verify_album(false, true, "/lib/A", "/lib", &gone, &cache));
    let unreadable = vec![("A/x.flac".to_string(), None), ("A/metadata.toml".to_string(), Some(st(2, 20)))];
    assert!(verify_album(false, true, "/lib/A", "/lib", &unreadable, &cache));
}

#[test]
fn album_at_the_root_owns_keys_without_slash() {
    let cache = vec![("x.flac".to_string(), st(1, 1)), ("Other/y".to_string(), st(1, 1))];
    let files = vec![("x.flac".to_string(), Some(st(1, 1)))];
    assert!(!verify_album(false, true, "/lib", "/lib", &files, &cache));
}

#[test]
fn tracked_albums_only_without_full_rescan() {
    let data = obj(vec![
        ("full_rescan", Json::Bool(false)),
        ("tracked_albums", Json::Array(vec![s("A"), Json::Null, s("B/C")])),
    ]);
    assert_eq!(tracked_album_paths(&data, "/lib"), Some(vec!["/lib/A".to_string(), "/lib/B/C".to_string()]));
    let full = obj(vec![("full_rescan", Json::Bool(true)), ("tracked_albums", Json::Array(vec![s("A")]))]);
    assert_eq!(tracked_album_paths(&full, "/lib"), None);
    let missing = obj(vec![("tracked_albums", Json::Array(vec![s("A")]))]);
    assert_eq!(tracked_album_paths(&missing, "/lib"), None);
    let _ = JsonNumber { text: "1".to_string(), signed: Some(1), unsigned: Some(1) };
}

#[test]
fn cache_update_records_and_forgets() {
    let mut cache = vec![("/lib/A".to_string(), AlbumCacheEntry { mtime_sum: 1 }), ("/lib/B".to_string(), AlbumCacheEntry { mtime_sum: 2 })];
    let reported = apply_updates(&mut cache, &vec![("/lib/A".to_string(), 10), ("/lib/C".to_string(), 30)], &vec!["/lib/B".to_string()]);
    assert_eq!(reported, vec!["/lib/A".to_string(), "/lib/C".to_string(), "/lib/B".to_string()]);
    let view: Vec<(String, u64)> = cache.iter().map(|e| (e.0.clone(), e.1.mtime_sum)).collect();
    assert!(view.contains(&("/lib/A".to_string(), 10)));
    assert!(view.contains(&("/lib/C".to_string(), 30)));
    assert!(!view.iter().any(|e| e.0 == "/lib/B"));
    assert_eq!(view.len(), 2);
}

#[test]
fn cover_cache_keys_hash_path_size_and_time() {
    let key = cover_cache_key("/music/Band/Record/cover.jpg", 1024, 1700000000);
    assert_eq!(key, calculate_hash("/music/Band/Record/cover.jpg:1024:1700000000"));
    assert_eq!(key, blake3::hash(b"/music/Band/Record/cover.jpg:1024:1700000000").to_hex().to_string());
    assert_ne!(key, cover_cache_key("/music/Band/Record/cover.jpg", 1024, 1700000001));
}

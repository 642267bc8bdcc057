use vellum::nix::FilterError;
use vellum::nixgen::{torrent_manifest, ManifestError};
use vellum::toml::Toml;
use vellum::torrent::{bencode_depth_within, torrent_listing, TorrentError};

fn with_pieces(head: &[u8], tail: &[u8]) -> Vec<u8> {
    let mut v = head.to_vec();
    v.extend_from_slice(&[0xFF; 20]);
    v.extend_from_slice(tail);
    v
}

fn single() -> Vec<u8> {
    with_pieces(b"d4:infod6:lengthi5e4:name5:a.mp312:piece lengthi16384e6:pieces20:", b"ee")
}

fn multi() -> Vec<u8> {
    with_pieces(
        b"d4:infod5:filesld6:lengthi3e4:pathl2:CD7:01.flaceed6:lengthi2e4:pathl5:b.txteee4:name3:Alb12:piece lengthi16384e6:pieces20:",
        b"ee",
    )
}

#[test]
fn torrent_names_and_files_are_read() {
    match torrent_listing(&single()) {
        Ok(l) => {
            assert_eq!(l.name, "a.mp3");
            assert!(l.files.is_none());
        }
        Err(_) => panic!("expected a torrent"),
    }
    match torrent_listing(&multi()) {
        Ok(l) => {
            assert_eq!(l.name, "Alb");
            assert_eq!(l.files, Some(vec!["CD/01.flac".to_string(), "b.txt".to_string()]));
        }
        Err(_) => panic!("expected a torrent"),
    }
    assert!(matches!(torrent_listing(b"garbage"), Err(TorrentError::Malformed)));
    assert!(matches!(torrent_listing(&vec![b'l'; 600]), Err(TorrentError::TooDeep)));
}

#[test]
fn bencode_depth_skips_strings_and_integers() {
    assert!(bencode_depth_within(b"l5:lllllei3ee", 1));
    assert!(!bencode_depth_within(b"llee", 1));
    assert!(bencode_depth_within(b"llee", 2));
    assert!(bencode_depth_within(b"i-3ed+2:llee", 1));
    assert!(bencode_depth_within(b"", 0));
    assert!(bencode_depth_within(b"ellll", 0));
}

#[test]
fn torrent_manifest_keeps_filtered_tracks() {
    let meta = Toml::Table(vec![]);
    match torrent_manifest(&multi(), "flac", "sha256-x", "./a.torrent", &meta) {
        Ok(t) => {
            assert!(t.contains("pname = \"alb\";"));
            assert!(t.contains("01.flac"));
            assert!(!t.contains("b.txt"));
            assert!(t.contains("file = ./a.torrent;"));
        }
        Err(_) => panic!("expected a manifest"),
    }
    assert!(matches!(
        torrent_manifest(&multi(), "a[", "h", "p", &meta),
        Err(ManifestError::Filter(FilterError::InvalidGlob(ref g))) if g == "**/*.a["
    ));
    assert!(matches!(
        torrent_manifest(b"d4:infoi1ee", "flac", "h", "p", &meta),
        Err(ManifestError::Torrent(TorrentError::Malformed))
    ));
}

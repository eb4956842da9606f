use ffmpeg_tool_rs::m3u8::{
    get_iv_from_regex, get_method_from_regex, get_uri_from_regex, key_required, resolve_key_uri,
    str_to_urls, HlsM3u8Method,
};
use ffmpeg_tool_rs::common::replace_last_segment;
use ffmpeg_tool_rs::m3u8::{key_file_name, validate_playlist, PlaylistParseError};

fn parse(text: &str, url: &str) -> ffmpeg_tool_rs::m3u8::HlsM3u8 {
    str_to_urls(text.to_string(), url.to_string(), "folder".to_string())
}

#[test]
fn test_parser_preserves_segment_order() {
    let text = "#EXTM3U\n#EXT-X-VERSION:3\nhttps://h/a/s0.ts\n#EXTINF:4.0,\nhttps://h/a/s1.ts\nhttps://h/a/s2.ts\n#EXT-X-ENDLIST\n";
    let m = parse(text, "https://h/a/stream.m3u8");
    assert_eq!(m.list.len(), 3);
    assert_eq!(m.list[0], "https://h/a/s0.ts");
    assert_eq!(m.list[1], "https://h/a/s1.ts");
    assert_eq!(m.list[2], "https://h/a/s2.ts");
}

#[test]
fn test_parser_resolves_relative_lines() {
    let text = "#EXTM3U\nseg0.ts\nseg1.ts\n";
    let m = parse(text, "https://host/path/stream.m3u8");
    assert_eq!(m.list.len(), 2);
    assert_eq!(m.list[0], "https://host/path/seg0.ts");
    assert_eq!(m.list[1], "https://host/path/seg1.ts");
}

#[test]
fn test_parser_drops_unresolvable_lines() {
    let text = "#EXTM3U\nseg0.ts\nhttps://h/abs.ts\n";
    let m = parse(text, "");
    assert_eq!(m.list.len(), 1);
    assert_eq!(m.list[0], "https://h/abs.ts");
}

#[test]
fn test_key_tag_aes_128() {
    let text = "#EXTM3U\n#EXT-X-KEY:METHOD=AES-128,URI=\"key.bin\",IV=0x0102030405060708090a0b0c0d0e0f10\nseg0.ts\n";
    let m = parse(text, "");
    assert!(matches!(m.method, Some(HlsM3u8Method::Aes128)));
    assert_eq!(m.key, "key.bin");
    assert_eq!(m.iv, "0x0102030405060708090a0b0c0d0e0f10");
    assert!(key_required(&m));
}

#[test]
fn test_key_tag_resolved_against_source() {
    let text = "#EXT-X-KEY:METHOD=AES-128,URI=\"key.bin\",IV=0x01\nseg0.ts\n";
    let m = parse(text, "https://host/path/stream.m3u8");
    assert_eq!(m.key, "https://host/path/key.bin");
}

#[test]
fn test_key_tag_host_relative() {
    let text = "#EXT-X-KEY:METHOD=AES-128,URI=\"/keys/k.bin\"\nseg0.ts\n";
    let m = parse(text, "https://example.com/path/stream.m3u8");
    assert_eq!(m.key, "https://example.com/keys/k.bin");
}

#[test]
fn test_host_relative_key_without_host_kept() {
    let r = resolve_key_uri("/keys/k.bin".to_string(), "mailto:someone@example.com");
    assert_eq!(r, "/keys/k.bin");
}

#[test]
fn test_key_tag_method_none() {
    let text = "#EXT-X-KEY:METHOD=NONE\nseg0.ts\n";
    let m = parse(text, "https://h/p/s.m3u8");
    assert!(m.method.is_none());
    assert!(!key_required(&m));
}

#[test]
fn test_no_key_tag_means_no_encryption() {
    let m = parse("#EXTM3U\nseg0.ts\n", "https://h/p/s.m3u8");
    assert!(m.method.is_none());
    assert!(!key_required(&m));
}

#[test]
fn test_last_key_tag_wins() {
    let text = "#EXT-X-KEY:METHOD=AES-128,URI=\"a.bin\"\n#EXT-X-KEY:METHOD=SAMPLE-AES,URI=\"b.bin\"\nseg0.ts\n";
    let m = parse(text, "");
    assert!(matches!(m.method, Some(HlsM3u8Method::SampleAes)));
    assert_eq!(m.key, "b.bin");
}

#[test]
fn test_media_sequence_tag() {
    let m = parse("#EXT-X-MEDIA-SEQUENCE:42\nseg0.ts\n", "");
    assert_eq!(m.sequence, 42);
}

#[test]
fn test_media_sequence_malformed_defaults_to_zero() {
    let m = parse("#EXT-X-MEDIA-SEQUENCE:abc\nseg0.ts\n", "");
    assert_eq!(m.sequence, 0);
}

#[test]
fn test_map_tag_switches_extension() {
    let text = "#EXT-X-MAP:URI=\"init.mp4\"\nseg0.m4s\nseg1.m4s\n";
    let m = parse(text, "https://h/p/s.m3u8");
    assert_eq!(m.x_map_uri, "init.mp4");
    assert_eq!(m.extension, "m4s");
    assert_eq!(m.list.len(), 2);
}

#[test]
fn test_no_map_tag_keeps_ts_extension() {
    let m = parse("seg0.ts\n", "https://h/p/s.m3u8");
    assert!(m.x_map_uri.is_empty());
    assert_eq!(m.extension, "ts");
}

#[test]
fn test_unknown_tags_are_ignored() {
    let text = "#EXTM3U\n#EXT-X-SOMETHING-NEW:withvalue\nseg0.ts\n";
    let m = parse(text, "https://h/p/s.m3u8");
    assert_eq!(m.list.len(), 1);
    assert!(m.method.is_none());
    assert_eq!(m.sequence, 0);
}

#[test]
fn test_relative_uri_resolution() {
    let r = replace_last_segment("https://host/path/stream.m3u8", "seg0.ts");
    assert_eq!(r, "https://host/path/seg0.ts");
}

#[test]
fn test_replace_last_segment_without_slash() {
    assert_eq!(replace_last_segment("noslash", "x.ts"), "x.ts");
}

#[test]
fn test_method_extraction() {
    assert!(matches!(
        get_method_from_regex("#EXT-X-KEY:METHOD=AES-128,URI=\"k\""),
        Some(HlsM3u8Method::Aes128)
    ));
    assert!(matches!(
        get_method_from_regex("#EXT-X-KEY:METHOD=SAMPLE-AES,URI=\"k\""),
        Some(HlsM3u8Method::SampleAes)
    ));
    assert!(get_method_from_regex("#EXT-X-KEY:METHOD=NONE").is_none());
}

#[test]
fn test_uri_extraction() {
    assert_eq!(get_uri_from_regex("#EXT-X-KEY:METHOD=AES-128,URI=\"key.bin\",IV=0x01"), "key.bin");
    assert_eq!(get_uri_from_regex("#EXT-X-KEY:METHOD=AES-128"), "");
    assert_eq!(get_uri_from_regex("#EXT-X-KEY:URI=\"unterminated"), "");
}

#[test]
fn test_iv_extraction() {
    assert_eq!(get_iv_from_regex("#EXT-X-KEY:METHOD=AES-128,IV=0xff"), "0xff");
    assert_eq!(get_iv_from_regex("#EXT-X-KEY:METHOD=AES-128"), "");
}

#[test]
fn test_resolve_key_uri_absolute_kept() {
    let r = resolve_key_uri("https://other/k.bin".to_string(), "https://host/p/s.m3u8");
    assert_eq!(r, "https://other/k.bin");
}

#[test]
fn test_validate_playlist() {
    let good = parse("seg0.ts\n", "https://h/p/s.m3u8");
    assert!(validate_playlist(&good).is_ok());
    let empty = parse("#EXTM3U\n", "https://h/p/s.m3u8");
    assert!(matches!(validate_playlist(&empty), Err(PlaylistParseError::NoSegments)));
}

#[test]
fn test_key_file_name() {
    assert_eq!(key_file_name("myfolder"), "./myfolder.key");
}

#[test]
fn test_playlist_setters() {
    let mut m = ffmpeg_tool_rs::m3u8::HlsM3u8::new();
    assert!(m.list.is_empty());
    assert!(m.method.is_none());
    assert_eq!(m.sequence, 0);
    assert_eq!(m.extension, "ts");
    m.set_original_url("https://h/p/s.m3u8".to_string(), "f".to_string());
    m.set_list(vec!["https://h/p/a.ts".to_string()]);
    m.set_sequence(9);
    m.set_extension("m4s".to_string());
    m.set_key("k.bin".to_string());
    assert_eq!(m.list, vec!["https://h/p/a.ts"]);
    assert_eq!(m.sequence, 9);
    assert_eq!(m.extension, "m4s");
    assert_eq!(m.key, "k.bin");
    m.set_method_and_key(
        Some(HlsM3u8Method::Aes128),
        "key.bin".to_string(),
        "0x00".to_string(),
    );
    assert_eq!(m.key, "https://h/p/key.bin");
    assert_eq!(m.iv, "0x00");
}

#[test]
fn test_video_ts_setters() {
    let mut v = ffmpeg_tool_rs::download::VideoTs::new();
    assert_eq!(v.index, 0);
    v.set(4, "https://h/s4.ts".to_string(), "ts".to_string());
    assert_eq!(v.index, 4);
    assert_eq!(v.url, "https://h/s4.ts");
    assert_eq!(v.extension, "ts");
}

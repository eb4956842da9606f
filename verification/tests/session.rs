use ffmpeg_tool_rs::download::{
    check_base_info_exists, get_file_name, require_session_source, resolve_session, BaseInfo,
    SessionStateError,
};

#[test]
fn test_base_info_json_text() {
    let mut b = BaseInfo::new();
    b.set_host("https://e/x.m3u8".to_string());
    b.set_m3u8_name("1.m3u8".to_string());
    assert_eq!(b.to_json(), "{\"url\":\"https://e/x.m3u8\",\"m3u8_name\":\"1.m3u8\"}");
}

#[test]
fn test_base_info_round_trip() {
    let mut b = BaseInfo::new();
    b.set_host("https://host/a/b.m3u8?tok=5".to_string());
    b.set_m3u8_name("170000.m3u8".to_string());
    let text = b.to_json();
    let back = BaseInfo::from_json(&text).expect("state file must parse back");
    assert_eq!(back.url, "https://host/a/b.m3u8?tok=5");
    assert_eq!(back.m3u8_name, "170000.m3u8");
}

#[test]
fn test_base_info_round_trip_with_escapes() {
    let mut b = BaseInfo::new();
    b.set_host("https://h/q?a=\"x\"&b=c\\d".to_string());
    b.set_m3u8_name("line\nbreak\ttab".to_string());
    let text = b.to_json();
    assert!(text.contains("\\\""));
    assert!(text.contains("\\\\"));
    assert!(text.contains("\\u000a"));
    assert!(text.contains("\\u0009"));
    let back = BaseInfo::from_json(&text).expect("escaped state must parse back");
    assert_eq!(back.url, "https://h/q?a=\"x\"&b=c\\d");
    assert_eq!(back.m3u8_name, "line\nbreak\ttab");
}

#[test]
fn test_from_json_rejects_other_text() {
    assert!(BaseInfo::from_json("").is_none());
    assert!(BaseInfo::from_json("{}").is_none());
    assert!(BaseInfo::from_json("{\"url\":\"a\"}").is_none());
    assert!(BaseInfo::from_json("{\"url\":\"a\",\"m3u8_name\":\"b\"} ").is_none());
    assert!(BaseInfo::from_json("{\"url\":\"a\",\"m3u8_name\":\"b\"").is_none());
}

#[test]
fn test_base_info_setters() {
    let mut b = BaseInfo::new();
    assert_eq!(b.url, "");
    assert_eq!(b.m3u8_name, "");
    b.set_host("u".to_string());
    b.set_m3u8_name("n".to_string());
    assert_eq!(b.url, "u");
    assert_eq!(b.m3u8_name, "n");
}

#[test]
fn test_check_base_info_exists_reflects_probe() {
    assert!(check_base_info_exists("anything".to_string(), true));
    assert!(!check_base_info_exists("anything".to_string(), false));
}

#[test]
fn test_require_session_source() {
    assert!(require_session_source("https://h/p.m3u8", false).is_ok());
    assert!(require_session_source("", true).is_ok());
    assert!(require_session_source("https://h/p.m3u8", true).is_ok());
    assert!(matches!(
        require_session_source("", false),
        Err(SessionStateError::NoSourceAvailable)
    ));
}

#[test]
fn test_get_file_name_keeps_supplied_name() {
    assert_eq!(get_file_name("chosen.mp4".to_string()), "chosen.mp4");
}

#[test]
fn test_get_file_name_generates_mp4() {
    let name = get_file_name(String::new());
    assert!(name.ends_with(".mp4"));
    assert!(name.len() > 4);
}

#[test]
fn test_resolve_session_prefers_stored_state() {
    let mut stored = BaseInfo::new();
    stored.set_host("https://orig/pl.m3u8".to_string());
    stored.set_m3u8_name("old.m3u8".to_string());
    let (url, name, persist) =
        resolve_session("ignored".to_string(), "fresh.m3u8".to_string(), Some(stored));
    assert_eq!(url, "https://orig/pl.m3u8");
    assert_eq!(name, "old.m3u8");
    assert!(persist.is_none());
}

#[test]
fn test_resolve_session_persists_first_run() {
    let (url, name, persist) =
        resolve_session("https://new/pl.m3u8".to_string(), "fresh.m3u8".to_string(), None);
    assert_eq!(url, "https://new/pl.m3u8");
    assert_eq!(name, "fresh.m3u8");
    let fresh = persist.expect("first run must persist state");
    assert_eq!(fresh.url, "https://new/pl.m3u8");
    assert_eq!(fresh.m3u8_name, "fresh.m3u8");
}

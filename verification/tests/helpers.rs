use ffmpeg_tool_rs::common::{
    download_folder_path, get_move_file_name, get_url_host, is_url, now, path_to_md5,
    replace_last_segment,
};
use ffmpeg_tool_rs::strings::{
    contains, i32_to_string, parse_i32_or_zero, replace, split_by, starts_with, u64_to_string,
};

#[test]
fn test_is_url() {
    assert!(is_url("https://example.com/a/b.m3u8".to_string()));
    assert!(!is_url("seg0.ts".to_string()));
    assert!(!is_url("".to_string()));
}

#[test]
fn test_get_url_host() {
    assert_eq!(get_url_host("https://example.com/x/y").unwrap(), "example.com");
    assert_eq!(get_url_host("").unwrap(), "");
    assert!(get_url_host("not a url").is_err());
}

#[test]
fn test_path_to_md5_matches_digest_of_path() {
    let got = path_to_md5("https://example.com/api/v1/data").expect("url parses");
    let expected = format!("{:x}", md5::compute("/api/v1/data"));
    assert_eq!(got, expected);
    assert_eq!(got.len(), 32);
    assert!(path_to_md5("not a url").is_none());
}

#[test]
fn test_download_folder_path() {
    assert_eq!(
        download_folder_path("download", "myfolder".to_string(), "https://e/x"),
        "./download/myfolder"
    );
    let hashed = download_folder_path("download", String::new(), "https://example.com/p/q.m3u8");
    let digest = format!("{:x}", md5::compute("/p/q.m3u8"));
    assert_eq!(hashed, format!("./download/{}", digest));
}

#[test]
fn test_now_is_recent() {
    // The build of this crate postdates 2021; a sane clock reads later.
    assert!(now() > 1_600_000_000);
}

#[test]
fn test_number_formatting() {
    assert_eq!(u64_to_string(0), "0");
    assert_eq!(u64_to_string(90210), "90210");
    assert_eq!(i32_to_string(-1), "-1");
    assert_eq!(i32_to_string(i32::MIN), "-2147483648");
    assert_eq!(i32_to_string(7), "7");
}

#[test]
fn test_parse_i32_or_zero() {
    assert_eq!(parse_i32_or_zero("42"), 42);
    assert_eq!(parse_i32_or_zero("-7"), -7);
    assert_eq!(parse_i32_or_zero("+9"), 9);
    assert_eq!(parse_i32_or_zero(""), 0);
    assert_eq!(parse_i32_or_zero("abc"), 0);
    assert_eq!(parse_i32_or_zero("12x"), 0);
    assert_eq!(parse_i32_or_zero("2147483647"), i32::MAX);
    assert_eq!(parse_i32_or_zero("2147483648"), 0);
    assert_eq!(parse_i32_or_zero("-2147483648"), i32::MIN);
    assert_eq!(parse_i32_or_zero("-2147483649"), 0);
    assert_eq!(parse_i32_or_zero("99999999999999999999"), 0);
}

#[test]
fn test_replace_all_occurrences() {
    assert_eq!(replace("(.*).ts and (.*).ts", "(.*)", "3"), "3.ts and 3.ts");
    assert_eq!(replace("abc", "(.*)", "x"), "abc");
    assert_eq!(replace("aaa", "aa", "b"), "ba");
}

#[test]
fn test_split_by_keeps_empty_pieces() {
    let pieces = split_by("a\n\nb", '\n');
    assert_eq!(pieces, vec!["a", "", "b"]);
    assert_eq!(split_by("", '\n'), vec![""]);
    assert_eq!(split_by("x\n", '\n'), vec!["x", ""]);
}

#[test]
fn test_contains_and_starts_with() {
    assert!(contains("METHOD=AES-128,URI=", "AES-128"));
    assert!(!contains("METHOD=NONE", "AES-128"));
    assert!(starts_with("#EXT-X-KEY:...", "#EXT-X-KEY"));
    assert!(!starts_with("#EXT", "#EXT-X-KEY"));
}

#[test]
fn test_get_move_file_name() {
    assert_eq!(
        get_move_file_name("images/img/p.jpg".to_string(), "images/repeat".to_string()),
        "images/repeat/p.jpg"
    );
    assert_eq!(get_move_file_name("bare.jpg".to_string(), "t".to_string()), "t/bare.jpg");
}

#[test]
fn test_replace_last_segment_host_only() {
    assert_eq!(replace_last_segment("https://h/x", "k.bin"), "https://h/k.bin");
}

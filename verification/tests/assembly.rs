use ffmpeg_tool_rs::combine::{
    assembly_file_list, combine_plan, combine_target_name, concat_segment_bytes, get_reg_file_name,
    get_reg_files, render_file_list, to_files, CombinePlan,
};
use ffmpeg_tool_rs::download::{build_jobs, segment_file_name, DownloadProgress};
use ffmpeg_tool_rs::m3u8::{str_to_urls, HlsM3u8Method};

#[test]
fn test_get_reg_files_enumerates_range() {
    let files = get_reg_files("(.*).ts".to_string(), 0, 2).unwrap();
    assert_eq!(files, vec!["0.ts", "1.ts", "2.ts"]);
}

#[test]
fn test_get_reg_files_negative_start() {
    let files = get_reg_files("(.*).m4s".to_string(), -1, 1).unwrap();
    assert_eq!(files, vec!["-1.m4s", "0.m4s", "1.m4s"]);
}

#[test]
fn test_get_reg_files_empty_range() {
    let files = get_reg_files("(.*).ts".to_string(), 3, 2).unwrap();
    assert!(files.is_empty());
}

#[test]
fn test_get_reg_file_name_strips_hole() {
    assert_eq!(get_reg_file_name("(.*).mp4".to_string()), ".mp4");
    assert_eq!(get_reg_file_name("video-(.*).ts".to_string()), "video-.ts");
}

#[test]
fn test_to_files_is_txt() {
    let name = to_files().unwrap();
    assert!(name.ends_with(".txt"));
    assert!(name.len() > 4);
}

#[test]
fn test_combine_target_name() {
    assert_eq!(combine_target_name("(.*).mp4", "out.mp4".to_string()), "out.mp4");
    assert_eq!(combine_target_name("(.*).mp4", String::new()), ".mp4");
}

#[test]
fn test_manifest_lists_files_in_order() {
    let files = vec!["0.ts".to_string(), "1.ts".to_string(), "2.ts".to_string()];
    let manifest = render_file_list(&files);
    assert_eq!(manifest, "file '0.ts'\nfile '1.ts'\nfile '2.ts'\n");
}

#[test]
fn test_unencrypted_three_segments_end_to_end() {
    // An unencrypted playlist with 3 segment lines: exactly 3
    // destination files, the manifest lists them in original order,
    // and the run counts as a success.
    let m = str_to_urls(
        "#EXTM3U\na.ts\nb.ts\nc.ts\n".to_string(),
        "https://h/v/pl.m3u8".to_string(),
        "f".to_string(),
    );
    assert!(matches!(combine_plan(&m.method, &m.x_map_uri), CombinePlan::PlainConcat));
    let jobs = build_jobs(&m);
    assert_eq!(jobs.len(), 3);
    let destinations: Vec<String> =
        jobs.iter().map(|j| segment_file_name(j.index, &j.extension)).collect();
    assert_eq!(destinations, vec!["./0.ts", "./1.ts", "./2.ts"]);
    let mut progress = DownloadProgress::new(jobs.len());
    for _job in jobs.iter() {
        progress.record(true);
    }
    assert!(progress.is_complete() && progress.all_succeeded());
    let files = assembly_file_list(jobs.len(), false, &m.extension);
    let manifest = render_file_list(&files);
    assert_eq!(manifest, "file '0.ts'\nfile '1.ts'\nfile '2.ts'\n");
}

#[test]
fn test_combine_plan_dispatch() {
    assert!(matches!(combine_plan(&None, "init.mp4"), CombinePlan::RawConcat));
    assert!(matches!(
        combine_plan(&Some(HlsM3u8Method::Aes128), ""),
        CombinePlan::DecryptAes128
    ));
    assert!(matches!(
        combine_plan(&Some(HlsM3u8Method::SampleAes), ""),
        CombinePlan::Unsupported
    ));
    assert!(matches!(combine_plan(&None, ""), CombinePlan::PlainConcat));
}

#[test]
fn test_fragmented_concat_order() {
    // A fragmented-media playlist with an init segment and 2 segments:
    // the assembled output is the byte concatenation of init, segment
    // 0 and segment 1 in exactly that order.
    let init: Vec<u8> = vec![1, 2, 3];
    let seg0: Vec<u8> = vec![10, 20];
    let seg1: Vec<u8> = vec![30];
    let chunks = vec![init.clone(), seg0.clone(), seg1.clone()];
    let out = concat_segment_bytes(&chunks);
    assert_eq!(out, vec![1, 2, 3, 10, 20, 30]);

    let files = assembly_file_list(2, true, "m4s");
    assert_eq!(files, vec!["-1.m4s", "0.m4s", "1.m4s"]);
}

#[test]
fn test_concat_of_nothing_is_empty() {
    let chunks: Vec<Vec<u8>> = Vec::new();
    assert!(concat_segment_bytes(&chunks).is_empty());
}

use ffmpeg_tool_rs::download::{
    build_jobs, init_job, segment_file_name, worker_step, DownloadProgress, DownloadStep,
};
use ffmpeg_tool_rs::m3u8::str_to_urls;

fn three_segment_playlist() -> ffmpeg_tool_rs::m3u8::HlsM3u8 {
    str_to_urls(
        "#EXTM3U\ns0.ts\ns1.ts\ns2.ts\n".to_string(),
        "https://h/p/stream.m3u8".to_string(),
        "f".to_string(),
    )
}

#[test]
fn test_build_jobs_in_playlist_order() {
    let m = three_segment_playlist();
    let jobs = build_jobs(&m);
    assert_eq!(jobs.len(), 3);
    for (k, job) in jobs.iter().enumerate() {
        assert_eq!(job.index, k as i32);
        assert_eq!(job.extension, "ts");
    }
    assert_eq!(jobs[0].url, "https://h/p/s0.ts");
    assert_eq!(jobs[1].url, "https://h/p/s1.ts");
    assert_eq!(jobs[2].url, "https://h/p/s2.ts");
}

#[test]
fn test_init_job_only_for_fragmented_playlists() {
    let plain = three_segment_playlist();
    assert!(init_job(&plain, "https://h/p/stream.m3u8").is_none());

    let frag = str_to_urls(
        "#EXT-X-MAP:URI=\"init.mp4\"\ns0.m4s\n".to_string(),
        "https://h/p/stream.m3u8".to_string(),
        "f".to_string(),
    );
    let job = init_job(&frag, "https://h/p/stream.m3u8").expect("init job expected");
    assert_eq!(job.index, -1);
    assert_eq!(job.extension, "m4s");
    assert_eq!(job.url, "https://h/p/init.mp4");
}

#[test]
fn test_segment_file_names() {
    assert_eq!(segment_file_name(0, "ts"), "./0.ts");
    assert_eq!(segment_file_name(12, "ts"), "./12.ts");
    assert_eq!(segment_file_name(-1, "m4s"), "./-1.m4s");
}

#[test]
fn test_worker_fetches_missing_destination() {
    let m = three_segment_playlist();
    let jobs = build_jobs(&m);
    match worker_step(&jobs[1], false) {
        DownloadStep::Fetch { url, destination } => {
            assert_eq!(url, "https://h/p/s1.ts");
            assert_eq!(destination, "./1.ts");
        }
        DownloadStep::AlreadyPresent => panic!("missing destination must be fetched"),
    }
}

#[test]
fn test_rerun_performs_zero_fetches() {
    // Resumability: on a second run every destination file already
    // exists, so no job may lead to a network fetch.
    let m = three_segment_playlist();
    let jobs = build_jobs(&m);
    let mut fetches: usize = 0;
    for job in jobs.iter() {
        if let DownloadStep::Fetch { .. } = worker_step(job, true) {
            fetches += 1;
        }
    }
    assert_eq!(fetches, 0);
}

#[test]
fn test_barrier_counts_every_signal() {
    let mut p = DownloadProgress::new(3);
    assert!(!p.is_complete());
    p.record(true);
    p.record(false);
    assert!(!p.is_complete());
    p.record(true);
    assert!(p.is_complete());
    assert_eq!(p.done, 3);
    assert_eq!(p.failed, 1);
    assert!(!p.all_succeeded());
}

#[test]
fn test_barrier_all_successes() {
    let mut p = DownloadProgress::new(2);
    p.record(true);
    p.record(true);
    assert!(p.is_complete());
    assert!(p.all_succeeded());
}

#[test]
fn test_completion_order_does_not_reorder_assembly() {
    // Jobs complete in the order [2, 0, 1]; the assembled order is
    // still the playlist's own: 0, 1, 2.
    let m = three_segment_playlist();
    let jobs = build_jobs(&m);
    let completion_order = [2usize, 0, 1];
    let mut p = DownloadProgress::new(jobs.len());
    for _arrived in completion_order.iter() {
        p.record(true);
    }
    assert!(p.is_complete());
    assert!(p.all_succeeded());
    let files = ffmpeg_tool_rs::combine::assembly_file_list(jobs.len(), false, "ts");
    assert_eq!(files, vec!["0.ts", "1.ts", "2.ts"]);
    let manifest = ffmpeg_tool_rs::combine::render_file_list(&files);
    assert_eq!(manifest, "file '0.ts'\nfile '1.ts'\nfile '2.ts'\n");
}

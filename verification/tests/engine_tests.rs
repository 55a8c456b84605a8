use stest_lib::utils::compute_speed_in_mbps;
use stest_lib::{
    plan_download_requests, select_upload_sizes, sum_bytes, DownloadProgress,
    DOWNLOAD_TIME_LIMIT_SECS,
};

#[test]
fn speed_of_one_megabyte_in_one_second_is_eight_mbps() {
    // 1_000_000 bytes in 1000 ms = 8_000_000 bits per second = 8.000 Mbps,
    // reported in thousandths of a megabit per second
    assert_eq!(compute_speed_in_mbps(1_000_000, 1000), 8000);
}

#[test]
fn speed_truncates_toward_zero() {
    assert_eq!(compute_speed_in_mbps(1, 3), 2); // 8 bits / 3 ms
    assert_eq!(compute_speed_in_mbps(0, 10), 0);
}

#[test]
fn download_plan_fans_out_four_requests_per_dimension() {
    let plan = plan_download_requests(&vec![350, 500]);
    assert_eq!(plan.len(), 8);
    assert_eq!(plan[0], (350, 0));
    assert_eq!(plan[3], (350, 3));
    assert_eq!(plan[4], (500, 4));
    assert_eq!(plan[7], (500, 7));
    // every request carries a distinct cache-busting counter
    for (t, job) in plan.iter().enumerate() {
        assert_eq!(job.1, t as u64);
    }
}

#[test]
fn download_worker_stops_at_the_shared_ceiling_and_keeps_its_bytes() {
    let mut w = DownloadProgress::new();
    assert!(!w.out_of_time(DOWNLOAD_TIME_LIMIT_SECS - 1));
    assert!(w.out_of_time(DOWNLOAD_TIME_LIMIT_SECS));
    w.on_chunk(8192);
    w.on_chunk(100);
    assert_eq!(w.bytes_read, 8292);
    assert!(!w.finished);
    w.on_read_failure();
    assert!(w.finished);
    assert_eq!(w.bytes_read, 8292);
}

#[test]
fn download_worker_finishes_on_empty_chunk() {
    let mut w = DownloadProgress::new();
    w.on_chunk(500);
    w.on_chunk(0);
    assert!(w.finished);
    assert_eq!(w.bytes_read, 500);
}

#[test]
fn upload_sizes_skip_ratio_repeat_and_truncate() {
    let ladder: Vec<u64> = vec![32768, 65536, 131072, 262144, 524288, 1048576, 7340032];
    // ratio 5 skips the four smallest; 3 sizes remain; each repeats
    // (10 * 2) / 3 = 6 times; the pool of 18 is cut to 10 uploads
    let picked = select_upload_sizes(&ladder, 5, 10);
    assert_eq!(picked.len(), 10);
    assert_eq!(&picked[0..6], &[524288; 6]);
    assert_eq!(&picked[6..10], &[1048576; 4]);
}

#[test]
fn upload_sizes_with_ratio_past_the_ladder_are_empty() {
    let ladder: Vec<u64> = vec![32768, 65536];
    let picked = select_upload_sizes(&ladder, 10, 4);
    assert_eq!(picked.len(), 0);
}

#[test]
fn upload_sizes_never_exceed_max_chunk_count() {
    let ladder: Vec<u64> = vec![32768, 65536, 131072];
    // ratio 1 skips nothing; (2 * 2) / 3 = 1 round of each size, cut to 2
    let picked = select_upload_sizes(&ladder, 1, 2);
    assert!(picked.len() <= 2);
    assert_eq!(picked, vec![32768, 65536]);
}

#[test]
fn byte_totals_sum_over_all_workers() {
    assert_eq!(sum_bytes(&vec![100, 0, 8192, 8]), 8300);
    assert_eq!(sum_bytes(&Vec::new()), 0);
}

#[test]
fn byte_totals_saturate_instead_of_wrapping() {
    assert_eq!(sum_bytes(&vec![u64::MAX, 1]), u64::MAX);
}

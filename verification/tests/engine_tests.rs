use std::collections::VecDeque;
use idm_rs::config::Config;
use idm_rs::dashboard::RuntimeStats;
use idm_rs::engine::{
    backoff_delay_ms, enqueue_ranges, filename_from_path, finish_status, infer_filename, next_job,
    on_failure, pick_proxy, plan_request, probe_meta, range_header, record_written, resume_queue,
    admit_data, body_fits_range, start_stream, stream_complete, WorkQueue,
    status_after, throttle_decision, ChunkEvent, FailureAction, ProbeError, ProbeMeta, StreamProgress,
    Throttle, WorkerStep,
};
use idm_rs::models::{ChunkState, ChunkStatus, ChunkWork, TaskStatus};
use std::sync::atomic::Ordering;

fn chunk(id: i64, start: i64, end: i64, downloaded: i64, status: &str, retries: i64) -> ChunkState {
    ChunkState {
        id,
        task_id: 1,
        start_offset: start,
        end_offset: end,
        downloaded,
        status: status.to_string(),
        retries,
    }
}

fn work(chunk_id: i64, start: u64, end: u64, downloaded: u64, retries: u32) -> ChunkWork {
    ChunkWork { chunk_id, start, end, downloaded, retries }
}

#[test]
fn probe_reads_headers() {
    assert_eq!(
        probe_meta(Some("bytes"), Some("1048576")),
        Ok(ProbeMeta { length: 1048576, accept_ranges: true })
    );
    assert_eq!(probe_meta(Some("none"), Some("10")), Ok(ProbeMeta { length: 10, accept_ranges: false }));
    assert_eq!(probe_meta(None, Some("+10")), Ok(ProbeMeta { length: 10, accept_ranges: false }));
}

#[test]
fn probe_without_length_fails() {
    assert_eq!(probe_meta(Some("bytes"), None), Err(ProbeError::MissingContentLength));
    assert_eq!(probe_meta(Some("bytes"), Some("ten")), Err(ProbeError::MissingContentLength));
}

#[test]
fn enqueue_uses_chunk_size_only_with_ranges() {
    let mut cfg = Config::default();
    cfg.chunk_size_mb = 1;
    let mib = 1024 * 1024;
    let ranges = enqueue_ranges(&cfg, ProbeMeta { length: 2 * mib + 1, accept_ranges: true });
    assert_eq!(ranges, vec![(0, mib - 1), (mib, 2 * mib - 1), (2 * mib, 2 * mib)]);
    let ranges = enqueue_ranges(&cfg, ProbeMeta { length: 2 * mib + 1, accept_ranges: false });
    assert_eq!(ranges, vec![(0, 2 * mib)]);
    let ranges = enqueue_ranges(&cfg, ProbeMeta { length: 0, accept_ranges: false });
    assert!(ranges.is_empty());
}

#[test]
fn filename_from_url_path() {
    assert_eq!(infer_filename("https://example.com/files/archive.zip"), "archive.zip");
    assert_eq!(infer_filename("https://example.com/a/b/c.iso?x=1#frag"), "c.iso");
    assert_eq!(infer_filename("https://example.com/dir/"), "download.bin");
    assert_eq!(infer_filename("https://example.com"), "download.bin");
    assert_eq!(infer_filename("not a url"), "download.bin");
    assert_eq!(infer_filename("mailto:someone@example.com"), "download.bin");
    assert_eq!(infer_filename("https://example.com/my%20file.txt"), "my%20file.txt");
}

#[test]
fn filename_from_given_paths() {
    assert_eq!(filename_from_path(Some("/x/y".to_string())), "y");
    assert_eq!(filename_from_path(Some("/".to_string())), "download.bin");
    assert_eq!(filename_from_path(Some("x/y".to_string())), "download.bin");
    assert_eq!(filename_from_path(Some(String::new())), "download.bin");
    assert_eq!(filename_from_path(None), "download.bin");
}

#[test]
fn proxy_choice() {
    let proxies = vec!["http://p1:8080".to_string(), "http://p2:8080".to_string()];
    assert_eq!(pick_proxy(Some("socks5://x"), &proxies), Some("socks5://x".to_string()));
    assert_eq!(pick_proxy(None, &proxies), Some("http://p1:8080".to_string()));
    assert_eq!(pick_proxy(None, &Vec::new()), None);
}

#[test]
fn resume_skips_done_chunks() {
    let chunks = vec![
        chunk(1, 0, 9, 10, "done", 0),
        chunk(2, 10, 19, 4, "downloading", 1),
        chunk(3, 20, 24, 0, "queued", 0),
        chunk(4, 25, 29, 0, "failed", 9),
    ];
    let q = resume_queue(&chunks);
    assert_eq!(
        Vec::from(q),
        vec![work(2, 10, 19, 4, 1), work(3, 20, 24, 0, 0), work(4, 25, 29, 0, 9)]
    );
    assert!(resume_queue(&vec![chunk(1, 0, 9, 10, "done", 0)]).is_empty());
}

#[test]
fn resume_casts_like_as() {
    let q = resume_queue(&vec![chunk(7, -1, 5, 0, "queued", -1)]);
    assert_eq!(q[0], work(7, u64::MAX, 5, 0, u32::MAX));
}

#[test]
fn workers_above_target_wait() {
    let mut q = WorkQueue::new(VecDeque::from(vec![work(1, 0, 9, 0, 0), work(2, 10, 19, 0, 0)]));
    assert_eq!(next_job(3, 3, &mut q), WorkerStep::Wait);
    assert_eq!(q.pending.len(), 2);
    assert_eq!(next_job(0, 3, &mut q), WorkerStep::Run(work(1, 0, 9, 0, 0)));
    assert_eq!(next_job(2, 3, &mut q), WorkerStep::Run(work(2, 10, 19, 0, 0)));
    assert_eq!(q.in_flight, 2);
    // nothing queued, but two chunks in flight: everyone waits
    assert_eq!(next_job(2, 3, &mut q), WorkerStep::Wait);
    assert_eq!(next_job(31, 8, &mut q), WorkerStep::Wait);
    q.finish_job();
    q.finish_job();
    // nothing queued or in flight: every worker stops, whatever its number
    assert_eq!(next_job(2, 3, &mut q), WorkerStep::Finish);
    assert_eq!(next_job(3, 3, &mut q), WorkerStep::Finish);
    assert_eq!(next_job(31, 8, &mut q), WorkerStep::Finish);
}

#[test]
fn requeued_work_is_taken_by_worker_zero() {
    let mut q = WorkQueue::new(VecDeque::from(vec![work(1, 0, 9, 0, 0)]));
    assert_eq!(next_job(0, 5, &mut q), WorkerStep::Run(work(1, 0, 9, 0, 0)));
    // the target drops to one while the job fails; it comes back
    q.requeue(work(1, 0, 9, 0, 1));
    assert_eq!(q.in_flight, 0);
    assert_eq!(next_job(4, 1, &mut q), WorkerStep::Wait);
    assert_eq!(next_job(0, 1, &mut q), WorkerStep::Run(work(1, 0, 9, 0, 1)));
    q.finish_job();
    assert_eq!(next_job(4, 1, &mut q), WorkerStep::Finish);
}

#[test]
fn zero_minimum_still_lets_one_worker_run() {
    let c = idm_rs::adaptive::AdaptiveController::new(0, 0, 32);
    assert_eq!(c.target(), 1);
    for _ in 0..10 {
        c.tune(idm_rs::adaptive::LoadSignal::Congested);
    }
    assert_eq!(c.target(), 1);
    assert_eq!(idm_rs::adaptive::AdaptiveController::new(5, 0, 0).target(), 0);
}

#[test]
fn backoff_formula() {
    assert_eq!(backoff_delay_ms(0, 0), 50);
    assert_eq!(backoff_delay_ms(1, 10), 110);
    assert_eq!(backoff_delay_ms(3, 119), 519);
    assert_eq!(backoff_delay_ms(8, 0), 12800);
    assert_eq!(backoff_delay_ms(30, 5), 12805);
    assert_eq!(backoff_delay_ms(0, 1000), 1050);
}

#[test]
fn failure_retries_then_gives_up() {
    let mut job = work(1, 0, 9, 3, 0);
    for r in 1..=2u32 {
        match on_failure(&mut job, 2) {
            FailureAction::Retry { backoff_ms } => {
                let base = 50u64 << r;
                assert!(backoff_ms >= base + 10 && backoff_ms < base + 120, "{backoff_ms}");
            }
            FailureAction::GiveUp => panic!("gave up too early"),
        }
        assert_eq!(job.retries, r);
    }
    assert_eq!(on_failure(&mut job, 2), FailureAction::GiveUp);
    assert_eq!(job, work(1, 0, 9, 3, 3));
}

#[test]
fn range_header_format() {
    assert_eq!(range_header(0, 1048575), "bytes=0-1048575");
    assert_eq!(range_header(10, 10), "bytes=10-10");
}

#[test]
fn plan_request_resumes_and_picks_agent() {
    let agents = vec!["ua-1".to_string(), "ua-2".to_string()];
    let plan = plan_request(&work(1, 100, 199, 40, 0), &agents).unwrap();
    assert_eq!(plan.start, 140);
    assert_eq!(plan.range, "bytes=140-199");
    assert!(agents.contains(plan.user_agent.as_ref().unwrap()));
    let plan = plan_request(&work(1, 0, 9, 0, 0), &Vec::new()).unwrap();
    assert_eq!(plan.user_agent, None);
}

#[test]
fn plan_request_for_finished_chunk() {
    assert!(plan_request(&work(1, 100, 199, 100, 0), &Vec::new()).is_none());
    assert!(plan_request(&work(1, 100, 199, 99, 0), &Vec::new()).is_some());
}

#[test]
fn throttling_statuses() {
    assert_eq!(throttle_decision(200, Some("5")), Throttle::Proceed);
    assert_eq!(throttle_decision(429, Some("5")), Throttle::Throttled { wait_secs: Some(5) });
    assert_eq!(throttle_decision(503, None), Throttle::Throttled { wait_secs: None });
    assert_eq!(
        throttle_decision(503, Some("Wed, 21 Oct 2015 07:28:00 GMT")),
        Throttle::Throttled { wait_secs: None }
    );
}

#[test]
fn stream_accounting_flushes_after_a_mebibyte() {
    let stats = RuntimeStats::default();
    let mut job = work(1, 1000, 5_000_000, 0, 0);
    let mut p = start_stream(&job);
    assert_eq!(p, StreamProgress { offset: 1000, dirty: 0, saved: 0 });
    assert_eq!(record_written(&mut job, &mut p, &stats, 1024 * 1024), None);
    assert_eq!(p, StreamProgress { offset: 1000 + 1024 * 1024, dirty: 1024 * 1024, saved: 0 });
    assert_eq!(record_written(&mut job, &mut p, &stats, 1), Some(1024 * 1024 + 1));
    assert_eq!(p.dirty, 0);
    assert_eq!(p.saved, 1024 * 1024 + 1);
    assert_eq!(job.downloaded, 1024 * 1024 + 1);
    assert_eq!(p.offset, job.start + job.downloaded);
    assert_eq!(stats.downloaded_bytes.load(Ordering::Relaxed), 1024 * 1024 + 1);
}

#[test]
fn bytes_past_the_range_are_dropped() {
    let stats = RuntimeStats::default();
    let mut job = work(1, 100, 109, 4, 0);
    let mut p = start_stream(&job);
    assert_eq!(p.offset, 104);
    // six bytes remain in the range; a body of 50 is cut to them
    let n = admit_data(&job, &p, 50);
    assert_eq!(n, 6);
    assert_eq!(record_written(&mut job, &mut p, &stats, n), None);
    assert_eq!(job.downloaded, 10);
    assert!(stream_complete(&job));
    assert_eq!(admit_data(&job, &p, 7), 0);
    assert!(job.downloaded <= job.end - job.start + 1);
}

#[test]
fn partial_bodies_are_kept_in_range() {
    let job = work(1, 0, 9, 0, 0);
    let p = start_stream(&job);
    assert_eq!(admit_data(&job, &p, 3), 3);
    assert!(!stream_complete(&job));
    let last = work(1, 0, u64::MAX - 1, 0, 0);
    let p = start_stream(&last);
    assert_eq!(admit_data(&last, &p, usize::MAX), usize::MAX);
}

#[test]
fn which_bodies_fit_a_range() {
    assert!(body_fits_range(206, 500));
    assert!(body_fits_range(206, 0));
    assert!(body_fits_range(200, 0));
    assert!(!body_fits_range(200, 500));
    assert!(!body_fits_range(204, 0));
}

#[test]
fn runtime_stats_counters() {
    let stats = RuntimeStats::default();
    let shared = stats.clone();
    shared.inc_error();
    shared.add_bytes(7);
    assert_eq!(stats.errors.load(Ordering::Relaxed), 1);
    assert_eq!(stats.downloaded_bytes.load(Ordering::Relaxed), 7);
}

#[test]
fn task_outcome() {
    assert_eq!(finish_status(0), TaskStatus::Completed);
    assert_eq!(finish_status(3), TaskStatus::Failed);
}

#[test]
fn backoff_never_shrinks_and_is_capped() {
    let mut prev = 0;
    for r in 0..40u32 {
        let d = backoff_delay_ms(r, 0);
        assert!(d >= prev);
        assert!(d >= 50 && d <= 12800);
        prev = d;
    }
    assert_eq!(backoff_delay_ms(u32::MAX, 0), 12800);
}

#[test]
fn inferred_names_are_single_components() {
    for u in ["https://h/a/b/c", "https://h/", "https://h/a//", "ftp://h/x.tar.gz", "data:text/plain,hi"] {
        let name = infer_filename(u);
        assert!(!name.is_empty());
        assert!(!name.contains('/'), "{u} -> {name}");
    }
}

#[test]
fn stored_chunk_status_at_each_point() {
    use_status_after();
}

fn use_status_after() {
    assert_eq!(status_after(ChunkEvent::NothingLeft), ChunkStatus::Done);
    assert_eq!(status_after(ChunkEvent::StreamStarted), ChunkStatus::Downloading);
    assert_eq!(status_after(ChunkEvent::ProgressFlushed), ChunkStatus::Downloading);
    assert_eq!(status_after(ChunkEvent::StreamEnded), ChunkStatus::Done);
    assert_eq!(status_after(ChunkEvent::RetryScheduled), ChunkStatus::Queued);
    assert_eq!(status_after(ChunkEvent::RetriesSpent), ChunkStatus::Failed);
}

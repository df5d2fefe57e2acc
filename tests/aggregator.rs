use daphne::aggregator::Aggregator;
use daphne::messages::{
    BatchId, CollectError, CollectionReq, Extension, Interval, PollResult, ProcessLimits, Query,
    QueryType, Report, ReportId, ResolvedBatch, TaskConfig, TaskId, Telemetry, UploadError,
};
use daphne::taskprov::{compute_task_id, parse_taskprov};

const MIN_BATCH_SIZE: u64 = 10;
const TIME_PRECISION: u64 = 3600;
const NOW: u64 = 1_700_000_000 - 1_700_000_000 % TIME_PRECISION;

fn task_id(n: u8) -> TaskId {
    TaskId([n; 32])
}

fn report_id(n: u64) -> ReportId {
    let mut b = [0u8; 16];
    b[..8].copy_from_slice(&n.to_be_bytes());
    ReportId(b)
}

fn report(n: u64, time: u64, share: u64) -> Report {
    Report { id: report_id(n), time, share, extensions: Vec::new() }
}

fn config(query_type: QueryType) -> TaskConfig {
    TaskConfig {
        query_type,
        time_precision: TIME_PRECISION,
        min_batch_size: MIN_BATCH_SIZE,
        max_batch_query_count: 1,
        max_batch_duration: 24 * TIME_PRECISION,
        expiration: NOW + 86400,
    }
}

fn aggregator(query_type: QueryType) -> (Aggregator, TaskId) {
    let mut agg = Aggregator::new(24 * TIME_PRECISION);
    let id = task_id(1);
    assert!(agg.add_task(id, config(query_type)));
    (agg, id)
}

fn batch_interval() -> Interval {
    Interval { start: NOW, duration: 2 * TIME_PRECISION }
}

fn collect_req(query: Query) -> CollectionReq {
    CollectionReq { query, agg_param: Vec::new() }
}

fn limits(max_jobs: u64, max_reports: u64) -> ProcessLimits {
    ProcessLimits { max_jobs, max_reports }
}

fn telemetry(p: u64, c: u64) -> Telemetry {
    Telemetry { reports_processed: p, reports_aggregated: p, reports_collected: c }
}

struct TaskprovConfig {
    task_info: Vec<u8>,
    endpoints: Vec<Vec<u8>>,
    time_precision: u64,
    max_batch_query_count: u16,
    min_batch_size: u32,
    fixed_size_max: Option<u32>,
    task_expiration: u64,
}

fn encode_taskprov(c: &TaskprovConfig) -> Vec<u8> {
    let mut out = vec![c.task_info.len() as u8];
    out.extend_from_slice(&c.task_info);
    let mut urls = Vec::new();
    for e in &c.endpoints {
        urls.extend_from_slice(&(e.len() as u16).to_be_bytes());
        urls.extend_from_slice(e);
    }
    out.extend_from_slice(&(urls.len() as u16).to_be_bytes());
    out.extend_from_slice(&urls);
    out.extend_from_slice(&c.time_precision.to_be_bytes());
    out.extend_from_slice(&c.max_batch_query_count.to_be_bytes());
    out.extend_from_slice(&c.min_batch_size.to_be_bytes());
    match c.fixed_size_max {
        None => out.push(1),
        Some(m) => {
            out.push(2);
            out.extend_from_slice(&m.to_be_bytes());
        }
    }
    out.extend_from_slice(&c.task_expiration.to_be_bytes());
    // VDAF configuration: no differential privacy, Prio3 count.
    out.extend_from_slice(&[0, 1, 0, 0, 0, 0]);
    out
}

fn taskprov_config() -> TaskprovConfig {
    TaskprovConfig {
        task_info: "Hi".as_bytes().to_vec(),
        endpoints: vec!["https://test1".as_bytes().to_vec(), "https://test2".as_bytes().to_vec()],
        time_precision: 0x01,
        max_batch_query_count: 128,
        min_batch_size: 1024,
        fixed_size_max: Some(2048),
        task_expiration: NOW + 86400,
    }
}

#[test]
fn e2e_leader_upload_taskprov() {
    let mut agg = Aggregator::new(24 * TIME_PRECISION);
    let path = "upload";

    // A report with a taskprov extension.
    let taskprov_task_config = taskprov_config();
    let payload = encode_taskprov(&taskprov_task_config);
    let id = compute_task_id(&payload);
    let mut r = report(1, NOW, 23);
    r.extensions = vec![Extension::Taskprov { payload }];
    assert_eq!(agg.upload(&id, &r), Ok(()), "{path}");

    // The same extension, uploaded under the id of a corrupted payload.
    let payload = encode_taskprov(&taskprov_task_config);
    let mut bad_payload = payload.clone();
    bad_payload[0] = u8::wrapping_add(bad_payload[0], 1);
    let bad_id = compute_task_id(&bad_payload);
    let mut r = report(2, NOW, 23);
    r.extensions = vec![Extension::Taskprov { payload }];
    let res = agg.upload(&bad_id, &r);
    assert_eq!(res, Err(UploadError::UnrecognizedTask));
    assert_eq!(res.unwrap_err().code(), "unrecognizedTask");

    // Two copies of the taskprov extension.
    let payload = encode_taskprov(&taskprov_task_config);
    let id = compute_task_id(&payload);
    let mut r = report(3, NOW, 23);
    r.extensions = vec![Extension::Taskprov { payload: payload.clone() }, Extension::Taskprov { payload }];
    let res = agg.upload(&id, &r);
    assert_eq!(res, Err(UploadError::UnrecognizedMessage));
    assert_eq!(res.unwrap_err().code(), "unrecognizedMessage");

    // A taskprov configuration with only one endpoint, which is an error.
    let mut taskprov_task_config = taskprov_config();
    taskprov_task_config.endpoints = vec!["https://test1".as_bytes().to_vec()];
    let payload = encode_taskprov(&taskprov_task_config);
    let task_id = compute_task_id(&payload);
    let mut r = report(4, NOW, 23);
    r.extensions = vec![Extension::Taskprov { payload }];
    let res = agg.upload(&task_id, &r);
    assert_eq!(res, Err(UploadError::InvalidTask));
    assert_eq!(res.unwrap_err().code(), "invalidTask");
}

#[test]
fn taskprov_invalid_task_is_refused() {
    let mut agg = Aggregator::new(24 * TIME_PRECISION);
    let mut c = taskprov_config();
    c.endpoints.push("https://test3".as_bytes().to_vec());
    let payload = encode_taskprov(&c);
    let id = compute_task_id(&payload);
    let mut r = report(1, NOW, 23);
    r.extensions = vec![Extension::Taskprov { payload }];
    let res = agg.upload(&id, &r);
    assert_eq!(res, Err(UploadError::InvalidTask));
    assert_eq!(res.unwrap_err().code(), "invalidTask");
}

#[test]
fn taskprov_parse_reads_every_field() {
    let payload = encode_taskprov(&taskprov_config());
    let f = parse_taskprov(&payload).unwrap();
    assert_eq!(f.endpoint_count, 2);
    assert_eq!(f.query_type, QueryType::FixedSize);
    assert_eq!(f.time_precision, 1);
    assert_eq!(f.max_batch_query_count, 128);
    assert_eq!(f.min_batch_size, 1024);
    assert_eq!(f.max_batch_size, 2048);
    assert_eq!(f.expiration, NOW + 86400);

    let mut c = taskprov_config();
    c.fixed_size_max = None;
    let f = parse_taskprov(&encode_taskprov(&c)).unwrap();
    assert_eq!(f.query_type, QueryType::TimeInterval);
    assert_eq!(f.max_batch_size, 0);

    // Truncated inside the endpoint list.
    assert_eq!(parse_taskprov(&payload[..10]), None);
    assert_eq!(parse_taskprov(&[]), None);
}

#[test]
fn taskprov_task_id_is_sha256_of_payload() {
    let id = compute_task_id(b"abc");
    let want: [u8; 32] = [
        0xba, 0x78, 0x16, 0xbf, 0x8f, 0x01, 0xcf, 0xea, 0x41, 0x41, 0x40, 0xde, 0x5d, 0xae, 0x22, 0x23,
        0xb0, 0x03, 0x61, 0xa3, 0x96, 0x17, 0x7a, 0x9c, 0xb4, 0x10, 0xff, 0x61, 0xf2, 0x00, 0x15, 0xad,
    ];
    assert_eq!(id, TaskId(want));
}

#[test]
fn taskprov_same_payload_same_id_corrupted_differs() {
    let payload = encode_taskprov(&taskprov_config());
    let a = compute_task_id(&payload);
    let b = compute_task_id(&payload.clone());
    assert_eq!(a, b);
    let mut bad = payload.clone();
    bad[0] = bad[0].wrapping_add(1);
    assert_ne!(compute_task_id(&bad), a);
}

#[test]
fn upload_replay_is_rejected() {
    let (mut agg, id) = aggregator(QueryType::TimeInterval);
    assert_eq!(agg.upload(&id, &report(7, NOW, 1)), Ok(()));
    let res = agg.upload(&id, &report(7, NOW + 5, 1));
    assert_eq!(res, Err(UploadError::ReportRejected));
    assert_eq!(res.unwrap_err().code(), "reportRejected");
}

#[test]
fn upload_past_expiration_is_too_late() {
    let (mut agg, id) = aggregator(QueryType::TimeInterval);
    let res = agg.upload(&id, &report(1, NOW + 86400 + 1, 1));
    assert_eq!(res, Err(UploadError::ReportTooLate));
    assert_eq!(res.unwrap_err().code(), "reportTooLate");
    // Exactly at the expiration is still accepted.
    assert_eq!(agg.upload(&id, &report(1, NOW + 86400, 1)), Ok(()));
}

#[test]
fn upload_unknown_task_is_unrecognized() {
    let (mut agg, _) = aggregator(QueryType::TimeInterval);
    assert_eq!(agg.upload(&task_id(9), &report(1, NOW, 1)), Err(UploadError::UnrecognizedTask));
}

#[test]
fn add_task_twice_is_refused() {
    let (mut agg, id) = aggregator(QueryType::TimeInterval);
    assert!(!agg.add_task(id, config(QueryType::FixedSize)));
}

#[test]
fn process_drains_then_is_idempotent() {
    let (mut agg, id) = aggregator(QueryType::TimeInterval);
    let lim = limits(100, MIN_BATCH_SIZE);
    for i in 0..MIN_BATCH_SIZE + 3 {
        let t = NOW + (i * 997) % (2 * TIME_PRECISION);
        assert_eq!(agg.upload(&id, &report(i, t, 1)), Ok(()));
    }
    assert_eq!(agg.process(&id, lim), Some(telemetry(MIN_BATCH_SIZE + 3, 0)));
    assert_eq!(agg.process(&id, lim), Some(telemetry(0, 0)));
    assert_eq!(agg.process(&id, limits(1, 1)), Some(telemetry(0, 0)));
}

#[test]
fn process_unknown_task_is_none() {
    let (mut agg, _) = aggregator(QueryType::TimeInterval);
    assert_eq!(agg.process(&task_id(9), limits(1, 1)), None);
}

#[test]
fn process_time_interval_respects_limits() {
    let (mut agg, id) = aggregator(QueryType::TimeInterval);
    // Three reports in the first slice, two in the second, one in the third.
    let times = [NOW, NOW + 1, NOW + 2, NOW + TIME_PRECISION, NOW + TIME_PRECISION + 1, NOW + 2 * TIME_PRECISION];
    for (i, t) in times.iter().enumerate() {
        assert_eq!(agg.upload(&id, &report(i as u64, *t, 1)), Ok(()));
    }
    // Two jobs of at most two reports: two from the first slice, two from the second.
    assert_eq!(agg.process(&id, limits(2, 2)), Some(telemetry(4, 0)));
    // The first slice has one left, the third slice one.
    assert_eq!(agg.process(&id, limits(2, 2)), Some(telemetry(2, 0)));
    assert_eq!(agg.process(&id, limits(2, 2)), Some(telemetry(0, 0)));
}

#[test]
fn process_min_agg_rate_time_interval() {
    let (mut agg, id) = aggregator(QueryType::TimeInterval);
    for i in 0..7u64 {
        let t = NOW + (i * 1231) % (2 * TIME_PRECISION);
        assert_eq!(agg.upload(&id, &report(i, t, 1)), Ok(()));
    }
    for _ in 0..7 {
        assert_eq!(agg.process(&id, limits(1, 1)).unwrap().reports_processed, 1);
    }
    assert_eq!(agg.process(&id, limits(1, 1)).unwrap().reports_processed, 0);
}

#[test]
fn process_min_agg_rate_fixed_size() {
    let (mut agg, id) = aggregator(QueryType::FixedSize);
    for i in 0..7u64 {
        assert_eq!(agg.upload(&id, &report(i, NOW, 1)), Ok(()));
    }
    for _ in 0..7 {
        assert_eq!(agg.process(&id, limits(1, 1)), Some(telemetry(1, 0)));
    }
    assert_eq!(agg.process(&id, limits(1, 1)), Some(telemetry(0, 0)));
}

#[test]
fn process_zero_limits_aggregate_nothing() {
    let (mut agg, id) = aggregator(QueryType::FixedSize);
    assert_eq!(agg.upload(&id, &report(1, NOW, 1)), Ok(()));
    assert_eq!(agg.process(&id, limits(0, 5)), Some(telemetry(0, 0)));
    assert_eq!(agg.process(&id, limits(5, 0)), Some(telemetry(0, 0)));
    assert_eq!(agg.process(&id, limits(5, 5)), Some(telemetry(1, 0)));
}

#[test]
fn leader_collect_ok() {
    let (mut agg, id) = aggregator(QueryType::TimeInterval);
    let n = MIN_BATCH_SIZE;
    for i in 0..n {
        let t = NOW + (i * 1777) % (2 * TIME_PRECISION);
        assert_eq!(agg.upload(&id, &report(i, t, 1)), Ok(()));
    }
    let req = collect_req(Query::TimeInterval { batch_interval: batch_interval() });
    let job = agg.submit_collect(&id, &req).unwrap();
    assert_eq!(agg.poll(&id, job), Ok(PollResult::Pending));
    assert_eq!(agg.process(&id, limits(100, 100)), Some(telemetry(n, n)));
    let res = agg.poll(&id, job).unwrap();
    match res {
        PollResult::Ready(c) => {
            assert_eq!(c.report_count, n);
            assert_eq!(c.agg_share, n);
            assert_eq!(c.batch, ResolvedBatch::Slices { lo: NOW / TIME_PRECISION, hi: NOW / TIME_PRECISION + 2 });
        }
        PollResult::Pending => panic!("collection not ready"),
    }
    // Polling again returns the very same result.
    assert_eq!(agg.poll(&id, job), Ok(res));
    assert_eq!(agg.process(&id, limits(100, 100)), Some(telemetry(0, 0)));
    assert_eq!(agg.poll(&id, job), Ok(res));
}

#[test]
fn leader_collect_interleaved_upload_then_process_then_submit() {
    let (mut agg, id) = aggregator(QueryType::TimeInterval);
    let n = MIN_BATCH_SIZE;
    for i in 0..n {
        assert_eq!(agg.upload(&id, &report(i, NOW + i, 2)), Ok(()));
    }
    assert_eq!(agg.process(&id, limits(100, 100)), Some(telemetry(n, 0)));
    let req = collect_req(Query::TimeInterval { batch_interval: batch_interval() });
    let job = agg.submit_collect(&id, &req).unwrap();
    assert_eq!(agg.poll(&id, job), Ok(PollResult::Pending));
    assert_eq!(agg.process(&id, limits(100, 100)), Some(telemetry(0, n)));
    match agg.poll(&id, job).unwrap() {
        PollResult::Ready(c) => {
            assert_eq!(c.report_count, n);
            assert_eq!(c.agg_share, 2 * n);
        }
        PollResult::Pending => panic!("collection not ready"),
    }
}

#[test]
fn leader_collect_not_ready_below_min_batch_size() {
    let (mut agg, id) = aggregator(QueryType::TimeInterval);
    for i in 0..MIN_BATCH_SIZE - 1 {
        assert_eq!(agg.upload(&id, &report(i, NOW, 1)), Ok(()));
    }
    let req = collect_req(Query::TimeInterval { batch_interval: batch_interval() });
    let job = agg.submit_collect(&id, &req).unwrap();
    assert_eq!(agg.process(&id, limits(100, 100)), Some(telemetry(MIN_BATCH_SIZE - 1, 0)));
    assert_eq!(agg.poll(&id, job), Ok(PollResult::Pending));
}

#[test]
fn leader_collect_waits_for_pending_reports() {
    let (mut agg, id) = aggregator(QueryType::TimeInterval);
    for i in 0..MIN_BATCH_SIZE + 1 {
        assert_eq!(agg.upload(&id, &report(i, NOW, 1)), Ok(()));
    }
    let req = collect_req(Query::TimeInterval { batch_interval: batch_interval() });
    let job = agg.submit_collect(&id, &req).unwrap();
    // One report stays waiting in the slice: the job may not complete yet.
    assert_eq!(agg.process(&id, limits(1, MIN_BATCH_SIZE)), Some(telemetry(MIN_BATCH_SIZE, 0)));
    assert_eq!(agg.poll(&id, job), Ok(PollResult::Pending));
    assert_eq!(agg.process(&id, limits(1, MIN_BATCH_SIZE)), Some(telemetry(1, MIN_BATCH_SIZE + 1)));
}

#[test]
fn collect_same_request_same_job() {
    let (mut agg, id) = aggregator(QueryType::TimeInterval);
    let req = collect_req(Query::TimeInterval { batch_interval: batch_interval() });
    let a = agg.submit_collect(&id, &req).unwrap();
    let b = agg.submit_collect(&id, &req.clone()).unwrap();
    assert_eq!(a, b);
}

#[test]
fn collect_abort_overlapping_batch_interval() {
    let (mut agg, id) = aggregator(QueryType::TimeInterval);
    for i in 0..MIN_BATCH_SIZE {
        assert_eq!(agg.upload(&id, &report(i, NOW + i, 1)), Ok(()));
    }
    let req = collect_req(Query::TimeInterval { batch_interval: batch_interval() });
    assert!(agg.submit_collect(&id, &req).is_ok());
    assert_eq!(agg.process(&id, limits(100, 100)), Some(telemetry(MIN_BATCH_SIZE, MIN_BATCH_SIZE)));

    // A different interval that shares a slice.
    let overlapping = collect_req(Query::TimeInterval {
        batch_interval: Interval { start: NOW + TIME_PRECISION, duration: 2 * TIME_PRECISION },
    });
    let res = agg.submit_collect(&id, &overlapping);
    assert_eq!(res, Err(CollectError::BatchOverlap));
    assert_eq!(res.unwrap_err().code(), "batchOverlap");

    // The same interval with another aggregation parameter.
    let mut other_param = req.clone();
    other_param.agg_param = vec![1];
    assert_eq!(agg.submit_collect(&id, &other_param), Err(CollectError::BatchOverlap));

    // An adjacent interval does not overlap.
    let adjacent = collect_req(Query::TimeInterval {
        batch_interval: Interval { start: NOW + 2 * TIME_PRECISION, duration: TIME_PRECISION },
    });
    assert!(agg.submit_collect(&id, &adjacent).is_ok());
}

#[test]
fn collect_abort_invalid_batch_interval() {
    let (mut agg, id) = aggregator(QueryType::TimeInterval);
    let bi = batch_interval();
    let start_misaligned = collect_req(Query::TimeInterval {
        batch_interval: Interval { start: bi.start + 1, duration: bi.duration },
    });
    let res = agg.submit_collect(&id, &start_misaligned);
    assert_eq!(res, Err(CollectError::BatchInvalid));
    assert_eq!(res.unwrap_err().code(), "batchInvalid");
    let duration_misaligned = collect_req(Query::TimeInterval {
        batch_interval: Interval { start: bi.start, duration: bi.duration - 1 },
    });
    assert_eq!(agg.submit_collect(&id, &duration_misaligned), Err(CollectError::BatchInvalid));
    let too_long = collect_req(Query::TimeInterval {
        batch_interval: Interval { start: bi.start, duration: 25 * TIME_PRECISION },
    });
    assert_eq!(agg.submit_collect(&id, &too_long), Err(CollectError::BatchInvalid));
    // Exactly the longest duration is accepted.
    let longest = collect_req(Query::TimeInterval {
        batch_interval: Interval { start: bi.start, duration: 24 * TIME_PRECISION },
    });
    assert!(agg.submit_collect(&id, &longest).is_ok());
    // A fixed-size query does not fit a time-interval task.
    assert_eq!(agg.submit_collect(&id, &collect_req(Query::FixedSizeCurrentBatch)), Err(CollectError::BatchInvalid));
}

#[test]
fn collect_unknown_task_and_job() {
    let (mut agg, id) = aggregator(QueryType::TimeInterval);
    let req = collect_req(Query::TimeInterval { batch_interval: batch_interval() });
    assert_eq!(agg.submit_collect(&task_id(9), &req), Err(CollectError::UnrecognizedTask));
    let job = agg.submit_collect(&id, &req).unwrap();
    let unknown = daphne::messages::CollectionJobId(job.0 + 1);
    let res = agg.poll(&id, unknown);
    assert_eq!(res, Err(CollectError::UnrecognizedCollectJob));
    assert_eq!(res.unwrap_err().code(), "unrecognizedCollectJob");
    assert_eq!(agg.poll(&task_id(9), job), Err(CollectError::UnrecognizedTask));
}

fn fixed_size(use_current: bool) {
    let (mut agg, id) = aggregator(QueryType::FixedSize);
    let lim = limits(100, 100);
    let n = MIN_BATCH_SIZE;
    for i in 0..n {
        assert_eq!(agg.upload(&id, &report(i, NOW, 1)), Ok(()));
    }
    assert_eq!(agg.process(&id, lim), Some(telemetry(n, 0)));
    let batch_id = agg.current_batch(&id).unwrap();
    let query = if use_current {
        Query::FixedSizeCurrentBatch
    } else {
        Query::FixedSizeByBatchId { batch_id }
    };
    let job = agg.submit_collect(&id, &collect_req(query)).unwrap();
    assert_eq!(agg.poll(&id, job), Ok(PollResult::Pending));
    assert_eq!(agg.process(&id, lim), Some(telemetry(0, n)));
    let res = agg.poll(&id, job).unwrap();
    match res {
        PollResult::Ready(c) => {
            assert_eq!(c.report_count, n);
            assert_eq!(c.agg_share, n);
            assert_eq!(c.batch, ResolvedBatch::Batch { id: batch_id });
        }
        PollResult::Pending => panic!("collection not ready"),
    }
    assert_eq!(agg.poll(&id, job), Ok(res));

    for i in n..n + 2 {
        assert_eq!(agg.upload(&id, &report(i, NOW, 1)), Ok(()));
    }
    assert_eq!(agg.process(&id, lim), Some(telemetry(2, 0)));
    let prev_batch_id = batch_id;
    let batch_id = agg.current_batch(&id).unwrap();
    assert_ne!(batch_id, prev_batch_id);
    let stale = collect_req(Query::FixedSizeByBatchId { batch_id: prev_batch_id });
    assert_eq!(agg.submit_collect(&id, &stale), Err(CollectError::BatchOverlap));
}

#[test]
fn fixed_size_by_batch_id() {
    fixed_size(false);
}

#[test]
fn fixed_size_current_batch() {
    fixed_size(true);
}

#[test]
fn fixed_size_batches_close_at_min_batch_size() {
    let (mut agg, id) = aggregator(QueryType::FixedSize);
    for i in 0..2 * MIN_BATCH_SIZE + 3 {
        assert_eq!(agg.upload(&id, &report(i, NOW, 1)), Ok(()));
    }
    assert_eq!(agg.process(&id, limits(100, 100)), Some(telemetry(2 * MIN_BATCH_SIZE + 3, 0)));
    assert_eq!(agg.current_batch(&id), Some(BatchId(0)));
    let first = agg.submit_collect(&id, &collect_req(Query::FixedSizeByBatchId { batch_id: BatchId(0) })).unwrap();
    let second = agg.submit_collect(&id, &collect_req(Query::FixedSizeByBatchId { batch_id: BatchId(1) })).unwrap();
    let third = agg.submit_collect(&id, &collect_req(Query::FixedSizeByBatchId { batch_id: BatchId(2) })).unwrap();
    assert_eq!(agg.process(&id, limits(100, 100)), Some(telemetry(0, 2 * MIN_BATCH_SIZE)));
    assert!(matches!(agg.poll(&id, first), Ok(PollResult::Ready(_))));
    assert!(matches!(agg.poll(&id, second), Ok(PollResult::Ready(_))));
    assert_eq!(agg.poll(&id, third), Ok(PollResult::Pending));
    assert_eq!(agg.current_batch(&id), Some(BatchId(2)));
    // A batch that does not exist cannot be collected.
    let missing = collect_req(Query::FixedSizeByBatchId { batch_id: BatchId(7) });
    assert_eq!(agg.submit_collect(&id, &missing), Err(CollectError::BatchOverlap));
}

#[test]
fn fixed_size_no_current_batch_is_invalid() {
    let (mut agg, id) = aggregator(QueryType::FixedSize);
    assert_eq!(agg.current_batch(&id), None);
    assert_eq!(agg.submit_collect(&id, &collect_req(Query::FixedSizeCurrentBatch)), Err(CollectError::BatchInvalid));
    let ti = collect_req(Query::TimeInterval { batch_interval: batch_interval() });
    assert_eq!(agg.submit_collect(&id, &ti), Err(CollectError::BatchInvalid));
}

#[test]
fn shares_add_modulo_two_to_the_64() {
    let (mut agg, id) = aggregator(QueryType::FixedSize);
    for i in 0..MIN_BATCH_SIZE {
        let share = if i == 0 { u64::MAX } else { 1 };
        assert_eq!(agg.upload(&id, &report(i, NOW, share)), Ok(()));
    }
    let job = agg.submit_collect(&id, &collect_req(Query::FixedSizeCurrentBatch));
    assert_eq!(job, Err(CollectError::BatchInvalid));
    assert_eq!(agg.process(&id, limits(1, 100)), Some(telemetry(MIN_BATCH_SIZE, 0)));
    let job = agg.submit_collect(&id, &collect_req(Query::FixedSizeCurrentBatch)).unwrap();
    assert_eq!(agg.process(&id, limits(1, 100)), Some(telemetry(0, MIN_BATCH_SIZE)));
    match agg.poll(&id, job).unwrap() {
        PollResult::Ready(c) => assert_eq!(c.agg_share, MIN_BATCH_SIZE - 2),
        PollResult::Pending => panic!("collection not ready"),
    }
}

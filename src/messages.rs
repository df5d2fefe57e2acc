//! Identifiers, reports, queries and results exchanged with clients and
//! collectors.

use vstd::prelude::*;

verus! {

/// A task identifier: 32 opaque bytes.
#[derive(Clone, Copy, Debug, PartialEq, Eq, Hash)]
pub struct TaskId(pub [u8; 32]);

/// A report identifier: 16 opaque bytes, unique within a task.
#[derive(Clone, Copy, Debug, PartialEq, Eq, Hash)]
pub struct ReportId(pub [u8; 16]);

/// A fixed-size batch identifier, assigned by the Aggregator in the order in
/// which batches are opened.
#[derive(Clone, Copy, Debug, PartialEq, Eq, Hash, Structural)]
pub struct BatchId(pub u64);

/// How a task's reports are grouped into batches.
#[derive(Clone, Copy, Debug, PartialEq, Eq, Structural)]
pub enum QueryType {
    /// Batches are unions of time slices of width `time_precision`.
    TimeInterval,
    /// Batches are filled to the minimum batch size in order of aggregation.
    FixedSize,
}

/// The parameters of a task that govern its batches.
#[derive(Clone, Copy, Debug, PartialEq, Eq, Structural)]
pub struct TaskConfig {
    pub query_type: QueryType,
    /// The width of a time slice, in seconds.
    pub time_precision: u64,
    /// The number of reports a batch needs before it can be collected.
    pub min_batch_size: u64,
    /// How many times a batch may be collected. Collection jobs never share
    /// a bucket, so each bucket is collected at most once.
    pub max_batch_query_count: u64,
    /// The longest batch interval a collector may ask for.
    pub max_batch_duration: u64,
    /// Reports with a later timestamp are refused.
    pub expiration: u64,
}

/// A report extension.
#[derive(Clone, Debug)]
pub enum Extension {
    /// The encoded configuration of a task provisioned on the fly.
    Taskprov { payload: Vec<u8> },
    /// Any other extension, carried but not interpreted.
    Unhandled { typ: u16, payload: Vec<u8> },
}

/// A client report as this Aggregator sees it once decrypted: its input
/// share is an additive share of the measurement modulo 2^64.
#[derive(Clone, Debug)]
pub struct Report {
    pub id: ReportId,
    pub time: u64,
    pub share: u64,
    pub extensions: Vec<Extension>,
}

/// A time interval `[start, start + duration)`.
#[derive(Clone, Copy, Debug, PartialEq, Eq, Structural)]
pub struct Interval {
    pub start: u64,
    pub duration: u64,
}

/// What a collector asks to be aggregated.
#[derive(Clone, Copy, Debug, PartialEq, Eq, Structural)]
pub enum Query {
    TimeInterval { batch_interval: Interval },
    FixedSizeByBatchId { batch_id: BatchId },
    FixedSizeCurrentBatch,
}

/// A collect request: a query and an aggregation parameter.
#[derive(Clone, Debug)]
pub struct CollectionReq {
    pub query: Query,
    pub agg_param: Vec<u8>,
}

/// The handle of a collection job.
#[derive(Clone, Copy, Debug, PartialEq, Eq, Hash, Structural)]
pub struct CollectionJobId(pub u64);

/// The result of a collection job: how many reports it covers, this
/// Aggregator's aggregate share of them, and the batch it covers.
#[derive(Clone, Copy, Debug, PartialEq, Eq, Structural)]
pub struct Collection {
    pub report_count: u64,
    pub agg_share: u64,
    pub batch: ResolvedBatch,
}

/// The buckets a collection job covers: a range of time slices, by index, or
/// one fixed-size batch.
#[derive(Clone, Copy, Debug, PartialEq, Eq, Structural)]
pub enum ResolvedBatch {
    /// Time slices `lo <= k < hi`.
    Slices { lo: u64, hi: u64 },
    Batch { id: BatchId },
}

/// Why an upload was refused.
#[derive(Clone, Copy, Debug, PartialEq, Eq, Structural)]
pub enum UploadError {
    /// A report with this id was accepted before.
    ReportRejected,
    /// The task is neither registered nor derivable from the report.
    UnrecognizedTask,
    /// The report's taskprov extensions do not fit the task.
    UnrecognizedMessage,
    /// The report's timestamp is past the task's expiration.
    ReportTooLate,
    /// The taskprov configuration is not a valid task.
    InvalidTask,
}

/// The machine-readable code of an upload error.
pub open spec fn upload_error_code(e: UploadError) -> Seq<char> {
    match e {
        UploadError::ReportRejected => "reportRejected"@,
        UploadError::UnrecognizedTask => "unrecognizedTask"@,
        UploadError::UnrecognizedMessage => "unrecognizedMessage"@,
        UploadError::ReportTooLate => "reportTooLate"@,
        UploadError::InvalidTask => "invalidTask"@,
    }
}

/// The machine-readable code of a collect error.
pub open spec fn collect_error_code(e: CollectError) -> Seq<char> {
    match e {
        CollectError::BatchInvalid => "batchInvalid"@,
        CollectError::BatchOverlap => "batchOverlap"@,
        CollectError::UnrecognizedCollectJob => "unrecognizedCollectJob"@,
        CollectError::UnrecognizedTask => "unrecognizedTask"@,
    }
}

impl UploadError {
    /// The machine-readable code sent to the client.
    pub fn code(&self) -> (r: &'static str)
        ensures
            r@ == upload_error_code(*self),
    {
        proof {
            reveal_strlit("reportRejected");
            reveal_strlit("unrecognizedTask");
            reveal_strlit("unrecognizedMessage");
            reveal_strlit("reportTooLate");
            reveal_strlit("invalidTask");
        }
        match self {
            UploadError::ReportRejected => "reportRejected",
            UploadError::UnrecognizedTask => "unrecognizedTask",
            UploadError::UnrecognizedMessage => "unrecognizedMessage",
            UploadError::ReportTooLate => "reportTooLate",
            UploadError::InvalidTask => "invalidTask",
        }
    }
}

/// Why a collect request or poll was refused.
#[derive(Clone, Copy, Debug, PartialEq, Eq, Structural)]
pub enum CollectError {
    /// The batch bounds are not valid for the task.
    BatchInvalid,
    /// The batch overlaps one collected or being collected.
    BatchOverlap,
    /// No collection job has this handle.
    UnrecognizedCollectJob,
    /// The task is not registered.
    UnrecognizedTask,
}

impl CollectError {
    /// The machine-readable code sent to the collector.
    pub fn code(&self) -> (r: &'static str)
        ensures
            r@ == collect_error_code(*self),
    {
        proof {
            reveal_strlit("batchInvalid");
            reveal_strlit("batchOverlap");
            reveal_strlit("unrecognizedCollectJob");
            reveal_strlit("unrecognizedTask");
        }
        match self {
            CollectError::BatchInvalid => "batchInvalid",
            CollectError::BatchOverlap => "batchOverlap",
            CollectError::UnrecognizedCollectJob => "unrecognizedCollectJob",
            CollectError::UnrecognizedTask => "unrecognizedTask",
        }
    }
}

/// The state of a collection job as seen by a poll.
#[derive(Clone, Copy, Debug, PartialEq, Eq, Structural)]
pub enum PollResult {
    Pending,
    Ready(Collection),
}

/// What one run of the aggregation scheduler did.
#[derive(Clone, Copy, Debug, PartialEq, Eq, Structural)]
pub struct Telemetry {
    pub reports_processed: u64,
    pub reports_aggregated: u64,
    pub reports_collected: u64,
}

/// Bounds on one run of the aggregation scheduler.
#[derive(Clone, Copy, Debug, PartialEq, Eq, Structural)]
pub struct ProcessLimits {
    /// How many aggregation jobs, one per bucket, may run.
    pub max_jobs: u64,
    /// How many reports one aggregation job may take.
    pub max_reports: u64,
}

/// Whether two byte arrays are equal.
pub fn same_bytes<const N: usize>(a: &[u8; N], b: &[u8; N]) -> (r: bool)
    ensures
        r == (*a == *b),
{
    let mut i: usize = 0;
    while i < N
        invariant
            0 <= i <= N,
            a@.len() == N,
            b@.len() == N,
            forall|j: int| 0 <= j < i ==> a@[j] == b@[j],
        decreases N - i,
    {
        if a[i] != b[i] {
            return false;
        }
        i = i + 1;
    }
    proof {
        broadcast use vstd::array::group_array_axioms;
        assert(*a =~= *b);
    }
    true
}

} // verus!

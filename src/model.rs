//! The mathematical model of a task's state: buckets, collection jobs, the
//! ledger, and what each operation does to them.

use vstd::prelude::*;
use crate::messages::{BatchId, CollectError, Collection, CollectionJobId, PollResult, ProcessLimits, Query, QueryType, ReportId, ResolvedBatch, TaskConfig, UploadError};

verus! {

/// The key of a bucket: the index of a time slice, or a fixed-size batch.
#[derive(Clone, Copy, Debug, PartialEq, Eq, Structural)]
pub enum BucketKey {
    Slice(u64),
    Batch(BatchId),
}

/// A bucket's accounting, as a mathematical value.
pub struct BucketView {
    pub key: BucketKey,
    /// Input shares of the reports assigned here and not yet aggregated,
    /// oldest first.
    pub pending: Seq<u64>,
    /// How many reports were aggregated into this bucket.
    pub aggregated: u64,
    /// The aggregate share of the aggregated reports.
    pub share: u64,
    pub collected: bool,
    pub times_collected: u64,
}

/// A collection job, as a mathematical value.
pub struct JobView {
    pub query: Query,
    pub agg_param: Seq<u8>,
    /// The buckets the job covers, fixed when it was created.
    pub batch: ResolvedBatch,
    /// `None` while the job is pending; the result once it is complete.
    pub result: Option<Collection>,
}

/// The state of one task, as a mathematical value.
pub struct TaskView {
    pub config: TaskConfig,
    /// Every report id accepted so far, in order of acceptance.
    pub seen: Seq<ReportId>,
    /// Fixed-size tasks: input shares of accepted reports not yet assigned
    /// to a batch, oldest first.
    pub pool: Seq<u64>,
    pub buckets: Seq<BucketView>,
    pub jobs: Seq<JobView>,
    /// The id the next fixed-size batch will get.
    pub next_batch: u64,
}

/// `acc` plus the shares of `s` in order, modulo 2^64: aggregate shares
/// add up like the input shares they are made of.
pub open spec fn add_shares(acc: u64, s: Seq<u64>) -> u64
    decreases s.len(),
{
    if s.len() == 0 {
        acc
    } else {
        add_shares(acc, s.drop_last()).wrapping_add(s.last())
    }
}

/// How many reports a bucket accounts for.
pub open spec fn bucket_size(b: BucketView) -> nat {
    b.aggregated as nat + b.pending.len()
}

/// How many reports the buckets account for together.
pub open spec fn assigned_total(bs: Seq<BucketView>) -> nat
    decreases bs.len(),
{
    if bs.len() == 0 {
        0
    } else {
        assigned_total(bs.drop_last()) + bucket_size(bs.last())
    }
}

/// How many reports wait for aggregation in the buckets together.
pub open spec fn pending_total(bs: Seq<BucketView>) -> nat
    decreases bs.len(),
{
    if bs.len() == 0 {
        0
    } else {
        pending_total(bs.drop_last()) + bs.last().pending.len()
    }
}

/// How many buckets before position `i` have reports waiting.
pub open spec fn busy_before(bs: Seq<BucketView>, i: int) -> nat
    decreases i,
{
    if i <= 0 {
        0
    } else {
        busy_before(bs, i - 1) + (if bs[i - 1].pending.len() > 0 { 1nat } else { 0nat })
    }
}

/// The smaller of two counts.
pub open spec fn min_nat(a: nat, b: nat) -> nat {
    if a < b { a } else { b }
}

/// How many reports the aggregation job for the bucket at position `i`
/// takes: one job for each of the first `max_jobs` buckets that have reports
/// waiting, oldest first, each taking up to `max_reports` of them.
pub open spec fn slice_job_size(bs: Seq<BucketView>, i: int, lim: ProcessLimits) -> nat {
    if bs[i].pending.len() > 0 && busy_before(bs, i) < lim.max_jobs {
        min_nat(lim.max_reports as nat, bs[i].pending.len())
    } else {
        0
    }
}

/// The bucket after aggregating its `n` oldest waiting reports.
pub open spec fn take_pending(b: BucketView, n: nat) -> BucketView {
    BucketView {
        pending: b.pending.subrange(n as int, b.pending.len() as int),
        aggregated: (b.aggregated + n) as u64,
        share: add_shares(b.share, b.pending.subrange(0, n as int)),
        ..b
    }
}

/// The buckets after one round of aggregation jobs over time slices.
pub open spec fn aggregate_slices(bs: Seq<BucketView>, lim: ProcessLimits) -> Seq<BucketView> {
    Seq::new(bs.len(), |i: int| take_pending(bs[i], slice_job_size(bs, i, lim)))
}

/// Whether the newest fixed-size batch still takes reports: it was not
/// collected and holds fewer reports than the minimum batch size (or the
/// minimum is zero).
pub open spec fn has_open_batch(v: TaskView) -> bool {
    &&& v.buckets.len() > 0
    &&& !v.buckets.last().collected
    &&& (v.config.min_batch_size == 0 || v.buckets.last().aggregated < v.config.min_batch_size)
}

/// How many reports the next aggregation job over the pool takes: up to
/// `max_reports`, and no more than fill the open batch, or a new one, to the
/// minimum batch size.
pub open spec fn pool_job_size(v: TaskView, max_reports: u64) -> nat {
    let room: nat = if v.config.min_batch_size == 0 {
        v.pool.len()
    } else if has_open_batch(v) {
        (v.config.min_batch_size - v.buckets.last().aggregated) as nat
    } else {
        v.config.min_batch_size as nat
    };
    min_nat(min_nat(max_reports as nat, v.pool.len()), room)
}

/// The state after one aggregation job over the pool: the oldest reports of
/// the pool join the open batch, or a new batch with the next id.
pub open spec fn pool_job(v: TaskView, max_reports: u64) -> TaskView {
    let n = pool_job_size(v, max_reports);
    let taken = v.pool.subrange(0, n as int);
    let pool = v.pool.subrange(n as int, v.pool.len() as int);
    if has_open_batch(v) {
        let last = v.buckets.last();
        TaskView {
            pool,
            buckets: v.buckets.update(
                v.buckets.len() - 1,
                BucketView { aggregated: (last.aggregated + n) as u64, share: add_shares(last.share, taken), ..last },
            ),
            ..v
        }
    } else {
        TaskView {
            pool,
            buckets: v.buckets.push(
                BucketView {
                    aggregated: n as u64,
                    share: add_shares(0, taken),
                    ..empty_bucket(BucketKey::Batch(BatchId(v.next_batch)))
                },
            ),
            next_batch: (v.next_batch + 1) as u64,
            ..v
        }
    }
}

/// The state after up to `jobs` aggregation jobs over the pool, stopping
/// when it is empty.
pub open spec fn aggregate_pool(v: TaskView, jobs: nat, max_reports: u64) -> TaskView
    decreases jobs,
{
    if jobs == 0 || v.pool.len() == 0 || max_reports == 0 {
        v
    } else {
        aggregate_pool(pool_job(v, max_reports), (jobs - 1) as nat, max_reports)
    }
}

/// How many aggregated reports the buckets of the batch hold.
pub open spec fn covered_count(bs: Seq<BucketView>, b: ResolvedBatch) -> nat
    decreases bs.len(),
{
    if bs.len() == 0 {
        0
    } else {
        covered_count(bs.drop_last(), b) + (if covers(b, bs.last().key) { bs.last().aggregated as nat } else { 0nat })
    }
}

/// The aggregate share of the buckets of the batch.
pub open spec fn covered_share(bs: Seq<BucketView>, b: ResolvedBatch) -> u64
    decreases bs.len(),
{
    if bs.len() == 0 {
        0
    } else if covers(b, bs.last().key) {
        covered_share(bs.drop_last(), b).wrapping_add(bs.last().share)
    } else {
        covered_share(bs.drop_last(), b)
    }
}

/// Whether no bucket of the batch has reports waiting.
pub open spec fn batch_drained(bs: Seq<BucketView>, b: ResolvedBatch) -> bool {
    forall|i: int| 0 <= i < bs.len() && #[trigger] covers(b, bs[i].key) ==> bs[i].pending.len() == 0
}

/// Whether a job over the batch can complete: its buckets are fully
/// aggregated and hold at least the minimum batch size together.
pub open spec fn batch_ready(v: TaskView, b: ResolvedBatch) -> bool {
    batch_drained(v.buckets, b) && covered_count(v.buckets, b) >= v.config.min_batch_size
}

/// Whether the job at position `j` is pending and can complete.
pub open spec fn completes_now(v: TaskView, j: int) -> bool {
    v.jobs[j].result is None && batch_ready(v, v.jobs[j].batch)
}

/// The result of a job over the batch.
pub open spec fn collection_of(v: TaskView, b: ResolvedBatch) -> Collection {
    Collection { report_count: covered_count(v.buckets, b) as u64, agg_share: covered_share(v.buckets, b), batch: b }
}

/// Whether one of the first `n` jobs completes now and covers the key.
pub open spec fn marked_by(v: TaskView, n: int, key: BucketKey) -> bool {
    exists|j: int| 0 <= j < n && completes_now(v, j) && #[trigger] covers(v.jobs[j].batch, key)
}

/// The bucket once collected.
pub open spec fn mark_collected(b: BucketView) -> BucketView {
    BucketView { collected: true, times_collected: (b.times_collected + 1) as u64, ..b }
}

/// The state after every pending job that can complete has completed: its
/// result is fixed and the buckets it covers are collected.
pub open spec fn complete_jobs(v: TaskView) -> TaskView {
    TaskView {
        jobs: Seq::new(
            v.jobs.len(),
            |j: int|
                if completes_now(v, j) {
                    JobView { result: Some(collection_of(v, v.jobs[j].batch)), ..v.jobs[j] }
                } else {
                    v.jobs[j]
                },
        ),
        buckets: Seq::new(
            v.buckets.len(),
            |i: int|
                if marked_by(v, v.jobs.len() as int, v.buckets[i].key) {
                    mark_collected(v.buckets[i])
                } else {
                    v.buckets[i]
                },
        ),
        ..v
    }
}

/// How many aggregated reports the collected buckets hold.
pub open spec fn collected_total(bs: Seq<BucketView>) -> nat
    decreases bs.len(),
{
    if bs.len() == 0 {
        0
    } else {
        collected_total(bs.drop_last()) + (if bs.last().collected { bs.last().aggregated as nat } else { 0nat })
    }
}

/// Whether two bucket sequences agree on everything but collection.
pub open spec fn same_content(a: Seq<BucketView>, b: Seq<BucketView>) -> bool {
    &&& a.len() == b.len()
    &&& forall|i: int|
        0 <= i < a.len() ==> (#[trigger] a[i]).key == b[i].key && a[i].pending == b[i].pending
            && a[i].aggregated == b[i].aggregated && a[i].share == b[i].share
}

/// The state after one round of aggregation jobs, before any collection
/// job completes.
pub open spec fn aggregated(v: TaskView, lim: ProcessLimits) -> TaskView {
    match v.config.query_type {
        QueryType::TimeInterval => TaskView { buckets: aggregate_slices(v.buckets, lim), ..v },
        QueryType::FixedSize => aggregate_pool(v, lim.max_jobs as nat, lim.max_reports),
    }
}

/// How many accepted reports wait for aggregation.
pub open spec fn waiting(v: TaskView) -> nat {
    pending_total(v.buckets) + v.pool.len()
}

/// The state after a run of the scheduler: a round of aggregation jobs,
/// then every collection job that can complete does.
pub open spec fn processed(v: TaskView, lim: ProcessLimits) -> TaskView {
    complete_jobs(aggregated(v, lim))
}

/// The index of the time slice that holds `time`.
pub open spec fn slice_of(config: TaskConfig, time: u64) -> u64
    recommends
        config.time_precision > 0,
{
    time / config.time_precision
}

/// A bucket with nothing in it yet.
pub open spec fn empty_bucket(key: BucketKey) -> BucketView {
    BucketView { key, pending: Seq::empty(), aggregated: 0, share: 0, collected: false, times_collected: 0 }
}

/// The state of a task that has seen no report.
pub open spec fn fresh_task(config: TaskConfig) -> TaskView {
    TaskView { config, seen: Seq::empty(), pool: Seq::empty(), buckets: Seq::empty(), jobs: Seq::empty(), next_batch: 0 }
}

impl TaskView {
    pub open spec fn has_bucket(self, key: BucketKey) -> bool {
        exists|i: int| 0 <= i < self.buckets.len() && self.buckets[i].key == key
    }

    /// The position of the bucket with this key.
    pub open spec fn bucket_index(self, key: BucketKey) -> int {
        choose|i: int| 0 <= i < self.buckets.len() && self.buckets[i].key == key
    }

    /// The buckets with `share` appended to the pending shares of the bucket
    /// with this key, which is created if there is none.
    pub open spec fn buckets_with_pending(self, key: BucketKey, share: u64) -> Seq<BucketView> {
        if self.has_bucket(key) {
            let i = self.bucket_index(key);
            let b = self.buckets[i];
            self.buckets.update(i, BucketView { pending: b.pending.push(share), ..b })
        } else {
            self.buckets.push(BucketView { pending: seq![share], ..empty_bucket(key) })
        }
    }

    /// Whether a report is accepted: refused when its timestamp is past the
    /// task's expiration, then when its id was accepted before.
    pub open spec fn upload_outcome(self, id: ReportId, time: u64) -> Result<(), UploadError> {
        if time > self.config.expiration {
            Err(UploadError::ReportTooLate)
        } else if self.seen.contains(id) {
            Err(UploadError::ReportRejected)
        } else {
            Ok(())
        }
    }

    /// The state after accepting a report: its id joins the ledger and its
    /// share the bucket of its time slice, or the pool of a fixed-size task.
    pub open spec fn with_report(self, id: ReportId, time: u64, share: u64) -> TaskView {
        match self.config.query_type {
            QueryType::TimeInterval => TaskView {
                seen: self.seen.push(id),
                buckets: self.buckets_with_pending(BucketKey::Slice(slice_of(self.config, time)), share),
                ..self
            },
            QueryType::FixedSize => TaskView { seen: self.seen.push(id), pool: self.pool.push(share), ..self },
        }
    }

    /// The validity of a task's state.
    pub open spec fn wf(self) -> bool {
        &&& self.config.time_precision > 0
        &&& forall|i: int, j: int|
            #![trigger self.buckets[i], self.buckets[j]]
            0 <= i < j < self.buckets.len() ==> self.buckets[i].key != self.buckets[j].key
        // Every accepted report is accounted for exactly once.
        &&& assigned_total(self.buckets) + self.pool.len() == self.seen.len()
        &&& self.buckets.len() <= assigned_total(self.buckets)
        &&& self.seen.len() <= usize::MAX
        &&& forall|i: int| 0 <= i < self.buckets.len() ==> #[trigger] bucket_ok(self.config, i, self.buckets[i])
        &&& self.config.query_type == QueryType::TimeInterval ==> self.pool.len() == 0
        // No two jobs share a bucket, and no request made two jobs.
        &&& forall|i: int, j: int|
            #![trigger self.jobs[i], self.jobs[j]]
            0 <= i < j < self.jobs.len() ==> !overlaps(self.jobs[i].batch, self.jobs[j].batch)
                && !same_request(self.jobs[i], self.jobs[j].query, self.jobs[j].agg_param)
        &&& self.jobs.len() <= u64::MAX
        &&& forall|j: int| 0 <= j < self.jobs.len() ==> #[trigger] job_ok(self.config, self.jobs[j])
        // A bucket is collected only by a complete job that covers it.
        &&& forall|i: int| 0 <= i < self.buckets.len() && (#[trigger] self.buckets[i]).collected
            ==> collected_by_job(self.jobs, self.buckets[i].key)
        &&& self.config.query_type == QueryType::FixedSize ==> self.next_batch == self.buckets.len()
        &&& forall|i: int|
            0 <= i < self.buckets.len() ==> (#[trigger] self.buckets[i]).times_collected == (if self.buckets[i].collected { 1u64 } else { 0u64 })
    }

}

/// Whether two resolved batches share a bucket.
pub open spec fn overlaps(a: ResolvedBatch, b: ResolvedBatch) -> bool {
    match (a, b) {
        (ResolvedBatch::Slices { lo: l1, hi: h1 }, ResolvedBatch::Slices { lo: l2, hi: h2 }) => l1 < h2 && l2 < h1,
        (ResolvedBatch::Batch { id: x }, ResolvedBatch::Batch { id: y }) => x == y,
        _ => false,
    }
}

/// Whether a bucket with this key belongs to the batch.
pub open spec fn covers(batch: ResolvedBatch, key: BucketKey) -> bool {
    match (batch, key) {
        (ResolvedBatch::Slices { lo, hi }, BucketKey::Slice(k)) => lo <= k < hi,
        (ResolvedBatch::Batch { id }, BucketKey::Batch(k)) => id == k,
        _ => false,
    }
}

/// The checks on a query that need nothing but the task's parameters: the
/// query fits the task's query type, and a batch interval is aligned to the
/// time precision, no longer than the longest batch duration, and ends
/// before the end of time.
pub open spec fn query_valid(config: TaskConfig, q: Query) -> bool {
    match q {
        Query::TimeInterval { batch_interval: iv } => {
            &&& config.query_type == QueryType::TimeInterval
            &&& iv.start % config.time_precision == 0
            &&& iv.duration % config.time_precision == 0
            &&& iv.duration <= config.max_batch_duration
            &&& iv.start + iv.duration <= u64::MAX
        },
        _ => config.query_type == QueryType::FixedSize,
    }
}

/// Whether a job was created by this very request.
pub open spec fn same_request(j: JobView, q: Query, agg_param: Seq<u8>) -> bool {
    j.query == q && j.agg_param == agg_param
}

impl TaskView {
    /// Whether the bucket at position `i` is the oldest one not collected.
    pub open spec fn is_current(self, i: int) -> bool {
        &&& 0 <= i < self.buckets.len()
        &&& !self.buckets[i].collected
        &&& forall|j: int| 0 <= j < i ==> #[trigger] self.buckets[j].collected
    }

    /// The oldest fixed-size batch that was not collected.
    pub open spec fn current_batch(self) -> Option<BatchId> {
        if exists|i: int| self.is_current(i) {
            let i = choose|i: int| self.is_current(i);
            match self.buckets[i].key {
                BucketKey::Batch(id) => Some(id),
                BucketKey::Slice(_) => None,
            }
        } else {
            None
        }
    }

    /// The buckets a valid query stands for, or why it stands for none: a
    /// batch id must name a batch that exists and was not collected, and a
    /// current batch must exist.
    pub open spec fn resolve(self, q: Query) -> Result<ResolvedBatch, CollectError> {
        match q {
            Query::TimeInterval { batch_interval: iv } => Ok(ResolvedBatch::Slices {
                lo: iv.start / self.config.time_precision,
                hi: ((iv.start + iv.duration) / self.config.time_precision as int) as u64,
            }),
            Query::FixedSizeByBatchId { batch_id } => {
                if self.has_bucket(BucketKey::Batch(batch_id))
                    && !self.buckets[self.bucket_index(BucketKey::Batch(batch_id))].collected {
                    Ok(ResolvedBatch::Batch { id: batch_id })
                } else {
                    Err(CollectError::BatchOverlap)
                }
            },
            Query::FixedSizeCurrentBatch => match self.current_batch() {
                Some(id) => Ok(ResolvedBatch::Batch { id }),
                None => Err(CollectError::BatchInvalid),
            },
        }
    }

    /// Whether some job was created by this very request.
    pub open spec fn has_request(self, q: Query, agg_param: Seq<u8>) -> bool {
        exists|j: int| 0 <= j < self.jobs.len() && same_request(self.jobs[j], q, agg_param)
    }

    /// Whether some job covers a bucket of the batch.
    pub open spec fn overlaps_job(self, b: ResolvedBatch) -> bool {
        exists|j: int| 0 <= j < self.jobs.len() && overlaps(self.jobs[j].batch, b)
    }

    /// The outcome of a collect request: refused when the query is not
    /// valid or resolves to no batch; the existing job when the same request
    /// was made before; refused when the batch shares a bucket with a job;
    /// otherwise a new pending job.
    pub open spec fn submit_outcome(self, q: Query, agg_param: Seq<u8>) -> Result<CollectionJobId, CollectError> {
        if !query_valid(self.config, q) {
            Err(CollectError::BatchInvalid)
        } else {
            match self.resolve(q) {
                Err(e) => Err(e),
                Ok(b) => if self.has_request(q, agg_param) {
                    let j = choose|j: int| 0 <= j < self.jobs.len() && same_request(self.jobs[j], q, agg_param);
                    Ok(CollectionJobId(j as u64))
                } else if self.overlaps_job(b) {
                    Err(CollectError::BatchOverlap)
                } else {
                    Ok(CollectionJobId(self.jobs.len() as u64))
                },
            }
        }
    }

    /// The state after a collect request: a new pending job when the
    /// request creates one, the same state otherwise.
    pub open spec fn after_submit(self, q: Query, agg_param: Seq<u8>) -> TaskView {
        match self.submit_outcome(q, agg_param) {
            Ok(id) if id.0 == self.jobs.len() => TaskView {
                jobs: self.jobs.push(JobView { query: q, agg_param, batch: self.resolve(q)->Ok_0, result: None }),
                ..self
            },
            _ => self,
        }
    }

    /// What a poll of a job returns.
    pub open spec fn poll_outcome(self, id: CollectionJobId) -> Result<PollResult, CollectError> {
        if id.0 < self.jobs.len() {
            match self.jobs[id.0 as int].result {
                None => Ok(PollResult::Pending),
                Some(c) => Ok(PollResult::Ready(c)),
            }
        } else {
            Err(CollectError::UnrecognizedCollectJob)
        }
    }
}

/// The validity of the bucket at position `pos` of a task with this
/// configuration: fixed-size batches are numbered by position and have no
/// pending reports, since reports join them as they are aggregated.
pub open spec fn bucket_ok(config: TaskConfig, pos: int, b: BucketView) -> bool {
    match b.key {
        BucketKey::Slice(_) => config.query_type == QueryType::TimeInterval,
        BucketKey::Batch(id) => {
            &&& config.query_type == QueryType::FixedSize
            &&& id.0 == pos
            &&& b.pending.len() == 0
        },
    }
}

/// Whether a complete job covers a bucket with this key.
pub open spec fn collected_by_job(jobs: Seq<JobView>, key: BucketKey) -> bool {
    exists|j: int| 0 <= j < jobs.len() && jobs[j].result is Some && #[trigger] covers(jobs[j].batch, key)
}

/// The validity of a job of a task with this configuration: a complete job's
/// result covers the job's batch and at least the minimum batch size.
pub open spec fn job_ok(config: TaskConfig, j: JobView) -> bool {
    match j.result {
        Some(c) => c.batch == j.batch && c.report_count >= config.min_batch_size,
        None => true,
    }
}

/// Every job that was complete before is unchanged after.
pub open spec fn keeps_results(a: TaskView, b: TaskView) -> bool {
    &&& a.jobs.len() <= b.jobs.len()
    &&& forall|j: int| 0 <= j < a.jobs.len() && (#[trigger] a.jobs[j]).result is Some ==> b.jobs[j] == a.jobs[j]
}

} // verus!

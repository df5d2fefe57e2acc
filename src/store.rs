//! The per-task state of the Aggregator: the report ledger, the batch
//! buckets, the aggregation scheduler and the collection jobs.

use vstd::prelude::*;
use crate::messages::{BatchId, CollectError, Collection, CollectionJobId, CollectionReq, PollResult, ProcessLimits, Query, QueryType, ReportId, ResolvedBatch, TaskConfig, Telemetry, UploadError, same_bytes};
use crate::model::{BucketKey, BucketView, JobView, TaskView, add_shares, aggregate_pool, aggregate_slices, aggregated, assigned_total, batch_drained, bucket_ok, busy_before, collected_by_job, collected_total, complete_jobs, completes_now, covered_count, covered_share, covers, empty_bucket, fresh_task, has_open_batch, job_ok, keeps_results, mark_collected, marked_by, min_nat, overlaps, pending_total, pool_job, pool_job_size, processed, query_valid, same_content, same_request, slice_job_size, slice_of, take_pending, waiting};
use crate::lemmas::{lemma_add_shares_step, lemma_collected_le_total, lemma_collected_update, lemma_complete_wf, lemma_covered_le_total, lemma_covered_step, lemma_covers_overlap, lemma_pending_job_uncollected, lemma_pending_le_total, lemma_pending_update, lemma_pending_zero, lemma_pool_keeps_jobs, lemma_same_content, lemma_size_le_total, lemma_total_prefix, lemma_total_push, lemma_total_update};

verus! {

/// A bucket: the input shares of its waiting reports, and the accounting
/// of those already aggregated.
struct Bucket {
    key: BucketKey,
    pending: Vec<u64>,
    aggregated: u64,
    share: u64,
    collected: bool,
    times_collected: u64,
}

impl View for Bucket {
    type V = BucketView;

    closed spec fn view(&self) -> BucketView {
        BucketView {
            key: self.key,
            pending: self.pending@,
            aggregated: self.aggregated,
            share: self.share,
            collected: self.collected,
            times_collected: self.times_collected,
        }
    }
}

/// A collection job: the request that created it, the buckets it covers,
/// and its result once complete.
struct CollectionJob {
    query: Query,
    agg_param: Vec<u8>,
    batch: ResolvedBatch,
    result: Option<Collection>,
}

impl View for CollectionJob {
    type V = JobView;

    closed spec fn view(&self) -> JobView {
        JobView { query: self.query, agg_param: self.agg_param@, batch: self.batch, result: self.result }
    }
}

/// Whether a bucket with this key belongs to the batch.
fn covers_key(b: ResolvedBatch, key: BucketKey) -> (r: bool)
    ensures
        r == covers(b, key),
{
    match (b, key) {
        (ResolvedBatch::Slices { lo, hi }, BucketKey::Slice(k)) => lo <= k && k < hi,
        (ResolvedBatch::Batch { id }, BucketKey::Batch(k)) => id.0 == k.0,
        _ => false,
    }
}

/// Whether two byte vectors are equal.
fn same_vec_bytes(a: &Vec<u8>, b: &Vec<u8>) -> (r: bool)
    ensures
        r == (a@ == b@),
{
    if a.len() != b.len() {
        return false;
    }
    let mut i: usize = 0;
    while i < a.len()
        invariant
            0 <= i <= a@.len(),
            a@.len() == b@.len(),
            forall|j: int| 0 <= j < i ==> a@[j] == b@[j],
        decreases a@.len() - i,
    {
        if a[i] != b[i] {
            return false;
        }
        i = i + 1;
    }
    assert(a@ =~= b@);
    true
}

/// Whether two resolved batches share a bucket.
fn batches_overlap(a: ResolvedBatch, b: ResolvedBatch) -> (r: bool)
    ensures
        r == overlaps(a, b),
{
    match (a, b) {
        (ResolvedBatch::Slices { lo: l1, hi: h1 }, ResolvedBatch::Slices { lo: l2, hi: h2 }) => l1 < h2 && l2 < h1,
        (ResolvedBatch::Batch { id: x }, ResolvedBatch::Batch { id: y }) => x.0 == y.0,
        _ => false,
    }
}

/// The checks on a query that need nothing but the task's parameters.
pub fn check_query(config: TaskConfig, q: Query) -> (r: bool)
    requires
        config.time_precision > 0,
    ensures
        r == query_valid(config, q),
{
    match q {
        Query::TimeInterval { batch_interval: iv } => {
            config.query_type == QueryType::TimeInterval
                && iv.start % config.time_precision == 0
                && iv.duration % config.time_precision == 0
                && iv.duration <= config.max_batch_duration
                && iv.duration <= u64::MAX - iv.start
        },
        _ => config.query_type == QueryType::FixedSize,
    }
}

/// The state of one task: which reports were seen, how they are spread
/// over buckets, and the collection jobs.
pub struct TaskState {
    config: TaskConfig,
    seen: Vec<ReportId>,
    pool: Vec<u64>,
    buckets: Vec<Bucket>,
    jobs: Vec<CollectionJob>,
    next_batch: u64,
}

impl View for TaskState {
    type V = TaskView;

    closed spec fn view(&self) -> TaskView {
        TaskView {
            config: self.config,
            seen: self.seen@,
            pool: self.pool@,
            buckets: self.buckets@.map_values(|b: Bucket| b@),
            jobs: self.jobs@.map_values(|j: CollectionJob| j@),
            next_batch: self.next_batch,
        }
    }
}

impl TaskState {
    /// The state of a task that has seen no report.
    pub fn new(config: TaskConfig) -> (r: Self)
        requires
            config.time_precision > 0,
        ensures
            r@.wf(),
            r@ == fresh_task(config),
    {
        let r = TaskState {
            config,
            seen: Vec::new(),
            pool: Vec::new(),
            buckets: Vec::new(),
            jobs: Vec::new(),
            next_batch: 0,
        };
        assert(r@.buckets =~= Seq::empty());
        assert(r@.jobs =~= Seq::empty());
        r
    }

    /// The task's parameters.
    pub fn config(&self) -> (r: TaskConfig)
        ensures
            r == self@.config,
    {
        self.config
    }

    /// Whether a report with this id was accepted before.
    fn has_seen(&self, id: &ReportId) -> (r: bool)
        ensures
            r == self@.seen.contains(*id),
    {
        let mut i: usize = 0;
        while i < self.seen.len()
            invariant
                0 <= i <= self.seen@.len(),
                forall|j: int| 0 <= j < i ==> self.seen@[j] != *id,
            decreases self.seen@.len() - i,
        {
            if same_bytes(&self.seen[i].0, &id.0) {
                assert(self.seen@[i as int] == *id);
                return true;
            }
            i = i + 1;
        }
        false
    }

    /// Takes in a report, or returns the reason it is refused. The expiration is
    /// checked first, then the ledger; an accepted report is recorded in the
    /// ledger and joins its bucket (its time slice, or the pool of reports
    /// waiting for a fixed-size batch). A refused report changes nothing.
    pub fn upload(&mut self, id: ReportId, time: u64, share: u64) -> (r: Result<(), UploadError>)
        requires
            old(self)@.wf(),
        ensures
            final(self)@.wf(),
            r == old(self)@.upload_outcome(id, time),
            r is Ok ==> final(self)@ == old(self)@.with_report(id, time, share),
            r is Err ==> final(self)@ == old(self)@,
            keeps_results(old(self)@, final(self)@),
    {
        if time > self.config.expiration {
            return Err(UploadError::ReportTooLate);
        }
        if self.has_seen(&id) {
            return Err(UploadError::ReportRejected);
        }
        let ghost v0 = self@;
        let ghost v1 = v0.with_report(id, time, share);
        match self.config.query_type {
            QueryType::TimeInterval => {
                let key = BucketKey::Slice(time / self.config.time_precision);
                let found = self.find_bucket(key);
                self.seen.push(id);
                match found {
                    Some(i) => {
                        self.buckets[i].pending.push(share);
                        proof {
                            let b = v0.buckets[i as int];
                            let nb = BucketView { pending: b.pending.push(share), ..b };
                            lemma_total_update(v0.buckets, i as int, nb);
                            assert(self@.buckets =~= v0.buckets.update(i as int, nb));
                            assert(v0.has_bucket(key));
                            assert(v0.bucket_index(key) == i);
                            assert(key == BucketKey::Slice(slice_of(v0.config, time)));
                            assert(v0.buckets_with_pending(key, share) == v0.buckets.update(i as int, nb));
                            assert forall|a: int| 0 <= a < self@.buckets.len() implies #[trigger] bucket_ok(self@.config, a, self@.buckets[a]) by {
                                assert(bucket_ok(v0.config, a, v0.buckets[a]));
                            }
                            assert forall|a: int, b: int|
                                #![trigger self@.buckets[a], self@.buckets[b]]
                                0 <= a < b < self@.buckets.len() implies self@.buckets[a].key != self@.buckets[b].key by {
                                assert(v0.buckets[a].key == self@.buckets[a].key && v0.buckets[b].key == self@.buckets[b].key);
                            }
                            assert(self@.buckets == v1.buckets);
                        }
                    },
                    None => {
                        let mut pending = Vec::new();
                        pending.push(share);
                        assert(pending@ =~= seq![share]);
                        self.buckets.push(Bucket {
                            key,
                            pending,
                            aggregated: 0,
                            share: 0,
                            collected: false,
                            times_collected: 0,
                        });
                        proof {
                            let nb = BucketView { pending: seq![share], ..empty_bucket(key) };
                            lemma_total_push(v0.buckets, nb);
                            assert(self@.buckets =~= v0.buckets.push(nb));
                            assert(self@.buckets == v1.buckets);
                            assert forall|a: int, b: int|
                                #![trigger self@.buckets[a], self@.buckets[b]]
                                0 <= a < b < self@.buckets.len() implies self@.buckets[a].key != self@.buckets[b].key by {
                                if b == v0.buckets.len() {
                                    assert(!(0 <= a < v0.buckets.len() && v0.buckets[a].key == key));
                                } else {
                                    assert(v0.buckets[a] == self@.buckets[a] && v0.buckets[b] == self@.buckets[b]);
                                }
                            }
                            assert forall|a: int| 0 <= a < self@.buckets.len() implies #[trigger] bucket_ok(self@.config, a, self@.buckets[a]) by {
                                if a < v0.buckets.len() {
                                    assert(bucket_ok(v0.config, a, v0.buckets[a]));
                                }
                            }
                        }
                    },
                }
            },
            QueryType::FixedSize => {
                self.seen.push(id);
                self.pool.push(share);
                assert(self@.buckets =~= v0.buckets);
            },
        }
        assert(self@.seen =~= v0.with_report(id, time, share).seen);
        assert(self@.buckets =~= v0.with_report(id, time, share).buckets);
        assert(self@.pool =~= v0.with_report(id, time, share).pool);
        assert(self@.jobs =~= v0.jobs);
        let _ = self.seen.len();
        assert(assigned_total(self@.buckets) + self@.pool.len() == self@.seen.len());
        assert(forall|a: int| 0 <= a < self@.buckets.len() ==> #[trigger] bucket_ok(self@.config, a, self@.buckets[a]));
        Ok(())
    }

    /// The oldest fixed-size batch that was not collected.
    pub fn current_batch(&self) -> (r: Option<BatchId>)
        requires
            self@.wf(),
        ensures
            r == self@.current_batch(),
    {
        let mut i: usize = 0;
        while i < self.buckets.len()
            invariant
                0 <= i <= self.buckets@.len(),
                forall|j: int| 0 <= j < i ==> #[trigger] self@.buckets[j].collected,
            decreases self.buckets@.len() - i,
        {
            if !self.buckets[i].collected {
                proof {
                    assert(self@.is_current(i as int));
                    let k = choose|k: int| self@.is_current(k);
                    if k < i {
                        assert(self@.buckets[k].collected);
                    } else if k > i {
                        assert(self@.buckets[i as int].collected);
                    }
                }
                return match self.buckets[i].key {
                    BucketKey::Batch(id) => Some(id),
                    BucketKey::Slice(_) => None,
                };
            }
            i = i + 1;
        }
        proof {
            assert forall|k: int| !self@.is_current(k) by {
                if 0 <= k < self@.buckets.len() {
                    assert(self@.buckets[k].collected);
                }
            }
        }
        None
    }

    /// The position of the job created by this very request, if any.
    fn find_request(&self, q: Query, agg_param: &Vec<u8>) -> (r: Option<usize>)
        requires
            self@.wf(),
        ensures
            match r {
                Some(j) => j < self@.jobs.len() && same_request(self@.jobs[j as int], q, agg_param@)
                    && j as int == choose|j: int| 0 <= j < self@.jobs.len() && same_request(self@.jobs[j], q, agg_param@),
                None => !self@.has_request(q, agg_param@),
            },
    {
        let mut i: usize = 0;
        while i < self.jobs.len()
            invariant
                0 <= i <= self.jobs@.len(),
                self@.wf(),
                forall|j: int| 0 <= j < i ==> !same_request(#[trigger] self@.jobs[j], q, agg_param@),
            decreases self.jobs@.len() - i,
        {
            if self.jobs[i].query == q && same_vec_bytes(&self.jobs[i].agg_param, agg_param) {
                proof {
                    assert(same_request(self@.jobs[i as int], q, agg_param@));
                    let k = choose|j: int| 0 <= j < self@.jobs.len() && same_request(self@.jobs[j], q, agg_param@);
                    if k < i {
                        assert(!same_request(self@.jobs[k], q, agg_param@));
                    } else if k > i {
                        assert(!same_request(self@.jobs[i as int], self@.jobs[k].query, self@.jobs[k].agg_param));
                    }
                }
                return Some(i);
            }
            i = i + 1;
        }
        None
    }

    /// Whether some job covers a bucket of the batch.
    fn overlaps_job(&self, b: ResolvedBatch) -> (r: bool)
        ensures
            r == self@.overlaps_job(b),
    {
        let mut i: usize = 0;
        while i < self.jobs.len()
            invariant
                0 <= i <= self.jobs@.len(),
                forall|j: int| 0 <= j < i ==> !overlaps(#[trigger] self@.jobs[j].batch, b),
            decreases self.jobs@.len() - i,
        {
            if batches_overlap(self.jobs[i].batch, b) {
                assert(overlaps(self@.jobs[i as int].batch, b));
                return true;
            }
            i = i + 1;
        }
        false
    }

    /// The buckets a valid query stands for, or why it stands for none.
    fn resolve(&self, q: Query) -> (r: Result<ResolvedBatch, CollectError>)
        requires
            self@.wf(),
            query_valid(self@.config, q),
        ensures
            r == self@.resolve(q),
    {
        match q {
            Query::TimeInterval { batch_interval: iv } => {
                let prec = self.config.time_precision;
                Ok(ResolvedBatch::Slices { lo: iv.start / prec, hi: (iv.start + iv.duration) / prec })
            },
            Query::FixedSizeByBatchId { batch_id } => {
                match self.find_bucket(BucketKey::Batch(batch_id)) {
                    Some(i) => {
                        if self.buckets[i].collected {
                            Err(CollectError::BatchOverlap)
                        } else {
                            Ok(ResolvedBatch::Batch { id: batch_id })
                        }
                    },
                    None => Err(CollectError::BatchOverlap),
                }
            },
            Query::FixedSizeCurrentBatch => match self.current_batch() {
                Some(id) => Ok(ResolvedBatch::Batch { id }),
                None => Err(CollectError::BatchInvalid),
            },
        }
    }

    /// Handles a collect request. A query that is not valid for the task is
    /// refused with `BatchInvalid`, and one that resolves to no batch (a
    /// batch id that is unknown or collected, or no current batch) is
    /// refused too; a request made before gets its existing job back; a
    /// batch that shares a bucket with a job is refused with `BatchOverlap`;
    /// otherwise a new pending job is created.
    pub fn submit_collect(&mut self, req: &CollectionReq) -> (r: Result<CollectionJobId, CollectError>)
        requires
            old(self)@.wf(),
        ensures
            final(self)@.wf(),
            r == old(self)@.submit_outcome(req.query, req.agg_param@),
            keeps_results(old(self)@, final(self)@),
            final(self)@ == old(self)@.after_submit(req.query, req.agg_param@),
    {
        if !check_query(self.config, req.query) {
            return Err(CollectError::BatchInvalid);
        }
        let batch = match self.resolve(req.query) {
            Ok(b) => b,
            Err(e) => return Err(e),
        };
        if let Some(j) = self.find_request(req.query, &req.agg_param) {
            return Ok(CollectionJobId(j as u64));
        }
        if self.overlaps_job(batch) {
            return Err(CollectError::BatchOverlap);
        }
        let ghost v0 = self@;
        let id = CollectionJobId(self.jobs.len() as u64);
        self.jobs.push(CollectionJob { query: req.query, agg_param: req.agg_param.clone(), batch, result: None });
        let _ = self.jobs.len();
        proof {
            let nj = JobView { query: req.query, agg_param: req.agg_param@, batch, result: None };
            assert(self@.jobs =~= v0.jobs.push(nj));
            assert(self@.buckets =~= v0.buckets);
            assert forall|i: int, j: int|
                #![trigger self@.jobs[i], self@.jobs[j]]
                0 <= i < j < self@.jobs.len() implies !overlaps(self@.jobs[i].batch, self@.jobs[j].batch)
                    && !same_request(self@.jobs[i], self@.jobs[j].query, self@.jobs[j].agg_param) by {
                if j == v0.jobs.len() {
                    assert(!(0 <= i < v0.jobs.len() && overlaps(v0.jobs[i].batch, batch)));
                    assert(!(0 <= i < v0.jobs.len() && same_request(v0.jobs[i], req.query, req.agg_param@)));
                } else {
                    assert(v0.jobs[i] == self@.jobs[i] && v0.jobs[j] == self@.jobs[j]);
                }
            }
            assert forall|a: int| 0 <= a < self@.buckets.len() implies #[trigger] bucket_ok(self@.config, a, self@.buckets[a]) by {
                assert(bucket_ok(v0.config, a, v0.buckets[a]));
            }
            assert forall|j: int| 0 <= j < self@.jobs.len() implies #[trigger] job_ok(self@.config, self@.jobs[j]) by {
                if j < v0.jobs.len() {
                    assert(job_ok(v0.config, v0.jobs[j]));
                }
            }
            assert forall|i: int| 0 <= i < self@.buckets.len() && (#[trigger] self@.buckets[i]).collected
                implies collected_by_job(self@.jobs, self@.buckets[i].key) by {
                assert(collected_by_job(v0.jobs, v0.buckets[i].key));
                let j = choose|j: int| 0 <= j < v0.jobs.len() && v0.jobs[j].result is Some && #[trigger] covers(v0.jobs[j].batch, v0.buckets[i].key);
                assert(self@.jobs[j] == v0.jobs[j]);
            }
        }
        Ok(id)
    }

    /// What a poll of a job returns: pending, the job's result once it is
    /// complete, or `UnrecognizedCollectJob` for an unknown handle.
    pub fn poll(&self, id: CollectionJobId) -> (r: Result<PollResult, CollectError>)
        ensures
            r == self@.poll_outcome(id),
    {
        if id.0 < self.jobs.len() as u64 {
            match self.jobs[id.0 as usize].result {
                None => Ok(PollResult::Pending),
                Some(c) => Ok(PollResult::Ready(c)),
            }
        } else {
            Err(CollectError::UnrecognizedCollectJob)
        }
    }

    /// Runs one round of aggregation jobs over the time slices: the first
    /// `max_jobs` buckets with reports waiting, oldest first, each aggregate
    /// up to `max_reports` of their oldest waiting reports. Returns how many
    /// reports were aggregated.
    fn aggregate_slices(&mut self, lim: ProcessLimits) -> (n: u64)
        requires
            old(self)@.wf(),
        ensures
            final(self)@.wf(),
            final(self)@ == (TaskView { buckets: aggregate_slices(old(self)@.buckets, lim), ..old(self)@ }),
            n + pending_total(final(self)@.buckets) == pending_total(old(self)@.buckets),
    {
        let ghost v0 = self@;
        let ghost orig = self@.buckets;
        let mut jobs: u64 = 0;
        let mut processed: u64 = 0;
        let mut i: usize = 0;
        while i < self.buckets.len()
            invariant
                v0.wf(),
                orig == v0.buckets,
                0 <= i <= orig.len(),
                self@ == (TaskView { buckets: self@.buckets, ..v0 }),
                self@.buckets.len() == orig.len(),
                forall|j: int| 0 <= j < i ==> self@.buckets[j] == #[trigger] take_pending(orig[j], slice_job_size(orig, j, lim)),
                forall|j: int| i <= j < orig.len() ==> self@.buckets[j] == orig[j],
                jobs as nat == min_nat(busy_before(orig, i as int), lim.max_jobs as nat),
                processed + pending_total(self@.buckets) == pending_total(orig),
                assigned_total(self@.buckets) == assigned_total(orig),
            decreases orig.len() - i,
        {
            let len = self.buckets[i].pending.len();
            let ghost before = self@.buckets;
            let ghost b = orig[i as int];
            let ghost size = slice_job_size(orig, i as int, lim);
            if len > 0 && jobs < lim.max_jobs {
                let n: usize = if (lim.max_reports as u128) < (len as u128) { lim.max_reports as usize } else { len };
                assert(n == size);
                let mut acc = self.buckets[i].share;
                let mut k: usize = 0;
                while k < n
                    invariant
                        0 <= k <= n,
                        n <= b.pending.len(),
                        self@.buckets[i as int] == b,
                        i < self@.buckets.len(),
                        acc == add_shares(b.share, b.pending.subrange(0, k as int)),
                    decreases n - k,
                {
                    proof { lemma_add_shares_step(b.share, b.pending, k as int); }
                    acc = acc.wrapping_add(self.buckets[i].pending[k]);
                    k = k + 1;
                }
                proof {
                    lemma_pending_le_total(orig);
                    lemma_pending_update(before, i as int, take_pending(b, size));
                    assert(processed + size <= pending_total(orig));
                    lemma_size_le_total(orig, i as int);
                    lemma_pending_update(before, i as int, take_pending(b, size));
                    lemma_total_update(before, i as int, take_pending(b, size));
                }
                let rest = self.buckets[i].pending.split_off(n);
                self.buckets[i].pending = rest;
                self.buckets[i].aggregated = self.buckets[i].aggregated + n as u64;
                self.buckets[i].share = acc;
                jobs = jobs + 1;
                processed = processed + n as u64;
                assert(self@.buckets =~= before.update(i as int, take_pending(b, size)));
            } else {
                assert(size == 0);
                assert(b.pending.subrange(0, 0) =~= Seq::<u64>::empty());
                assert(b.pending.subrange(0, b.pending.len() as int) =~= b.pending);
                assert(take_pending(b, 0) == b);
            }
            i = i + 1;
        }
        proof {
            assert(self@.buckets =~= aggregate_slices(orig, lim));
            assert forall|a: int, c: int|
                #![trigger self@.buckets[a], self@.buckets[c]]
                0 <= a < c < self@.buckets.len() implies self@.buckets[a].key != self@.buckets[c].key by {
                assert(orig[a].key == self@.buckets[a].key && orig[c].key == self@.buckets[c].key);
            }
            assert forall|a: int| 0 <= a < self@.buckets.len() implies #[trigger] bucket_ok(self@.config, a, self@.buckets[a]) by {
                assert(bucket_ok(v0.config, a, v0.buckets[a]));
                if v0.buckets[a].pending.len() == 0 {
                    assert(slice_job_size(orig, a, lim) == 0);
                }
            }
            assert forall|a: int| 0 <= a < self@.buckets.len() && (#[trigger] self@.buckets[a]).collected
                implies collected_by_job(self@.jobs, self@.buckets[a].key) by {
                assert(v0.buckets[a].collected && v0.buckets[a].key == self@.buckets[a].key);
            }
        }
        processed
    }

    /// Whether the newest fixed-size batch still takes reports.
    fn has_open_batch(&self) -> (r: bool)
        ensures
            r == has_open_batch(self@),
    {
        let len = self.buckets.len();
        if len == 0 {
            return false;
        }
        let last = &self.buckets[len - 1];
        !last.collected && (self.config.min_batch_size == 0 || last.aggregated < self.config.min_batch_size)
    }

    /// Runs up to `max_jobs` aggregation jobs over the pool of a fixed-size
    /// task. Returns how many reports were aggregated.
    fn aggregate_pool(&mut self, lim: ProcessLimits) -> (n: u64)
        requires
            old(self)@.wf(),
            old(self)@.config.query_type == QueryType::FixedSize,
        ensures
            final(self)@.wf(),
            final(self)@ == aggregate_pool(old(self)@, lim.max_jobs as nat, lim.max_reports),
            n + final(self)@.pool.len() == old(self)@.pool.len(),
    {
        let ghost v0 = self@;
        let before = self.pool.len();
        let mut left: u64 = lim.max_jobs;
        while left > 0 && self.pool.len() > 0 && lim.max_reports > 0
            invariant
                self@.wf(),
                self@.config == v0.config,
                aggregate_pool(self@, left as nat, lim.max_reports) == aggregate_pool(v0, lim.max_jobs as nat, lim.max_reports),
                self@.pool.len() <= before,
                before == v0.pool.len(),
            decreases left,
        {
            self.pool_job(lim.max_reports);
            left = left - 1;
        }
        (before - self.pool.len()) as u64
    }

    /// Whether the batch is drained, and how many aggregated reports its
    /// buckets hold, with their aggregate share.
    fn batch_summary(&self, b: ResolvedBatch) -> (r: (bool, u64, u64))
        requires
            assigned_total(self@.buckets) <= usize::MAX,
        ensures
            r.0 == batch_drained(self@.buckets, b),
            r.1 == covered_count(self@.buckets, b),
            r.2 == covered_share(self@.buckets, b),
    {
        let ghost bs = self@.buckets;
        let mut drained = true;
        let mut count: u64 = 0;
        let mut share: u64 = 0;
        let mut i: usize = 0;
        while i < self.buckets.len()
            invariant
                bs == self@.buckets,
                0 <= i <= bs.len(),
                assigned_total(bs) <= usize::MAX,
                drained == (forall|k: int| 0 <= k < i && #[trigger] covers(b, bs[k].key) ==> bs[k].pending.len() == 0),
                count == covered_count(bs.subrange(0, i as int), b),
                share == covered_share(bs.subrange(0, i as int), b),
            decreases bs.len() - i,
        {
            proof {
                lemma_covered_step(bs, b, i as int);
                lemma_covered_le_total(bs.subrange(0, i as int + 1), b);
                lemma_total_prefix(bs, i as int + 1);
            }
            let bucket = &self.buckets[i];
            if covers_key(b, bucket.key) {
                if bucket.pending.len() > 0 {
                    drained = false;
                }
                count = count + bucket.aggregated;
                share = share.wrapping_add(bucket.share);
            }
            i = i + 1;
        }
        assert(bs.subrange(0, bs.len() as int) =~= bs);
        (drained, count, share)
    }

    /// Marks every bucket of the batch collected. None of them was.
    fn mark_batch(&mut self, b: ResolvedBatch)
        requires
            forall|i: int| 0 <= i < old(self)@.buckets.len() && #[trigger] covers(b, old(self)@.buckets[i].key)
                ==> !old(self)@.buckets[i].collected && old(self)@.buckets[i].times_collected == 0,
        ensures
            final(self)@ == (TaskView {
                buckets: Seq::new(
                    old(self)@.buckets.len(),
                    |i: int| if covers(b, old(self)@.buckets[i].key) { mark_collected(old(self)@.buckets[i]) } else { old(self)@.buckets[i] },
                ),
                ..old(self)@
            }),
            collected_total(final(self)@.buckets) == collected_total(old(self)@.buckets) + covered_count(old(self)@.buckets, b),
    {
        let ghost v0 = self@;
        let ghost orig = self@.buckets;
        let mut i: usize = 0;
        while i < self.buckets.len()
            invariant
                orig == v0.buckets,
                0 <= i <= orig.len(),
                self@ == (TaskView { buckets: self@.buckets, ..v0 }),
                self@.buckets.len() == orig.len(),
                forall|k: int| 0 <= k < orig.len() && #[trigger] covers(b, orig[k].key) ==> !orig[k].collected && orig[k].times_collected == 0,
                forall|k: int| 0 <= k < i ==> self@.buckets[k] == (if #[trigger] covers(b, orig[k].key) { mark_collected(orig[k]) } else { orig[k] }),
                forall|k: int| i <= k < orig.len() ==> self@.buckets[k] == orig[k],
                collected_total(self@.buckets) == collected_total(orig) + covered_count(orig.subrange(0, i as int), b),
            decreases orig.len() - i,
        {
            let ghost before = self@.buckets;
            proof { lemma_covered_step(orig, b, i as int); }
            if covers_key(b, self.buckets[i].key) {
                proof { lemma_collected_update(before, i as int, mark_collected(orig[i as int])); }
                self.buckets[i].collected = true;
                self.buckets[i].times_collected = self.buckets[i].times_collected + 1;
                assert(self@.buckets =~= before.update(i as int, mark_collected(orig[i as int])));
            }
            i = i + 1;
        }
        assert(orig.subrange(0, orig.len() as int) =~= orig);
        assert(self@.buckets =~= Seq::new(
            orig.len(),
            |k: int| if covers(b, orig[k].key) { mark_collected(orig[k]) } else { orig[k] },
        ));
    }

    /// Runs the scheduler once: one round of aggregation jobs within the
    /// limits, then every pending collection job whose buckets are fully
    /// aggregated and hold the minimum batch size completes. Reports how many
    /// reports were aggregated and how many the newly collected buckets hold.
    pub fn process(&mut self, lim: ProcessLimits) -> (t: Telemetry)
        requires
            old(self)@.wf(),
        ensures
            final(self)@.wf(),
            final(self)@ == processed(old(self)@, lim),
            t.reports_processed == waiting(old(self)@) - waiting(aggregated(old(self)@, lim)),
            t.reports_aggregated == t.reports_processed,
            t.reports_collected == collected_total(final(self)@.buckets) - collected_total(aggregated(old(self)@, lim).buckets),
            keeps_results(old(self)@, final(self)@),
    {
        let ghost v0 = self@;
        let n = match self.config.query_type {
            QueryType::TimeInterval => self.aggregate_slices(lim),
            QueryType::FixedSize => {
                let n = self.aggregate_pool(lim);
                proof {
                    lemma_pool_keeps_jobs(v0, lim.max_jobs as nat, lim.max_reports);
                    assert forall|i: int| 0 <= i < v0.buckets.len() implies (#[trigger] v0.buckets[i]).pending.len() == 0 by {
                        assert(bucket_ok(v0.config, i, v0.buckets[i]));
                    }
                    lemma_pending_zero(v0.buckets);
                    assert forall|i: int| 0 <= i < self@.buckets.len() implies (#[trigger] self@.buckets[i]).pending.len() == 0 by {
                        assert(bucket_ok(self@.config, i, self@.buckets[i]));
                    }
                    lemma_pending_zero(self@.buckets);
                }
                n
            },
        };
        let ghost v1 = self@;
        let c = self.complete_jobs();
        proof {
            lemma_complete_wf(v1);
        }
        Telemetry { reports_processed: n, reports_aggregated: n, reports_collected: c }
    }

    /// Completes every pending job that can complete. Returns how many
    /// aggregated reports the newly collected buckets hold.
    fn complete_jobs(&mut self) -> (n: u64)
        requires
            old(self)@.wf(),
        ensures
            final(self)@.wf(),
            final(self)@ == complete_jobs(old(self)@),
            n + collected_total(old(self)@.buckets) == collected_total(final(self)@.buckets),
    {
        let ghost v0 = self@;
        let ghost w = complete_jobs(v0);
        proof {
            lemma_complete_wf(v0);
        }
        let min = self.config.min_batch_size;
        let mut collected: u64 = 0;
        let mut j: usize = 0;
        while j < self.jobs.len()
            invariant
                v0.wf(),
                w == complete_jobs(v0),
                0 <= j <= v0.jobs.len(),
                min == v0.config.min_batch_size,
                self@ == (TaskView { buckets: self@.buckets, jobs: self@.jobs, ..v0 }),
                self@.jobs.len() == v0.jobs.len(),
                same_content(self@.buckets, v0.buckets),
                forall|i: int| 0 <= i < v0.buckets.len() ==> #[trigger] self@.buckets[i] == (if marked_by(v0, j as int, v0.buckets[i].key) {
                    mark_collected(v0.buckets[i])
                } else {
                    v0.buckets[i]
                }),
                forall|k: int| 0 <= k < j ==> #[trigger] self@.jobs[k] == w.jobs[k],
                forall|k: int| j <= k < v0.jobs.len() ==> #[trigger] self@.jobs[k] == v0.jobs[k],
                collected + collected_total(v0.buckets) == collected_total(self@.buckets),
            decreases v0.jobs.len() - j,
        {
            let ghost cur = self@;
            assert(cur.jobs[j as int] == v0.jobs[j as int]);
            if self.jobs[j].result.is_none() {
                let b = self.jobs[j].batch;
                proof {
                    lemma_same_content(cur.buckets, v0.buckets, b);
                }
                let (drained, count, share) = self.batch_summary(b);
                if drained && count >= min {
                    assert(completes_now(v0, j as int));
                    proof {
                        assert forall|i: int| 0 <= i < cur.buckets.len() && #[trigger] covers(b, cur.buckets[i].key)
                            implies !cur.buckets[i].collected && cur.buckets[i].times_collected == 0 by {
                            assert(cur.buckets[i].key == v0.buckets[i].key);
                            if marked_by(v0, j as int, v0.buckets[i].key) {
                                let k = choose|k: int| 0 <= k < j && completes_now(v0, k) && #[trigger] covers(v0.jobs[k].batch, v0.buckets[i].key);
                                lemma_covers_overlap(v0.jobs[k].batch, b, v0.buckets[i].key);
                                assert(!overlaps(v0.jobs[k].batch, v0.jobs[j as int].batch));
                            }
                            lemma_pending_job_uncollected(v0, j as int, i);
                        }
                        lemma_collected_le_total(w.buckets);
                    }
                    self.mark_batch(b);
                    self.jobs[j].result = Some(Collection { report_count: count, agg_share: share, batch: b });
                    proof {
                        assert forall|i: int| 0 <= i < v0.buckets.len() implies #[trigger] self@.buckets[i] == (if marked_by(v0, j + 1, v0.buckets[i].key) {
                            mark_collected(v0.buckets[i])
                        } else {
                            v0.buckets[i]
                        }) by {
                            let key = v0.buckets[i].key;
                            assert(cur.buckets[i].key == key);
                            if covers(b, key) {
                                assert(marked_by(v0, j + 1, key));
                                if marked_by(v0, j as int, key) {
                                    let k = choose|k: int| 0 <= k < j && completes_now(v0, k) && #[trigger] covers(v0.jobs[k].batch, key);
                                    lemma_covers_overlap(v0.jobs[k].batch, b, key);
                                    assert(!overlaps(v0.jobs[k].batch, v0.jobs[j as int].batch));
                                }
                            } else {
                                if marked_by(v0, j + 1, key) {
                                    let k = choose|k: int| 0 <= k < j + 1 && completes_now(v0, k) && #[trigger] covers(v0.jobs[k].batch, key);
                                    assert(k < j);
                                }
                            }
                        }
                        assert(same_content(self@.buckets, v0.buckets));
                        lemma_same_content(self@.buckets, v0.buckets, b);
                        lemma_collected_le_total(self@.buckets);
                    }
                    collected = collected + count;
                    assert(self@.jobs[j as int] == w.jobs[j as int]);
                    assert(self@.jobs =~= cur.jobs.update(j as int, w.jobs[j as int]));
                } else {
                    proof {
                        assert(!completes_now(v0, j as int));
                        assert(w.jobs[j as int] == v0.jobs[j as int]);
                        assert forall|i: int| 0 <= i < v0.buckets.len() implies #[trigger] self@.buckets[i] == (if marked_by(v0, j + 1, v0.buckets[i].key) {
                            mark_collected(v0.buckets[i])
                        } else {
                            v0.buckets[i]
                        }) by {
                            let key = v0.buckets[i].key;
                            if marked_by(v0, j + 1, key) {
                                let k = choose|k: int| 0 <= k < j + 1 && completes_now(v0, k) && #[trigger] covers(v0.jobs[k].batch, key);
                                assert(k < j);
                            }
                        }
                    }
                }
            } else {
                proof {
                    assert(!completes_now(v0, j as int));
                    assert(w.jobs[j as int] == v0.jobs[j as int]);
                    assert forall|i: int| 0 <= i < v0.buckets.len() implies #[trigger] self@.buckets[i] == (if marked_by(v0, j + 1, v0.buckets[i].key) {
                        mark_collected(v0.buckets[i])
                    } else {
                        v0.buckets[i]
                    }) by {
                        let key = v0.buckets[i].key;
                        if marked_by(v0, j + 1, key) {
                            let k = choose|k: int| 0 <= k < j + 1 && completes_now(v0, k) && #[trigger] covers(v0.jobs[k].batch, key);
                            assert(k < j);
                        }
                    }
                }
            }
            j = j + 1;
        }
        assert(self@.jobs =~= w.jobs);
        assert(self@.buckets =~= w.buckets);
        collected
    }

    /// Runs one aggregation job over the pool of a fixed-size task.
    fn pool_job(&mut self, max_reports: u64)
        requires
            old(self)@.wf(),
            old(self)@.config.query_type == QueryType::FixedSize,
            old(self)@.pool.len() > 0,
            max_reports > 0,
        ensures
            final(self)@.wf(),
            final(self)@ == pool_job(old(self)@, max_reports),
    {
        let ghost v0 = self@;
        let open = self.has_open_batch();
        let len = self.buckets.len();
        let min = self.config.min_batch_size;
        let plen = self.pool.len();
        let room: u64 = if min == 0 {
            plen as u64
        } else if open {
            min - self.buckets[len - 1].aggregated
        } else {
            min
        };
        let mut n: usize = if (max_reports as u128) < (plen as u128) { max_reports as usize } else { plen };
        if (room as u128) < (n as u128) {
            n = room as usize;
        }
        assert(n == pool_job_size(v0, max_reports));
        let ghost start: u64 = if open { v0.buckets.last().share } else { 0 };
        let mut acc: u64 = if open { self.buckets[len - 1].share } else { 0 };
        let mut k: usize = 0;
        while k < n
            invariant
                0 <= k <= n,
                n <= v0.pool.len(),
                self@ == v0,
                acc == add_shares(start, v0.pool.subrange(0, k as int)),
            decreases n - k,
        {
            proof { lemma_add_shares_step(start, v0.pool, k as int); }
            acc = acc.wrapping_add(self.pool[k]);
            k = k + 1;
        }
        let rest = self.pool.split_off(n);
        self.pool = rest;
        let ghost v1 = pool_job(v0, max_reports);
        if open {
            proof {
                lemma_size_le_total(v0.buckets, len - 1);
                let last = v0.buckets.last();
                lemma_total_update(v0.buckets, len - 1, v1.buckets.last());
            }
            self.buckets[len - 1].aggregated = self.buckets[len - 1].aggregated + n as u64;
            self.buckets[len - 1].share = acc;
            assert(self@.buckets =~= v1.buckets);
        } else {
            self.buckets.push(Bucket {
                key: BucketKey::Batch(BatchId(self.next_batch)),
                pending: Vec::new(),
                aggregated: n as u64,
                share: acc,
                collected: false,
                times_collected: 0,
            });
            self.next_batch = self.buckets.len() as u64;
            proof {
                lemma_total_push(v0.buckets, v1.buckets.last());
            }
            assert(self@.buckets =~= v1.buckets);
        }
        assert(self@.pool =~= v1.pool);
        proof {
            assert forall|a: int| 0 <= a < self@.buckets.len() implies #[trigger] bucket_ok(self@.config, a, self@.buckets[a]) by {
                if a < v0.buckets.len() {
                    assert(bucket_ok(v0.config, a, v0.buckets[a]));
                }
            }
            assert forall|a: int, c: int|
                #![trigger self@.buckets[a], self@.buckets[c]]
                0 <= a < c < self@.buckets.len() implies self@.buckets[a].key != self@.buckets[c].key by {
                assert(bucket_ok(self@.config, a, self@.buckets[a]));
                assert(bucket_ok(self@.config, c, self@.buckets[c]));
            }
            assert forall|a: int| 0 <= a < self@.buckets.len() && (#[trigger] self@.buckets[a]).collected
                implies collected_by_job(self@.jobs, self@.buckets[a].key) by {
                assert(v0.buckets[a].collected && v0.buckets[a].key == self@.buckets[a].key);
            }
        }
    }

    /// The position of the bucket with this key, if there is one.
    fn find_bucket(&self, key: BucketKey) -> (r: Option<usize>)
        requires
            self@.wf(),
        ensures
            match r {
                Some(i) => self@.has_bucket(key) && i as int == self@.bucket_index(key)
                    && self@.buckets[i as int].key == key,
                None => !self@.has_bucket(key),
            },
    {
        let mut i: usize = 0;
        while i < self.buckets.len()
            invariant
                0 <= i <= self.buckets@.len(),
                self@.wf(),
                forall|j: int| 0 <= j < i ==> self@.buckets[j].key != key,
            decreases self.buckets@.len() - i,
        {
            if self.buckets[i].key == key {
                assert(self@.buckets[i as int].key == key);
                proof {
                    let k = self@.bucket_index(key);
                    assert(self@.buckets[k].key == key);
                    if k < i {
                        assert(self@.buckets[k].key != self@.buckets[i as int].key);
                    } else if k > i {
                        assert(self@.buckets[i as int].key != self@.buckets[k].key);
                    }
                }
                return Some(i);
            }
            i = i + 1;
        }
        None
    }
}

} // verus!

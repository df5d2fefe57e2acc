//! Proofs about the model of a task's state: the accounting facts the
//! operations rely on, that each operation keeps the state valid, and the
//! properties the Aggregator guarantees across operations.

use vstd::prelude::*;
use crate::messages::{BatchId, CollectError, Collection, CollectionJobId, Interval, PollResult, ProcessLimits, Query, QueryType, ReportId, ResolvedBatch, UploadError};
use crate::model::{busy_before, BucketKey, BucketView, TaskView, add_shares, aggregate_pool, aggregate_slices, aggregated, assigned_total, batch_drained, bucket_ok, bucket_size, collected_by_job, collected_total, complete_jobs, completes_now, covered_count, covered_share, covers, has_open_batch, job_ok, keeps_results, marked_by, overlaps, pending_total, pool_job, pool_job_size, processed, query_valid, same_content, same_request, slice_job_size, waiting};

verus! {

/// Replacing a bucket changes the waiting total by the difference.
pub(crate) proof fn lemma_pending_update(bs: Seq<BucketView>, i: int, b: BucketView)
    requires
        0 <= i < bs.len(),
    ensures
        pending_total(bs.update(i, b)) + bs[i].pending.len() == pending_total(bs) + b.pending.len(),
    decreases bs.len(),
{
    if i == bs.len() - 1 {
        assert(bs.update(i, b).drop_last() =~= bs.drop_last());
    } else {
        lemma_pending_update(bs.drop_last(), i, b);
        assert(bs.update(i, b).drop_last() =~= bs.drop_last().update(i, b));
    }
}

/// No bucket holds more reports than all of them together.
pub(crate) proof fn lemma_size_le_total(bs: Seq<BucketView>, i: int)
    requires
        0 <= i < bs.len(),
    ensures
        bucket_size(bs[i]) <= assigned_total(bs),
    decreases bs.len(),
{
    if i < bs.len() - 1 {
        lemma_size_le_total(bs.drop_last(), i);
    }
}

/// Waiting reports are among the reports the buckets account for.
pub(crate) proof fn lemma_pending_le_total(bs: Seq<BucketView>)
    ensures
        pending_total(bs) <= assigned_total(bs),
    decreases bs.len(),
{
    if bs.len() > 0 {
        lemma_pending_le_total(bs.drop_last());
    }
}

/// Adding the shares of a prefix one more element long.
pub(crate) proof fn lemma_add_shares_step(acc: u64, s: Seq<u64>, k: int)
    requires
        0 <= k < s.len(),
    ensures
        add_shares(acc, s.subrange(0, k + 1)) == add_shares(acc, s.subrange(0, k)).wrapping_add(s[k]),
{
    assert(s.subrange(0, k + 1).drop_last() =~= s.subrange(0, k));
}

/// A key covered by two batches makes them overlap.
pub(crate) proof fn lemma_covers_overlap(a: ResolvedBatch, b: ResolvedBatch, key: BucketKey)
    requires
        covers(a, key),
        covers(b, key),
    ensures
        overlaps(a, b),
{
}

/// Summaries of a batch ignore whether buckets were collected.
pub(crate) proof fn lemma_same_content(a: Seq<BucketView>, c: Seq<BucketView>, b: ResolvedBatch)
    requires
        same_content(a, c),
    ensures
        covered_count(a, b) == covered_count(c, b),
        covered_share(a, b) == covered_share(c, b),
        batch_drained(a, b) == batch_drained(c, b),
        assigned_total(a) == assigned_total(c),
    decreases a.len(),
{
    if a.len() > 0 {
        assert(a.last() == a[a.len() - 1]);
        assert(same_content(a.drop_last(), c.drop_last()));
        lemma_same_content(a.drop_last(), c.drop_last(), b);
    }
    if batch_drained(a, b) {
        assert forall|i: int| 0 <= i < c.len() && #[trigger] covers(b, c[i].key) implies c[i].pending.len() == 0 by {
            assert(a[i].key == c[i].key);
        }
    }
    if batch_drained(c, b) {
        assert forall|i: int| 0 <= i < a.len() && #[trigger] covers(b, a[i].key) implies a[i].pending.len() == 0 by {
            assert(a[i].key == c[i].key);
        }
    }
}

/// The buckets of a batch hold no more than all buckets.
pub(crate) proof fn lemma_covered_le_total(bs: Seq<BucketView>, b: ResolvedBatch)
    ensures
        covered_count(bs, b) <= assigned_total(bs),
    decreases bs.len(),
{
    if bs.len() > 0 {
        lemma_covered_le_total(bs.drop_last(), b);
    }
}

/// The collected buckets hold no more than all buckets.
pub(crate) proof fn lemma_collected_le_total(bs: Seq<BucketView>)
    ensures
        collected_total(bs) <= assigned_total(bs),
    decreases bs.len(),
{
    if bs.len() > 0 {
        lemma_collected_le_total(bs.drop_last());
    }
}

/// Collecting a bucket adds its reports to the collected total.
pub(crate) proof fn lemma_collected_update(bs: Seq<BucketView>, i: int, nb: BucketView)
    requires
        0 <= i < bs.len(),
    ensures
        collected_total(bs.update(i, nb)) + (if bs[i].collected { bs[i].aggregated as nat } else { 0nat })
            == collected_total(bs) + (if nb.collected { nb.aggregated as nat } else { 0nat }),
    decreases bs.len(),
{
    if i == bs.len() - 1 {
        assert(bs.update(i, nb).drop_last() =~= bs.drop_last());
    } else {
        lemma_collected_update(bs.drop_last(), i, nb);
        assert(bs.update(i, nb).drop_last() =~= bs.drop_last().update(i, nb));
    }
}

/// The covered count of a prefix one bucket longer.
pub(crate) proof fn lemma_covered_step(bs: Seq<BucketView>, b: ResolvedBatch, k: int)
    requires
        0 <= k < bs.len(),
    ensures
        covered_count(bs.subrange(0, k + 1), b) == covered_count(bs.subrange(0, k), b)
            + (if covers(b, bs[k].key) { bs[k].aggregated as nat } else { 0nat }),
        covered_share(bs.subrange(0, k + 1), b) == (if covers(b, bs[k].key) {
            covered_share(bs.subrange(0, k), b).wrapping_add(bs[k].share)
        } else {
            covered_share(bs.subrange(0, k), b)
        }),
{
    assert(bs.subrange(0, k + 1).drop_last() =~= bs.subrange(0, k));
}

/// A prefix of the buckets holds no more than all of them.
pub(crate) proof fn lemma_total_prefix(bs: Seq<BucketView>, k: int)
    requires
        0 <= k <= bs.len(),
    ensures
        assigned_total(bs.subrange(0, k)) <= assigned_total(bs),
    decreases bs.len(),
{
    if k == bs.len() {
        assert(bs.subrange(0, k) =~= bs);
    } else {
        lemma_total_prefix(bs.drop_last(), k);
        assert(bs.drop_last().subrange(0, k) =~= bs.subrange(0, k));
    }
}

/// A job that is pending covers no collected bucket.
pub(crate) proof fn lemma_pending_job_uncollected(v: TaskView, j: int, i: int)
    requires
        v.wf(),
        0 <= j < v.jobs.len(),
        v.jobs[j].result is None,
        0 <= i < v.buckets.len(),
        covers(v.jobs[j].batch, v.buckets[i].key),
    ensures
        !v.buckets[i].collected,
{
    if v.buckets[i].collected {
        assert(collected_by_job(v.jobs, v.buckets[i].key));
        let k = choose|k: int| 0 <= k < v.jobs.len() && v.jobs[k].result is Some && #[trigger] covers(v.jobs[k].batch, v.buckets[i].key);
        lemma_covers_overlap(v.jobs[k].batch, v.jobs[j].batch, v.buckets[i].key);
        if k < j {
            assert(!overlaps(v.jobs[k].batch, v.jobs[j].batch));
        } else {
            lemma_covers_overlap(v.jobs[j].batch, v.jobs[k].batch, v.buckets[i].key);
            assert(!overlaps(v.jobs[j].batch, v.jobs[k].batch));
        }
    }
}

/// Completing the jobs that can complete keeps a task's state valid.
pub(crate) proof fn lemma_complete_wf(v: TaskView)
    requires
        v.wf(),
    ensures
        complete_jobs(v).wf(),
        same_content(complete_jobs(v).buckets, v.buckets),
        keeps_results(v, complete_jobs(v)),
{
    let w = complete_jobs(v);
    assert(same_content(w.buckets, v.buckets));
    lemma_same_content(w.buckets, v.buckets, ResolvedBatch::Batch { id: BatchId(0) });
    assert forall|i: int, j: int|
        #![trigger w.buckets[i], w.buckets[j]]
        0 <= i < j < w.buckets.len() implies w.buckets[i].key != w.buckets[j].key by {
        assert(w.buckets[i].key == v.buckets[i].key && w.buckets[j].key == v.buckets[j].key);
    }
    assert forall|i: int| 0 <= i < w.buckets.len() implies #[trigger] bucket_ok(w.config, i, w.buckets[i]) by {
        assert(bucket_ok(v.config, i, v.buckets[i]));
    }
    assert forall|i: int, j: int|
        #![trigger w.jobs[i], w.jobs[j]]
        0 <= i < j < w.jobs.len() implies !overlaps(w.jobs[i].batch, w.jobs[j].batch)
            && !same_request(w.jobs[i], w.jobs[j].query, w.jobs[j].agg_param) by {
        assert(!overlaps(v.jobs[i].batch, v.jobs[j].batch));
        assert(!same_request(v.jobs[i], v.jobs[j].query, v.jobs[j].agg_param));
    }
    assert forall|j: int| 0 <= j < w.jobs.len() implies #[trigger] job_ok(w.config, w.jobs[j]) by {
        assert(job_ok(v.config, v.jobs[j]));
        if completes_now(v, j) {
            lemma_covered_le_total(v.buckets, v.jobs[j].batch);
        }
    }
    assert forall|i: int| 0 <= i < w.buckets.len() && (#[trigger] w.buckets[i]).collected
        implies collected_by_job(w.jobs, w.buckets[i].key) by {
        let key = v.buckets[i].key;
        if marked_by(v, v.jobs.len() as int, key) {
            let j = choose|j: int| 0 <= j < v.jobs.len() && completes_now(v, j) && #[trigger] covers(v.jobs[j].batch, key);
            assert(w.jobs[j].result is Some && covers(w.jobs[j].batch, key));
        } else {
            assert(collected_by_job(v.jobs, key));
            let j = choose|j: int| 0 <= j < v.jobs.len() && v.jobs[j].result is Some && #[trigger] covers(v.jobs[j].batch, key);
            assert(w.jobs[j] == v.jobs[j]);
        }
    }
    assert forall|i: int| 0 <= i < w.buckets.len() implies (#[trigger] w.buckets[i]).times_collected == (if w.buckets[i].collected { 1u64 } else { 0u64 }) by {
        let key = v.buckets[i].key;
        assert(v.buckets[i].times_collected == (if v.buckets[i].collected { 1u64 } else { 0u64 }));
        if marked_by(v, v.jobs.len() as int, key) {
            let j = choose|j: int| 0 <= j < v.jobs.len() && completes_now(v, j) && #[trigger] covers(v.jobs[j].batch, key);
            lemma_pending_job_uncollected(v, j, i);
        }
    }
}

/// Buckets with nothing waiting have nothing waiting together.
pub(crate) proof fn lemma_pending_zero(bs: Seq<BucketView>)
    requires
        forall|i: int| 0 <= i < bs.len() ==> (#[trigger] bs[i]).pending.len() == 0,
    ensures
        pending_total(bs) == 0,
    decreases bs.len(),
{
    if bs.len() > 0 {
        assert(bs.last() == bs[bs.len() - 1]);
        lemma_pending_zero(bs.drop_last());
    }
}

/// Aggregating the pool leaves the jobs, the configuration and the ledger
/// alone.
pub(crate) proof fn lemma_pool_keeps_jobs(v: TaskView, jobs: nat, max_reports: u64)
    ensures
        aggregate_pool(v, jobs, max_reports).jobs == v.jobs,
        aggregate_pool(v, jobs, max_reports).config == v.config,
        aggregate_pool(v, jobs, max_reports).seen == v.seen,
    decreases jobs,
{
    if !(jobs == 0 || v.pool.len() == 0 || max_reports == 0) {
        lemma_pool_keeps_jobs(pool_job(v, max_reports), (jobs - 1) as nat, max_reports);
    }
}

/// Appending a bucket adds its size to the total.
pub(crate) proof fn lemma_total_push(bs: Seq<BucketView>, b: BucketView)
    ensures
        assigned_total(bs.push(b)) == assigned_total(bs) + bucket_size(b),
{
    assert(bs.push(b).drop_last() =~= bs);
}

/// Replacing a bucket changes the total by the difference of sizes.
pub(crate) proof fn lemma_total_update(bs: Seq<BucketView>, i: int, b: BucketView)
    requires
        0 <= i < bs.len(),
    ensures
        assigned_total(bs.update(i, b)) + bucket_size(bs[i]) == assigned_total(bs) + bucket_size(b),
    decreases bs.len(),
{
    if i == bs.len() - 1 {
        assert(bs.update(i, b).drop_last() =~= bs.drop_last());
    } else {
        lemma_total_update(bs.drop_last(), i, b);
        assert(bs.update(i, b).drop_last() =~= bs.drop_last().update(i, b));
    }
}


/// Buckets of the same sizes, position by position, hold as many reports.
pub(crate) proof fn lemma_total_same_sizes(a: Seq<BucketView>, b: Seq<BucketView>)
    requires
        a.len() == b.len(),
        forall|i: int| 0 <= i < a.len() ==> bucket_size(#[trigger] a[i]) == bucket_size(b[i]),
    ensures
        assigned_total(a) == assigned_total(b),
    decreases a.len(),
{
    if a.len() > 0 {
        assert(a.last() == a[a.len() - 1] && b.last() == b[b.len() - 1]);
        lemma_total_same_sizes(a.drop_last(), b.drop_last());
    }
}

/// A round of aggregation jobs over time slices keeps a task's state valid.
pub(crate) proof fn lemma_slices_wf(v: TaskView, lim: ProcessLimits)
    requires
        v.wf(),
    ensures
        (TaskView { buckets: aggregate_slices(v.buckets, lim), ..v }).wf(),
{
    let w = TaskView { buckets: aggregate_slices(v.buckets, lim), ..v };
    assert forall|i: int| 0 <= i < v.buckets.len() implies bucket_size(#[trigger] w.buckets[i]) == bucket_size(v.buckets[i])
        && w.buckets[i].key == v.buckets[i].key && w.buckets[i].collected == v.buckets[i].collected
        && w.buckets[i].times_collected == v.buckets[i].times_collected by {
        lemma_size_le_total(v.buckets, i);
    }
    lemma_total_same_sizes(w.buckets, v.buckets);
    assert forall|a: int, c: int|
        #![trigger w.buckets[a], w.buckets[c]]
        0 <= a < c < w.buckets.len() implies w.buckets[a].key != w.buckets[c].key by {
        assert(v.buckets[a].key != v.buckets[c].key);
    }
    assert forall|a: int| 0 <= a < w.buckets.len() implies #[trigger] bucket_ok(w.config, a, w.buckets[a]) by {
        assert(bucket_ok(v.config, a, v.buckets[a]));
        if v.buckets[a].pending.len() == 0 {
            assert(slice_job_size(v.buckets, a, lim) == 0);
        }
    }
    assert forall|a: int| 0 <= a < w.buckets.len() && (#[trigger] w.buckets[a]).collected
        implies collected_by_job(w.jobs, w.buckets[a].key) by {
        assert(v.buckets[a].collected);
    }
    assert forall|a: int| 0 <= a < w.buckets.len() implies (#[trigger] w.buckets[a]).times_collected == (if w.buckets[a].collected { 1u64 } else { 0u64 }) by {
        assert(v.buckets[a].times_collected == (if v.buckets[a].collected { 1u64 } else { 0u64 }));
    }
}

/// One aggregation job over the pool keeps a task's state valid, and
/// takes at least one report.
pub(crate) proof fn lemma_pool_job_wf(v: TaskView, m: u64)
    requires
        v.wf(),
        v.config.query_type == QueryType::FixedSize,
        v.pool.len() > 0,
        m > 0,
    ensures
        pool_job(v, m).wf(),
        pool_job(v, m).pool.len() < v.pool.len(),
        pool_job(v, m).config == v.config,
{
    let w = pool_job(v, m);
    let n = pool_job_size(v, m);
    assert(n >= 1);
    let len = v.buckets.len() as int;
    if has_open_batch(v) {
        lemma_size_le_total(v.buckets, len - 1);
        lemma_total_update(v.buckets, len - 1, w.buckets[len - 1]);
        assert(w.buckets[len - 1].key == v.buckets[len - 1].key);
    } else {
        lemma_total_push(v.buckets, w.buckets[len]);
    }
    assert forall|a: int| 0 <= a < w.buckets.len() implies #[trigger] bucket_ok(w.config, a, w.buckets[a]) by {
        if a < len {
            assert(bucket_ok(v.config, a, v.buckets[a]));
        }
    }
    assert forall|a: int, c: int|
        #![trigger w.buckets[a], w.buckets[c]]
        0 <= a < c < w.buckets.len() implies w.buckets[a].key != w.buckets[c].key by {
        assert(bucket_ok(w.config, a, w.buckets[a]));
        assert(bucket_ok(w.config, c, w.buckets[c]));
    }
    assert forall|a: int| 0 <= a < w.buckets.len() && (#[trigger] w.buckets[a]).collected
        implies collected_by_job(w.jobs, w.buckets[a].key) by {
        assert(v.buckets[a].collected && v.buckets[a].key == w.buckets[a].key);
    }
    assert forall|a: int| 0 <= a < w.buckets.len() implies (#[trigger] w.buckets[a]).times_collected == (if w.buckets[a].collected { 1u64 } else { 0u64 }) by {
        if a < len {
            assert(v.buckets[a].times_collected == (if v.buckets[a].collected { 1u64 } else { 0u64 }));
        }
    }
}

/// Aggregating the pool keeps a task's state valid.
pub(crate) proof fn lemma_aggregate_pool_wf(v: TaskView, jobs: nat, m: u64)
    requires
        v.wf(),
        v.config.query_type == QueryType::FixedSize,
    ensures
        aggregate_pool(v, jobs, m).wf(),
    decreases jobs,
{
    if !(jobs == 0 || v.pool.len() == 0 || m == 0) {
        lemma_pool_job_wf(v, m);
        lemma_aggregate_pool_wf(pool_job(v, m), (jobs - 1) as nat, m);
    }
}

/// A run of the scheduler keeps a task's state valid.
pub proof fn lemma_processed_wf(v: TaskView, lim: ProcessLimits)
    requires
        v.wf(),
    ensures
        aggregated(v, lim).wf(),
        processed(v, lim).wf(),
{
    match v.config.query_type {
        QueryType::TimeInterval => lemma_slices_wf(v, lim),
        QueryType::FixedSize => lemma_aggregate_pool_wf(v, lim.max_jobs as nat, lim.max_reports),
    }
    lemma_complete_wf(aggregated(v, lim));
}

/// A report id is accepted once: an upload of a fresh, timely report
/// succeeds, and any later upload with the same id is refused as a replay.
pub proof fn lemma_replay_rejected(v: TaskView, id: ReportId, time: u64, share: u64, time2: u64)
    requires
        v.wf(),
        !v.seen.contains(id),
        time <= v.config.expiration,
        time2 <= v.config.expiration,
    ensures
        v.upload_outcome(id, time) == Ok::<(), UploadError>(()),
        v.with_report(id, time, share).upload_outcome(id, time2) == Err::<(), UploadError>(UploadError::ReportRejected),
{
    let w = v.with_report(id, time, share);
    assert(w.seen == v.seen.push(id));
    assert(w.seen[v.seen.len() as int] == id);
}

/// A report whose timestamp is past the task's expiration is refused as
/// too late, whatever the state of the task.
pub proof fn lemma_late_report_refused(v: TaskView, id: ReportId, time: u64)
    requires
        time > v.config.expiration,
    ensures
        v.upload_outcome(id, time) == Err::<(), UploadError>(UploadError::ReportTooLate),
{
}

/// With no report waiting, a round of aggregation changes nothing.
pub(crate) proof fn lemma_aggregated_idle(v: TaskView, lim: ProcessLimits)
    requires
        v.wf(),
        waiting(v) == 0,
    ensures
        aggregated(v, lim) == v,
{
    match v.config.query_type {
        QueryType::TimeInterval => {
            assert forall|i: int| 0 <= i < v.buckets.len() implies (#[trigger] v.buckets[i]).pending.len() == 0 by {
                lemma_pending_single(v.buckets, i);
            }
            let a = aggregate_slices(v.buckets, lim);
            assert forall|i: int| 0 <= i < v.buckets.len() implies a[i] == v.buckets[i] by {
                let b = v.buckets[i];
                assert(b.pending.subrange(0, 0) =~= Seq::<u64>::empty());
                assert(b.pending.subrange(0, b.pending.len() as int) =~= b.pending);
            }
            assert(a =~= v.buckets);
        },
        QueryType::FixedSize => {},
    }
}

/// A bucket's waiting reports are among all waiting reports.
pub(crate) proof fn lemma_pending_single(bs: Seq<BucketView>, i: int)
    requires
        0 <= i < bs.len(),
    ensures
        bs[i].pending.len() <= pending_total(bs),
    decreases bs.len(),
{
    if i < bs.len() - 1 {
        lemma_pending_single(bs.drop_last(), i);
    }
}

/// Once the scheduler has left no report waiting, running it again, with
/// any limits, aggregates nothing, completes nothing and changes nothing.
pub proof fn lemma_process_idempotent(v: TaskView, lim: ProcessLimits, lim2: ProcessLimits)
    requires
        v.wf(),
        waiting(processed(v, lim)) == 0,
    ensures
        aggregated(processed(v, lim), lim2) == processed(v, lim),
        processed(processed(v, lim), lim2) == processed(v, lim),
        waiting(processed(v, lim)) - waiting(aggregated(processed(v, lim), lim2)) == 0,
        collected_total(processed(processed(v, lim), lim2).buckets)
            - collected_total(aggregated(processed(v, lim), lim2).buckets) == 0,
{
    lemma_processed_wf(v, lim);
    let a = aggregated(v, lim);
    let w = complete_jobs(a);
    assert(same_content(w.buckets, a.buckets));
    lemma_aggregated_idle(w, lim2);
    assert forall|j: int| 0 <= j < w.jobs.len() implies !completes_now(w, j) by {
        if completes_now(a, j) {
            assert(w.jobs[j].result is Some);
        } else {
            lemma_same_content(w.buckets, a.buckets, a.jobs[j].batch);
        }
    }
    let w2 = complete_jobs(w);
    assert forall|i: int| 0 <= i < w.buckets.len() implies w2.buckets[i] == w.buckets[i] by {
        if marked_by(w, w.jobs.len() as int, w.buckets[i].key) {
            let j = choose|j: int| 0 <= j < w.jobs.len() && completes_now(w, j) && #[trigger] covers(w.jobs[j].batch, w.buckets[i].key);
        }
    }
    assert(w2.buckets =~= w.buckets);
    assert(w2.jobs =~= w.jobs);
}

/// A fixed-size task whose scheduler may run one job of one report
/// aggregates exactly one waiting report per run as long as any wait, and
/// none once none wait.
pub proof fn lemma_fixed_size_drains_one(v: TaskView)
    requires
        v.wf(),
        v.config.query_type == QueryType::FixedSize,
    ensures
        waiting(v) > 0 ==> waiting(v) - waiting(aggregated(v, ProcessLimits { max_jobs: 1, max_reports: 1 })) == 1,
        waiting(v) == 0 ==> waiting(v) - waiting(aggregated(v, ProcessLimits { max_jobs: 1, max_reports: 1 })) == 0,
{
    let lim = ProcessLimits { max_jobs: 1, max_reports: 1 };
    assert forall|i: int| 0 <= i < v.buckets.len() implies (#[trigger] v.buckets[i]).pending.len() == 0 by {
        assert(bucket_ok(v.config, i, v.buckets[i]));
    }
    lemma_pending_zero(v.buckets);
    if waiting(v) == 0 {
        lemma_aggregated_idle(v, lim);
    } else {
        let w = pool_job(v, 1);
        assert(pool_job_size(v, 1) == 1);
        assert(aggregate_pool(w, 0, 1) == w);
        assert forall|i: int| 0 <= i < w.buckets.len() implies (#[trigger] w.buckets[i]).pending.len() == 0 by {
            if i < v.buckets.len() {
                assert(v.buckets[i].pending.len() == 0);
            }
        }
        lemma_pending_zero(w.buckets);
    }
}

/// A complete job keeps its result: every poll after the first that found
/// it ready finds the same result.
pub proof fn lemma_result_stable(a: TaskView, b: TaskView, id: CollectionJobId, c: Collection)
    requires
        keeps_results(a, b),
        a.poll_outcome(id) == Ok::<PollResult, CollectError>(PollResult::Ready(c)),
    ensures
        b.poll_outcome(id) == Ok::<PollResult, CollectError>(PollResult::Ready(c)),
{
    assert(a.jobs[id.0 as int].result is Some);
}

/// Keeping results is transitive, so it holds over any run of operations.
pub proof fn lemma_keeps_results_trans(a: TaskView, b: TaskView, c: TaskView)
    requires
        keeps_results(a, b),
        keeps_results(b, c),
    ensures
        keeps_results(a, c),
{
}

/// Submitting the very same collect request again, right after it was
/// accepted, returns the same job handle.
pub proof fn lemma_same_request_same_job(v: TaskView, q: Query, agg_param: Seq<u8>)
    requires
        v.wf(),
        v.submit_outcome(q, agg_param) is Ok,
    ensures
        v.after_submit(q, agg_param).submit_outcome(q, agg_param) == v.submit_outcome(q, agg_param),
{
    let w = v.after_submit(q, agg_param);
    assert(w.buckets == v.buckets && w.config == v.config);
    assert forall|i: int| w.is_current(i) == v.is_current(i) by {}
    assert(w.current_batch() == v.current_batch());
    assert(w.resolve(q) == v.resolve(q));
    if !v.has_request(q, agg_param) {
        let n = v.jobs.len() as int;
        assert(same_request(w.jobs[n], q, agg_param));
        assert(w.has_request(q, agg_param));
        let j = choose|j: int| 0 <= j < w.jobs.len() && same_request(w.jobs[j], q, agg_param);
        if j < n {
            assert(w.jobs[j] == v.jobs[j]);
        }
    }
}

/// A collect request that differs from every earlier one but resolves to
/// a batch sharing a bucket with an existing job is refused with
/// `BatchOverlap`.
pub proof fn lemma_overlap_refused(v: TaskView, q: Query, agg_param: Seq<u8>, j: int)
    requires
        query_valid(v.config, q),
        !v.has_request(q, agg_param),
        v.resolve(q) is Ok,
        0 <= j < v.jobs.len(),
        overlaps(v.jobs[j].batch, v.resolve(q)->Ok_0),
    ensures
        v.submit_outcome(q, agg_param) == Err::<CollectionJobId, CollectError>(CollectError::BatchOverlap),
{
}

/// A time-interval collect request whose start or duration is not a
/// multiple of the time precision is refused with `BatchInvalid`, whatever
/// the state of the task.
pub proof fn lemma_misaligned_refused(v: TaskView, iv: Interval, agg_param: Seq<u8>)
    requires
        iv.start % v.config.time_precision != 0 || iv.duration % v.config.time_precision != 0,
    ensures
        v.submit_outcome(Query::TimeInterval { batch_interval: iv }, agg_param)
            == Err::<CollectionJobId, CollectError>(CollectError::BatchInvalid),
{
}

/// Waiting counts that grow nowhere do not grow together, and shrink
/// together when they shrink at position `k`.
pub(crate) proof fn lemma_pending_shrinks(a: Seq<BucketView>, b: Seq<BucketView>, k: int)
    requires
        a.len() == b.len(),
        forall|i: int| 0 <= i < a.len() ==> (#[trigger] b[i]).pending.len() <= a[i].pending.len(),
    ensures
        pending_total(b) <= pending_total(a),
        0 <= k < a.len() && b[k].pending.len() < a[k].pending.len() ==> pending_total(b) < pending_total(a),
    decreases a.len(),
{
    if a.len() > 0 {
        let n = a.len() - 1;
        assert(b.last() == b[n] && a.last() == a[n]);
        assert forall|i: int| 0 <= i < n implies (#[trigger] b.drop_last()[i]).pending.len() <= a.drop_last()[i].pending.len() by {
            assert(b.drop_last()[i] == b[i] && a.drop_last()[i] == a[i]);
        }
        lemma_pending_shrinks(a.drop_last(), b.drop_last(), k);
        if 0 <= k < n {
            assert(b.drop_last()[k] == b[k] && a.drop_last()[k] == a[k]);
        }
    }
}

/// Counting busy buckets before position `k` looks only at positions
/// before `k`.
pub(crate) proof fn lemma_busy_before_prefix(bs: Seq<BucketView>, k: int)
    requires
        0 <= k < bs.len(),
    ensures
        busy_before(bs, k) == busy_before(bs.drop_last(), k),
    decreases k,
{
    if k > 0 {
        lemma_busy_before_prefix(bs, k - 1);
    }
}

/// No bucket before position `k` has reports waiting, so none is busy.
pub(crate) proof fn lemma_busy_before_none(bs: Seq<BucketView>, k: int)
    requires
        0 <= k <= bs.len(),
        forall|i: int| 0 <= i < k ==> (#[trigger] bs[i]).pending.len() == 0,
    ensures
        busy_before(bs, k) == 0,
    decreases k,
{
    if k > 0 {
        lemma_busy_before_none(bs, k - 1);
    }
}

/// When reports wait, some bucket has reports waiting and none before it.
pub(crate) proof fn lemma_first_busy(bs: Seq<BucketView>) -> (k: int)
    requires
        pending_total(bs) > 0,
    ensures
        0 <= k < bs.len(),
        bs[k].pending.len() > 0,
        busy_before(bs, k) == 0,
    decreases bs.len(),
{
    let n = bs.len() - 1;
    if pending_total(bs.drop_last()) > 0 {
        let k = lemma_first_busy(bs.drop_last());
        lemma_busy_before_prefix(bs, k);
        k
    } else {
        assert forall|i: int| 0 <= i < n implies (#[trigger] bs[i]).pending.len() == 0 by {
            lemma_pending_single(bs.drop_last(), i);
            assert(bs.drop_last()[i] == bs[i]);
        }
        lemma_busy_before_none(bs, n);
        n
    }
}

/// The pool of a fixed-size task never grows under aggregation.
pub(crate) proof fn lemma_pool_shrinks(v: TaskView, jobs: nat, m: u64)
    requires
        v.wf(),
        v.config.query_type == QueryType::FixedSize,
    ensures
        aggregate_pool(v, jobs, m).pool.len() <= v.pool.len(),
        aggregate_pool(v, jobs, m).wf(),
        jobs > 0 && m > 0 && v.pool.len() > 0 ==> aggregate_pool(v, jobs, m).pool.len() < v.pool.len(),
    decreases jobs,
{
    lemma_aggregate_pool_wf(v, jobs, m);
    if !(jobs == 0 || v.pool.len() == 0 || m == 0) {
        lemma_pool_job_wf(v, m);
        lemma_pool_shrinks(pool_job(v, m), (jobs - 1) as nat, m);
    }
}

/// Whenever reports wait, a run of the scheduler that may run at least one
/// job of at least one report aggregates at least one of them.
pub proof fn lemma_drain_progress(v: TaskView, lim: ProcessLimits)
    requires
        v.wf(),
        lim.max_jobs >= 1,
        lim.max_reports >= 1,
        waiting(v) > 0,
    ensures
        waiting(aggregated(v, lim)) < waiting(v),
{
    match v.config.query_type {
        QueryType::TimeInterval => {
            let a = aggregate_slices(v.buckets, lim);
            let k = lemma_first_busy(v.buckets);
            assert(slice_job_size(v.buckets, k, lim) >= 1);
            lemma_pending_shrinks(v.buckets, a, k);
        },
        QueryType::FixedSize => {
            let w = aggregate_pool(v, lim.max_jobs as nat, lim.max_reports);
            lemma_pool_shrinks(v, lim.max_jobs as nat, lim.max_reports);
            assert forall|i: int| 0 <= i < v.buckets.len() implies (#[trigger] v.buckets[i]).pending.len() == 0 by {
                assert(bucket_ok(v.config, i, v.buckets[i]));
            }
            lemma_pending_zero(v.buckets);
            lemma_pool_keeps_jobs(v, lim.max_jobs as nat, lim.max_reports);
            assert forall|i: int| 0 <= i < w.buckets.len() implies (#[trigger] w.buckets[i]).pending.len() == 0 by {
                assert(bucket_ok(w.config, i, w.buckets[i]));
            }
            lemma_pending_zero(w.buckets);
        },
    }
}

/// No operation on a task changes a complete job: accepting a report, a
/// collect request and a run of the scheduler all keep every result.
pub proof fn lemma_operations_keep_results(
    v: TaskView,
    id: ReportId,
    time: u64,
    share: u64,
    q: Query,
    agg_param: Seq<u8>,
    lim: ProcessLimits,
)
    requires
        v.wf(),
    ensures
        keeps_results(v, v.with_report(id, time, share)),
        keeps_results(v, v.after_submit(q, agg_param)),
        keeps_results(v, processed(v, lim)),
{
    lemma_processed_wf(v, lim);
    lemma_complete_wf(aggregated(v, lim));
    if v.config.query_type == QueryType::FixedSize {
        lemma_pool_keeps_jobs(v, lim.max_jobs as nat, lim.max_reports);
    }
    assert(aggregated(v, lim).jobs == v.jobs);
    let w = v.after_submit(q, agg_param);
    assert forall|j: int| 0 <= j < v.jobs.len() && (#[trigger] v.jobs[j]).result is Some implies w.jobs[j] == v.jobs[j] by {}
}
} // verus!

//! The task directory: registered tasks and tasks provisioned on the fly
//! from a report's taskprov extension, each with its own state.

use vstd::prelude::*;
use crate::messages::{
    BatchId, CollectionJobId, CollectionReq, CollectError, Extension, PollResult, ProcessLimits,
    Report, TaskConfig, TaskId, Telemetry, UploadError, same_bytes,
};
use crate::store::TaskState;
use crate::metrics::{ContextualizedDaphneMetrics, DaphneRequestType};
use crate::model::{TaskView, keeps_results, aggregated, collected_total, fresh_task, processed, waiting};
use crate::taskprov::{compute_task_id, sha256_of, task_of, taskprov_task};

verus! {

/// A task known to the Aggregator, as a mathematical value.
pub struct TaskEntryView {
    pub id: TaskId,
    /// Whether the task was provisioned from a taskprov extension.
    pub taskprov: bool,
    pub state: TaskView,
}

struct TaskEntry {
    id: TaskId,
    taskprov: bool,
    state: TaskState,
}

impl View for TaskEntry {
    type V = TaskEntryView;

    closed spec fn view(&self) -> TaskEntryView {
        TaskEntryView { id: self.id, taskprov: self.taskprov, state: self.state@ }
    }
}

/// The Aggregator, as a mathematical value.
pub struct AggregatorView {
    pub tasks: Seq<TaskEntryView>,
    /// The longest batch interval of a task provisioned on the fly.
    pub max_batch_duration: u64,
}

/// The payloads of the taskprov extensions among `exts`, in order.
pub open spec fn taskprov_payloads(exts: Seq<Extension>) -> Seq<Seq<u8>>
    decreases exts.len(),
{
    if exts.len() == 0 {
        Seq::empty()
    } else {
        let rest = taskprov_payloads(exts.drop_last());
        match exts.last() {
            Extension::Taskprov { payload } => rest.push(payload@),
            Extension::Unhandled { .. } => rest,
        }
    }
}

/// What a task resolves to for an upload: an error, the known task
/// (`None`), or a task to provision from the report (`Some`).
pub open spec fn resolve_upload(v: AggregatorView, id: TaskId, exts: Seq<Extension>) -> Result<Option<TaskConfig>, UploadError> {
    let ps = taskprov_payloads(exts);
    if v.has_task(id) {
        if v.tasks[v.task_index(id)].taskprov && (ps.len() != 1 || sha256_of(ps[0]) != id.0@) {
            Err(UploadError::UnrecognizedMessage)
        } else {
            Ok(None)
        }
    } else if ps.len() == 0 {
        Err(UploadError::UnrecognizedTask)
    } else if ps.len() > 1 {
        Err(UploadError::UnrecognizedMessage)
    } else if sha256_of(ps[0]) != id.0@ {
        Err(UploadError::UnrecognizedTask)
    } else {
        match task_of(ps[0], v.max_batch_duration) {
            Some(c) => Ok(Some(c)),
            None => Err(UploadError::InvalidTask),
        }
    }
}

impl AggregatorView {
    pub open spec fn has_task(self, id: TaskId) -> bool {
        exists|i: int| 0 <= i < self.tasks.len() && self.tasks[i].id == id
    }

    /// The position of the task with this id.
    pub open spec fn task_index(self, id: TaskId) -> int {
        choose|i: int| 0 <= i < self.tasks.len() && self.tasks[i].id == id
    }

    /// The state of the task with this id.
    pub open spec fn task(self, id: TaskId) -> TaskView {
        self.tasks[self.task_index(id)].state
    }

    /// The Aggregator with the state of the task with this id replaced.
    pub open spec fn with_task(self, id: TaskId, t: TaskView) -> AggregatorView {
        AggregatorView {
            tasks: self.tasks.update(self.task_index(id), TaskEntryView { state: t, ..self.tasks[self.task_index(id)] }),
            ..self
        }
    }

    pub open spec fn wf(self) -> bool {
        &&& forall|i: int, j: int|
            #![trigger self.tasks[i], self.tasks[j]]
            0 <= i < j < self.tasks.len() ==> self.tasks[i].id != self.tasks[j].id
        &&& forall|i: int| 0 <= i < self.tasks.len() ==> (#[trigger] self.tasks[i]).state.wf()
    }

    /// The outcome of an upload to the task with this id.
    pub open spec fn upload_outcome(self, id: TaskId, r: ReportView) -> Result<(), UploadError> {
        match resolve_upload(self, id, r.extensions) {
            Err(e) => Err(e),
            Ok(None) => self.task(id).upload_outcome(r.id, r.time),
            Ok(Some(c)) => fresh_task(c).upload_outcome(r.id, r.time),
        }
    }

    /// The Aggregator after an accepted upload.
    pub open spec fn after_upload(self, id: TaskId, r: ReportView) -> AggregatorView {
        match resolve_upload(self, id, r.extensions) {
            Ok(Some(c)) => AggregatorView {
                tasks: self.tasks.push(
                    TaskEntryView { id, taskprov: true, state: fresh_task(c).with_report(r.id, r.time, r.share) },
                ),
                ..self
            },
            _ => self.with_task(id, self.task(id).with_report(r.id, r.time, r.share)),
        }
    }
}

/// A report, as a mathematical value.
pub struct ReportView {
    pub id: crate::messages::ReportId,
    pub time: u64,
    pub share: u64,
    pub extensions: Seq<Extension>,
}

/// The report as a mathematical value.
pub open spec fn report_view(r: Report) -> ReportView {
    ReportView { id: r.id, time: r.time, share: r.share, extensions: r.extensions@ }
}

/// The Aggregator: every task it knows, with its state.
pub struct Aggregator {
    tasks: Vec<TaskEntry>,
    max_batch_duration: u64,
}

impl View for Aggregator {
    type V = AggregatorView;

    closed spec fn view(&self) -> AggregatorView {
        AggregatorView { tasks: self.tasks@.map_values(|t: TaskEntry| t@), max_batch_duration: self.max_batch_duration }
    }
}

/// Task ids with the same bytes are the same.
proof fn lemma_id_view(a: TaskId, b: TaskId)
    requires
        a != b,
    ensures
        a.0@ != b.0@,
{
    broadcast use vstd::array::group_array_axioms;
    if a.0@ == b.0@ {
        assert forall|i: int| 0 <= i < 32 implies a.0[i] == b.0[i] by {
            assert(a.0@[i] == b.0@[i]);
        }
        assert(a.0 =~= b.0);
    }
}

/// Whether two task ids are equal.
fn same_task_id(a: &TaskId, b: &TaskId) -> (r: bool)
    ensures
        r == (*a == *b),
{
    same_bytes(&a.0, &b.0)
}

/// How many taskprov extensions are among `exts`, and the position of the
/// first.
fn find_taskprov(exts: &Vec<Extension>) -> (r: (usize, usize))
    ensures
        r.0 == taskprov_payloads(exts@).len(),
        r.0 > 0 ==> r.1 < exts@.len() && (exts@[r.1 as int] matches Extension::Taskprov { payload }
            && payload@ == taskprov_payloads(exts@)[0]),
{
    let mut n: usize = 0;
    let mut first: usize = 0;
    let mut i: usize = 0;
    while i < exts.len()
        invariant
            0 <= i <= exts@.len(),
            n == taskprov_payloads(exts@.subrange(0, i as int)).len(),
            n <= i,
            n > 0 ==> first < i && (exts@[first as int] matches Extension::Taskprov { payload }
                && payload@ == taskprov_payloads(exts@.subrange(0, i as int))[0]),
        decreases exts@.len() - i,
    {
        assert(exts@.subrange(0, i + 1).drop_last() =~= exts@.subrange(0, i as int));
        match &exts[i] {
            Extension::Taskprov { payload } => {
                if n == 0 {
                    first = i;
                }
                n = n + 1;
            },
            Extension::Unhandled { .. } => {},
        }
        i = i + 1;
    }
    assert(exts@.subrange(0, exts@.len() as int) =~= exts@);
    (n, first)
}

impl Aggregator {
    /// An Aggregator that knows no task. Tasks provisioned on the fly accept
    /// batch intervals up to `max_batch_duration`.
    pub fn new(max_batch_duration: u64) -> (r: Self)
        ensures
            r@.wf(),
            r@.tasks.len() == 0,
            r@.max_batch_duration == max_batch_duration,
    {
        let r = Aggregator { tasks: Vec::new(), max_batch_duration };
        assert(r@.tasks =~= Seq::empty());
        r
    }

    /// The position of the task with this id, if there is one.
    fn find_task(&self, id: &TaskId) -> (r: Option<usize>)
        requires
            self@.wf(),
        ensures
            match r {
                Some(i) => self@.has_task(*id) && i as int == self@.task_index(*id) && self@.tasks[i as int].id == *id,
                None => !self@.has_task(*id),
            },
    {
        let mut i: usize = 0;
        while i < self.tasks.len()
            invariant
                0 <= i <= self.tasks@.len(),
                self@.wf(),
                forall|j: int| 0 <= j < i ==> self@.tasks[j].id != *id,
            decreases self.tasks@.len() - i,
        {
            if same_task_id(&self.tasks[i].id, id) {
                proof {
                    assert(self@.tasks[i as int].id == *id);
                    let k = self@.task_index(*id);
                    if k < i {
                        assert(self@.tasks[k].id != self@.tasks[i as int].id);
                    } else if k > i {
                        assert(self@.tasks[i as int].id != self@.tasks[k].id);
                    }
                }
                return Some(i);
            }
            i = i + 1;
        }
        None
    }

    /// Registers a task. Returns false, changing nothing, when a task with
    /// this id is known already.
    pub fn add_task(&mut self, id: TaskId, config: TaskConfig) -> (r: bool)
        requires
            old(self)@.wf(),
            config.time_precision > 0,
        ensures
            final(self)@.wf(),
            r == !old(self)@.has_task(id),
            r ==> final(self)@ == (AggregatorView {
                tasks: old(self)@.tasks.push(TaskEntryView { id, taskprov: false, state: fresh_task(config) }),
                ..old(self)@
            }),
            !r ==> final(self)@ == old(self)@,
    {
        if self.find_task(&id).is_some() {
            return false;
        }
        self.push_task(id, false, TaskState::new(config));
        true
    }

    fn push_task(&mut self, id: TaskId, taskprov: bool, state: TaskState)
        requires
            old(self)@.wf(),
            !old(self)@.has_task(id),
            state@.wf(),
        ensures
            final(self)@.wf(),
            final(self)@ == (AggregatorView {
                tasks: old(self)@.tasks.push(TaskEntryView { id, taskprov, state: state@ }),
                ..old(self)@
            }),
    {
        let ghost v0 = self@;
        self.tasks.push(TaskEntry { id, taskprov, state });
        proof {
            assert(self@.tasks =~= v0.tasks.push(TaskEntryView { id, taskprov, state: state@ }));
            assert forall|i: int, j: int|
                #![trigger self@.tasks[i], self@.tasks[j]]
                0 <= i < j < self@.tasks.len() implies self@.tasks[i].id != self@.tasks[j].id by {
                if j == v0.tasks.len() {
                    assert(!(0 <= i < v0.tasks.len() && v0.tasks[i].id == id));
                } else {
                    assert(v0.tasks[i] == self@.tasks[i] && v0.tasks[j] == self@.tasks[j]);
                }
            }
            assert forall|i: int| 0 <= i < self@.tasks.len() implies (#[trigger] self@.tasks[i]).state.wf() by {
                if i < v0.tasks.len() {
                    assert(v0.tasks[i] == self@.tasks[i]);
                }
            }
        }
    }

    /// The state of the task at position `i`.
    fn task_ref(&self, i: usize) -> (r: &TaskState)
        requires
            i < self@.tasks.len(),
        ensures
            r@ == self@.tasks[i as int].state,
    {
        &self.tasks[i].state
    }

    /// Handles an upload to the task with this id. The task is resolved
    /// first: a known task, checked against its taskprov extension if it was
    /// provisioned from one, or a task provisioned from the report's one
    /// taskprov extension, whose digest must be the task id. Then the task
    /// accepts or refuses the report. A refused upload changes nothing; a
    /// provisioned task is kept once a report for it is accepted.
    pub fn upload(&mut self, task_id: &TaskId, report: &Report) -> (r: Result<(), UploadError>)
        requires
            old(self)@.wf(),
        ensures
            final(self)@.wf(),
            r == old(self)@.upload_outcome(*task_id, report_view(*report)),
            r is Ok ==> final(self)@ == old(self)@.after_upload(*task_id, report_view(*report)),
            r is Err ==> final(self)@ == old(self)@,
            old(self)@.has_task(*task_id) ==> final(self)@.has_task(*task_id)
                && keeps_results(old(self)@.task(*task_id), final(self)@.task(*task_id)),
    {
        let ghost v0 = self@;
        let (n, first) = find_taskprov(&report.extensions);
        let found = self.find_task(task_id);
        proof {
            broadcast use vstd::array::group_array_axioms;
        }
        match found {
            Some(i) => {
                if self.tasks[i].taskprov {
                    if n != 1 {
                        return Err(UploadError::UnrecognizedMessage);
                    }
                    let derived = match &report.extensions[first] {
                        Extension::Taskprov { payload } => compute_task_id(payload.as_slice()),
                        Extension::Unhandled { .. } => return Err(UploadError::UnrecognizedMessage),
                    };
                    if !same_task_id(&derived, task_id) {
                        proof { lemma_id_view(derived, *task_id); }
                        return Err(UploadError::UnrecognizedMessage);
                    }
                }
                let ghost t0 = self@.tasks[i as int];
                let res = self.tasks[i].state.upload(report.id, report.time, report.share);
                proof {
                    assert(self@.tasks =~= v0.tasks.update(i as int, TaskEntryView { state: self@.tasks[i as int].state, ..t0 }));
                    assert forall|a: int, b: int|
                        #![trigger self@.tasks[a], self@.tasks[b]]
                        0 <= a < b < self@.tasks.len() implies self@.tasks[a].id != self@.tasks[b].id by {
                        assert(v0.tasks[a].id == self@.tasks[a].id && v0.tasks[b].id == self@.tasks[b].id);
                    }
                    assert forall|a: int| 0 <= a < self@.tasks.len() implies (#[trigger] self@.tasks[a]).state.wf() by {
                        if a != i {
                            assert(v0.tasks[a] == self@.tasks[a]);
                        }
                    }
                    if res is Err {
                        assert(self@.tasks =~= v0.tasks);
                    }
                    self.lemma_update_keeps(v0, i as int);
                }
                res
            },
            None => {
                if n == 0 {
                    return Err(UploadError::UnrecognizedTask);
                }
                if n > 1 {
                    return Err(UploadError::UnrecognizedMessage);
                }
                let config = match &report.extensions[first] {
                    Extension::Taskprov { payload } => {
                        let derived = compute_task_id(payload.as_slice());
                        if !same_task_id(&derived, task_id) {
                            proof { lemma_id_view(derived, *task_id); }
                            return Err(UploadError::UnrecognizedTask);
                        }
                        match taskprov_task(payload.as_slice(), self.max_batch_duration) {
                            Some(c) => c,
                            None => return Err(UploadError::InvalidTask),
                        }
                    },
                    Extension::Unhandled { .. } => return Err(UploadError::UnrecognizedMessage),
                };
                let mut state = TaskState::new(config);
                let res = state.upload(report.id, report.time, report.share);
                if res.is_ok() {
                    self.push_task(*task_id, true, state);
                }
                res
            },
        }
    }

    /// Handles a collect request for the task with this id.
    pub fn submit_collect(&mut self, task_id: &TaskId, req: &CollectionReq) -> (r: Result<CollectionJobId, CollectError>)
        requires
            old(self)@.wf(),
        ensures
            final(self)@.wf(),
            !old(self)@.has_task(*task_id) ==> r == Err::<CollectionJobId, CollectError>(CollectError::UnrecognizedTask)
                && final(self)@ == old(self)@,
            old(self)@.has_task(*task_id) ==> r == old(self)@.task(*task_id).submit_outcome(req.query, req.agg_param@)
                && final(self)@ == old(self)@.with_task(*task_id, old(self)@.task(*task_id).after_submit(req.query, req.agg_param@))
                && final(self)@.has_task(*task_id)
                && keeps_results(old(self)@.task(*task_id), final(self)@.task(*task_id)),
    {
        let ghost v0 = self@;
        match self.find_task(task_id) {
            None => Err(CollectError::UnrecognizedTask),
            Some(i) => {
                let ghost t0 = self@.tasks[i as int];
                let res = self.tasks[i].state.submit_collect(req);
                proof {
                    assert(self@.tasks =~= v0.tasks.update(i as int, TaskEntryView { state: self@.tasks[i as int].state, ..t0 }));
                    self.lemma_update_keeps(v0, i as int);
                }
                res
            },
        }
    }

    /// Replacing one task's state by a valid one keeps the directory valid
    /// and its ids in place.
    proof fn lemma_update_keeps(&self, v0: AggregatorView, i: int)
        requires
            v0.wf(),
            0 <= i < v0.tasks.len(),
            self@.tasks.len() == v0.tasks.len(),
            self@.tasks[i].state.wf(),
            self@.tasks[i].id == v0.tasks[i].id,
            forall|a: int| 0 <= a < v0.tasks.len() && a != i ==> self@.tasks[a] == v0.tasks[a],
        ensures
            self@.wf(),
            forall|id: TaskId| v0.has_task(id) ==> self@.has_task(id) && #[trigger] self@.task_index(id) == v0.task_index(id),
    {
        let v = self@;
        assert forall|a: int, b: int|
            #![trigger v.tasks[a], v.tasks[b]]
            0 <= a < b < v.tasks.len() implies v.tasks[a].id != v.tasks[b].id by {
            assert(v0.tasks[a].id == v.tasks[a].id && v0.tasks[b].id == v.tasks[b].id);
        }
        assert forall|a: int| 0 <= a < v.tasks.len() implies (#[trigger] v.tasks[a]).state.wf() by {
            if a != i {
                assert(v0.tasks[a] == v.tasks[a]);
            }
        }
        assert forall|id: TaskId| v0.has_task(id) implies v.has_task(id) && #[trigger] v.task_index(id) == v0.task_index(id) by {
            let k = v0.task_index(id);
            assert(v.tasks[k].id == id);
            let k2 = v.task_index(id);
            if k2 < k {
                assert(v.tasks[k2].id != v.tasks[k].id);
            } else if k2 > k {
                assert(v.tasks[k].id != v.tasks[k2].id);
            }
        }
    }

    /// Polls a collection job of the task with this id.
    pub fn poll(&self, task_id: &TaskId, job: CollectionJobId) -> (r: Result<PollResult, CollectError>)
        requires
            self@.wf(),
        ensures
            !self@.has_task(*task_id) ==> r == Err::<PollResult, CollectError>(CollectError::UnrecognizedTask),
            self@.has_task(*task_id) ==> r == self@.task(*task_id).poll_outcome(job),
    {
        match self.find_task(task_id) {
            None => Err(CollectError::UnrecognizedTask),
            Some(i) => self.task_ref(i).poll(job),
        }
    }

    /// Runs the aggregation scheduler of the task with this id; `None` when
    /// the task is unknown.
    pub fn process(&mut self, task_id: &TaskId, lim: ProcessLimits) -> (r: Option<Telemetry>)
        requires
            old(self)@.wf(),
        ensures
            final(self)@.wf(),
            !old(self)@.has_task(*task_id) ==> r is None && final(self)@ == old(self)@,
            old(self)@.has_task(*task_id) ==> r is Some
                && final(self)@ == old(self)@.with_task(*task_id, processed(old(self)@.task(*task_id), lim))
                && final(self)@.has_task(*task_id)
                && keeps_results(old(self)@.task(*task_id), final(self)@.task(*task_id)),
            r matches Some(t) ==> {
                let v = old(self)@.task(*task_id);
                &&& t.reports_processed == waiting(v) - waiting(aggregated(v, lim))
                &&& t.reports_aggregated == t.reports_processed
                &&& t.reports_collected == collected_total(processed(v, lim).buckets)
                    - collected_total(aggregated(v, lim).buckets)
            },
    {
        let ghost v0 = self@;
        match self.find_task(task_id) {
            None => None,
            Some(i) => {
                let ghost t0 = self@.tasks[i as int];
                let t = self.tasks[i].state.process(lim);
                proof {
                    assert(self@.tasks =~= v0.tasks.update(i as int, TaskEntryView { state: self@.tasks[i as int].state, ..t0 }));
                    self.lemma_update_keeps(v0, i as int);
                }
                Some(t)
            },
        }
    }

    /// `upload`, counting the outcome: a successful upload as an inbound
    /// upload request, a refused one as one report rejected with its code.
    pub fn upload_counted(&mut self, m: &ContextualizedDaphneMetrics, task_id: &TaskId, report: &Report) -> (r: Result<(), UploadError>)
        requires
            old(self)@.wf(),
            m.metrics().wf(),
        ensures
            final(self)@.wf(),
            r == old(self)@.upload_outcome(*task_id, report_view(*report)),
            r is Ok ==> final(self)@ == old(self)@.after_upload(*task_id, report_view(*report)),
            r is Err ==> final(self)@ == old(self)@,
    {
        let r = self.upload(task_id, report);
        match r {
            Ok(()) => {
                let _ = m.inbound_req_inc(DaphneRequestType::Upload);
            },
            Err(e) => {
                let _ = m.report_inc_by(e.code(), 1);
            },
        }
        r
    }

    /// `process`, counting the reports it aggregated and those the newly
    /// collected buckets hold.
    pub fn process_counted(&mut self, m: &ContextualizedDaphneMetrics, task_id: &TaskId, lim: ProcessLimits) -> (r: Option<Telemetry>)
        requires
            old(self)@.wf(),
            m.metrics().wf(),
        ensures
            final(self)@.wf(),
            !old(self)@.has_task(*task_id) ==> r is None && final(self)@ == old(self)@,
            old(self)@.has_task(*task_id) ==> r is Some
                && final(self)@ == old(self)@.with_task(*task_id, processed(old(self)@.task(*task_id), lim)),
            r matches Some(t) ==> {
                let v = old(self)@.task(*task_id);
                &&& t.reports_processed == waiting(v) - waiting(aggregated(v, lim))
                &&& t.reports_aggregated == t.reports_processed
                &&& t.reports_collected == collected_total(processed(v, lim).buckets)
                    - collected_total(aggregated(v, lim).buckets)
            },
    {
        let r = self.process(task_id, lim);
        if let Some(t) = r {
            let _ = m.report_inc_by("aggregated", t.reports_aggregated);
            let _ = m.report_inc_by("collected", t.reports_collected);
        }
        r
    }

    /// The oldest fixed-size batch of the task with this id that was not
    /// collected.
    pub fn current_batch(&self, task_id: &TaskId) -> (r: Option<BatchId>)
        requires
            self@.wf(),
        ensures
            !self@.has_task(*task_id) ==> r is None,
            self@.has_task(*task_id) ==> r == self@.task(*task_id).current_batch(),
    {
        match self.find_task(task_id) {
            None => None,
            Some(i) => self.task_ref(i).current_batch(),
        }
    }
}

/// Deriving a task id is deterministic: payloads with the same bytes give
/// the same task id.
pub proof fn lemma_task_id_deterministic(a: TaskId, b: TaskId, p: Seq<u8>, q: Seq<u8>)
    requires
        a.0@ == sha256_of(p),
        b.0@ == sha256_of(q),
        p == q,
    ensures
        a == b,
{
    if a != b {
        lemma_id_view(a, b);
    }
}

/// An upload for an unknown task whose report carries one taskprov payload
/// that does not digest to the task id is refused with `UnrecognizedTask`.
pub proof fn lemma_taskprov_mismatch(v: AggregatorView, id: TaskId, r: ReportView)
    requires
        !v.has_task(id),
        taskprov_payloads(r.extensions).len() == 1,
        sha256_of(taskprov_payloads(r.extensions)[0]) != id.0@,
    ensures
        v.upload_outcome(id, r) == Err::<(), UploadError>(UploadError::UnrecognizedTask),
{
}

} // verus!

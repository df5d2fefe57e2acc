//! Metrics exported through a prometheus registry.

use vstd::prelude::*;
use vstd::string::StringExecFns;

verus! {

/// prometheus's registry, carried through unopened.
#[verifier::external_type_specification]
#[verifier::external_body]
pub struct ExRegistry(prometheus::Registry);

/// prometheus's error, carried through unopened.
#[verifier::external_type_specification]
#[verifier::external_body]
pub struct ExPromError(prometheus::Error);

/// The kinds of inbound requests that are counted.
#[derive(Clone, Copy, Debug, PartialEq, Eq, Structural)]
pub enum DaphneRequestType {
    /// Request for fetching the Aggregator's HPKE config.
    HpkeConfig,
    /// Upload request.
    Upload,
    /// Aggregate request.
    Aggregate,
    /// Collect request.
    Collect,
}

/// A prometheus family of integer counters, one per combination of label
/// values. prometheus does not export the builder type that `IntCounterVec`
/// is made of, so it cannot be declared to Verus: the family is held in a
/// field Verus does not read, and used only through the wrappers below.
#[verifier::external_body]
pub struct CounterFamily {
    vec: prometheus::IntCounterVec,
}

/// A prometheus family of integer gauges, one per combination of label
/// values, held like `CounterFamily`.
#[verifier::external_body]
pub struct GaugeFamily {
    vec: prometheus::IntGaugeVec,
}

/// Whether `c` may start an identifier: an ASCII letter or `_`, or also
/// `:` when colons are allowed.
pub open spec fn ident_start(c: char, colon: bool) -> bool {
    (65 <= c as u32 <= 90) || (97 <= c as u32 <= 122) || c == '_' || (colon && c == ':')
}

/// Whether `c` may continue an identifier: a start character or a digit.
pub open spec fn ident_char(c: char, colon: bool) -> bool {
    ident_start(c, colon) || (48 <= c as u32 <= 57)
}

/// Whether `s` is a non-empty identifier of those characters.
pub open spec fn valid_ident(s: Seq<char>, colon: bool) -> bool {
    &&& s.len() > 0
    &&& ident_start(s[0], colon)
    &&& forall|i: int| 1 <= i < s.len() ==> #[trigger] ident_char(s[i], colon)
}

/// A prometheus metric name: `[a-zA-Z_:][a-zA-Z0-9_:]*`.
pub open spec fn valid_metric_name(s: Seq<char>) -> bool {
    valid_ident(s, true)
}

/// Prometheus label names: each `[a-zA-Z_][a-zA-Z0-9_]*`, none repeated.
pub open spec fn valid_label_names(ls: Seq<Seq<char>>) -> bool {
    &&& forall|i: int| 0 <= i < ls.len() ==> valid_ident(#[trigger] ls[i], false)
    &&& forall|i: int, j: int| 0 <= i < j < ls.len() ==> ls[i] != ls[j]
}

/// The texts of a slice of strings.
pub open spec fn texts(ls: Seq<&str>) -> Seq<Seq<char>> {
    ls.map_values(|l: &str| l@)
}

/// Whether prometheus builds a metric family from these arguments: the help
/// text is not empty, the name is a metric name and the labels are label
/// names.
pub open spec fn family_ok(name: Seq<char>, help: Seq<char>, labels: Seq<Seq<char>>) -> bool {
    help.len() > 0 && valid_metric_name(name) && valid_label_names(labels)
}

/// How many label values each counter of the family is keyed by: the number
/// of label names the family was built with.
pub uninterp spec fn counter_arity(c: CounterFamily) -> nat;

/// How many label values each gauge of the family is keyed by.
pub uninterp spec fn gauge_arity(g: GaugeFamily) -> nat;

/// Relies on prometheus::IntCounterVec::new, which fails exactly when
/// Desc::new refuses the arguments: an empty help text, a name that is not a
/// metric name, or a label that is not a label name or is repeated.
#[verifier::external_body]
fn new_counter_family(name: String, help: &str, labels: &[&str]) -> (r: Result<CounterFamily, prometheus::Error>)
    ensures
        r is Ok <==> family_ok(name@, help@, texts(labels@)),
        r matches Ok(c) ==> counter_arity(c) == labels@.len(),
{
    match prometheus::IntCounterVec::new(prometheus::Opts::new(name, help), labels) {
        Ok(vec) => Ok(CounterFamily { vec }),
        Err(e) => Err(e),
    }
}

/// Relies on prometheus::IntGaugeVec::new, which fails exactly when
/// Desc::new refuses the arguments, as for counter families.
#[verifier::external_body]
fn new_gauge_family(name: String, help: &str, labels: &[&str]) -> (r: Result<GaugeFamily, prometheus::Error>)
    ensures
        r is Ok <==> family_ok(name@, help@, texts(labels@)),
        r matches Ok(g) ==> gauge_arity(g) == labels@.len(),
{
    match prometheus::IntGaugeVec::new(prometheus::Opts::new(name, help), labels) {
        Ok(vec) => Ok(GaugeFamily { vec }),
        Err(e) => Err(e),
    }
}

/// Relies on prometheus::Registry::register for a counter family: the
/// registry keeps a handle to the family, or refuses a duplicate.
#[verifier::external_body]
fn register_counter_family(registry: &prometheus::Registry, c: &CounterFamily) -> (r: Result<(), prometheus::Error>) {
    registry.register(Box::new(c.vec.clone()))
}

/// Relies on prometheus::Registry::register for a gauge family: the registry
/// keeps a handle to the family, or refuses a duplicate.
#[verifier::external_body]
fn register_gauge_family(registry: &prometheus::Registry, g: &GaugeFamily) -> (r: Result<(), prometheus::Error>) {
    registry.register(Box::new(g.vec.clone()))
}

/// Relies on prometheus::IntCounterVec::get_metric_with_label_values and
/// IntCounter::inc_by: adds `val` to the counter of these label values. The
/// lookup fails, with InconsistentCardinality, exactly when the number of
/// label values is not the family's number of label names.
#[verifier::external_body]
fn counter_inc_by(c: &CounterFamily, labels: &[&str], val: u64) -> (r: Result<(), prometheus::Error>)
    ensures
        r is Ok <==> labels@.len() == counter_arity(*c),
{
    match c.vec.get_metric_with_label_values(labels) {
        Ok(m) => Ok(m.inc_by(val)),
        Err(e) => Err(e),
    }
}

/// Relies on prometheus::IntGaugeVec::get_metric_with_label_values and
/// IntGauge::add: adds `delta` to the gauge of these label values. The
/// lookup fails exactly when the number of label values is not the
/// family's number of label names.
#[verifier::external_body]
fn gauge_add(g: &GaugeFamily, labels: &[&str], delta: i64) -> (r: Result<(), prometheus::Error>)
    ensures
        r is Ok <==> labels@.len() == gauge_arity(*g),
{
    match g.vec.get_metric_with_label_values(labels) {
        Ok(m) => Ok(m.add(delta)),
        Err(e) => Err(e),
    }
}

/// The prefix, then an underscore, then the base name.
fn join_prefixed(prefix: &str, base: &str) -> (r: String)
    ensures
        r@ == prefix@ + seq!['_'] + base@,
{
    proof {
        reveal_strlit("_");
    }
    let mut s = <String as StringExecFns>::from_str(prefix);
    s.append("_");
    s.append(base);
    s
}

/// The label value under which an inbound request of this type is counted.
pub open spec fn request_type_label(t: DaphneRequestType) -> Seq<char> {
    match t {
        DaphneRequestType::HpkeConfig => "hpke_config"@,
        DaphneRequestType::Upload => "upload"@,
        DaphneRequestType::Aggregate => "aggregate"@,
        DaphneRequestType::Collect => "collect"@,
    }
}

/// The full name of a metric: the base name, preceded by `prefix_` when a
/// prefix is given.
pub open spec fn metric_name(prefix: Option<Seq<char>>, base: Seq<char>) -> Seq<char> {
    match prefix {
        Some(p) => p + seq!['_'] + base,
        None => base,
    }
}

impl DaphneRequestType {
    /// The label value under which this request type is counted.
    pub fn label(&self) -> (r: &'static str)
        ensures
            r@ == request_type_label(*self),
    {
        proof {
            reveal_strlit("hpke_config");
            reveal_strlit("upload");
            reveal_strlit("aggregate");
            reveal_strlit("collect");
        }
        match self {
            DaphneRequestType::HpkeConfig => "hpke_config",
            DaphneRequestType::Upload => "upload",
            DaphneRequestType::Aggregate => "aggregate",
            DaphneRequestType::Collect => "collect",
        }
    }
}

/// Builds the full name of a metric from an optional prefix and a base name.
pub fn prefixed_name(prefix: Option<&str>, base: &str) -> (r: String)
    ensures
        r@ == metric_name(
            match prefix {
                Some(p) => Some(p@),
                None => None,
            },
            base@,
        ),
{
    match prefix {
        Some(p) => join_prefixed(p, base),
        None => base.to_owned(),
    }
}

/// Why registering the metrics failed.
#[derive(Clone, Copy, Debug, PartialEq, Eq, Structural)]
pub enum MetricsError {
    /// A metric family could not be built: the prefix makes an invalid name.
    InvalidMetric,
    /// The registry refused a family, for instance one registered already.
    Registration,
    /// A family refused an update: the label values did not match its
    /// label names.
    Update,
}

/// The name and label names a metric family was built with.
pub struct FamilyView {
    pub name: Seq<char>,
    pub labels: Seq<Seq<char>>,
}

/// The text of an optional prefix.
pub open spec fn prefix_view(prefix: Option<&str>) -> Option<Seq<char>> {
    match prefix {
        Some(p) => Some(p@),
        None => None,
    }
}

/// Whether a prefix makes valid metric names: no prefix, or one that is a
/// metric name once followed by `_`.
pub open spec fn prefix_ok(prefix: Option<Seq<char>>) -> bool {
    match prefix {
        Some(p) => valid_metric_name(p + seq!['_']),
        None => true,
    }
}

/// The family of successful inbound requests, for this prefix.
pub open spec fn inbound_family(prefix: Option<Seq<char>>) -> FamilyView {
    FamilyView { name: metric_name(prefix, "inbound_request_counter"@), labels: seq!["host"@, "type"@] }
}

/// The family of reports by status, for this prefix.
pub open spec fn report_family(prefix: Option<Seq<char>>) -> FamilyView {
    FamilyView { name: metric_name(prefix, "report_counter"@), labels: seq!["host"@, "status"@] }
}

/// The family of running aggregation jobs, for this prefix.
pub open spec fn job_family(prefix: Option<Seq<char>>) -> FamilyView {
    FamilyView { name: metric_name(prefix, "aggregation_job_gauge"@), labels: seq!["host"@] }
}

/// Whether every character of `s` from position `i` on may continue an
/// identifier.
spec fn chars_from(s: Seq<char>, i: int, colon: bool) -> bool
    decreases s.len() - i,
{
    if i < 0 || i >= s.len() {
        true
    } else {
        ident_char(s[i], colon) && chars_from(s, i + 1, colon)
    }
}

proof fn lemma_chars_from(s: Seq<char>, i: int, colon: bool)
    requires
        0 <= i,
        chars_from(s, i, colon),
    ensures
        forall|j: int| i <= j < s.len() ==> #[trigger] ident_char(s[j], colon),
    decreases s.len() - i,
{
    if i < s.len() {
        lemma_chars_from(s, i + 1, colon);
    }
}

/// A metric name stays one when identifier characters follow it, and a
/// name with `_` after the prefix is valid exactly when the prefix with
/// `_` is.
proof fn lemma_prefixed_valid(prefix: Option<Seq<char>>, base: Seq<char>)
    requires
        valid_metric_name(base),
    ensures
        valid_metric_name(metric_name(prefix, base)) <==> prefix_ok(prefix),
{
    if let Some(p) = prefix {
        let h = p + seq!['_'];
        let s = h + base;
        assert(s == metric_name(prefix, base));
        if valid_metric_name(h) {
            assert forall|i: int| 1 <= i < s.len() implies #[trigger] ident_char(s[i], true) by {
                if i < h.len() {
                    assert(ident_char(h[i], true));
                } else if i == h.len() {
                    assert(s[i] == base[0]);
                } else {
                    assert(s[i] == base[i - h.len()]);
                    assert(ident_char(base[i - h.len()], true));
                }
            }
        }
        if valid_metric_name(s) {
            assert(h[0] == s[0]);
            assert forall|i: int| 1 <= i < h.len() implies #[trigger] ident_char(h[i], true) by {
                assert(h[i] == s[i]);
                assert(ident_char(s[i], true));
            }
        }
    }
}

/// The base names are metric names and the label names are label names,
/// so only the prefix can make building a family fail.
proof fn lemma_families_valid(prefix: Option<Seq<char>>)
    ensures
        valid_metric_name(inbound_family(prefix).name) <==> prefix_ok(prefix),
        valid_metric_name(report_family(prefix).name) <==> prefix_ok(prefix),
        valid_metric_name(job_family(prefix).name) <==> prefix_ok(prefix),
        valid_label_names(inbound_family(prefix).labels),
        valid_label_names(report_family(prefix).labels),
        valid_label_names(job_family(prefix).labels),
{
    reveal_strlit("inbound_request_counter");
    reveal_strlit("report_counter");
    reveal_strlit("aggregation_job_gauge");
    reveal_strlit("host");
    reveal_strlit("type");
    reveal_strlit("status");
    reveal_with_fuel(chars_from, 24);
    assert(chars_from("inbound_request_counter"@, 1, true));
    assert(chars_from("report_counter"@, 1, true));
    assert(chars_from("aggregation_job_gauge"@, 1, true));
    assert(chars_from("host"@, 1, false));
    assert(chars_from("type"@, 1, false));
    assert(chars_from("status"@, 1, false));
    lemma_chars_from("inbound_request_counter"@, 1, true);
    lemma_chars_from("report_counter"@, 1, true);
    lemma_chars_from("aggregation_job_gauge"@, 1, true);
    lemma_chars_from("host"@, 1, false);
    lemma_chars_from("type"@, 1, false);
    lemma_chars_from("status"@, 1, false);
    lemma_prefixed_valid(prefix, "inbound_request_counter"@);
    lemma_prefixed_valid(prefix, "report_counter"@);
    lemma_prefixed_valid(prefix, "aggregation_job_gauge"@);
    assert("host"@ != "type"@);
    assert("host"@ != "status"@);
}

/// Inbound request, report and aggregation job metrics.
pub struct DaphneMetrics {
    /// Successful inbound requests, by host and request type.
    inbound_request_counter: CounterFamily,
    /// Reports rejected, aggregated and collected, by host and status.
    report_counter: CounterFamily,
    /// Running aggregation jobs, by host.
    aggregation_job_gauge: GaugeFamily,
    /// The prefix the families' names were built with.
    prefix: Ghost<Option<Seq<char>>>,
}

impl DaphneMetrics {
    /// The prefix the families' names were built with.
    pub closed spec fn prefix(&self) -> Option<Seq<char>> {
        self.prefix@
    }

    /// Builds the metric families and registers them with `registry`: the
    /// counters `inbound_request_counter` (labels host, type) and
    /// `report_counter` (labels host, status), and the gauge
    /// `aggregation_job_gauge` (label host), each name preceded by `prefix_`
    /// when a prefix is given. Fails with `InvalidMetric` exactly when the
    /// prefix makes the names invalid; otherwise the registry decides.
    pub fn register(registry: &prometheus::Registry, prefix: Option<&str>) -> (r: Result<Self, MetricsError>)
        ensures
            r matches Err(MetricsError::InvalidMetric) <==> !prefix_ok(prefix_view(prefix)),
            r matches Err(MetricsError::Registration) ==> prefix_ok(prefix_view(prefix)),
            r matches Ok(m) ==> prefix_ok(prefix_view(prefix)) && m.prefix() == prefix_view(prefix) && m.wf()
                && m.families() == seq![
                    inbound_family(prefix_view(prefix)),
                    report_family(prefix_view(prefix)),
                    job_family(prefix_view(prefix)),
                ],
    {
        let ghost pv = prefix_view(prefix);
        proof {
            lemma_families_valid(pv);
            reveal_strlit("host");
            reveal_strlit("type");
            reveal_strlit("status");
            reveal_strlit("Total number of successful inbound requests.");
            reveal_strlit("Total number reports rejected, aggregated, and collected.");
            reveal_strlit("Number of running aggregation jobs.");
        }
        let inbound_labels: [&str; 2] = ["host", "type"];
        assert(texts(inbound_labels@) =~= inbound_family(pv).labels);
        let inbound = match new_counter_family(
            prefixed_name(prefix, "inbound_request_counter"),
            "Total number of successful inbound requests.",
            &inbound_labels,
        ) {
            Ok(c) => c,
            Err(_) => return Err(MetricsError::InvalidMetric),
        };
        if register_counter_family(registry, &inbound).is_err() {
            return Err(MetricsError::Registration);
        }
        let report_labels: [&str; 2] = ["host", "status"];
        assert(texts(report_labels@) =~= report_family(pv).labels);
        let reports = match new_counter_family(
            prefixed_name(prefix, "report_counter"),
            "Total number reports rejected, aggregated, and collected.",
            &report_labels,
        ) {
            Ok(c) => c,
            Err(_) => return Err(MetricsError::InvalidMetric),
        };
        if register_counter_family(registry, &reports).is_err() {
            return Err(MetricsError::Registration);
        }
        let job_labels: [&str; 1] = ["host"];
        assert(texts(job_labels@) =~= job_family(pv).labels);
        let jobs = match new_gauge_family(
            prefixed_name(prefix, "aggregation_job_gauge"),
            "Number of running aggregation jobs.",
            &job_labels,
        ) {
            Ok(g) => g,
            Err(_) => return Err(MetricsError::InvalidMetric),
        };
        if register_gauge_family(registry, &jobs).is_err() {
            return Err(MetricsError::Registration);
        }
        Ok(DaphneMetrics {
            inbound_request_counter: inbound,
            report_counter: reports,
            aggregation_job_gauge: jobs,
            prefix: Ghost(pv),
        })
    }

    /// The families these metrics were built with: inbound requests,
    /// reports, and running aggregation jobs.
    pub open spec fn families(&self) -> Seq<FamilyView> {
        seq![inbound_family(self.prefix()), report_family(self.prefix()), job_family(self.prefix())]
    }

    /// Each family is keyed by as many label values as it has label names.
    pub closed spec fn wf(&self) -> bool {
        &&& counter_arity(self.inbound_request_counter) == self.families()[0].labels.len()
        &&& counter_arity(self.report_counter) == self.families()[1].labels.len()
        &&& gauge_arity(self.aggregation_job_gauge) == self.families()[2].labels.len()
    }

    /// The metrics as seen from one host: every update is labelled with it.
    pub fn with_host<'req>(&'req self, host: &'req str) -> (r: ContextualizedDaphneMetrics<'req>)
        ensures
            r.host_label() == host@,
            r.metrics() == *self,
    {
        ContextualizedDaphneMetrics { metrics: self, host }
    }
}

/// The metrics together with the host that updates are labelled with.
pub struct ContextualizedDaphneMetrics<'req> {
    metrics: &'req DaphneMetrics,
    host: &'req str,
}

impl<'req> ContextualizedDaphneMetrics<'req> {
    /// The host that updates are labelled with.
    pub closed spec fn host_label(&self) -> Seq<char> {
        self.host@
    }

    /// The metrics that updates go to.
    pub closed spec fn metrics(&self) -> DaphneMetrics {
        *self.metrics
    }

    /// Counts one successful inbound request of the given type.
    pub fn inbound_req_inc(&self, request_type: DaphneRequestType) -> (r: Result<(), MetricsError>)
        requires
            self.metrics().wf(),
        ensures
            r is Ok,
    {
        let labels = [self.host, request_type.label()];
        match counter_inc_by(&self.metrics.inbound_request_counter, &labels, 1) {
            Ok(()) => Ok(()),
            Err(_) => Err(MetricsError::Update),
        }
    }

    /// Adds `val` reports with the given status.
    pub fn report_inc_by(&self, status: &str, val: u64) -> (r: Result<(), MetricsError>)
        requires
            self.metrics().wf(),
        ensures
            r is Ok,
    {
        let labels = [self.host, status];
        match counter_inc_by(&self.metrics.report_counter, &labels, val) {
            Ok(()) => Ok(()),
            Err(_) => Err(MetricsError::Update),
        }
    }

    /// Counts one more running aggregation job.
    pub fn agg_job_inc(&self) -> (r: Result<(), MetricsError>)
        requires
            self.metrics().wf(),
        ensures
            r is Ok,
    {
        let labels = [self.host];
        match gauge_add(&self.metrics.aggregation_job_gauge, &labels, 1) {
            Ok(()) => Ok(()),
            Err(_) => Err(MetricsError::Update),
        }
    }

    /// Counts one fewer running aggregation job.
    pub fn agg_job_dec(&self) -> (r: Result<(), MetricsError>)
        requires
            self.metrics().wf(),
        ensures
            r is Ok,
    {
        let labels = [self.host];
        match gauge_add(&self.metrics.aggregation_job_gauge, &labels, -1) {
            Ok(()) => Ok(()),
            Err(_) => Err(MetricsError::Update),
        }
    }
}

} // verus!

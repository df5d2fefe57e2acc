use daphne::aggregator::Aggregator;
use daphne::messages::{ProcessLimits, QueryType, Report, ReportId, TaskConfig, TaskId, UploadError};
use daphne::metrics::{prefixed_name, DaphneMetrics, DaphneRequestType, MetricsError};

#[test]
fn request_type_labels() {
    assert_eq!(DaphneRequestType::HpkeConfig.label(), "hpke_config");
    assert_eq!(DaphneRequestType::Upload.label(), "upload");
    assert_eq!(DaphneRequestType::Aggregate.label(), "aggregate");
    assert_eq!(DaphneRequestType::Collect.label(), "collect");
}

#[test]
fn metric_names_take_the_prefix() {
    assert_eq!(prefixed_name(Some("daphne"), "report_counter"), "daphne_report_counter");
    assert_eq!(prefixed_name(None, "report_counter"), "report_counter");
}

#[test]
fn register_and_update_metrics() {
    let registry = prometheus::Registry::new();
    let metrics = DaphneMetrics::register(&registry, Some("test")).unwrap();
    let m = metrics.with_host("example.com");
    assert_eq!(m.inbound_req_inc(DaphneRequestType::Upload), Ok(()));
    assert_eq!(m.report_inc_by("aggregated", 3), Ok(()));
    assert_eq!(m.agg_job_inc(), Ok(()));
    assert_eq!(m.agg_job_inc(), Ok(()));
    assert_eq!(m.agg_job_dec(), Ok(()));
    let families = registry.gather();
    let names: Vec<&str> = families.iter().map(|f| f.get_name()).collect();
    assert!(names.contains(&"test_inbound_request_counter"));
    assert!(names.contains(&"test_report_counter"));
    assert!(names.contains(&"test_aggregation_job_gauge"));
    for f in &families {
        let metric = &f.get_metric()[0];
        match f.get_name() {
            "test_report_counter" => assert_eq!(metric.get_counter().get_value() as u64, 3),
            "test_inbound_request_counter" => assert_eq!(metric.get_counter().get_value() as u64, 1),
            "test_aggregation_job_gauge" => assert_eq!(metric.get_gauge().get_value() as i64, 1),
            _ => {}
        }
    }
}

#[test]
fn register_twice_is_refused() {
    let registry = prometheus::Registry::new();
    assert!(DaphneMetrics::register(&registry, None).is_ok());
    assert!(matches!(DaphneMetrics::register(&registry, None), Err(MetricsError::Registration)));
}

#[test]
fn register_invalid_name_is_refused() {
    let registry = prometheus::Registry::new();
    assert!(matches!(DaphneMetrics::register(&registry, Some("bad prefix")), Err(MetricsError::InvalidMetric)));
}

#[test]
fn register_empty_prefix_names_start_with_underscore() {
    let registry = prometheus::Registry::new();
    let m = DaphneMetrics::register(&registry, Some("")).unwrap();
    assert_eq!(m.with_host("h").inbound_req_inc(DaphneRequestType::Collect), Ok(()));
    assert_eq!(m.with_host("h").report_inc_by("collected", 1), Ok(()));
    assert_eq!(m.with_host("h").agg_job_inc(), Ok(()));
    let mut names: Vec<String> = registry.gather().iter().map(|f| f.get_name().to_string()).collect();
    names.sort();
    assert_eq!(names, vec!["_aggregation_job_gauge", "_inbound_request_counter", "_report_counter"]);
}

#[test]
fn register_without_prefix_uses_base_names() {
    let registry = prometheus::Registry::new();
    let m = DaphneMetrics::register(&registry, None).unwrap();
    assert_eq!(m.with_host("h").inbound_req_inc(DaphneRequestType::HpkeConfig), Ok(()));
    assert_eq!(m.with_host("h").report_inc_by("rejected", 2), Ok(()));
    assert_eq!(m.with_host("h").agg_job_dec(), Ok(()));
    let mut names: Vec<String> = registry.gather().iter().map(|f| f.get_name().to_string()).collect();
    names.sort();
    assert_eq!(names, vec!["aggregation_job_gauge", "inbound_request_counter", "report_counter"]);
}

#[test]
fn register_dashed_prefix_is_invalid() {
    let registry = prometheus::Registry::new();
    assert!(matches!(DaphneMetrics::register(&registry, Some("a-b")), Err(MetricsError::InvalidMetric)));
    assert!(registry.gather().is_empty());
}

#[test]
fn aggregator_counts_uploads_and_reports() {
    let registry = prometheus::Registry::new();
    let metrics = DaphneMetrics::register(&registry, None).unwrap();
    let m = metrics.with_host("leader");
    let mut agg = Aggregator::new(7200);
    let id = TaskId([3; 32]);
    let config = TaskConfig {
        query_type: QueryType::TimeInterval,
        time_precision: 3600,
        min_batch_size: 1,
        max_batch_query_count: 1,
        max_batch_duration: 7200,
        expiration: 100_000,
    };
    assert!(agg.add_task(id, config));
    let report = Report { id: ReportId([1; 16]), time: 10, share: 1, extensions: Vec::new() };
    assert_eq!(agg.upload_counted(&m, &id, &report), Ok(()));
    assert_eq!(agg.upload_counted(&m, &id, &report), Err(UploadError::ReportRejected));
    let lim = ProcessLimits { max_jobs: 10, max_reports: 10 };
    assert_eq!(agg.process_counted(&m, &id, lim).unwrap().reports_aggregated, 1);
    assert_eq!(agg.process_counted(&m, &id, lim).unwrap().reports_aggregated, 0);
    let mut upload = 0u64;
    let mut rejected = 0u64;
    let mut aggregated = 0u64;
    for f in registry.gather() {
        for metric in f.get_metric() {
            let labels: Vec<&str> = metric.get_label().iter().map(|l| l.get_value()).collect();
            let v = metric.get_counter().get_value() as u64;
            match (f.get_name(), labels.as_slice()) {
                ("inbound_request_counter", ["leader", "upload"]) => upload = v,
                ("report_counter", ["leader", "reportRejected"]) => rejected = v,
                ("report_counter", ["leader", "aggregated"]) => aggregated = v,
                _ => {}
            }
        }
    }
    assert_eq!((upload, rejected, aggregated), (1, 1, 1));
}

use promreg::{FamilyKind, Histogram, HistogramBuilder, Metrics, Registry, RegistryError};

fn labels(vs: &[&str]) -> Vec<String> {
    vs.iter().map(|s| s.to_string()).collect()
}

fn collect_string(m: &Metrics, optional: bool) -> String {
    let mut buf: Vec<u8> = Vec::new();
    promreg::collect(m, &mut buf, optional).expect("collection should succeed");
    String::from_utf8(buf).expect("exposition output is UTF-8")
}

#[test]
fn counter_family_exact_document() {
    let mut m = Metrics::new();
    m.standard
        .register_family(
            "requests_total".to_string(),
            "Total requests".to_string(),
            labels(&["method"]),
            FamilyKind::Counter,
        )
        .unwrap();
    m.standard.inc_counter("requests_total", labels(&["get"]), 2).unwrap();
    let out = collect_string(&m, false);
    assert_eq!(
        out,
        "# HELP requests_total Total requests\n# TYPE requests_total counter\nrequests_total{method=\"get\"} 2\n"
    );
}

#[test]
fn duplicate_family_is_refused() {
    let mut r = Registry::new();
    r.register_family("a".to_string(), "h".to_string(), labels(&[]), FamilyKind::Counter)
        .unwrap();
    let e = r.register_family("a".to_string(), "h2".to_string(), labels(&[]), FamilyKind::Gauge);
    assert_eq!(e, Err(RegistryError::DuplicateFamily));
}

#[test]
fn unknown_family_is_refused() {
    let mut r = Registry::new();
    let e = r.inc_counter("missing", labels(&[]), 1);
    assert_eq!(e, Err(RegistryError::UnknownFamily));
}

#[test]
fn kind_mismatch_is_refused() {
    let mut r = Registry::new();
    r.register_family("g".to_string(), "h".to_string(), labels(&[]), FamilyKind::Gauge)
        .unwrap();
    assert_eq!(r.inc_counter("g", labels(&[]), 1), Err(RegistryError::KindMismatch));
    assert_eq!(r.observe_histogram("g", labels(&[]), 5), Err(RegistryError::KindMismatch));
}

#[test]
fn label_arity_is_refused() {
    let mut r = Registry::new();
    r.register_family("c".to_string(), "h".to_string(), labels(&["x"]), FamilyKind::Counter)
        .unwrap();
    assert_eq!(r.inc_counter("c", labels(&[]), 1), Err(RegistryError::LabelArity));
    assert_eq!(r.inc_counter("c", labels(&["a", "b"]), 1), Err(RegistryError::LabelArity));
}

#[test]
fn label_combinations_are_isolated() {
    let mut m = Metrics::new();
    m.standard
        .register_family(
            "hits".to_string(),
            "Hits".to_string(),
            labels(&["shard"]),
            FamilyKind::Counter,
        )
        .unwrap();
    m.standard.inc_counter("hits", labels(&["a"]), 1).unwrap();
    m.standard.inc_counter("hits", labels(&["b"]), 1).unwrap();
    m.standard.inc_counter("hits", labels(&["a"]), 1).unwrap();
    let out = collect_string(&m, false);
    assert!(out.contains("hits{shard=\"a\"} 2\n"));
    assert!(out.contains("hits{shard=\"b\"} 1\n"));
    assert!(!out.contains("hits{shard=\"a\"} 1\n"));
    assert!(!out.contains("hits{shard=\"b\"} 2\n"));
}

#[test]
fn gauge_set_inc_dec_and_negative_rendering() {
    let mut m = Metrics::new();
    m.standard
        .register_family("temp".to_string(), "Temp".to_string(), labels(&[]), FamilyKind::Gauge)
        .unwrap();
    m.standard.set_gauge("temp", labels(&[]), -3).unwrap();
    m.standard.dec_gauge("temp", labels(&[])).unwrap();
    let out = collect_string(&m, false);
    assert!(out.contains("# TYPE temp gauge\n"));
    assert!(out.contains("temp -4\n"));
    m.standard.inc_gauge("temp", labels(&[])).unwrap();
    m.standard.inc_gauge("temp", labels(&[])).unwrap();
    let out2 = collect_string(&m, false);
    assert!(out2.contains("temp -2\n"));
}

#[test]
fn gauge_starts_at_zero_on_first_step() {
    let mut m = Metrics::new();
    m.standard
        .register_family("depth".to_string(), "Depth".to_string(), labels(&[]), FamilyKind::Gauge)
        .unwrap();
    m.standard.dec_gauge("depth", labels(&[])).unwrap();
    let out = collect_string(&m, false);
    assert!(out.contains("depth -1\n"));
}

#[test]
fn counter_wraps_at_sixty_four_bits() {
    let mut m = Metrics::new();
    m.standard
        .register_family("c".to_string(), "C".to_string(), labels(&[]), FamilyKind::Counter)
        .unwrap();
    m.standard.inc_counter("c", labels(&[]), u64::MAX).unwrap();
    m.standard.inc_counter("c", labels(&[]), 3).unwrap();
    let out = collect_string(&m, false);
    assert!(out.contains("c 2\n"), "wrapped value expected, got: {}", out);
}

#[test]
fn histogram_bucket_fidelity() {
    // The bucket spec 0, 1000, 10000, 1000000 with observations 500, 50000
    // and 2000000 (micro-units) must yield exactly these cumulative counts.
    let mut m = Metrics::new();
    let builder = HistogramBuilder { buckets: vec![0, 1000, 10000, 1000000] };
    m.standard
        .register_family(
            "latency".to_string(),
            "Latency".to_string(),
            labels(&[]),
            FamilyKind::Histogram(builder),
        )
        .unwrap();
    m.standard.observe_histogram("latency", labels(&[]), 500).unwrap();
    m.standard.observe_histogram("latency", labels(&[]), 50000).unwrap();
    m.standard.observe_histogram("latency", labels(&[]), 2000000).unwrap();
    let out = collect_string(&m, false);
    let expected = "# HELP latency Latency\n\
                    # TYPE latency histogram\n\
                    latency_bucket{le=\"0\"} 0\n\
                    latency_bucket{le=\"1000\"} 1\n\
                    latency_bucket{le=\"10000\"} 1\n\
                    latency_bucket{le=\"1000000\"} 2\n\
                    latency_bucket{le=\"+Inf\"} 3\n\
                    latency_sum 2050500\n\
                    latency_count 3\n";
    assert_eq!(out, expected);
}

#[test]
fn histogram_direct_observation_counts() {
    let builder = HistogramBuilder { buckets: vec![10, 20, 30] };
    let mut h: Histogram = builder.new_metric();
    h.observe(5);
    h.observe(25);
    h.observe(25);
    h.observe(100);
    assert_eq!(h.num_buckets(), 3);
    assert_eq!(h.bucket_bound(1), 20);
    assert_eq!(h.bucket_count(0), 1);
    assert_eq!(h.bucket_count(1), 1);
    assert_eq!(h.bucket_count(2), 3);
    assert_eq!(h.total_count(), 4);
    assert_eq!(h.sum(), 155);
}

#[test]
fn histogram_with_labels_places_le_last() {
    let mut m = Metrics::new();
    let builder = HistogramBuilder { buckets: vec![1] };
    m.standard
        .register_family(
            "d".to_string(),
            "D".to_string(),
            labels(&["op"]),
            FamilyKind::Histogram(builder),
        )
        .unwrap();
    m.standard.observe_histogram("d", labels(&["read"]), 1).unwrap();
    let out = collect_string(&m, false);
    assert!(out.contains("d_bucket{op=\"read\",le=\"1\"} 1\n"));
    assert!(out.contains("d_bucket{op=\"read\",le=\"+Inf\"} 1\n"));
    assert!(out.contains("d_sum{op=\"read\"} 1\n"));
    assert!(out.contains("d_count{op=\"read\"} 1\n"));
}

#[test]
fn label_values_are_escaped() {
    let mut m = Metrics::new();
    m.standard
        .register_family("e".to_string(), "E".to_string(), labels(&["v"]), FamilyKind::Counter)
        .unwrap();
    m.standard.inc_counter("e", labels(&["a\\b\"c\nd"]), 1).unwrap();
    let out = collect_string(&m, false);
    assert!(out.contains("e{v=\"a\\\\b\\\"c\\nd\"} 1\n"), "got: {}", out);
}

#[test]
fn help_text_is_escaped() {
    let mut m = Metrics::new();
    m.standard
        .register_family(
            "f".to_string(),
            "line one\nline two \\ end".to_string(),
            labels(&[]),
            FamilyKind::Counter,
        )
        .unwrap();
    m.standard.inc_counter("f", labels(&[]), 1).unwrap();
    let out = collect_string(&m, false);
    assert!(out.contains("# HELP f line one\\nline two \\\\ end\n"), "got: {}", out);
}

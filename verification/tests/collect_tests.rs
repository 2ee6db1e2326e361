use promreg::{CollectError, FamilyKind, InfoMetric, Label, Metrics};

fn labels(vs: &[&str]) -> Vec<String> {
    vs.iter().map(|s| s.to_string()).collect()
}

fn collect_string(m: &Metrics, optional: bool) -> String {
    let mut buf: Vec<u8> = Vec::new();
    promreg::collect(m, &mut buf, optional).expect("collection should succeed");
    String::from_utf8(buf).expect("exposition output is UTF-8")
}

struct BuildInfo {
    version: String,
}

impl InfoMetric for BuildInfo {
    fn name(&self) -> &'static str {
        "build_info"
    }

    fn help(&self) -> &'static str {
        "Build information"
    }

    fn encode_labels(&self) -> Result<Vec<Label>, String> {
        Ok(vec![Label { name: "version".to_string(), value: self.version.clone() }])
    }
}

struct BrokenInfo;

impl InfoMetric for BrokenInfo {
    fn name(&self) -> &'static str {
        "broken_info"
    }

    fn help(&self) -> &'static str {
        "Never serializes"
    }

    fn encode_labels(&self) -> Result<Vec<Label>, String> {
        Err("unsupported value shape".to_string())
    }
}

#[test]
fn info_reporting_is_idempotent_per_type() {
    let mut m = Metrics::new();
    promreg::report_info(&mut m.info, BuildInfo { version: "1.0".to_string() });
    promreg::report_info(&mut m.info, BuildInfo { version: "2.0".to_string() });
    let out = collect_string(&m, false);
    assert_eq!(out.matches("# HELP build_info Build information\n").count(), 1);
    assert_eq!(out.matches("version=\"2.0\"").count(), 1);
    assert!(!out.contains("version=\"1.0\""));
    assert!(out.contains("build_info{version=\"2.0\"} 1\n"));
}

#[test]
fn info_record_exact_document() {
    let mut m = Metrics::new();
    promreg::report_info(&mut m.info, BuildInfo { version: "1.2.3".to_string() });
    let out = collect_string(&m, false);
    assert_eq!(
        out,
        "# HELP build_info Build information\n# TYPE build_info gauge\nbuild_info{version=\"1.2.3\"} 1\n"
    );
}

#[test]
fn serialization_failure_aborts_and_appends_nothing() {
    let mut m = Metrics::new();
    m.standard
        .register_family("ok".to_string(), "Ok".to_string(), labels(&[]), FamilyKind::Counter)
        .unwrap();
    m.standard.inc_counter("ok", labels(&[]), 1).unwrap();
    promreg::report_info(&mut m.info, BrokenInfo);
    let mut buf: Vec<u8> = vec![42u8];
    let r = promreg::collect(&m, &mut buf, false);
    match r {
        Err(CollectError::Serialization(msg)) => {
            assert_eq!(msg, "unsupported value shape");
        }
        other => panic!("expected a serialization error, got {:?}", other.map(|_| ())),
    }
    assert_eq!(buf, vec![42u8], "a failed pass must not append to the buffer");
}

#[test]
fn consecutive_collections_are_byte_identical() {
    let mut m = Metrics::new();
    promreg::report_info(&mut m.info, BuildInfo { version: "9".to_string() });
    m.standard
        .register_family(
            "s".to_string(),
            "S".to_string(),
            labels(&["k"]),
            FamilyKind::Counter,
        )
        .unwrap();
    m.standard.inc_counter("s", labels(&["v"]), 7).unwrap();
    let out1 = collect_string(&m, false);
    let out2 = collect_string(&m, false);
    assert_eq!(out1, out2);
}

#[test]
fn optional_flag_gates_the_optional_registry() {
    let mut m = Metrics::new();
    m.standard
        .register_family("std_m".to_string(), "S".to_string(), labels(&[]), FamilyKind::Counter)
        .unwrap();
    m.optional
        .register_family("opt_m".to_string(), "O".to_string(), labels(&[]), FamilyKind::Counter)
        .unwrap();
    m.standard.inc_counter("std_m", labels(&[]), 1).unwrap();
    m.optional.inc_counter("opt_m", labels(&[]), 1).unwrap();
    let without = collect_string(&m, false);
    assert!(without.contains("std_m"));
    assert!(!without.contains("opt_m"));
    let with = collect_string(&m, true);
    assert!(with.contains("std_m"));
    assert!(with.contains("opt_m"));
    let std_at = with.find("# HELP std_m").unwrap();
    let opt_at = with.find("# HELP opt_m").unwrap();
    assert!(std_at < opt_at, "standard output must come before optional output");
}

#[test]
fn registries_are_independent() {
    let mut m = Metrics::new();
    m.standard
        .register_family("st".to_string(), "S".to_string(), labels(&[]), FamilyKind::Counter)
        .unwrap();
    m.optional
        .register_family("op".to_string(), "O".to_string(), labels(&[]), FamilyKind::Counter)
        .unwrap();
    m.optional.inc_counter("op", labels(&[]), 5).unwrap();
    let optional_before = collect_string(&m, true);
    m.standard.inc_counter("st", labels(&[]), 1).unwrap();
    let optional_after = collect_string(&m, true);
    let seg_before = &optional_before[optional_before.find("# HELP op").unwrap()..];
    let seg_after = &optional_after[optional_after.find("# HELP op").unwrap()..];
    assert_eq!(seg_before, seg_after, "standard increments must not touch optional output");
    let standard_only_before = collect_string(&m, false);
    m.optional.inc_counter("op", labels(&[]), 5).unwrap();
    let standard_only_after = collect_string(&m, false);
    assert_eq!(
        standard_only_before, standard_only_after,
        "optional increments must not show in a standard-only pass"
    );
}

#[test]
fn empty_universe_collects_to_nothing() {
    let m = Metrics::new();
    let out = collect_string(&m, true);
    assert_eq!(out, "");
}

struct RuntimeInfo {
    flavor: &'static str,
}

impl InfoMetric for RuntimeInfo {
    fn name(&self) -> &'static str {
        "runtime_info"
    }

    fn help(&self) -> &'static str {
        "Runtime information"
    }

    fn encode_labels(&self) -> Result<Vec<Label>, String> {
        Ok(vec![Label { name: "flavor".to_string(), value: self.flavor.to_string() }])
    }
}

#[test]
fn two_info_types_coexist() {
    let mut m = Metrics::new();
    promreg::report_info(&mut m.info, BuildInfo { version: "3".to_string() });
    promreg::report_info(&mut m.info, RuntimeInfo { flavor: "debug" });
    promreg::report_info(&mut m.info, BuildInfo { version: "4".to_string() });
    let out = collect_string(&m, false);
    assert!(out.contains("build_info{version=\"4\"} 1\n"));
    assert!(out.contains("runtime_info{flavor=\"debug\"} 1\n"));
    assert_eq!(out.matches("# TYPE build_info gauge\n").count(), 1);
    assert_eq!(out.matches("# TYPE runtime_info gauge\n").count(), 1);
}

#[test]
fn full_pass_exact_document_order() {
    let mut m = Metrics::new();
    promreg::report_info(&mut m.info, BuildInfo { version: "7".to_string() });
    m.standard
        .register_family(
            "reqs".to_string(),
            "Requests".to_string(),
            labels(&["code"]),
            FamilyKind::Counter,
        )
        .unwrap();
    m.optional
        .register_family("exp".to_string(), "Expensive".to_string(), labels(&[]), FamilyKind::Gauge)
        .unwrap();
    m.standard.inc_counter("reqs", labels(&["200"]), 3).unwrap();
    m.standard.inc_counter("reqs", labels(&["500"]), 1).unwrap();
    m.optional.set_gauge("exp", labels(&[]), 11).unwrap();
    let out = collect_string(&m, true);
    let expected = "# HELP build_info Build information\n\
                    # TYPE build_info gauge\n\
                    build_info{version=\"7\"} 1\n\
                    # HELP reqs Requests\n\
                    # TYPE reqs counter\n\
                    reqs{code=\"200\"} 3\n\
                    reqs{code=\"500\"} 1\n\
                    # HELP exp Expensive\n\
                    # TYPE exp gauge\n\
                    exp 11\n";
    assert_eq!(out, expected);
}

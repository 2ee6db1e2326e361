// This file stands alone so that its registration into the process-wide
// prometheus default registry cannot leak into the other tests' output.

use promreg::{FamilyKind, Metrics};

#[test]
fn third_party_registry_is_always_appended() {
    let counter =
        prometheus::IntCounter::new("third_party_total", "Externally registered counter").unwrap();
    prometheus::default_registry().register(Box::new(counter.clone())).unwrap();
    counter.inc_by(4);

    let mut m = Metrics::new();
    m.standard
        .register_family(
            "own_total".to_string(),
            "Own counter".to_string(),
            Vec::new(),
            FamilyKind::Counter,
        )
        .unwrap();
    m.standard.inc_counter("own_total", Vec::new(), 1).unwrap();

    // The third-party gather runs even for a standard-only pass, and its
    // output lands after the library's own registries.
    let mut buf: Vec<u8> = Vec::new();
    promreg::collect(&m, &mut buf, false).unwrap();
    let out = String::from_utf8(buf).unwrap();
    assert!(out.contains("own_total 1\n"));
    assert!(out.contains("# TYPE third_party_total counter\n"));
    assert!(out.contains("third_party_total 4\n"));
    let own_at = out.find("own_total").unwrap();
    let tp_at = out.find("# HELP third_party_total").unwrap();
    assert!(own_at < tp_at);
}

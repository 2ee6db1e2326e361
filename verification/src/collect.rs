//! The collection pipeline.
//!
//! One synchronous pass serializes the whole metric universe into a byte
//! buffer: first every info metric, then the standard registry, then (only
//! when asked) the optional registry, and finally whatever the process-wide
//! third-party prometheus registry has gathered. The pass never retries and
//! never rewinds the buffer.

use vstd::prelude::*;

use crate::info::{find_err, infos_doc, infos_ok, InfoRegistry};
use crate::registry::{registry_doc, Registry};

verus! {

/// Why a collection pass failed.
#[derive(Debug)]
pub enum CollectError {
    /// An info record's fields could not be serialized into labels.
    Serialization(String),
    /// The third-party registry's text encoder failed.
    Encoding(String),
}

impl CollectError {
    /// The failure's message.
    pub fn message(&self) -> (r: &str)
        ensures
            r@ == (match self {
                CollectError::Serialization(m) => m@,
                CollectError::Encoding(m) => m@,
            }),
    {
        match self {
            CollectError::Serialization(m) => m.as_str(),
            CollectError::Encoding(m) => m.as_str(),
        }
    }
}

/// The whole metric universe of a process: the info registry, the standard
/// registry (always collected) and the optional registry (collected only on
/// request, because collecting it may be costly).
pub struct Metrics {
    pub info: InfoRegistry,
    pub standard: Registry,
    pub optional: Registry,
}

impl Metrics {
    /// All three registries are well-formed.
    pub open spec fn wf(&self) -> bool {
        &&& self.info.wf()
        &&& self.standard.wf()
        &&& self.optional.wf()
    }

    /// A fresh universe with three empty registries.
    pub fn new() -> (r: Metrics)
        ensures
            r.wf(),
            r.info@ == Seq::<crate::info::InfoEntryModel>::empty(),
            r.standard@ == Seq::<crate::registry::FamilyModel>::empty(),
            r.optional@ == Seq::<crate::registry::FamilyModel>::empty(),
    {
        Metrics { info: InfoRegistry::new(), standard: Registry::new(), optional: Registry::new() }
    }
}

/// The deterministic part of a collection pass: info records, then the
/// standard registry, then (only when asked) the optional registry.
pub open spec fn metrics_doc(m: Metrics, collect_optional: bool) -> Seq<u8> {
    infos_doc(m.info@, m.info@.len() as int) + registry_doc(m.standard@) + (if collect_optional {
        registry_doc(m.optional@)
    } else {
        Seq::<u8>::empty()
    })
}

/// Order stability: the document a collection pass promises is a function
/// of the three registries' models alone, so two passes over one unchanged
/// universe promise byte-identical core output.
pub proof fn lemma_order_stability(m1: Metrics, m2: Metrics, collect_optional: bool)
    requires
        m1.info@ == m2.info@,
        m1.standard@ == m2.standard@,
        m1.optional@ == m2.optional@,
    ensures
        metrics_doc(m1, collect_optional) == metrics_doc(m2, collect_optional),
{
}

/// The optional registry never leaks into a standard-only pass: the
/// standard-only document is a function of the info and standard registries
/// alone.
pub proof fn lemma_registry_independence(m1: Metrics, m2: Metrics)
    requires
        m1.info == m2.info,
        m1.standard == m2.standard,
    ensures
        metrics_doc(m1, false) == metrics_doc(m2, false),
{
}

/// Gating and order of the optional registry: a full pass is exactly the
/// standard-only pass with the optional registry's whole document appended
/// after it, never interleaved.
pub proof fn lemma_optional_after_standard(m: Metrics)
    ensures
        metrics_doc(m, true) == metrics_doc(m, false) + registry_doc(m.optional@),
{
    assert(metrics_doc(m, true) =~= metrics_doc(m, false) + registry_doc(m.optional@));
}

#[verifier::external_type_specification]
#[verifier::external_body]
pub struct ExMetricFamily(prometheus::proto::MetricFamily);

/// Relies on `prometheus::gather`: a snapshot of the families of the
/// process-wide default prometheus registry. The result depends on that
/// global state, so nothing is promised of its contents.
#[verifier::external_body]
fn gather_third_party() -> Vec<prometheus::proto::MetricFamily> {
    prometheus::gather()
}

/// Relies on `prometheus::TextEncoder::encode`: appends the families' text
/// exposition to `out`. The encoder writes through `std::io::Write` on a
/// `Vec<u8>`, which only appends, so whether it succeeds or fails the buffer
/// only grows.
#[verifier::external_body]
fn encode_third_party(families: &Vec<prometheus::proto::MetricFamily>, out: &mut Vec<u8>) -> (r:
    Result<(), String>)
    ensures
        old(out)@.is_prefix_of(final(out)@),
{
    prometheus::Encoder::encode(&prometheus::TextEncoder::new(), families, out).map_err(
        |e| format!("{}", e),
    )
}

/// Collects the whole metric universe into `buffer`, appending the standard
/// Prometheus text exposition format: info metrics first, then the standard
/// registry, then the optional registry if `collect_optional` is set, then
/// the third-party registry.
///
/// On a serialization failure nothing is appended and the pass aborts with
/// the first failing record's message; on a third-party encoding failure the
/// core registries' bytes (and whatever the third-party encoder managed to
/// write) stay in the buffer, and the caller must discard it.
#[verifier::rlimit(100)]
#[verifier::spinoff_prover]
pub fn collect(metrics: &Metrics, buffer: &mut Vec<u8>, collect_optional: bool) -> (r: Result<
    (),
    CollectError,
>)
    requires
        metrics.wf(),
    ensures
        infos_ok(metrics.info@) ==> exists|t: Seq<u8>|
            final(buffer)@ == old(buffer)@ + metrics_doc(*metrics, collect_optional) + t,
        infos_ok(metrics.info@) ==> (r is Ok || r matches Err(CollectError::Encoding(_))),
        !infos_ok(metrics.info@) ==> final(buffer)@ == old(buffer)@ && {
            let j = find_err(metrics.info@, metrics.info@.len() as int);
            &&& r matches Err(CollectError::Serialization(m)) && m@ == metrics.info@[j].labels->Err_0
        },
{
    let mut head: Vec<u8> = Vec::new();
    match metrics.info.encode(&mut head) {
        Err(msg) => {
            return Err(CollectError::Serialization(msg));
        },
        Ok(()) => {},
    }
    metrics.standard.encode(&mut head);
    if collect_optional {
        metrics.optional.encode(&mut head);
    }
    proof {
        assert(head@ =~= metrics_doc(*metrics, collect_optional));
    }
    buffer.append(&mut head);
    let ghost before_tp = buffer@;
    let families = gather_third_party();
    match encode_third_party(&families, buffer) {
        Err(msg) => {
            proof {
                let t = buffer@.subrange(before_tp.len() as int, buffer@.len() as int);
                assert(buffer@ =~= old(buffer)@ + metrics_doc(*metrics, collect_optional) + t);
            }
            Err(CollectError::Encoding(msg))
        },
        Ok(()) => {
            proof {
                let t = buffer@.subrange(before_tp.len() as int, buffer@.len() as int);
                assert(buffer@ =~= old(buffer)@ + metrics_doc(*metrics, collect_optional) + t);
            }
            Ok(())
        },
    }
}

} // verus!

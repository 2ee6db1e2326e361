//! A process-wide metrics registration and exposition library.
//!
//! Application code registers named, labeled metric families in a standard or
//! an optional registry, mutates live counter, gauge and histogram instances,
//! and reports singleton info metrics keyed by type identity. One collection
//! pass serializes the whole metric universe (info metrics, the standard
//! registry, optionally the optional registry, and the process-wide
//! third-party prometheus registry) into the Prometheus text exposition
//! format, in a fixed and fully specified order.

pub mod collect;
pub mod info;
pub mod metric;
pub mod registry;
pub mod text;

pub use collect::{collect, CollectError, Metrics};
pub use info::{report_info, InfoEntry, InfoMetric, InfoRegistry, Label};
pub use metric::{Counter, Gauge, Histogram, HistogramBuilder};
pub use registry::{FamilyKind, Registry, RegistryError};

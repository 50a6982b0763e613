//! Static analysis of an Istio service mesh snapshot, traffic route tracing
//! and cluster forensics (incident timelines, node capacity, admission webhooks).

pub mod analyzer;
pub mod diagnostics;
pub mod graph;
pub mod k8s;
pub mod labels;
pub mod model;
pub mod objects;
pub mod seqs;
pub mod text;
pub mod tui;

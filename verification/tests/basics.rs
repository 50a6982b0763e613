use istio_lens::analyzer::{AuditIssue, IssueSeverity};
use istio_lens::graph::SubnetTarget;
use istio_lens::k8s::{build_snapshot, PodInfo, ServiceMeta};
use istio_lens::labels::Labels;
use istio_lens::model::{
    clone_strings, contains_string, string_or, ObjectMeta, ResourceKey, ServiceEntry, ServiceEntrySpec,
};
use istio_lens::objects::{ContainerStatus, PodRecord, ServicePortRecord, ServiceRecord, Timestamp};
use istio_lens::text::{contains_str, int_to_decimal, split_once_char, starts_with_str, str_eq, text_less};
use istio_lens::tui::view::{service_card_text, summarize, target_readiness, MeshHealth, PodsHealth};

fn labels(pairs: &[(&str, &str)]) -> Labels {
    let mut l = Labels::new();
    for (k, v) in pairs {
        l.insert(k.to_string(), v.to_string());
    }
    l
}

#[test]
fn text_helpers() {
    assert!(contains_str("reviews.external.io", "external"));
    assert!(contains_str("abc", ""));
    assert!(!contains_str("ab", "abc"));
    assert!(starts_with_str("checkout-v2", "checkout"));
    assert!(!starts_with_str("check", "checkout"));
    assert!(str_eq("mesh", "mesh"));
    assert!(!str_eq("mesh", "Mesh"));
    assert_eq!(split_once_char("a.b.c", '.'), ("a".to_string(), Some("b.c".to_string())));
    assert_eq!(split_once_char("abc", '.'), ("abc".to_string(), None));
    assert_eq!(split_once_char(".x", '.'), ("".to_string(), Some("x".to_string())));
    assert_eq!(int_to_decimal(0), "0");
    assert_eq!(int_to_decimal(8080), "8080");
    assert_eq!(int_to_decimal(-42), "-42");
    assert_eq!(int_to_decimal(i64::MIN), "-9223372036854775808");
    assert_eq!(int_to_decimal(i64::MAX), "9223372036854775807");
    assert!(text_less("a", "b"));
    assert!(text_less("ab", "abc"));
    assert!(!text_less("b", "abc"));
    assert!(!text_less("x", "x"));
    assert!(text_less("Z", "a"));
}

#[test]
fn labels_behave_as_a_sorted_map() {
    let mut l = Labels::new();
    assert!(l.is_empty());
    l.insert("tier".to_string(), "backend".to_string());
    l.insert("app".to_string(), "checkout".to_string());
    l.insert("version".to_string(), "v1".to_string());
    l.insert("app".to_string(), "cart".to_string());
    assert_eq!(l.len(), 3);
    assert!(!l.is_empty());
    assert_eq!(l.get("app"), Some(&"cart".to_string()));
    assert_eq!(l.get("missing"), None);
    let keys: Vec<String> = (0..l.len()).map(|i| l.entry(i).0.clone()).collect();
    assert_eq!(keys, vec!["app".to_string(), "tier".to_string(), "version".to_string()]);
    let copy = l.duplicate();
    assert_eq!(copy, l);
    let mut base = labels(&[("app", "checkout"), ("zone", "a")]);
    base.extend(&labels(&[("version", "v2"), ("app", "override")]));
    assert_eq!(base.get("app"), Some(&"override".to_string()));
    assert_eq!(base.get("version"), Some(&"v2".to_string()));
    assert_eq!(base.len(), 3);
}

#[test]
fn selector_matching() {
    let pod = labels(&[("app", "checkout"), ("version", "v2"), ("tier", "backend")]);
    assert!(labels(&[("app", "checkout")]).selects(&pod));
    assert!(labels(&[("app", "checkout"), ("version", "v2")]).selects(&pod));
    assert!(!labels(&[("app", "checkout"), ("version", "v1")]).selects(&pod));
    assert!(!labels(&[("zone", "a")]).selects(&pod));
    assert!(Labels::new().selects(&pod));
}

#[test]
fn model_helpers() {
    let a = ResourceKey::new("prod", "checkout");
    assert_eq!(a, ResourceKey { namespace: "prod".to_string(), name: "checkout".to_string() });
    assert!(a.same_as(&ResourceKey::new("prod", "checkout")));
    assert!(!a.same_as(&ResourceKey::new("checkout", "prod")));
    assert_eq!(string_or(&Some("x".to_string()), "d"), "x");
    assert_eq!(string_or(&None, "d"), "d");
    let v = vec!["a".to_string(), "b".to_string()];
    assert_eq!(clone_strings(&v), v);
    assert!(contains_string(&v, "b"));
    assert!(!contains_string(&v, "c"));
}

#[test]
fn snapshot_from_listed_resources() {
    let services = vec![
        ServiceRecord {
            name: "checkout".to_string(),
            namespace: Some("prod".to_string()),
            selector: Some(labels(&[("app", "checkout")])),
            ports: Some(vec![
                ServicePortRecord { name: Some("http".to_string()), port: 8080 },
                ServicePortRecord { name: None, port: 9090 },
            ]),
        },
        ServiceRecord { name: "nowhere".to_string(), namespace: None, selector: None, ports: None },
        ServiceRecord { name: "api".to_string(), namespace: Some("alpha".to_string()), selector: None, ports: None },
        ServiceRecord { name: "db".to_string(), namespace: Some("prod".to_string()), selector: None, ports: None },
    ];
    let entries = vec![ServiceEntry {
        metadata: ObjectMeta { name: "ext".to_string(), namespace: Some("mesh-ext".to_string()) },
        spec: ServiceEntrySpec {
            hosts: vec!["api.stripe.com".to_string(), "api.github.com".to_string()],
            location: Some("MESH_EXTERNAL".to_string()),
            resolution: None,
        },
    }];
    let pods = vec![
        PodRecord {
            name: "checkout-1".to_string(),
            namespace: Some("prod".to_string()),
            labels: Some(labels(&[("app", "checkout")])),
            node_name: Some("n1".to_string()),
            phase: Some("Running".to_string()),
            container_statuses: Some(vec![ContainerStatus { ready: true, last_terminated: None }]),
            containers: None,
        },
        PodRecord {
            name: "checkout-2".to_string(),
            namespace: None,
            labels: None,
            node_name: None,
            phase: None,
            container_statuses: Some(vec![ContainerStatus { ready: true, last_terminated: None }]),
            containers: None,
        },
        PodRecord {
            name: "checkout-3".to_string(),
            namespace: Some("prod".to_string()),
            labels: None,
            node_name: None,
            phase: Some("Running".to_string()),
            container_statuses: Some(vec![
                ContainerStatus { ready: true, last_terminated: None },
                ContainerStatus { ready: false, last_terminated: None },
            ]),
            containers: None,
        },
        PodRecord {
            name: "checkout-4".to_string(),
            namespace: Some("prod".to_string()),
            labels: None,
            node_name: None,
            phase: Some("Running".to_string()),
            container_statuses: None,
            containers: None,
        },
    ];
    let s = build_snapshot(Vec::new(), Vec::new(), Vec::new(), entries, &services, &pods);
    assert_eq!(
        s.existing_service_keys,
        vec![ResourceKey::new("prod", "checkout"), ResourceKey::new("alpha", "api"), ResourceKey::new("prod", "db")]
    );
    assert_eq!(s.services_meta.len(), 3);
    assert_eq!(s.services_meta[0].ports, vec!["http:8080".to_string(), ":9090".to_string()]);
    assert_eq!(s.services_meta[0].selector.get("app"), Some(&"checkout".to_string()));
    assert!(s.services_meta[1].selector.is_empty());
    assert_eq!(s.external_hosts, vec!["api.stripe.com".to_string(), "api.github.com".to_string()]);
    assert_eq!(s.namespaces, vec!["alpha".to_string(), "mesh-ext".to_string(), "prod".to_string()]);
    let ready: Vec<(String, String, bool, String)> =
        s.pods.iter().map(|p| (p.name.clone(), p.namespace.clone(), p.is_ready, p.phase.clone())).collect();
    assert_eq!(
        ready,
        vec![
            ("checkout-1".to_string(), "prod".to_string(), true, "Running".to_string()),
            ("checkout-2".to_string(), "default".to_string(), false, "Unknown".to_string()),
            ("checkout-3".to_string(), "prod".to_string(), false, "Running".to_string()),
            ("checkout-4".to_string(), "prod".to_string(), false, "Running".to_string()),
        ]
    );
    assert_eq!(s.pods[0].duplicate(), s.pods[0]);
    assert_eq!(s.services_meta[0].duplicate(), s.services_meta[0]);
}

fn issue(severity: IssueSeverity) -> AuditIssue {
    AuditIssue {
        kind: "Gateway".to_string(),
        resource: "r".to_string(),
        namespace: "n".to_string(),
        severity,
        description: "d".to_string(),
    }
}

#[test]
fn mesh_health_summary() {
    let crit = vec![issue(IssueSeverity::Critical), issue(IssueSeverity::Warning)];
    let warn = vec![issue(IssueSeverity::Warning)];
    assert_eq!(summarize(&crit, &warn), (1, 2, MeshHealth::Critical));
    assert_eq!(summarize(&warn, &Vec::new()), (0, 1, MeshHealth::Warning));
    assert_eq!(summarize(&Vec::new(), &Vec::new()), (0, 0, MeshHealth::Healthy));
}

fn pod_info(ready: bool) -> PodInfo {
    PodInfo {
        name: "p".to_string(),
        namespace: "prod".to_string(),
        labels: Labels::new(),
        is_ready: ready,
        phase: "Running".to_string(),
    }
}

fn target(pods: Vec<PodInfo>) -> SubnetTarget {
    SubnetTarget {
        subset_name: "default".to_string(),
        weight: 100,
        destination_rule: None,
        service_meta: None,
        matching_pods: pods,
    }
}

#[test]
fn route_target_readiness() {
    assert_eq!(target_readiness(&target(vec![])), (0, 0, PodsHealth::DeadEnd));
    assert_eq!(target_readiness(&target(vec![pod_info(true), pod_info(false)])), (1, 2, PodsHealth::Degraded));
    assert_eq!(target_readiness(&target(vec![pod_info(true), pod_info(true)])), (2, 2, PodsHealth::Healthy));
}

#[test]
fn service_card_texts() {
    assert_eq!(
        service_card_text(&None),
        ("Unknown".to_string(), "External / No Service".to_string())
    );
    let meta = ServiceMeta {
        name: "checkout".to_string(),
        namespace: "prod".to_string(),
        selector: labels(&[("tier", "backend"), ("app", "checkout")]),
        ports: vec!["http:8080".to_string(), "grpc:9090".to_string()],
    };
    assert_eq!(
        service_card_text(&Some(meta)),
        ("http:8080, grpc:9090".to_string(), "app=checkout, tier=backend".to_string())
    );
    let bare = ServiceMeta { name: "x".to_string(), namespace: "y".to_string(), selector: Labels::new(), ports: vec![] };
    assert_eq!(service_card_text(&Some(bare)), ("default".to_string(), "No selector".to_string()));
}

#[test]
fn timestamps_order() {
    let a = Timestamp { seconds: 10, nanos: 5 };
    let b = Timestamp { seconds: 10, nanos: 6 };
    let c = Timestamp { seconds: 9, nanos: 999 };
    assert!(b.is_after(&a));
    assert!(!a.is_after(&b));
    assert!(a.is_after(&c));
    assert!(!a.is_after(&a));
}

#[test]
fn snapshot_keeps_each_service_key_and_host_once() {
    let svc = |ns: &str, name: &str| ServiceRecord {
        name: name.to_string(),
        namespace: Some(ns.to_string()),
        selector: None,
        ports: None,
    };
    let entry = |hosts: &[&str]| ServiceEntry {
        metadata: ObjectMeta { name: "e".to_string(), namespace: None },
        spec: ServiceEntrySpec { hosts: hosts.iter().map(|h| h.to_string()).collect(), location: None, resolution: None },
    };
    let s = build_snapshot(
        Vec::new(),
        Vec::new(),
        Vec::new(),
        vec![entry(&["a.com", "b.com"]), entry(&["b.com", "c.com"])],
        &[svc("prod", "x"), svc("prod", "y"), svc("prod", "x")],
        &[],
    );
    assert_eq!(s.existing_service_keys, vec![ResourceKey::new("prod", "x"), ResourceKey::new("prod", "y")]);
    assert_eq!(s.external_hosts, vec!["a.com".to_string(), "b.com".to_string(), "c.com".to_string()]);
    assert_eq!(s.services_meta.len(), 3);
    assert_eq!(s.namespaces, vec!["prod".to_string()]);
}

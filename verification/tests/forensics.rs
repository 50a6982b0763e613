use istio_lens::diagnostics::timeline::analyze_pod_at;
use istio_lens::diagnostics::webhooks::{ServiceReference, Webhook, WebhookConfiguration, WebhookRiskLevel};
use istio_lens::diagnostics::{active_services, DiagnosticsSnapshot};
use istio_lens::labels::Labels;
use istio_lens::objects::{ContainerStatus, NodeRecord, PodRecord, TerminatedState, Timestamp};

fn app_labels(app: Option<&str>) -> Option<Labels> {
    let mut l = Labels::new();
    if let Some(a) = app {
        l.insert("app".to_string(), a.to_string());
    }
    l.insert("team".to_string(), "core".to_string());
    Some(l)
}

fn pod(name: &str, ns: Option<&str>, app: Option<&str>, phase: &str, exit: Option<i32>) -> PodRecord {
    PodRecord {
        name: name.to_string(),
        namespace: ns.map(|s| s.to_string()),
        labels: app_labels(app),
        node_name: Some("n1".to_string()),
        phase: Some(phase.to_string()),
        container_statuses: Some(vec![ContainerStatus {
            ready: phase == "Running",
            last_terminated: exit.map(|c| TerminatedState { exit_code: c, reason: None }),
        }]),
        containers: Some(vec![]),
    }
}

#[test]
fn active_services_are_running_pods_with_app_label() {
    let pods = vec![
        pod("a", Some("istio-system"), Some("istiod"), "Running", None),
        pod("b", Some("prod"), Some("checkout"), "Pending", None),
        pod("c", None, Some("orphan"), "Running", None),
        pod("d", Some("prod"), None, "Running", None),
        pod("e", Some("gk"), Some("gatekeeper"), "Running", None),
    ];
    assert_eq!(
        active_services(&pods),
        vec!["istio-system/istiod".to_string(), "gk/gatekeeper".to_string()]
    );
}

#[test]
fn assembled_forensics_cover_incidents_nodes_and_webhooks() {
    let pods = vec![
        pod("istiod-1", Some("istio-system"), Some("istiod"), "Running", None),
        pod("crashy", Some("prod"), Some("crashy"), "Running", Some(1)),
        pod("waiting", Some("prod"), Some("w"), "Pending", None),
    ];
    let nodes = vec![NodeRecord { name: "n1".to_string(), allocatable_cpu_millis: Some(2000), allocatable_memory_mib: Some(4096) }];
    let hooks = vec![WebhookConfiguration {
        name: "injector".to_string(),
        webhooks: Some(vec![
            Webhook {
                name: "up".to_string(),
                service: Some(ServiceReference { namespace: "istio-system".to_string(), name: "istiod".to_string(), port: None }),
                failure_policy: None,
                timeout_seconds: None,
                rules: None,
            },
            Webhook {
                name: "down".to_string(),
                service: Some(ServiceReference { namespace: "gk".to_string(), name: "gatekeeper".to_string(), port: None }),
                failure_policy: Some("Fail".to_string()),
                timeout_seconds: None,
                rules: None,
            },
        ]),
    }];
    let now = Timestamp { seconds: 1000, nanos: 0 };
    let d = DiagnosticsSnapshot::assemble(&pods, &[], &nodes, &hooks, &[], now);
    assert_eq!(d.incidents.len(), 2);
    assert_eq!(d.incidents[0], analyze_pod_at(&pods[1], &[], now).unwrap());
    assert_eq!(d.incidents[0].pod_name, "crashy");
    assert_eq!(d.incidents[1].pod_name, "waiting");
    assert_eq!(d.node_profiles.len(), 1);
    assert_eq!(d.node_profiles[0].best_effort_pods.len(), 3);
    assert_eq!(d.webhook_reports.len(), 2);
    assert_eq!(d.webhook_reports[0].risk_level, WebhookRiskLevel::Safe);
    assert_eq!(d.webhook_reports[1].risk_level, WebhookRiskLevel::ClusterBlocker);
}

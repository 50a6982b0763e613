use istio_lens::diagnostics::timeline::{analyze_pod_at, IncidentSeverity, IncidentTimelineEngine};
use istio_lens::objects::{ContainerStatus, EventRecord, PodRecord, TerminatedState, Timestamp};

fn ts(seconds: i64) -> Timestamp {
    Timestamp { seconds, nanos: 0 }
}

fn pod(phase: &str, exit: Option<(i32, Option<&str>)>) -> PodRecord {
    PodRecord {
        name: "checkout-7f9".to_string(),
        namespace: Some("prod".to_string()),
        labels: None,
        node_name: Some("node-1".to_string()),
        phase: Some(phase.to_string()),
        container_statuses: Some(vec![ContainerStatus {
            ready: false,
            last_terminated: exit.map(|(code, reason)| TerminatedState {
                exit_code: code,
                reason: reason.map(|r| r.to_string()),
            }),
        }]),
        containers: None,
    }
}

fn event(kind: &str, name: &str, ns: Option<&str>, at: Option<i64>, reason: &str, ty: &str) -> EventRecord {
    EventRecord {
        involved_kind: Some(kind.to_string()),
        involved_name: Some(name.to_string()),
        involved_namespace: ns.map(|s| s.to_string()),
        last_timestamp: at.map(ts),
        event_time: None,
        reason: Some(reason.to_string()),
        message: Some(format!("{} happened", reason)),
        event_type: Some(ty.to_string()),
        source_component: None,
    }
}

const NODE_OOM: &str = "КРИТИЧЕСКИЙ СБОЙ НОДЫ: Контейнер уничтожен Linux OOM-Killer из-за исчерпания системной памяти всей ноды (Node MemoryPressure). Лимиты пода вторичны.";
const LIMIT_OOM: &str = "CONTAINER LIMIT OOM: Контейнер превысил жесткий лимит memory.limits. Памяти на ноде было достаточно.";

#[test]
fn running_pod_that_never_failed_has_no_incident() {
    let p = pod("Running", None);
    let events = vec![event("Pod", "checkout-7f9", Some("prod"), Some(10), "Pulled", "Normal")];
    assert!(analyze_pod_at(&p, &events, ts(100)).is_none());
}

#[test]
fn oom_kill_under_node_memory_pressure_blames_the_node() {
    let p = pod("Running", Some((137, Some("OOMKilled"))));
    let events = vec![
        event("Pod", "checkout-7f9", Some("prod"), Some(30), "OOMKilling", "Warning"),
        event("Node", "node-1", None, Some(20), "NodeHasMemoryPressure", "Warning"),
        event("Pod", "other-pod", Some("prod"), Some(5), "Killing", "Normal"),
        event("Node", "node-2", None, Some(1), "NodeHasMemoryPressure", "Warning"),
        event("Pod", "checkout-7f9", Some("prod"), Some(10), "Started", "Normal"),
    ];
    let a = analyze_pod_at(&p, &events, ts(100)).unwrap();
    assert_eq!(a.pod_name, "checkout-7f9");
    assert_eq!(a.namespace, "prod");
    assert_eq!(a.exit_code, Some(137));
    assert!(a.is_node_level_failure);
    assert_eq!(a.root_cause_verdict, NODE_OOM);
    let order: Vec<(i64, &str, &str)> =
        a.events.iter().map(|e| (e.timestamp.seconds, e.reason.as_str(), e.source.as_str())).collect();
    assert_eq!(
        order,
        vec![
            (10, "Started", "Kubelet"),
            (20, "NodeHasMemoryPressure", "Node: node-1"),
            (30, "OOMKilling", "Kubelet"),
        ]
    );
    assert_eq!(a.events[0].severity, IncidentSeverity::Info);
    assert_eq!(a.events[1].severity, IncidentSeverity::Warning);
    assert_eq!(a.events[2].severity, IncidentSeverity::Fatal);
    assert_eq!(a.events[2].message, "OOMKilling happened");
}

#[test]
fn oom_kill_on_a_calm_node_is_a_container_limit() {
    let p = pod("CrashLoopBackOff", Some((137, Some("OOMKilled"))));
    let events = vec![event("Node", "node-1", None, Some(20), "NodeReady", "Normal")];
    let a = analyze_pod_at(&p, &events, ts(100)).unwrap();
    assert!(!a.is_node_level_failure);
    assert_eq!(a.root_cause_verdict, LIMIT_OOM);
}

#[test]
fn exit_codes_give_their_verdicts() {
    let cases: Vec<(i32, Option<&str>, &str)> = vec![
        (137, Some("Error"), "SIGKILL (137): Процесс принудительно убит извне (Liveness Probe timeout или отказ Kubelet Grace Period)."),
        (143, None, "SIGTERM (143): Корректное завершение по инициативе Kubelet (Preemption, ручной drain или ротация ноды)."),
        (1, Some("Error"), "APPLICATION PANIC/CRASH: Внутренний сбой среды выполнения (Uncaught Exception или ранняя паника main-потока)."),
        (2, None, "APPLICATION PANIC/CRASH: Внутренний сбой среды выполнения (Uncaught Exception или ранняя паника main-потока)."),
        (3, None, "UNEXPECTED EXIT: Под завершился с кодом Some(3)"),
        (-1, None, "UNEXPECTED EXIT: Под завершился с кодом Some(-1)"),
    ];
    for (code, reason, verdict) in cases {
        let a = analyze_pod_at(&pod("Running", Some((code, reason))), &[], ts(0)).unwrap();
        assert_eq!(a.root_cause_verdict, verdict);
        assert_eq!(a.exit_code, Some(code));
        assert!(!a.is_node_level_failure);
    }
}

#[test]
fn pending_pod_with_failed_scheduling_is_blocked_by_scheduler() {
    let mut p = pod("Pending", None);
    p.node_name = None;
    let events = vec![event("Pod", "checkout-7f9", Some("prod"), Some(5), "FailedScheduling", "Warning")];
    let a = analyze_pod_at(&p, &events, ts(100)).unwrap();
    assert_eq!(a.exit_code, None);
    assert_eq!(
        a.root_cause_verdict,
        "SCHEDULER BLOCKED: Невозможно разместить под из-за нехватки CPU/Memory Requests или несовпадения Taints/Tolerations."
    );
    assert_eq!(a.events[0].severity, IncidentSeverity::Fatal);
}

#[test]
fn pending_pod_without_events_is_unexpected() {
    let a = analyze_pod_at(&pod("Pending", None), &[], ts(0)).unwrap();
    assert_eq!(a.root_cause_verdict, "UNEXPECTED EXIT: Под завершился с кодом None");
    assert!(a.events.is_empty());
}

#[test]
fn later_container_termination_wins() {
    let mut p = pod("Running", Some((1, None)));
    p.container_statuses = Some(vec![
        ContainerStatus { ready: true, last_terminated: Some(TerminatedState { exit_code: 143, reason: None }) },
        ContainerStatus { ready: true, last_terminated: None },
        ContainerStatus { ready: true, last_terminated: Some(TerminatedState { exit_code: 2, reason: None }) },
    ]);
    assert_eq!(analyze_pod_at(&p, &[], ts(0)).unwrap().exit_code, Some(2));
}

#[test]
fn pod_without_namespace_is_analysed_in_default() {
    let mut p = pod("Failed", Some((1, None)));
    p.namespace = None;
    let events = vec![
        event("Pod", "checkout-7f9", Some("default"), Some(1), "BackOff", "Warning"),
        event("Pod", "checkout-7f9", Some("prod"), Some(2), "BackOff", "Warning"),
    ];
    let a = analyze_pod_at(&p, &events, ts(0)).unwrap();
    assert_eq!(a.namespace, "default");
    assert_eq!(a.events.len(), 1);
    assert_eq!(a.events[0].timestamp.seconds, 1);
}

#[test]
fn event_times_fall_back_to_event_time_then_now() {
    let p = pod("Failed", Some((1, None)));
    let mut with_event_time = event("Pod", "checkout-7f9", Some("prod"), None, "A", "Normal");
    with_event_time.event_time = Some(ts(50));
    let untimed = event("Pod", "checkout-7f9", Some("prod"), None, "B", "Normal");
    let timed = event("Pod", "checkout-7f9", Some("prod"), Some(70), "C", "Normal");
    let a = analyze_pod_at(&p, &[untimed, timed, with_event_time], ts(60)).unwrap();
    let order: Vec<(i64, &str)> = a.events.iter().map(|e| (e.timestamp.seconds, e.reason.as_str())).collect();
    assert_eq!(order, vec![(50, "A"), (60, "B"), (70, "C")]);
}

#[test]
fn equal_times_keep_the_listed_order() {
    let p = pod("Failed", Some((1, None)));
    let events = vec![
        event("Pod", "checkout-7f9", Some("prod"), Some(5), "Second", "Normal"),
        event("Pod", "checkout-7f9", Some("prod"), Some(5), "Third", "Normal"),
        event("Pod", "checkout-7f9", Some("prod"), Some(1), "First", "Normal"),
        event("Pod", "checkout-7f9", Some("prod"), Some(5), "Fourth", "Normal"),
    ];
    let a = analyze_pod_at(&p, &events, ts(0)).unwrap();
    let reasons: Vec<&str> = a.events.iter().map(|e| e.reason.as_str()).collect();
    assert_eq!(reasons, vec!["First", "Second", "Third", "Fourth"]);
}

#[test]
fn severity_source_and_defaults_of_entries() {
    let p = pod("Failed", Some((1, None)));
    let mut evicted = event("Pod", "checkout-7f9", Some("prod"), Some(1), "Evicted", "Normal");
    evicted.source_component = Some("kubelet-x".to_string());
    let mut bare = event("Pod", "checkout-7f9", Some("prod"), Some(2), "x", "Normal");
    bare.reason = None;
    bare.message = None;
    bare.event_type = None;
    let a = analyze_pod_at(&p, &[evicted, bare], ts(0)).unwrap();
    assert_eq!(a.events[0].severity, IncidentSeverity::Fatal);
    assert_eq!(a.events[0].source, "kubelet-x");
    assert_eq!(a.events[1].reason, "Unknown");
    assert_eq!(a.events[1].message, "");
    assert_eq!(a.events[1].severity, IncidentSeverity::Info);
}

#[test]
fn engine_places_untimed_events_at_the_given_moment() {
    let p = pod("Failed", Some((1, None)));
    let untimed = event("Pod", "checkout-7f9", Some("prod"), None, "B", "Normal");
    let a = IncidentTimelineEngine::analyze_pod(&p, &[untimed.clone()], ts(1234)).unwrap();
    assert_eq!(a.events[0].timestamp.seconds, 1234);
    assert_eq!(Some(a), analyze_pod_at(&p, &[untimed], ts(1234)));
    assert!(IncidentTimelineEngine::analyze_pod(&pod("Running", None), &[], ts(0)).is_none());
}

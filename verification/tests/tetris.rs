use istio_lens::diagnostics::tetris::{
    build_profiles, extract_pod_resources, parse_cpu_quantity, parse_memory_quantity, profiles_computable,
    QosClass, ResourceAllocation, TetrisAnalyzer,
};
use istio_lens::objects::{ContainerResources, NodeRecord, PodRecord, ResourceAmounts};

fn amounts(cpu: Option<i64>, mem: Option<i64>) -> Option<ResourceAmounts> {
    Some(ResourceAmounts { cpu_millis: cpu, memory_mib: mem })
}

fn container(requests: Option<ResourceAmounts>, limits: Option<ResourceAmounts>) -> ContainerResources {
    ContainerResources { requests, limits }
}

fn pod(name: &str, node: Option<&str>, phase: Option<&str>, containers: Vec<ContainerResources>) -> PodRecord {
    PodRecord {
        name: name.to_string(),
        namespace: Some("prod".to_string()),
        labels: None,
        node_name: node.map(|n| n.to_string()),
        phase: phase.map(|p| p.to_string()),
        container_statuses: None,
        containers: Some(containers),
    }
}

fn node(name: &str, cpu: Option<i64>, mem: Option<i64>) -> NodeRecord {
    NodeRecord { name: name.to_string(), allocatable_cpu_millis: cpu, allocatable_memory_mib: mem }
}

#[test]
fn cpu_quantities_in_millicores() {
    assert_eq!(parse_cpu_quantity("250m"), Some(250));
    assert_eq!(parse_cpu_quantity("1500m"), Some(1500));
    assert_eq!(parse_cpu_quantity("2"), Some(2000));
    assert_eq!(parse_cpu_quantity("0"), Some(0));
    assert_eq!(parse_cpu_quantity("xm"), Some(0));
    assert_eq!(parse_cpu_quantity("m"), Some(0));
    assert_eq!(parse_cpu_quantity("0.5"), None);
    assert_eq!(parse_cpu_quantity("abc"), None);
}

#[test]
fn memory_quantities_in_mebibytes() {
    assert_eq!(parse_memory_quantity("128Mi"), Some(128));
    assert_eq!(parse_memory_quantity("2Gi"), Some(2048));
    assert_eq!(parse_memory_quantity("1Ti"), Some(1_048_576));
    assert_eq!(parse_memory_quantity("2048Ki"), Some(2));
    assert_eq!(parse_memory_quantity("1500Ki"), Some(1));
    assert_eq!(parse_memory_quantity("-1536Ki"), Some(-1));
    assert_eq!(parse_memory_quantity("1073741824"), Some(1024));
    assert_eq!(parse_memory_quantity("1.5Gi"), None);
    assert_eq!(parse_memory_quantity("lots"), None);
}

#[test]
fn qos_classes_of_pods() {
    let guaranteed = pod("g", Some("n1"), Some("Running"), vec![container(amounts(Some(500), Some(256)), amounts(Some(500), Some(256)))]);
    assert_eq!(extract_pod_resources(&guaranteed), (500, 500, 256, 256, QosClass::Guaranteed));

    let burstable = pod("b", Some("n1"), Some("Running"), vec![container(amounts(Some(100), None), None)]);
    assert_eq!(extract_pod_resources(&burstable), (100, 0, 0, 0, QosClass::Burstable));

    let unequal = pod(
        "u",
        Some("n1"),
        Some("Running"),
        vec![
            container(amounts(Some(100), Some(64)), amounts(Some(200), Some(64))),
            container(None, amounts(Some(50), None)),
        ],
    );
    assert_eq!(extract_pod_resources(&unequal), (100, 250, 64, 64, QosClass::Burstable));

    let best_effort = pod("e", Some("n1"), Some("Running"), vec![container(None, None), container(amounts(None, None), None)]);
    assert_eq!(extract_pod_resources(&best_effort), (0, 0, 0, 0, QosClass::BestEffort));

    let mut no_spec = pod("s", Some("n1"), None, vec![]);
    no_spec.containers = None;
    assert_eq!(extract_pod_resources(&no_spec), (0, 0, 0, 0, QosClass::BestEffort));
}

#[test]
fn limits_only_pod_with_matching_totals_is_guaranteed() {
    let p = pod("l", Some("n1"), Some("Running"), vec![container(amounts(Some(0), Some(0)), amounts(Some(0), Some(0)))]);
    assert_eq!(extract_pod_resources(&p).4, QosClass::Guaranteed);
}

#[test]
fn node_profile_sums_active_pods_by_class() {
    let nodes = vec![node("n1", Some(4000), Some(8192)), node("n2", None, None)];
    let pods = vec![
        pod("g", Some("n1"), Some("Running"), vec![container(amounts(Some(500), Some(512)), amounts(Some(500), Some(512)))]),
        pod("done", Some("n1"), Some("Succeeded"), vec![container(amounts(Some(9000), None), None)]),
        pod("crashed", Some("n1"), Some("Failed"), vec![container(amounts(Some(9000), None), None)]),
        pod("b", Some("n1"), None, vec![container(amounts(Some(250), Some(128)), amounts(Some(1000), Some(1024)))]),
        pod("e", Some("n1"), Some("Pending"), vec![container(None, None)]),
        pod("elsewhere", Some("n2"), Some("Running"), vec![container(None, amounts(Some(100), Some(100)))]),
        pod("unscheduled", None, Some("Pending"), vec![container(amounts(Some(1), Some(1)), None)]),
    ];
    let profiles = build_profiles(&nodes, &pods);
    assert_eq!(profiles.len(), 2);
    let p = &profiles[0];
    assert_eq!(p.node_name, "n1");
    assert_eq!(p.cpu, ResourceAllocation { allocatable: 4000, requests: 750, limits: 1500 });
    assert_eq!(p.memory, ResourceAllocation { allocatable: 8192, requests: 640, limits: 1536 });
    assert_eq!(p.guaranteed_pods, vec!["prod/g".to_string()]);
    assert_eq!(p.burstable_pods, vec!["prod/b".to_string()]);
    assert_eq!(p.best_effort_pods, vec!["prod/e".to_string()]);
    let q = &profiles[1];
    assert_eq!(q.node_name, "n2");
    assert_eq!(q.cpu, ResourceAllocation { allocatable: 0, requests: 0, limits: 100 });
    assert_eq!(q.burstable_pods, vec!["prod/elsewhere".to_string()]);
    assert!(q.guaranteed_pods.is_empty() && q.best_effort_pods.is_empty());
    assert_eq!(TetrisAnalyzer::build_profiles(&nodes, &pods), profiles);
}

#[test]
fn every_active_pod_is_in_exactly_one_class_list() {
    let nodes = vec![node("n1", Some(1000), Some(1000))];
    let pods = vec![
        pod("a", Some("n1"), Some("Running"), vec![container(amounts(Some(1), None), amounts(Some(1), None))]),
        pod("b", Some("n1"), Some("Running"), vec![container(amounts(Some(1), None), None)]),
        pod("c", Some("n1"), Some("Running"), vec![]),
        pod("d", Some("n1"), Some("Succeeded"), vec![]),
    ];
    let p = &build_profiles(&nodes, &pods)[0];
    assert_eq!(p.best_effort_pods.len() + p.burstable_pods.len() + p.guaranteed_pods.len(), 3);
}

#[test]
fn overflowing_totals_are_not_computable() {
    let nodes = vec![node("n1", Some(1), Some(1))];
    let fine = vec![pod("a", Some("n1"), Some("Running"), vec![container(amounts(Some(100), Some(100)), None)])];
    assert!(profiles_computable(&nodes, &fine));
    let huge = vec![
        pod("a", Some("n1"), Some("Running"), vec![container(None, amounts(Some(i64::MAX), None))]),
        pod("b", Some("n1"), Some("Running"), vec![container(None, amounts(Some(i64::MAX), None))]),
    ];
    assert!(!profiles_computable(&nodes, &huge));
    let inside_one_pod = vec![pod(
        "a",
        Some("n1"),
        Some("Running"),
        vec![container(amounts(None, Some(i64::MAX)), None), container(amounts(None, Some(1)), None)],
    )];
    assert!(!profiles_computable(&nodes, &inside_one_pod));
    let elsewhere = vec![
        pod("a", Some("n9"), Some("Running"), vec![container(None, amounts(Some(i64::MAX), None))]),
        pod("b", Some("n9"), Some("Running"), vec![container(None, amounts(Some(i64::MAX), None))]),
    ];
    assert!(profiles_computable(&nodes, &elsewhere));
}

#[test]
fn memory_quantities_with_decimal_and_large_units() {
    assert_eq!(parse_memory_quantity("1G"), Some(953));
    assert_eq!(parse_memory_quantity("1k"), Some(0));
    assert_eq!(parse_memory_quantity("2M"), Some(1));
    assert_eq!(parse_memory_quantity("1T"), Some(953_674));
    assert_eq!(parse_memory_quantity("1P"), Some(953_674_316));
    assert_eq!(parse_memory_quantity("1E"), Some(953_674_316_406));
    assert_eq!(parse_memory_quantity("1Pi"), Some(1_073_741_824));
    assert_eq!(parse_memory_quantity("1Ei"), Some(1_099_511_627_776));
    assert_eq!(parse_memory_quantity("5000000000m"), Some(4));
    assert_eq!(parse_memory_quantity("-3G"), Some(-2861));
    assert_eq!(parse_memory_quantity("1000000000000Ei"), None);
    assert_eq!(parse_memory_quantity("1.5G"), None);
}

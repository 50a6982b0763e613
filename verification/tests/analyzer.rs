use istio_lens::analyzer::duplicates::detect_duplicates;
use istio_lens::analyzer::orphans::{detect_orphans, is_host_resolvable};
use istio_lens::analyzer::{Analyzer, AuditIssue, IssueSeverity};
use istio_lens::k8s::{ClusterSnapshot, PodInfo};
use istio_lens::labels::Labels;
use istio_lens::model::{
    Destination, DestinationRule, DestinationRuleSpec, Gateway, GatewaySpec, HttpRoute,
    HttpRouteDestination, ObjectMeta, ResourceKey, VirtualService, VirtualServiceSpec,
};
use istio_lens::k8s::ServiceMeta;

fn meta(name: &str, ns: Option<&str>) -> ObjectMeta {
    ObjectMeta { name: name.to_string(), namespace: ns.map(|s| s.to_string()) }
}

fn gateway(name: &str, ns: &str) -> Gateway {
    Gateway { metadata: meta(name, Some(ns)), spec: GatewaySpec { selector: None, servers: None } }
}

fn dr(name: &str, ns: &str, host: &str) -> DestinationRule {
    DestinationRule {
        metadata: meta(name, Some(ns)),
        spec: DestinationRuleSpec { host: host.to_string(), subsets: None },
    }
}

fn dest(host: &str) -> HttpRouteDestination {
    HttpRouteDestination {
        destination: Destination { host: host.to_string(), subset: None, port: None },
        weight: None,
    }
}

fn vs(name: &str, ns: Option<&str>, hosts: &[&str], gateways: Option<&[&str]>, targets: &[&str]) -> VirtualService {
    let http = if targets.is_empty() {
        None
    } else {
        Some(vec![HttpRoute {
            name: None,
            match_requests: None,
            route: Some(targets.iter().map(|t| dest(t)).collect()),
        }])
    };
    VirtualService {
        metadata: meta(name, ns),
        spec: VirtualServiceSpec {
            hosts: hosts.iter().map(|h| h.to_string()).collect(),
            gateways: gateways.map(|g| g.iter().map(|x| x.to_string()).collect()),
            http,
        },
    }
}

fn snapshot(gateways: Vec<Gateway>, vss: Vec<VirtualService>, drs: Vec<DestinationRule>, keys: Vec<ResourceKey>) -> ClusterSnapshot {
    ClusterSnapshot {
        gateways,
        virtual_services: vss,
        destination_rules: drs,
        service_entries: Vec::new(),
        existing_service_keys: keys,
        external_hosts: Vec::new(),
        services_meta: Vec::new(),
        pods: Vec::new(),
        namespaces: Vec::new(),
    }
}

fn issue(kind: &str, resource: &str, ns: &str, severity: IssueSeverity, description: &str) -> AuditIssue {
    AuditIssue {
        kind: kind.to_string(),
        resource: resource.to_string(),
        namespace: ns.to_string(),
        severity,
        description: description.to_string(),
    }
}

#[test]
fn destination_rules_sharing_a_host_are_all_reported() {
    let s = snapshot(
        vec![],
        vec![],
        vec![dr("reviews-a", "prod", "reviews"), dr("ratings", "prod", "ratings"), dr("reviews-b", "stage", "reviews")],
        vec![],
    );
    let issues = detect_duplicates(&s);
    let d = "Конфликт DR: несколько манифестов управляют трафиком хоста 'reviews'";
    assert_eq!(
        issues,
        vec![
            issue("DestinationRule", "reviews-a", "prod", IssueSeverity::Critical, d),
            issue("DestinationRule", "reviews-b", "stage", IssueSeverity::Critical, d),
        ]
    );
}

#[test]
fn three_rules_on_one_host_give_three_findings() {
    let s = snapshot(vec![], vec![], vec![dr("a", "x", "h"), dr("b", "x", "h"), dr("c", "x", "h")], vec![]);
    let issues = detect_duplicates(&s);
    assert_eq!(issues.len(), 3);
    let names: Vec<&str> = issues.iter().map(|i| i.resource.as_str()).collect();
    assert_eq!(names, vec!["a", "b", "c"]);
}

#[test]
fn virtual_services_on_same_gateway_and_host_collide() {
    let s = snapshot(
        vec![],
        vec![
            vs("vs1", Some("prod"), &["api.corp"], Some(&["gw"]), &[]),
            vs("vs2", Some("prod"), &["api.corp", "other.corp"], Some(&["gw"]), &[]),
            vs("vs3", Some("prod"), &["api.corp"], Some(&["gw2"]), &[]),
        ],
        vec![],
        vec![],
    );
    let issues = detect_duplicates(&s);
    let d = "Коллизия маршрута: пересечение для шлюза 'gw' и хоста 'api.corp' между несколькими VS";
    assert_eq!(
        issues,
        vec![
            issue("VirtualService", "vs1", "prod", IssueSeverity::Warning, d),
            issue("VirtualService", "vs2", "prod", IssueSeverity::Warning, d),
        ]
    );
}

#[test]
fn virtual_services_without_gateways_collide_on_mesh() {
    let s = snapshot(
        vec![],
        vec![vs("a", None, &["svc"], None, &[]), vs("b", Some("ns"), &["svc"], Some(&["mesh"]), &[])],
        vec![],
        vec![],
    );
    let issues = detect_duplicates(&s);
    assert_eq!(issues.len(), 2);
    assert_eq!(issues[0].namespace, "");
    assert_eq!(
        issues[0].description,
        "Коллизия маршрута: пересечение для шлюза 'mesh' и хоста 'svc' между несколькими VS"
    );
    assert_eq!(issues[1].resource, "b");
}

#[test]
fn distinct_rules_and_routes_give_no_duplicates() {
    let s = snapshot(
        vec![],
        vec![vs("a", Some("ns"), &["x"], Some(&["gw"]), &[]), vs("b", Some("ns"), &["y"], Some(&["gw"]), &[])],
        vec![dr("r1", "ns", "x"), dr("r2", "ns", "y")],
        vec![],
    );
    assert!(detect_duplicates(&s).is_empty());
}

#[test]
fn unreferenced_gateway_is_orphaned() {
    let s = snapshot(
        vec![gateway("used", "istio-system"), gateway("full", "istio-system"), gateway("lonely", "istio-system")],
        vec![vs("v", Some("prod"), &["h"], Some(&["used", "istio-system/full"]), &[])],
        vec![],
        vec![],
    );
    let issues = detect_orphans(&s);
    assert_eq!(
        issues,
        vec![issue(
            "Gateway",
            "lonely",
            "istio-system",
            IssueSeverity::Warning,
            "Шлюз не используется: ни один VirtualService не привязан к нему"
        )]
    );
}

#[test]
fn gateway_referenced_from_wrong_namespace_is_orphaned() {
    let s = snapshot(
        vec![gateway("gw", "istio-system")],
        vec![vs("v", Some("prod"), &["h"], Some(&["other/gw"]), &[])],
        vec![],
        vec![],
    );
    assert_eq!(detect_orphans(&s).len(), 1);
}

#[test]
fn route_to_missing_service_is_broken() {
    let s = snapshot(
        vec![],
        vec![
            vs("shop", Some("prod"), &["shop"], None, &["checkout", "payments", "ext.external.io", "mesh"]),
            vs("legacy", None, &["legacy"], None, &["old-svc"]),
        ],
        vec![],
        vec![ResourceKey::new("prod", "checkout")],
    );
    let issues = detect_orphans(&s);
    assert_eq!(
        issues,
        vec![
            issue(
                "VirtualService",
                "shop",
                "prod",
                IssueSeverity::Critical,
                "Тупиковый маршрут: у сервиса 'checkout' 0 готовых подов"
            ),
            issue(
                "VirtualService",
                "shop",
                "prod",
                IssueSeverity::Critical,
                "Битый маршрут: целевой хост 'payments' не существует среди K8s Services"
            ),
            issue(
                "VirtualService",
                "legacy",
                "default",
                IssueSeverity::Critical,
                "Битый маршрут: целевой хост 'old-svc' не существует среди K8s Services"
            ),
        ]
    );
}

#[test]
fn host_resolution_rules() {
    let keys = vec![ResourceKey::new("prod", "reviews"), ResourceKey::new("stage", "ratings")];
    let hosts = vec!["api.stripe.com".to_string()];
    assert!(is_host_resolvable("api.external.com", "prod", &keys, &hosts));
    assert!(is_host_resolvable("mesh", "prod", &keys, &hosts));
    assert!(is_host_resolvable("reviews", "prod", &keys, &hosts));
    assert!(!is_host_resolvable("reviews", "stage", &keys, &hosts));
    assert!(is_host_resolvable("ratings.stage", "prod", &keys, &hosts));
    assert!(is_host_resolvable("reviews.prod.svc.cluster.local", "other", &keys, &hosts));
    assert!(!is_host_resolvable("reviews.stage.svc.cluster.local", "prod", &keys, &hosts));
    assert!(!is_host_resolvable("unknown", "prod", &keys, &hosts));
    assert!(!is_host_resolvable("", "prod", &keys, &hosts));
    assert!(is_host_resolvable("api.stripe.com", "prod", &keys, &hosts));
    assert!(!is_host_resolvable("api.stripe.com", "prod", &keys, &Vec::new()));
}

#[test]
fn analyzer_runs_both_audits() {
    let s = snapshot(
        vec![gateway("lonely", "ns")],
        vec![],
        vec![dr("a", "ns", "h"), dr("b", "ns", "h")],
        vec![],
    );
    let analyzer = Analyzer::new(&s);
    let (dups, orphans) = analyzer.run_all();
    assert_eq!(dups, detect_duplicates(&s));
    assert_eq!(orphans, detect_orphans(&s));
    assert_eq!(dups.len(), 2);
    assert_eq!(orphans.len(), 1);
}

#[test]
fn empty_snapshot_has_no_findings() {
    let s = snapshot(vec![], vec![], vec![], vec![]);
    assert!(detect_duplicates(&s).is_empty());
    assert!(detect_orphans(&s).is_empty());
}

#[test]
fn routes_to_service_entry_hosts_are_not_broken() {
    let mut s = snapshot(vec![], vec![vs("pay", Some("prod"), &["pay"], None, &["api.stripe.com"])], vec![], vec![]);
    s.external_hosts = vec!["api.stripe.com".to_string()];
    assert!(detect_orphans(&s).is_empty());
    s.external_hosts = Vec::new();
    assert_eq!(detect_orphans(&s).len(), 1);
}

fn labels(pairs: &[(&str, &str)]) -> Labels {
    let mut l = Labels::new();
    for (k, v) in pairs {
        l.insert(k.to_string(), v.to_string());
    }
    l
}

fn pod(name: &str, ns: &str, app: &str, ready: bool) -> PodInfo {
    PodInfo {
        name: name.to_string(),
        namespace: ns.to_string(),
        labels: labels(&[("app", app), ("tier", "web")]),
        is_ready: ready,
        phase: "Running".to_string(),
    }
}

fn meta_of(ns: &str, name: &str, app: &str) -> ServiceMeta {
    ServiceMeta { name: name.to_string(), namespace: ns.to_string(), selector: labels(&[("app", app)]), ports: vec![] }
}

#[test]
fn routes_to_services_without_ready_pods_are_dead_ends() {
    let mut s = snapshot(
        vec![],
        vec![vs("shop", Some("prod"), &["shop"], None, &["cart", "checkout.prod.svc.cluster.local", "search"])],
        vec![],
        vec![ResourceKey::new("prod", "cart"), ResourceKey::new("prod", "checkout"), ResourceKey::new("prod", "search")],
    );
    s.services_meta = vec![meta_of("prod", "cart", "cart"), meta_of("prod", "checkout", "checkout")];
    s.pods = vec![
        pod("cart-1", "prod", "cart", false),
        pod("cart-2", "prod", "cart", true),
        pod("checkout-1", "prod", "checkout", false),
        pod("checkout-2", "stage", "checkout", true),
    ];
    let issues = detect_orphans(&s);
    let d: Vec<&str> = issues.iter().map(|i| i.description.as_str()).collect();
    assert_eq!(
        d,
        vec![
            "Тупиковый маршрут: у сервиса 'checkout.prod.svc.cluster.local' 0 готовых подов",
            "Тупиковый маршрут: у сервиса 'search' 0 готовых подов",
        ]
    );
    assert!(issues.iter().all(|i| i.severity == IssueSeverity::Critical && i.resource == "shop"));
}

#[test]
fn one_virtual_service_does_not_collide_with_itself() {
    let s = snapshot(
        vec![],
        vec![vs("vs-a", Some("prod"), &["a.example.com", "a.example.com"], None, &[])],
        vec![],
        vec![],
    );
    assert!(detect_duplicates(&s).is_empty());
    let twice_gw = snapshot(vec![], vec![vs("vs-b", Some("prod"), &["b"], Some(&["gw", "gw"]), &[])], vec![], vec![]);
    assert!(detect_duplicates(&twice_gw).is_empty());
}

#[test]
fn each_manifest_is_reported_once_per_shared_pair() {
    let s = snapshot(
        vec![],
        vec![
            vs("vs-a", Some("prod"), &["a.example.com", "a.example.com"], None, &[]),
            vs("vs-b", Some("prod"), &["a.example.com"], None, &[]),
        ],
        vec![],
        vec![],
    );
    let names: Vec<String> = detect_duplicates(&s).iter().map(|i| i.resource.clone()).collect();
    assert_eq!(names, vec!["vs-a".to_string(), "vs-b".to_string()]);
}

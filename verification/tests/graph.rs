use istio_lens::graph::{build_traces, RouteTrace, TrafficGraph};
use istio_lens::k8s::{ClusterSnapshot, PodInfo, ServiceMeta};
use istio_lens::labels::Labels;
use istio_lens::model::{
    Destination, DestinationRule, DestinationRuleSpec, HttpMatchRequest, HttpRoute, HttpRouteDestination,
    ObjectMeta, StringMatch, Subset, VirtualService, VirtualServiceSpec,
};

fn labels(pairs: &[(&str, &str)]) -> Labels {
    let mut l = Labels::new();
    for (k, v) in pairs {
        l.insert(k.to_string(), v.to_string());
    }
    l
}

fn meta(name: &str, ns: Option<&str>) -> ObjectMeta {
    ObjectMeta { name: name.to_string(), namespace: ns.map(|s| s.to_string()) }
}

fn pod(name: &str, ns: &str, l: &[(&str, &str)], ready: bool) -> PodInfo {
    PodInfo {
        name: name.to_string(),
        namespace: ns.to_string(),
        labels: labels(l),
        is_ready: ready,
        phase: if ready { "Running".to_string() } else { "Pending".to_string() },
    }
}

fn route(uri: Option<StringMatch>, dests: Vec<HttpRouteDestination>) -> HttpRoute {
    HttpRoute {
        name: None,
        match_requests: uri.map(|u| vec![HttpMatchRequest { uri: Some(u) }]),
        route: Some(dests),
    }
}

fn dest(host: &str, subset: Option<&str>, weight: Option<i32>) -> HttpRouteDestination {
    HttpRouteDestination {
        destination: Destination { host: host.to_string(), subset: subset.map(|s| s.to_string()), port: None },
        weight,
    }
}

fn vs(name: &str, ns: Option<&str>, gateways: Option<Vec<&str>>, http: Option<Vec<HttpRoute>>) -> VirtualService {
    VirtualService {
        metadata: meta(name, ns),
        spec: VirtualServiceSpec {
            hosts: vec!["api.corp.internal".to_string()],
            gateways: gateways.map(|g| g.iter().map(|x| x.to_string()).collect()),
            http,
        },
    }
}

fn checkout_snapshot(vss: Vec<VirtualService>) -> ClusterSnapshot {
    let dr = DestinationRule {
        metadata: meta("checkout-dr", Some("prod")),
        spec: DestinationRuleSpec {
            host: "checkout".to_string(),
            subsets: Some(vec![
                Subset { name: "v1".to_string(), labels: Some(labels(&[("version", "v1")])) },
                Subset { name: "v2".to_string(), labels: Some(labels(&[("version", "v2")])) },
            ]),
        },
    };
    ClusterSnapshot {
        gateways: Vec::new(),
        virtual_services: vss,
        destination_rules: vec![dr],
        service_entries: Vec::new(),
        existing_service_keys: Vec::new(),
        external_hosts: Vec::new(),
        services_meta: vec![ServiceMeta {
            name: "checkout".to_string(),
            namespace: "prod".to_string(),
            selector: labels(&[("app", "checkout"), ("tier", "backend")]),
            ports: vec!["http:8080".to_string()],
        }],
        pods: vec![
            pod("checkout-v2-a", "prod", &[("app", "checkout"), ("tier", "backend"), ("version", "v2")], true),
            pod("checkout-v1-a", "prod", &[("app", "checkout"), ("tier", "backend"), ("version", "v1")], true),
            pod("checkout-v2-b", "prod", &[("app", "checkout"), ("tier", "backend"), ("version", "v2")], false),
            pod("checkout-v2-c", "stage", &[("app", "checkout"), ("tier", "backend"), ("version", "v2")], true),
        ],
        namespaces: Vec::new(),
    }
}

fn pod_names(t: &RouteTrace) -> Vec<String> {
    t.targets[0].matching_pods.iter().map(|p| p.name.clone()).collect()
}

#[test]
fn trace_follows_gateway_service_subset_and_pods() {
    let s = checkout_snapshot(vec![vs(
        "checkout-vs",
        Some("prod"),
        Some(vec!["istio-ingressgateway"]),
        Some(vec![route(Some(StringMatch::Prefix("/api/v2".to_string())), vec![dest("checkout.prod.svc", Some("v2"), None)])]),
    )]);
    let traces = build_traces(&s, None);
    assert_eq!(traces.len(), 1);
    let t = &traces[0];
    assert_eq!(t.gateway_name, "istio-ingressgateway");
    assert_eq!(t.gateway_hosts, vec!["api.corp.internal".to_string()]);
    assert_eq!(t.vs_name, "checkout-vs");
    assert_eq!(t.vs_namespace, "prod");
    assert_eq!(t.uri_match, "Prefix(/api/v2)");
    assert_eq!(t.service_host, "checkout.prod.svc");
    assert_eq!(t.targets.len(), 1);
    let target = &t.targets[0];
    assert_eq!(target.subset_name, "v2");
    assert_eq!(target.weight, 100);
    assert_eq!(target.destination_rule, Some("checkout-dr".to_string()));
    assert_eq!(target.service_meta.as_ref().map(|m| m.name.clone()), Some("checkout".to_string()));
    assert_eq!(pod_names(t), vec!["checkout-v2-a".to_string(), "checkout-v2-b".to_string()]);
}

#[test]
fn trace_without_subset_selects_by_service_selector() {
    let s = checkout_snapshot(vec![vs(
        "checkout-vs",
        Some("prod"),
        None,
        Some(vec![route(None, vec![dest("checkout", None, Some(30))])]),
    )]);
    let traces = build_traces(&s, None);
    assert_eq!(traces.len(), 1);
    let t = &traces[0];
    assert_eq!(t.gateway_name, "mesh");
    assert_eq!(t.uri_match, "/* (All)");
    assert_eq!(t.targets[0].subset_name, "default");
    assert_eq!(t.targets[0].weight, 30);
    assert_eq!(
        pod_names(t),
        vec!["checkout-v2-a".to_string(), "checkout-v1-a".to_string(), "checkout-v2-b".to_string()]
    );
}

#[test]
fn one_trace_per_gateway_and_destination() {
    let s = checkout_snapshot(vec![vs(
        "multi",
        Some("prod"),
        Some(vec!["gw-a", "gw-b"]),
        Some(vec![route(
            Some(StringMatch::Exact("/x".to_string())),
            vec![dest("checkout", Some("v1"), Some(80)), dest("checkout", Some("v2"), Some(20))],
        )]),
    )]);
    let traces = build_traces(&s, None);
    let summary: Vec<(String, String, i32)> = traces
        .iter()
        .map(|t| (t.gateway_name.clone(), t.targets[0].subset_name.clone(), t.targets[0].weight))
        .collect();
    assert_eq!(
        summary,
        vec![
            ("gw-a".to_string(), "v1".to_string(), 80),
            ("gw-b".to_string(), "v1".to_string(), 80),
            ("gw-a".to_string(), "v2".to_string(), 20),
            ("gw-b".to_string(), "v2".to_string(), 20),
        ]
    );
    assert_eq!(traces[0].uri_match, "Exact(/x)");
    assert_eq!(pod_names(&traces[0]), vec!["checkout-v1-a".to_string()]);
}

#[test]
fn unknown_service_without_rule_reaches_no_pods() {
    let s = checkout_snapshot(vec![vs(
        "ext",
        Some("prod"),
        None,
        Some(vec![route(Some(StringMatch::Regex("^/p.*".to_string())), vec![dest("payments", None, None)])]),
    )]);
    let traces = build_traces(&s, None);
    assert_eq!(traces.len(), 1);
    assert_eq!(traces[0].uri_match, "Regex(^/p.*)");
    assert_eq!(traces[0].targets[0].destination_rule, None);
    assert!(traces[0].targets[0].service_meta.is_none());
    assert!(traces[0].targets[0].matching_pods.is_empty());
}

#[test]
fn namespace_filter_keeps_only_that_namespace() {
    let r = || Some(vec![route(None, vec![dest("checkout", None, None)])]);
    let s = checkout_snapshot(vec![
        vs("in-prod", Some("prod"), None, r()),
        vs("in-stage", Some("stage"), None, r()),
        vs("no-ns", None, None, r()),
    ]);
    let all = build_traces(&s, None);
    assert_eq!(all.len(), 3);
    let prod = build_traces(&s, Some("prod"));
    assert_eq!(prod.len(), 1);
    assert_eq!(prod[0].vs_name, "in-prod");
    let stage = build_traces(&s, Some("stage"));
    assert_eq!(stage.len(), 1);
    assert_eq!(stage[0].vs_namespace, "stage");
    assert!(build_traces(&s, Some("nowhere")).is_empty());
    assert_eq!(all[2].vs_namespace, "");
}

#[test]
fn virtual_service_without_http_routes_has_no_traces() {
    let s = checkout_snapshot(vec![vs("tcp-only", Some("prod"), None, None)]);
    assert!(build_traces(&s, None).is_empty());
}

#[test]
fn traffic_graph_builds_the_same_traces() {
    let s = checkout_snapshot(vec![vs(
        "checkout-vs",
        Some("prod"),
        None,
        Some(vec![route(None, vec![dest("checkout", Some("v2"), None)])]),
    )]);
    assert_eq!(TrafficGraph::build_traces(&s, None), build_traces(&s, None));
    assert_eq!(TrafficGraph::build_traces(&s, Some("prod")), build_traces(&s, Some("prod")));
}

use istio_lens::analyzer::{AuditIssue, IssueSeverity};
use istio_lens::graph::RouteTrace;
use istio_lens::k8s::ClusterSnapshot;
use istio_lens::model::{Destination, HttpRoute, HttpRouteDestination, ObjectMeta, VirtualService, VirtualServiceSpec};
use istio_lens::tui::app::{search_hit, ActiveTab, AppState, InputMode, KeyInput};

fn issue(resource: &str, ns: &str, description: &str) -> AuditIssue {
    AuditIssue {
        kind: "VirtualService".to_string(),
        resource: resource.to_string(),
        namespace: ns.to_string(),
        severity: IssueSeverity::Warning,
        description: description.to_string(),
    }
}

fn vs(name: &str, ns: &str) -> VirtualService {
    VirtualService {
        metadata: ObjectMeta { name: name.to_string(), namespace: Some(ns.to_string()) },
        spec: VirtualServiceSpec {
            hosts: vec!["h".to_string()],
            gateways: None,
            http: Some(vec![HttpRoute {
                name: None,
                match_requests: None,
                route: Some(vec![HttpRouteDestination {
                    destination: Destination { host: "svc".to_string(), subset: None, port: None },
                    weight: None,
                }]),
            }]),
        },
    }
}

fn snapshot() -> ClusterSnapshot {
    ClusterSnapshot {
        gateways: Vec::new(),
        virtual_services: vec![vs("a", "prod"), vs("b", "stage"), vs("c", "prod")],
        destination_rules: Vec::new(),
        service_entries: Vec::new(),
        existing_service_keys: Vec::new(),
        external_hosts: Vec::new(),
        services_meta: Vec::new(),
        pods: Vec::new(),
        namespaces: vec!["prod".to_string(), "stage".to_string()],
    }
}

fn state() -> AppState {
    let snap = snapshot();
    let traces: Vec<RouteTrace> = istio_lens::graph::build_traces(&snap, None);
    AppState::new(
        vec![
            issue("checkout-vs", "prod", "Коллизия маршрута A"),
            issue("reviews-vs", "stage", "Коллизия маршрута B"),
            issue("ratings-vs", "prod", "route collision C"),
        ],
        vec![issue("lonely-gw", "istio-system", "Шлюз не используется")],
        traces,
        snap.namespaces.clone(),
        Vec::new(),
        Vec::new(),
        Vec::new(),
    )
}

fn press(s: &mut AppState, keys: &[KeyInput]) {
    let snap = snapshot();
    for k in keys {
        s.handle_key(*k, &snap);
    }
}

#[test]
fn fresh_state_selects_first_duplicate() {
    let s = state();
    assert_eq!(s.active_tab, ActiveTab::Duplicates);
    assert_eq!(s.input_mode, InputMode::Normal);
    assert_eq!(s.selected_row, Some(0));
    assert_eq!(s.selected_trace_index, 0);
    assert_eq!(s.row_count(), 3);
    assert!(!s.should_quit && !s.show_details);
    let empty = AppState::new(Vec::new(), Vec::new(), Vec::new(), Vec::new(), Vec::new(), Vec::new(), Vec::new());
    assert_eq!(empty.selected_row, None);
}

#[test]
fn tabs_cycle_forward_and_back() {
    let mut s = state();
    let order = [
        ActiveTab::Orphans,
        ActiveTab::TrafficGraph,
        ActiveTab::IncidentTimeline,
        ActiveTab::NodeTetris,
        ActiveTab::WebhookAuditor,
        ActiveTab::Duplicates,
    ];
    for t in order {
        s.next_tab();
        assert_eq!(s.active_tab, t);
    }
    s.prev_tab();
    assert_eq!(s.active_tab, ActiveTab::WebhookAuditor);
    assert_eq!(s.selected_row, None);
    s.next_tab();
    assert_eq!(s.active_tab, ActiveTab::Duplicates);
    assert_eq!(s.selected_row, Some(0));
    press(&mut s, &[KeyInput::BackTab, KeyInput::Tab, KeyInput::Tab]);
    assert_eq!(s.active_tab, ActiveTab::Orphans);
}

#[test]
fn rows_wrap_around_and_restore() {
    let mut s = state();
    s.next_item();
    assert_eq!(s.selected_row, Some(1));
    s.next_item();
    s.next_item();
    assert_eq!(s.selected_row, Some(0));
    s.previous_item();
    assert_eq!(s.selected_row, Some(2));
    s.next_item();
    assert_eq!(s.selected_row, Some(0));
    s.selected_row = None;
    s.previous_item();
    assert_eq!(s.selected_row, Some(0));
}

#[test]
fn traffic_graph_moves_through_routes() {
    let mut s = state();
    press(&mut s, &[KeyInput::Char('3')]);
    assert_eq!(s.active_tab, ActiveTab::TrafficGraph);
    assert_eq!(s.traces.len(), 3);
    press(&mut s, &[KeyInput::Char('j'), KeyInput::Down]);
    assert_eq!(s.selected_trace_index, 2);
    press(&mut s, &[KeyInput::Down]);
    assert_eq!(s.selected_trace_index, 0);
    press(&mut s, &[KeyInput::Up]);
    assert_eq!(s.selected_trace_index, 2);
    press(&mut s, &[KeyInput::Char('k')]);
    assert_eq!(s.selected_trace_index, 1);
    press(&mut s, &[KeyInput::Char('d'), KeyInput::Char('d'), KeyInput::Char('u')]);
    assert_eq!(s.detail_scroll, 1);
    press(&mut s, &[KeyInput::Char('u'), KeyInput::Char('u')]);
    assert_eq!(s.detail_scroll, 0);
    press(&mut s, &[KeyInput::Char('1'), KeyInput::Char('d')]);
    assert_eq!(s.detail_scroll, 0);
}

#[test]
fn search_filters_ignoring_case() {
    let mut s = state();
    press(&mut s, &[KeyInput::Char('/')]);
    assert_eq!(s.input_mode, InputMode::Searching);
    press(&mut s, &[KeyInput::Char('C'), KeyInput::Char('H'), KeyInput::Char('E')]);
    assert_eq!(s.search_query, "CHE");
    let found: Vec<String> = s.filtered_issues(true).iter().map(|i| i.resource.clone()).collect();
    assert_eq!(found, vec!["checkout-vs".to_string()]);
    assert_eq!(s.selected_row, Some(0));
    press(&mut s, &[KeyInput::Backspace, KeyInput::Backspace, KeyInput::Backspace, KeyInput::Char('ц')]);
    assert_eq!(s.search_query, "ц");
    press(&mut s, &[KeyInput::Backspace, KeyInput::Char('К'), KeyInput::Char('О')]);
    assert_eq!(s.filtered_issues(true).len(), 2);
    press(&mut s, &[KeyInput::Char('x')]);
    assert!(s.filtered_issues(true).is_empty());
    assert_eq!(s.selected_row, None);
    press(&mut s, &[KeyInput::Enter]);
    assert_eq!(s.input_mode, InputMode::Normal);
    assert_eq!(s.search_query, "КОx");
    press(&mut s, &[KeyInput::Char('/'), KeyInput::Esc]);
    assert_eq!(s.search_query, "");
    assert_eq!(s.filtered_issues(true).len(), 3);
    assert_eq!(s.selected_row, Some(0));
}

#[test]
fn namespace_scope_filters_issues_and_rebuilds_traces() {
    let mut s = state();
    press(&mut s, &[KeyInput::Char('n')]);
    assert_eq!(s.input_mode, InputMode::NamespaceSelect);
    press(&mut s, &[KeyInput::Down, KeyInput::Char('j'), KeyInput::Down]);
    assert_eq!(s.ns_selector_index, 2);
    press(&mut s, &[KeyInput::Up]);
    assert_eq!(s.ns_selector_index, 1);
    press(&mut s, &[KeyInput::Enter]);
    assert_eq!(s.input_mode, InputMode::Normal);
    assert_eq!(s.selected_namespace, Some("prod".to_string()));
    let names: Vec<String> = s.traces.iter().map(|t| t.vs_name.clone()).collect();
    assert_eq!(names, vec!["a".to_string(), "c".to_string()]);
    let found: Vec<String> = s.filtered_issues(true).iter().map(|i| i.resource.clone()).collect();
    assert_eq!(found, vec!["checkout-vs".to_string(), "ratings-vs".to_string()]);
    assert!(s.filtered_issues(false).is_empty());
    press(&mut s, &[KeyInput::Char('n'), KeyInput::Up, KeyInput::Up, KeyInput::Enter]);
    assert_eq!(s.selected_namespace, None);
    assert_eq!(s.traces.len(), 3);
    press(&mut s, &[KeyInput::Char('n'), KeyInput::Down, KeyInput::Esc]);
    assert_eq!(s.input_mode, InputMode::Normal);
    assert_eq!(s.selected_namespace, None);
}

#[test]
fn details_overlay_opens_on_issue_tabs_only() {
    let mut s = state();
    press(&mut s, &[KeyInput::Enter]);
    assert!(s.show_details);
    press(&mut s, &[KeyInput::Char('j')]);
    assert_eq!(s.selected_row, Some(0));
    press(&mut s, &[KeyInput::Char('q')]);
    assert!(!s.show_details);
    assert!(!s.should_quit);
    press(&mut s, &[KeyInput::Char('2'), KeyInput::Enter, KeyInput::Esc]);
    assert!(!s.show_details);
    press(&mut s, &[KeyInput::Char('4'), KeyInput::Enter]);
    assert!(!s.show_details);
    assert_eq!(s.active_tab, ActiveTab::IncidentTimeline);
    press(&mut s, &[KeyInput::Char('5')]);
    assert_eq!(s.active_tab, ActiveTab::NodeTetris);
    press(&mut s, &[KeyInput::Char('6')]);
    assert_eq!(s.active_tab, ActiveTab::WebhookAuditor);
    press(&mut s, &[KeyInput::Other, KeyInput::Char('z')]);
    assert_eq!(s.active_tab, ActiveTab::WebhookAuditor);
    press(&mut s, &[KeyInput::Char('q')]);
    assert!(s.should_quit);
}

#[test]
fn reset_selection_points_at_first_row() {
    let mut s = state();
    s.next_item();
    s.selected_trace_index = 2;
    s.reset_selection();
    assert_eq!(s.selected_row, Some(0));
    assert_eq!(s.selected_trace_index, 0);
}

#[test]
fn search_hit_looks_in_resource_namespace_and_description() {
    assert!(search_hit("checkout-vs", "prod", "x", "check"));
    assert!(search_hit("a", "istio-system", "x", "system"));
    assert!(search_hit("a", "b", "коллизия маршрута", "маршрут"));
    assert!(search_hit("a", "b", "c", ""));
    assert!(!search_hit("checkout-vs", "prod", "x", "CHECK"));
    assert!(!search_hit("a", "b", "c", "d"));
}

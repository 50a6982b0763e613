//! Resources that nothing uses or that lead nowhere: gateways no virtual service
//! binds to, routes whose target service does not exist, and routes to a service
//! without a single ready pod.

use vstd::prelude::*;
use super::{AuditIssue, IssueSeverity, IssueView, issues_view, lemma_issues_view_push};
use crate::graph::{find_meta, meta_lookup};
use crate::k8s::{ClusterSnapshot, PodInfo};
use crate::labels::{Labels, selects};
use crate::model::{
    Gateway, HttpRoute, HttpRouteDestination, ResourceKey, VirtualService, clone_strings,
    contains_string, string_or, strings_view, text_or,
};
use crate::seqs::{concat_map, lemma_concat_map_all, lemma_concat_map_empty, lemma_concat_map_step};
use crate::text::{after_char, before_char, contains_str, has_substring, split_once_char, str_eq};

verus! {

/// The gateway names that virtual services list explicitly.
pub open spec fn referenced_gateways(vss: Seq<VirtualService>) -> Seq<Seq<char>> {
    concat_map(vss, listed_gateways_fn())
}

pub open spec fn listed_gateways_fn() -> spec_fn(VirtualService) -> Seq<Seq<char>> {
    |vs: VirtualService| match vs.spec.gateways {
        Some(g) => strings_view(g@),
        None => Seq::empty(),
    }
}

/// A gateway is referenced by its bare name or by `namespace/name`.
pub open spec fn gateway_is_referenced(refs: Seq<Seq<char>>, gw: Gateway) -> bool {
    let ns = text_or(gw.metadata.namespace, Seq::empty());
    refs.contains(gw.metadata.name@) || refs.contains(ns + "/"@ + gw.metadata.name@)
}

pub open spec fn unused_gateway_issue(gw: Gateway) -> IssueView {
    IssueView {
        kind: "Gateway"@,
        resource: gw.metadata.name@,
        namespace: text_or(gw.metadata.namespace, Seq::empty()),
        severity: IssueSeverity::Warning,
        description: "Шлюз не используется: ни один VirtualService не привязан к нему"@,
    }
}

pub open spec fn unused_gateway_fn(refs: Seq<Seq<char>>) -> spec_fn(Gateway) -> Seq<IssueView> {
    |gw: Gateway|
        if gateway_is_referenced(refs, gw) {
            Seq::empty()
        } else {
            seq![unused_gateway_issue(gw)]
        }
}

/// One finding per gateway that no virtual service references, in gateway order.
pub open spec fn unused_gateways(s: ClusterSnapshot) -> Seq<IssueView> {
    concat_map(s.gateways@, unused_gateway_fn(referenced_gateways(s.virtual_services@)))
}

/// The keys hold a service `name` in namespace `ns`.
pub open spec fn service_listed(keys: Seq<ResourceKey>, ns: Seq<char>, name: Seq<char>) -> bool {
    exists|i: int| 0 <= i < keys.len() && #[trigger] keys[i]@ == (ns, name)
}

/// The service that a host names, routed from namespace `current_ns`: a bare name is
/// looked up in `current_ns`; `name.namespace[...]` in `namespace`.
pub open spec fn target_service(host: Seq<char>, current_ns: Seq<char>) -> (Seq<char>, Seq<char>) {
    if !host.contains('.') {
        (current_ns, host)
    } else {
        (before_char(after_char(host, '.'), '.'), before_char(host, '.'))
    }
}

/// Hosts that are no Kubernetes service of the cluster: external hosts, the mesh
/// itself, and the hosts that service entries declare.
pub open spec fn outside_services(host: Seq<char>, external_hosts: Seq<Seq<char>>) -> bool {
    has_substring(host, "external"@) || host == "mesh"@ || external_hosts.contains(host)
}

/// Whether a route target resolves: hosts outside the services always do; other hosts
/// must name an existing service (see `target_service`).
pub open spec fn host_resolvable(
    host: Seq<char>,
    current_ns: Seq<char>,
    keys: Seq<ResourceKey>,
    external_hosts: Seq<Seq<char>>,
) -> bool {
    outside_services(host, external_hosts) || service_listed(
        keys,
        target_service(host, current_ns).0,
        target_service(host, current_ns).1,
    )
}

/// Some ready pod of namespace `ns` carries every label of a non-empty selector.
pub open spec fn has_ready_pod(pods: Seq<PodInfo>, ns: Seq<char>, sel: Map<Seq<char>, Seq<char>>) -> bool {
    !(sel =~= Map::empty()) && exists|i: int|
        0 <= i < pods.len() && #[trigger] pods[i].namespace@ == ns && selects(sel, pods[i].labels@)
            && pods[i].is_ready
}

/// The selector of service `name` in namespace `ns` (empty when it has no metadata).
pub open spec fn service_selector(s: ClusterSnapshot, ns: Seq<char>, name: Seq<char>) -> Map<Seq<char>, Seq<char>> {
    match meta_lookup(s.services_meta@, ns, name) {
        Some(m) => m.selector@,
        None => Map::empty(),
    }
}

/// A host, routed from `current_ns`, names an existing service that has no ready pod.
pub open spec fn dead_end(s: ClusterSnapshot, host: Seq<char>, current_ns: Seq<char>) -> bool {
    let (ns, name) = target_service(host, current_ns);
    !outside_services(host, strings_view(s.external_hosts@)) && service_listed(s.existing_service_keys@, ns, name)
        && !has_ready_pod(s.pods@, ns, service_selector(s, ns, name))
}

pub open spec fn broken_route_issue(vs: VirtualService, ns: Seq<char>, host: Seq<char>) -> IssueView {
    IssueView {
        kind: "VirtualService"@,
        resource: vs.metadata.name@,
        namespace: ns,
        severity: IssueSeverity::Critical,
        description: "Битый маршрут: целевой хост '"@ + host + "' не существует среди K8s Services"@,
    }
}

pub open spec fn dead_end_issue(vs: VirtualService, ns: Seq<char>, host: Seq<char>) -> IssueView {
    IssueView {
        kind: "VirtualService"@,
        resource: vs.metadata.name@,
        namespace: ns,
        severity: IssueSeverity::Critical,
        description: "Тупиковый маршрут: у сервиса '"@ + host + "' 0 готовых подов"@,
    }
}

/// The finding on a destination of `vs` routed from `ns`: a broken route when its host
/// does not resolve, a dead end when it names a service without ready pods.
pub open spec fn destination_finding(s: ClusterSnapshot, vs: VirtualService, ns: Seq<char>, host: Seq<char>) -> Option<IssueView> {
    if !host_resolvable(host, ns, s.existing_service_keys@, strings_view(s.external_hosts@)) {
        Some(broken_route_issue(vs, ns, host))
    } else if dead_end(s, host, ns) {
        Some(dead_end_issue(vs, ns, host))
    } else {
        None
    }
}

pub open spec fn destination_fn(s: ClusterSnapshot, vs: VirtualService, ns: Seq<char>) -> spec_fn(HttpRouteDestination) -> Seq<IssueView> {
    |d: HttpRouteDestination| match destination_finding(s, vs, ns, d.destination.host@) {
        Some(i) => seq![i],
        None => Seq::empty(),
    }
}

pub open spec fn route_fn(s: ClusterSnapshot, vs: VirtualService, ns: Seq<char>) -> spec_fn(HttpRoute) -> Seq<IssueView> {
    |r: HttpRoute| match r.route {
        Some(ds) => concat_map(ds@, destination_fn(s, vs, ns)),
        None => Seq::empty(),
    }
}

/// The namespace a virtual service's routes are resolved in (`default` when it has none).
pub open spec fn vs_namespace(vs: VirtualService) -> Seq<char> {
    text_or(vs.metadata.namespace, "default"@)
}

pub open spec fn route_findings_fn(s: ClusterSnapshot) -> spec_fn(VirtualService) -> Seq<IssueView> {
    |vs: VirtualService| match vs.spec.http {
        Some(rs) => concat_map(rs@, route_fn(s, vs, vs_namespace(vs))),
        None => Seq::empty(),
    }
}

/// One finding per HTTP route destination that is broken or a dead end.
pub open spec fn route_findings(s: ClusterSnapshot) -> Seq<IssueView> {
    concat_map(s.virtual_services@, route_findings_fn(s))
}

/// All orphan findings: unused gateways, then broken routes and dead ends.
pub open spec fn orphan_issues(s: ClusterSnapshot) -> Seq<IssueView> {
    unused_gateways(s) + route_findings(s)
}

/// Whether the keys hold the service `name` in namespace `ns`.
fn service_exists(services: &Vec<ResourceKey>, ns: &str, name: &str) -> (b: bool)
    ensures
        b == service_listed(services@, ns@, name@),
{
    for i in 0..services.len()
        invariant
            forall|j: int| 0 <= j < i ==> services@[j]@ != (ns@, name@),
    {
        if str_eq(services[i].namespace.as_str(), ns) && str_eq(services[i].name.as_str(), name) {
            assert(services@[i as int]@ == (ns@, name@));
            return true;
        }
    }
    false
}

/// The namespace and name of the service that `host` names from `current_ns`.
fn service_target(host: &str, current_ns: &str) -> (r: (String, String))
    ensures
        (r.0@, r.1@) == target_service(host@, current_ns@),
{
    let (name, rest) = split_once_char(host, '.');
    match rest {
        None => (String::from_str(current_ns), String::from_str(host)),
        Some(rest) => {
            let (namespace, _) = split_once_char(rest.as_str(), '.');
            (namespace, name)
        },
    }
}

/// Whether `host`, routed from namespace `current_ns`, is outside the services or names
/// an existing service.
pub fn is_host_resolvable(host: &str, current_ns: &str, services: &Vec<ResourceKey>, external_hosts: &Vec<String>) -> (b: bool)
    ensures
        b == host_resolvable(host@, current_ns@, services@, strings_view(external_hosts@)),
{
    if contains_str(host, "external") || str_eq(host, "mesh") || contains_string(external_hosts, host) {
        return true;
    }
    let (ns, name) = service_target(host, current_ns);
    service_exists(services, ns.as_str(), name.as_str())
}

/// Whether some ready pod of namespace `ns` carries every label of a non-empty selector.
fn ready_pod_exists(pods: &Vec<PodInfo>, ns: &str, sel: &Labels) -> (b: bool)
    ensures
        b == has_ready_pod(pods@, ns@, sel@),
{
    if sel.is_empty() {
        return false;
    }
    for i in 0..pods.len()
        invariant
            !(sel@ =~= Map::<Seq<char>, Seq<char>>::empty()),
            forall|j: int| 0 <= j < i ==> !(#[trigger] pods@[j].namespace@ == ns@ && selects(sel@, pods@[j].labels@)
                && pods@[j].is_ready),
    {
        if pods[i].is_ready && str_eq(pods[i].namespace.as_str(), ns) && sel.selects(&pods[i].labels) {
            return true;
        }
    }
    false
}

/// Whether `host`, routed from `current_ns`, names an existing service without ready pods.
fn is_dead_end(s: &ClusterSnapshot, host: &str, current_ns: &str) -> (b: bool)
    requires
        host_resolvable(host@, current_ns@, s.existing_service_keys@, strings_view(s.external_hosts@)),
    ensures
        b == dead_end(*s, host@, current_ns@),
{
    if contains_str(host, "external") || str_eq(host, "mesh") || contains_string(&s.external_hosts, host) {
        return false;
    }
    let (ns, name) = service_target(host, current_ns);
    match find_meta(&s.services_meta, ns.as_str(), name.as_str()) {
        Some(i) => !ready_pod_exists(&s.pods, ns.as_str(), &s.services_meta[i].selector),
        None => {
            let empty = Labels::new();
            !ready_pod_exists(&s.pods, ns.as_str(), &empty)
        },
    }
}

fn referenced_gateways_exec(vss: &Vec<VirtualService>) -> (r: Vec<String>)
    ensures
        strings_view(r@) == referenced_gateways(vss@),
{
    let ghost f = listed_gateways_fn();
    let mut r: Vec<String> = Vec::new();
    proof {
        lemma_concat_map_empty(vss@, f);
    }
    for i in 0..vss.len()
        invariant
            f == listed_gateways_fn(),
            strings_view(r@) == concat_map(vss@.take(i as int), f),
    {
        let ghost before = r@;
        if let Some(gws) = &vss[i].spec.gateways {
            let mut more = clone_strings(gws);
            let ghost extra = more@;
            r.append(&mut more);
            assert(strings_view(r@) =~= strings_view(before) + strings_view(extra));
        }
        proof {
            lemma_concat_map_step(vss@, i as int, f);
            if vss@[i as int].spec.gateways is None {
                assert(strings_view(r@) =~= strings_view(before) + Seq::<Seq<char>>::empty());
            }
        }
    }
    proof {
        lemma_concat_map_all(vss@, f);
    }
    r
}

fn unused_gateway(gw: &Gateway) -> (r: AuditIssue)
    ensures
        r@ == unused_gateway_issue(*gw),
{
    proof {
        reveal_strlit("");
    }
    let kind = String::from_str("Gateway");
    let resource = gw.metadata.name.clone();
    let namespace = string_or(&gw.metadata.namespace, "");
    let description = String::from_str("Шлюз не используется: ни один VirtualService не привязан к нему");
    assert(namespace@ == text_or(gw.metadata.namespace, Seq::empty()));
    AuditIssue { kind, resource, namespace, severity: IssueSeverity::Warning, description }
}

fn broken_route(vs: &VirtualService, ns: &String, host: &String) -> (r: AuditIssue)
    ensures
        r@ == broken_route_issue(*vs, ns@, host@),
{
    let mut description = String::from_str("Битый маршрут: целевой хост '");
    description.append(host.as_str());
    description.append("' не существует среди K8s Services");
    let kind = String::from_str("VirtualService");
    let resource = vs.metadata.name.clone();
    let namespace = ns.clone();
    assert(description@ == "Битый маршрут: целевой хост '"@ + host@ + "' не существует среди K8s Services"@);
    AuditIssue { kind, resource, namespace, severity: IssueSeverity::Critical, description }
}

fn dead_end_route(vs: &VirtualService, ns: &String, host: &String) -> (r: AuditIssue)
    ensures
        r@ == dead_end_issue(*vs, ns@, host@),
{
    let mut description = String::from_str("Тупиковый маршрут: у сервиса '");
    description.append(host.as_str());
    description.append("' 0 готовых подов");
    let kind = String::from_str("VirtualService");
    let resource = vs.metadata.name.clone();
    let namespace = ns.clone();
    assert(description@ == "Тупиковый маршрут: у сервиса '"@ + host@ + "' 0 готовых подов"@);
    AuditIssue { kind, resource, namespace, severity: IssueSeverity::Critical, description }
}

/// Broken-route and dead-end findings of one virtual service, appended to `issues`.
fn push_route_findings(s: &ClusterSnapshot, vs: &VirtualService, issues: &mut Vec<AuditIssue>)
    ensures
        issues_view(final(issues)@) == issues_view(old(issues)@) + route_findings_fn(*s)(*vs),
{
    let ghost start = issues_view(issues@);
    let vs_ns = string_or(&vs.metadata.namespace, "default");
    match &vs.spec.http {
        None => {
            assert(issues_view(issues@) =~= start + Seq::<IssueView>::empty());
        },
        Some(routes) => {
            let ghost fr = route_fn(*s, *vs, vs_ns@);
            proof {
                lemma_concat_map_empty(routes@, fr);
                assert(issues_view(issues@) =~= start + concat_map(routes@.take(0), fr));
            }
            for r in 0..routes.len()
                invariant
                    fr == route_fn(*s, *vs, vs_ns@),
                    vs_ns@ == vs_namespace(*vs),
                    issues_view(issues@) == start + concat_map(routes@.take(r as int), fr),
            {
                let route = &routes[r];
                let ghost mid = issues_view(issues@);
                match &route.route {
                    None => {
                        assert(issues_view(issues@) =~= mid + Seq::<IssueView>::empty());
                    },
                    Some(dests) => {
                        let ghost fd = destination_fn(*s, *vs, vs_ns@);
                        proof {
                            lemma_concat_map_empty(dests@, fd);
                            assert(issues_view(issues@) =~= mid + concat_map(dests@.take(0), fd));
                        }
                        for d in 0..dests.len()
                            invariant
                                fd == destination_fn(*s, *vs, vs_ns@),
                                issues_view(issues@) == mid + concat_map(dests@.take(d as int), fd),
                        {
                            let host = &dests[d].destination.host;
                            let ghost inner = issues_view(issues@);
                            if !is_host_resolvable(host.as_str(), vs_ns.as_str(), &s.existing_service_keys, &s.external_hosts) {
                                let issue = broken_route(vs, &vs_ns, host);
                                let ghost prev = issues@;
                                issues.push(issue);
                                proof {
                                    lemma_issues_view_push(prev, issue);
                                }
                            } else if is_dead_end(s, host.as_str(), vs_ns.as_str()) {
                                let issue = dead_end_route(vs, &vs_ns, host);
                                let ghost prev = issues@;
                                issues.push(issue);
                                proof {
                                    lemma_issues_view_push(prev, issue);
                                }
                            }
                            proof {
                                lemma_concat_map_step(dests@, d as int, fd);
                                assert(issues_view(issues@) =~= mid + concat_map(dests@.take(d + 1), fd));
                            }
                        }
                        proof {
                            lemma_concat_map_all(dests@, fd);
                        }
                    },
                }
                proof {
                    lemma_concat_map_step(routes@, r as int, fr);
                    assert(issues_view(issues@) =~= start + concat_map(routes@.take(r + 1), fr));
                }
            }
            proof {
                lemma_concat_map_all(routes@, fr);
            }
        },
    }
}

/// Finds gateways that no virtual service binds to, routes whose target service does
/// not exist, and routes to a service without a ready pod.
pub fn detect_orphans(snapshot: &ClusterSnapshot) -> (issues: Vec<AuditIssue>)
    ensures
        issues_view(issues@) == orphan_issues(*snapshot),
{
    let mut issues: Vec<AuditIssue> = Vec::new();
    let referenced = referenced_gateways_exec(&snapshot.virtual_services);
    let ghost refs = referenced_gateways(snapshot.virtual_services@);
    let ghost fg = unused_gateway_fn(refs);

    // 1. Gateways that no virtual service references.
    let gws = &snapshot.gateways;
    proof {
        lemma_concat_map_empty(gws@, fg);
    }
    for i in 0..gws.len()
        invariant
            strings_view(referenced@) == refs,
            fg == unused_gateway_fn(refs),
            issues_view(issues@) == concat_map(gws@.take(i as int), fg),
    {
        let gw = &gws[i];
        let ns = string_or(&gw.metadata.namespace, "");
        let mut full_ref = ns.clone();
        full_ref.append("/");
        full_ref.append(gw.metadata.name.as_str());
        proof {
            reveal_strlit("");
        }
        let used = contains_string(&referenced, gw.metadata.name.as_str())
            || contains_string(&referenced, full_ref.as_str());
        if !used {
            let issue = unused_gateway(gw);
            let ghost prev = issues@;
            issues.push(issue);
            proof {
                lemma_issues_view_push(prev, issue);
            }
        }
        proof {
            lemma_concat_map_step(gws@, i as int, fg);
            assert(issues_view(issues@) =~= concat_map(gws@.take(i + 1), fg));
        }
    }
    proof {
        lemma_concat_map_all(gws@, fg);
    }
    let ghost gateway_part = issues_view(issues@);

    // 2. Routes to services that do not exist or have no ready pod.
    let vss = &snapshot.virtual_services;
    let ghost fv = route_findings_fn(*snapshot);
    proof {
        lemma_concat_map_empty(vss@, fv);
        assert(issues_view(issues@) =~= gateway_part + concat_map(vss@.take(0), fv));
    }
    for i in 0..vss.len()
        invariant
            fv == route_findings_fn(*snapshot),
            issues_view(issues@) == gateway_part + concat_map(vss@.take(i as int), fv),
    {
        push_route_findings(snapshot, &vss[i], &mut issues);
        proof {
            lemma_concat_map_step(vss@, i as int, fv);
            assert(issues_view(issues@) =~= gateway_part + concat_map(vss@.take(i + 1), fv));
        }
    }
    proof {
        lemma_concat_map_all(vss@, fv);
    }
    issues
}

} // verus!

verus! {

/// Virtual service `vs` lists `name` among its gateways.
pub open spec fn lists_gateway(vs: VirtualService, name: Seq<char>) -> bool {
    match vs.spec.gateways {
        Some(g) => strings_view(g@).contains(name),
        None => false,
    }
}

proof fn lemma_referenced_iff_listed(vss: Seq<VirtualService>, name: Seq<char>)
    ensures
        referenced_gateways(vss).contains(name) <==> exists|v: int|
            0 <= v < vss.len() && #[trigger] lists_gateway(vss[v], name),
{
    let f = listed_gateways_fn();
    crate::seqs::lemma_concat_map_contains(vss, f, name);
    if exists|v: int| 0 <= v < vss.len() && #[trigger] lists_gateway(vss[v], name) {
        let v = choose|v: int| 0 <= v < vss.len() && #[trigger] lists_gateway(vss[v], name);
        let x = choose|x: int| 0 <= x < f(vss[v]).len() && #[trigger] f(vss[v])[x] == name;
        assert(f(vss[v])[x] == name);
    }
    if referenced_gateways(vss).contains(name) {
        let (v, x) = choose|v: int, x: int| 0 <= v < vss.len() && 0 <= x < f(vss[v]).len() && #[trigger] f(vss[v])[x] == name;
        assert(f(vss[v]).contains(name));
        assert(lists_gateway(vss[v], name));
    }
}

/// Virtual service `vs` lists gateway `gw`, by its name or as `namespace/name`.
pub open spec fn binds_gateway(vs: VirtualService, gw: Gateway) -> bool {
    lists_gateway(vs, gw.metadata.name@)
        || lists_gateway(vs, text_or(gw.metadata.namespace, Seq::empty()) + "/"@ + gw.metadata.name@)
}

/// A gateway is reported unused exactly when no virtual service lists it, neither
/// by its name nor as `namespace/name`.
pub proof fn law_unused_gateway_iff_unbound(s: ClusterSnapshot, g: int)
    requires
        0 <= g < s.gateways@.len(),
    ensures
        unused_gateways(s).contains(unused_gateway_issue(s.gateways@[g])) <==> !exists|v: int|
            0 <= v < s.virtual_services@.len() && #[trigger] binds_gateway(s.virtual_services@[v], s.gateways@[g]),
{
    let vss = s.virtual_services@;
    let gws = s.gateways@;
    let gw = gws[g];
    let refs = referenced_gateways(vss);
    let f = unused_gateway_fn(refs);
    let name = gw.metadata.name@;
    let full = text_or(gw.metadata.namespace, Seq::empty()) + "/"@ + name;
    lemma_referenced_iff_listed(vss, name);
    lemma_referenced_iff_listed(vss, full);
    let bound = exists|v: int| 0 <= v < vss.len() && #[trigger] binds_gateway(vss[v], gw);
    assert(gateway_is_referenced(refs, gw) ==> bound) by {
        if refs.contains(name) {
            let v = choose|v: int| 0 <= v < vss.len() && #[trigger] lists_gateway(vss[v], name);
            assert(binds_gateway(vss[v], gw));
        }
        if refs.contains(full) {
            let v = choose|v: int| 0 <= v < vss.len() && #[trigger] lists_gateway(vss[v], full);
            assert(binds_gateway(vss[v], gw));
        }
    }
    assert(bound ==> gateway_is_referenced(refs, gw)) by {
        if bound {
            let v = choose|v: int| 0 <= v < vss.len() && #[trigger] binds_gateway(vss[v], gw);
            if lists_gateway(vss[v], name) {
                assert(refs.contains(name));
            } else {
                assert(lists_gateway(vss[v], full));
                assert(refs.contains(full));
            }
        }
    }
    crate::seqs::lemma_concat_map_contains(gws, f, unused_gateway_issue(gw));
    assert(unused_gateways(s).contains(unused_gateway_issue(gw)) <==> !gateway_is_referenced(refs, gw)) by {
        if !gateway_is_referenced(refs, gw) {
            assert(f(gws[g])[0] == unused_gateway_issue(gw));
        }
        if unused_gateways(s).contains(unused_gateway_issue(gw)) {
            let (i, j) = choose|i: int, j: int| 0 <= i < gws.len() && 0 <= j < f(gws[i]).len()
                && #[trigger] f(gws[i])[j] == unused_gateway_issue(gw);
            let other = gws[i];
            assert(!gateway_is_referenced(refs, other));
            assert(unused_gateway_issue(other) == unused_gateway_issue(gw));
            assert(other.metadata.name@ == name);
            assert(text_or(other.metadata.namespace, Seq::empty()) == text_or(gw.metadata.namespace, Seq::empty()));
        }
    }
}

/// Hosts that name something outside the cluster, the mesh itself, and hosts that a
/// service entry declares always resolve, and are never dead ends.
pub proof fn law_outside_hosts_resolve(s: ClusterSnapshot, host: Seq<char>, current_ns: Seq<char>)
    requires
        has_substring(host, "external"@) || host == "mesh"@ || strings_view(s.external_hosts@).contains(host),
    ensures
        host_resolvable(host, current_ns, s.existing_service_keys@, strings_view(s.external_hosts@)),
        !dead_end(s, host, current_ns),
{
}

/// A bare service name, not declared by a service entry, resolves exactly when that
/// service exists in the route's own namespace.
pub proof fn law_bare_name_resolves_in_route_namespace(
    name: Seq<char>,
    current_ns: Seq<char>,
    keys: Seq<ResourceKey>,
    external_hosts: Seq<Seq<char>>,
)
    requires
        !name.contains('.'),
        !has_substring(name, "external"@),
        name != "mesh"@,
        !external_hosts.contains(name),
    ensures
        host_resolvable(name, current_ns, keys, external_hosts) == service_listed(keys, current_ns, name),
{
}

/// `name.namespace`, followed by nothing or by a `.`-separated suffix such as
/// `.svc.cluster.local`, and not declared by a service entry, resolves exactly when
/// service `name` exists in `namespace`, whatever the route's own namespace.
pub proof fn law_qualified_name_resolves_in_its_namespace(
    name: Seq<char>,
    namespace: Seq<char>,
    suffix: Seq<char>,
    current_ns: Seq<char>,
    keys: Seq<ResourceKey>,
    external_hosts: Seq<Seq<char>>,
)
    requires
        !name.contains('.'),
        !namespace.contains('.'),
        suffix.len() == 0 || suffix[0] == '.',
        !has_substring(name + "."@ + namespace + suffix, "external"@),
        !external_hosts.contains(name + "."@ + namespace + suffix),
    ensures
        host_resolvable(name + "."@ + namespace + suffix, current_ns, keys, external_hosts)
            == service_listed(keys, namespace, name),
{
    reveal_strlit(".");
    reveal_strlit("mesh");
    let host = name + "."@ + namespace + suffix;
    let n = name.len() as int;
    assert(host[n] == '.');
    assert forall|k: int| 0 <= k < n implies host[k] != '.' by {
        assert(host[k] == name[k]);
    }
    crate::text::lemma_split_at_first(host, '.', n);
    assert(host.take(n) =~= name);
    let rest = namespace + suffix;
    assert(host.skip(n + 1) =~= rest);
    let m = namespace.len() as int;
    assert forall|k: int| 0 <= k < m implies rest[k] != '.' by {
        assert(rest[k] == namespace[k]);
    }
    crate::text::lemma_split_at_first(rest, '.', m);
    assert(rest.take(m) =~= namespace);
    assert(host != "mesh"@) by {
        if host == "mesh"@ {
            assert("mesh"@[n] == '.');
        }
    }
}

/// A route to an existing service is a dead end exactly when no pod of the service's
/// namespace that its selector selects is ready (an empty selector selects none).
pub proof fn law_dead_end_iff_no_ready_pod(s: ClusterSnapshot, host: Seq<char>, current_ns: Seq<char>)
    requires
        host_resolvable(host, current_ns, s.existing_service_keys@, strings_view(s.external_hosts@)),
        !outside_services(host, strings_view(s.external_hosts@)),
    ensures
        dead_end(s, host, current_ns) <==> !exists|i: int| 0 <= i < s.pods@.len() && {
            let (ns, name) = target_service(host, current_ns);
            let sel = service_selector(s, ns, name);
            &&& !(sel =~= Map::empty())
            &&& #[trigger] s.pods@[i].namespace@ == ns
            &&& selects(sel, s.pods@[i].labels@)
            &&& s.pods@[i].is_ready
        },
{
}

/// Destination `d` of HTTP route `r` of virtual service `v` exists.
pub open spec fn valid_destination(s: ClusterSnapshot, v: int, r: int, d: int) -> bool {
    let vs = s.virtual_services@[v];
    0 <= v < s.virtual_services@.len() && match vs.spec.http {
        Some(rs) => 0 <= r < rs@.len() && match rs@[r].route {
            Some(ds) => 0 <= d < ds@.len(),
            None => false,
        },
        None => false,
    }
}

/// The finding on destination `d` of HTTP route `r` of virtual service `v`, if any.
pub open spec fn finding_at(s: ClusterSnapshot, v: int, r: int, d: int) -> Option<IssueView> {
    let vs = s.virtual_services@[v];
    let rs = vs.spec.http.unwrap();
    let ds = rs@[r].route.unwrap();
    destination_finding(s, vs, vs_namespace(vs), ds@[d].destination.host@)
}

/// `x` is the finding on some destination.
pub open spec fn is_destination_finding(s: ClusterSnapshot, x: IssueView) -> bool {
    exists|v: int, r: int, d: int| valid_destination(s, v, r, d) && #[trigger] finding_at(s, v, r, d) == Some(x)
}

/// Every broken or dead-end destination is reported, and every route finding is that of
/// such a destination.
pub proof fn law_route_findings_exact(s: ClusterSnapshot)
    ensures
        forall|v: int, r: int, d: int| #[trigger] valid_destination(s, v, r, d) && finding_at(s, v, r, d) is Some
            ==> route_findings(s).contains(finding_at(s, v, r, d).unwrap()),
        forall|k: int| 0 <= k < route_findings(s).len() ==> is_destination_finding(s, #[trigger] route_findings(s)[k]),
{
    let vss = s.virtual_services@;
    let fv = route_findings_fn(s);
    assert forall|v: int, r: int, d: int| #[trigger] valid_destination(s, v, r, d) && finding_at(s, v, r, d) is Some
        implies route_findings(s).contains(finding_at(s, v, r, d).unwrap()) by {
        let vs = vss[v];
        let ns = vs_namespace(vs);
        let rs = vs.spec.http.unwrap();
        let ds = rs@[r].route.unwrap();
        let fr = route_fn(s, vs, ns);
        let fd = destination_fn(s, vs, ns);
        let x = finding_at(s, v, r, d).unwrap();
        assert(fd(ds@[d])[0] == x);
        crate::seqs::lemma_concat_map_member(ds@, fd, d, 0);
        let inner = concat_map(ds@, fd);
        let p = choose|p: int| 0 <= p < inner.len() && inner[p] == x;
        assert(fr(rs@[r])[p] == x);
        crate::seqs::lemma_concat_map_member(rs@, fr, r, p);
        let mid = concat_map(rs@, fr);
        let q = choose|q: int| 0 <= q < mid.len() && mid[q] == x;
        assert(fv(vss[v])[q] == x);
        crate::seqs::lemma_concat_map_member(vss, fv, v, q);
    }
    assert forall|k: int| 0 <= k < route_findings(s).len() implies is_destination_finding(s, #[trigger] route_findings(s)[k]) by {
        let (v, a) = crate::seqs::lemma_concat_map_index(vss, fv, k);
        let vs = vss[v];
        let ns = vs_namespace(vs);
        let rs = vs.spec.http.unwrap();
        let fr = route_fn(s, vs, ns);
        let (r, b) = crate::seqs::lemma_concat_map_index(rs@, fr, a);
        let ds = rs@[r].route.unwrap();
        let fd = destination_fn(s, vs, ns);
        let (d, c) = crate::seqs::lemma_concat_map_index(ds@, fd, b);
        assert(valid_destination(s, v, r, d));
        assert(finding_at(s, v, r, d) == Some(route_findings(s)[k]));
    }
}

} // verus!

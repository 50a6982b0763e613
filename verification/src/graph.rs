//! End-to-end traffic traces: gateway, virtual service, Kubernetes service,
//! destination rule subset and the pods that the selectors reach.

use vstd::prelude::*;
use crate::k8s::{ClusterSnapshot, PodInfo, PodInfoView, ServiceMeta, ServiceMetaView};
use crate::labels::{Labels, selects};
use crate::model::{
    DestinationRule, HttpRoute, HttpRouteDestination, StringMatch, Subset, VirtualService,
    clone_strings, string_or, strings_view, text_or,
};
use crate::seqs::{
    concat_map, first_index, lemma_concat_map_all, lemma_concat_map_empty, lemma_concat_map_step,
    lemma_first_index_bounds, lemma_first_index_empty, lemma_first_index_prefix, lemma_first_index_step,
};
use crate::text::{before_char, has_prefix, split_once_char, starts_with_str, str_eq};

verus! {

/// Where one destination of a route leads.
#[derive(Debug, PartialEq)]
pub struct SubnetTarget {
    pub subset_name: String,
    pub weight: i32,
    pub destination_rule: Option<String>,
    pub service_meta: Option<ServiceMeta>,
    pub matching_pods: Vec<PodInfo>,
}

/// One hop-by-hop path: gateway, virtual service route, service and pods.
#[derive(Debug, PartialEq)]
pub struct RouteTrace {
    pub gateway_name: String,
    pub gateway_hosts: Vec<String>,
    pub vs_name: String,
    pub vs_namespace: String,
    pub uri_match: String,
    pub service_host: String,
    pub targets: Vec<SubnetTarget>,
}

pub struct SubnetTargetView {
    pub subset_name: Seq<char>,
    pub weight: i32,
    pub destination_rule: Option<Seq<char>>,
    pub service_meta: Option<ServiceMetaView>,
    pub matching_pods: Seq<PodInfoView>,
}

pub struct RouteTraceView {
    pub gateway_name: Seq<char>,
    pub gateway_hosts: Seq<Seq<char>>,
    pub vs_name: Seq<char>,
    pub vs_namespace: Seq<char>,
    pub uri_match: Seq<char>,
    pub service_host: Seq<char>,
    pub targets: Seq<SubnetTargetView>,
}

pub open spec fn pods_view(v: Seq<PodInfo>) -> Seq<PodInfoView> {
    v.map_values(|p: PodInfo| p@)
}

impl View for SubnetTarget {
    type V = SubnetTargetView;

    open spec fn view(&self) -> SubnetTargetView {
        SubnetTargetView {
            subset_name: self.subset_name@,
            weight: self.weight,
            destination_rule: match self.destination_rule {
                Some(d) => Some(d@),
                None => None,
            },
            service_meta: match self.service_meta {
                Some(m) => Some(m@),
                None => None,
            },
            matching_pods: pods_view(self.matching_pods@),
        }
    }
}

impl View for RouteTrace {
    type V = RouteTraceView;

    open spec fn view(&self) -> RouteTraceView {
        RouteTraceView {
            gateway_name: self.gateway_name@,
            gateway_hosts: strings_view(self.gateway_hosts@),
            vs_name: self.vs_name@,
            vs_namespace: self.vs_namespace@,
            uri_match: self.uri_match@,
            service_host: self.service_host@,
            targets: self.targets@.map_values(|t: SubnetTarget| t@),
        }
    }
}

pub open spec fn traces_view(v: Seq<RouteTrace>) -> Seq<RouteTraceView> {
    v.map_values(|t: RouteTrace| t@)
}

/// How a route's first match condition on the URI is shown.
pub open spec fn uri_match_text(route: HttpRoute) -> Seq<char> {
    match route.match_requests {
        Some(ms) => if ms@.len() > 0 {
            match ms@[0].uri {
                Some(StringMatch::Exact(s)) => "Exact("@ + s@ + ")"@,
                Some(StringMatch::Prefix(s)) => "Prefix("@ + s@ + ")"@,
                Some(StringMatch::Regex(s)) => "Regex("@ + s@ + ")"@,
                None => "/* (All)"@,
            }
        } else {
            "/* (All)"@
        },
        None => "/* (All)"@,
    }
}

/// The service metadata for `namespace/name`; the last entry for the key wins.
pub open spec fn meta_lookup(metas: Seq<ServiceMeta>, ns: Seq<char>, name: Seq<char>) -> Option<ServiceMeta>
    decreases metas.len(),
{
    if metas.len() == 0 {
        None
    } else if metas.last().namespace@ == ns && metas.last().name@ == name {
        Some(metas.last())
    } else {
        meta_lookup(metas.drop_last(), ns, name)
    }
}

/// A destination rule governs a host when it names the host or starts with the service name.
pub open spec fn dr_governs_fn(host: Seq<char>, svc_name: Seq<char>) -> spec_fn(DestinationRule) -> bool {
    |d: DestinationRule| d.spec.host@ == host || has_prefix(d.spec.host@, svc_name)
}

pub open spec fn subset_named_fn(name: Seq<char>) -> spec_fn(Subset) -> bool {
    |s: Subset| s.name@ == name
}

/// The labels that the destination's subset adds, when the rule defines that subset with labels.
pub open spec fn subset_labels(dr: Option<DestinationRule>, subset: Option<String>) -> Option<Map<Seq<char>, Seq<char>>> {
    match dr {
        None => None,
        Some(d) => match subset {
            None => None,
            Some(name) => match d.spec.subsets {
                Some(ss) => match first_index(ss@, subset_named_fn(name@)) {
                    Some(k) => match ss@[k].labels {
                        Some(l) => Some(l@),
                        None => None,
                    },
                    None => None,
                },
                None => None,
            },
        },
    }
}

/// Service selector, overridden by the subset's labels.
pub open spec fn target_selector(meta: Option<ServiceMeta>, extra: Option<Map<Seq<char>, Seq<char>>>) -> Map<Seq<char>, Seq<char>> {
    let base = match meta {
        Some(m) => m.selector@,
        None => Map::empty(),
    };
    match extra {
        Some(l) => base.union_prefer_right(l),
        None => base,
    }
}

pub open spec fn pod_match_fn(ns: Seq<char>, sel: Map<Seq<char>, Seq<char>>) -> spec_fn(PodInfo) -> Seq<PodInfoView> {
    |p: PodInfo|
        if p.namespace@ == ns && selects(sel, p.labels@) {
            seq![p@]
        } else {
            Seq::empty()
        }
}

/// Pods of namespace `ns` that carry every label of `sel`; none for an empty selector.
pub open spec fn matching_pods(pods: Seq<PodInfo>, ns: Seq<char>, sel: Map<Seq<char>, Seq<char>>) -> Seq<PodInfoView> {
    if sel =~= Map::empty() {
        Seq::empty()
    } else {
        concat_map(pods, pod_match_fn(ns, sel))
    }
}

/// The destination rule that governs a destination host, if any.
pub open spec fn governing_dr(s: ClusterSnapshot, host: Seq<char>) -> Option<DestinationRule> {
    match first_index(s.destination_rules@, dr_governs_fn(host, before_char(host, '.'))) {
        Some(i) => Some(s.destination_rules@[i]),
        None => None,
    }
}

/// Where a destination, routed from namespace `ns`, leads.
pub open spec fn target_of(s: ClusterSnapshot, ns: Seq<char>, d: HttpRouteDestination) -> SubnetTargetView {
    let host = d.destination.host@;
    let meta = meta_lookup(s.services_meta@, ns, before_char(host, '.'));
    let dr = governing_dr(s, host);
    let sel = target_selector(meta, subset_labels(dr, d.destination.subset));
    SubnetTargetView {
        subset_name: text_or(d.destination.subset, "default"@),
        weight: match d.weight {
            Some(w) => w,
            None => 100,
        },
        destination_rule: match dr {
            Some(r) => Some(r.metadata.name@),
            None => None,
        },
        service_meta: match meta {
            Some(m) => Some(m@),
            None => None,
        },
        matching_pods: matching_pods(s.pods@, ns, sel),
    }
}

pub open spec fn trace_of(s: ClusterSnapshot, vs: VirtualService, route: HttpRoute, d: HttpRouteDestination, gw: Seq<char>) -> RouteTraceView {
    let ns = text_or(vs.metadata.namespace, Seq::empty());
    RouteTraceView {
        gateway_name: gw,
        gateway_hosts: strings_view(vs.spec.hosts@),
        vs_name: vs.metadata.name@,
        vs_namespace: ns,
        uri_match: uri_match_text(route),
        service_host: d.destination.host@,
        targets: seq![target_of(s, ns, d)],
    }
}

/// The gateways a virtual service is bound to; `mesh` when it names none.
pub open spec fn trace_gateways(vs: VirtualService) -> Seq<Seq<char>> {
    match vs.spec.gateways {
        Some(g) => strings_view(g@),
        None => seq!["mesh"@],
    }
}

pub open spec fn dest_traces_fn(s: ClusterSnapshot, vs: VirtualService, route: HttpRoute) -> spec_fn(HttpRouteDestination) -> Seq<RouteTraceView> {
    |d: HttpRouteDestination| trace_gateways(vs).map_values(|gw: Seq<char>| trace_of(s, vs, route, d, gw))
}

pub open spec fn route_traces_fn(s: ClusterSnapshot, vs: VirtualService) -> spec_fn(HttpRoute) -> Seq<RouteTraceView> {
    |r: HttpRoute| match r.route {
        Some(ds) => concat_map(ds@, dest_traces_fn(s, vs, r)),
        None => Seq::empty(),
    }
}

/// Whether the namespace filter admits a virtual service.
pub open spec fn in_scope(vs: VirtualService, filter_ns: Option<Seq<char>>) -> bool {
    match filter_ns {
        None => true,
        Some(f) => match vs.metadata.namespace {
            Some(n) => n@ == f,
            None => false,
        },
    }
}

pub open spec fn vs_traces_fn(s: ClusterSnapshot, filter_ns: Option<Seq<char>>) -> spec_fn(VirtualService) -> Seq<RouteTraceView> {
    |vs: VirtualService|
        if !in_scope(vs, filter_ns) {
            Seq::empty()
        } else {
            match vs.spec.http {
                Some(rs) => concat_map(rs@, route_traces_fn(s, vs)),
                None => Seq::empty(),
            }
        }
}

/// One trace per (virtual service in scope, HTTP route, destination, gateway), in that nesting order.
pub open spec fn all_traces(s: ClusterSnapshot, filter_ns: Option<Seq<char>>) -> Seq<RouteTraceView> {
    concat_map(s.virtual_services@, vs_traces_fn(s, filter_ns))
}

fn uri_match_of(route: &HttpRoute) -> (r: String)
    ensures
        r@ == uri_match_text(*route),
{
    let all = "/* (All)";
    match &route.match_requests {
        Some(ms) => {
            if ms.len() > 0 {
                match &ms[0].uri {
                    Some(StringMatch::Exact(s)) => {
                        let mut r = String::from_str("Exact(");
                        r.append(s.as_str());
                        r.append(")");
                        r
                    },
                    Some(StringMatch::Prefix(s)) => {
                        let mut r = String::from_str("Prefix(");
                        r.append(s.as_str());
                        r.append(")");
                        r
                    },
                    Some(StringMatch::Regex(s)) => {
                        let mut r = String::from_str("Regex(");
                        r.append(s.as_str());
                        r.append(")");
                        r
                    },
                    None => String::from_str(all),
                }
            } else {
                String::from_str(all)
            }
        },
        None => String::from_str(all),
    }
}

pub(crate) fn find_meta(metas: &Vec<ServiceMeta>, ns: &str, name: &str) -> (r: Option<usize>)
    ensures
        r matches Some(i) ==> i < metas@.len() && meta_lookup(metas@, ns@, name@) == Some(metas@[i as int]),
        r is None ==> meta_lookup(metas@, ns@, name@) is None,
{
    let mut found: Option<usize> = None;
    for i in 0..metas.len()
        invariant
            found matches Some(k) ==> k < metas@.len() && meta_lookup(metas@.take(i as int), ns@, name@) == Some(metas@[k as int]),
            found is None ==> meta_lookup(metas@.take(i as int), ns@, name@) is None,
    {
        assert(metas@.take(i + 1).drop_last() =~= metas@.take(i as int));
        if str_eq(metas[i].namespace.as_str(), ns) && str_eq(metas[i].name.as_str(), name) {
            found = Some(i);
        }
    }
    assert(metas@.take(metas@.len() as int) =~= metas@);
    found
}

fn find_governing_dr(drs: &Vec<DestinationRule>, host: &str, svc_name: &str) -> (r: Option<usize>)
    ensures
        r matches Some(i) ==> i < drs@.len() && first_index(drs@, dr_governs_fn(host@, svc_name@)) == Some(i as int),
        r is None ==> first_index(drs@, dr_governs_fn(host@, svc_name@)) is None,
{
    let ghost p = dr_governs_fn(host@, svc_name@);
    proof {
        lemma_first_index_empty(drs@, p);
    }
    for i in 0..drs.len()
        invariant
            p == dr_governs_fn(host@, svc_name@),
            first_index(drs@.take(i as int), p) is None,
    {
        proof {
            lemma_first_index_step(drs@, p, i as int);
        }
        if str_eq(drs[i].spec.host.as_str(), host) || starts_with_str(drs[i].spec.host.as_str(), svc_name) {
            proof {
                lemma_first_index_prefix(drs@, p, i + 1);
            }
            return Some(i);
        }
    }
    assert(drs@.take(drs@.len() as int) =~= drs@);
    None
}

fn find_subset(subsets: &Vec<Subset>, name: &String) -> (r: Option<usize>)
    ensures
        r matches Some(i) ==> i < subsets@.len() && first_index(subsets@, subset_named_fn(name@)) == Some(i as int),
        r is None ==> first_index(subsets@, subset_named_fn(name@)) is None,
{
    let ghost p = subset_named_fn(name@);
    proof {
        lemma_first_index_empty(subsets@, p);
    }
    for i in 0..subsets.len()
        invariant
            p == subset_named_fn(name@),
            first_index(subsets@.take(i as int), p) is None,
    {
        proof {
            lemma_first_index_step(subsets@, p, i as int);
        }
        if subsets[i].name == *name {
            proof {
                lemma_first_index_prefix(subsets@, p, i + 1);
            }
            return Some(i);
        }
    }
    assert(subsets@.take(subsets@.len() as int) =~= subsets@);
    None
}

fn clone_pods(v: &Vec<PodInfo>) -> (r: Vec<PodInfo>)
    ensures
        pods_view(r@) == pods_view(v@),
{
    let mut r: Vec<PodInfo> = Vec::new();
    for i in 0..v.len()
        invariant
            r@.len() == i,
            pods_view(r@) == pods_view(v@).take(i as int),
    {
        let p = v[i].duplicate();
        let ghost prev = r@;
        r.push(p);
        assert(pods_view(r@) =~= pods_view(v@).take(i + 1)) by {
            assert forall|j: int| 0 <= j < i implies pods_view(r@)[j] == pods_view(v@)[j] by {
                assert(r@[j] == prev[j]);
                assert(pods_view(prev)[j] == pods_view(v@).take(i as int)[j]);
            }
        }
    }
    assert(pods_view(v@).take(v@.len() as int) =~= pods_view(v@));
    r
}

fn duplicate_meta(m: &Option<ServiceMeta>) -> (r: Option<ServiceMeta>)
    ensures
        match (r, *m) {
            (Some(a), Some(b)) => a@ == b@,
            (None, None) => true,
            _ => false,
        },
{
    match m {
        Some(x) => Some(x.duplicate()),
        None => None,
    }
}

/// The destination rule at an optional position.
pub open spec fn dr_at(drs: Seq<DestinationRule>, i: Option<usize>) -> Option<DestinationRule> {
    match i {
        Some(k) => Some(drs[k as int]),
        None => None,
    }
}

fn subset_labels_of<'a>(drs: &'a Vec<DestinationRule>, dr_index: Option<usize>, subset: &Option<String>) -> (r: Option<&'a Labels>)
    requires
        dr_index matches Some(i) ==> i < drs@.len(),
    ensures
        r matches Some(l) ==> subset_labels(dr_at(drs@, dr_index), *subset) == Some(l@),
        r is None ==> subset_labels(dr_at(drs@, dr_index), *subset) is None,
{
    match dr_index {
        None => None,
        Some(di) => match subset {
            None => None,
            Some(sub_name) => match &drs[di].spec.subsets {
                None => None,
                Some(subsets) => match find_subset(subsets, sub_name) {
                    None => None,
                    Some(si) => match &subsets[si].labels {
                        None => None,
                        Some(labels) => Some(labels),
                    },
                },
            },
        },
    }
}

/// Where one destination, routed from namespace `vs_ns`, leads.
fn build_target(snapshot: &ClusterSnapshot, vs_ns: &String, dest: &HttpRouteDestination) -> (t: SubnetTarget)
    ensures
        t@ == target_of(*snapshot, vs_ns@, *dest),
{
    let host = &dest.destination.host;
    let (svc_name, _) = split_once_char(host.as_str(), '.');
    let meta_index = find_meta(&snapshot.services_meta, vs_ns.as_str(), svc_name.as_str());
    let svc_meta: Option<ServiceMeta> = match meta_index {
        Some(i) => Some(snapshot.services_meta[i].duplicate()),
        None => None,
    };
    let drs = &snapshot.destination_rules;
    let dr_index = find_governing_dr(drs, host.as_str(), svc_name.as_str());
    proof {
        lemma_first_index_bounds(drs@, dr_governs_fn(host@, svc_name@));
    }
    let ghost dr = governing_dr(*snapshot, host@);
    let ghost extra = subset_labels(dr, dest.destination.subset);

    // Selector of the service, then of the subset.
    let mut selector = Labels::new();
    if let Some(ref meta) = svc_meta {
        selector.extend(&meta.selector);
    }
    let ghost base = match meta_lookup(snapshot.services_meta@, vs_ns@, svc_name@) {
        Some(m) => m.selector@,
        None => Map::<Seq<char>, Seq<char>>::empty(),
    };
    assert(selector@ =~= base);
    assert(dr == dr_at(drs@, dr_index));
    let extra_labels = subset_labels_of(drs, dr_index, &dest.destination.subset);
    if let Some(labels) = extra_labels {
        selector.extend(labels);
    }
    assert(selector@ =~= target_selector(meta_lookup(snapshot.services_meta@, vs_ns@, svc_name@), extra));

    // Pods that the selector reaches.
    let mut pods: Vec<PodInfo> = Vec::new();
    let ghost sel = selector@;
    let ghost fp = pod_match_fn(vs_ns@, sel);
    if !selector.is_empty() {
        let all = &snapshot.pods;
        proof {
            lemma_concat_map_empty(all@, fp);
        }
        for i in 0..all.len()
            invariant
                sel == selector@,
                fp == pod_match_fn(vs_ns@, sel),
                pods_view(pods@) == concat_map(all@.take(i as int), fp),
        {
            let pod = &all[i];
            let ghost prev = pods@;
            if pod.namespace == *vs_ns && selector.selects(&pod.labels) {
                pods.push(pod.duplicate());
                assert(pods_view(pods@) =~= pods_view(prev).push(pod@));
            }
            proof {
                lemma_concat_map_step(all@, i as int, fp);
                assert(pods_view(pods@) =~= concat_map(all@.take(i + 1), fp));
            }
        }
        proof {
            lemma_concat_map_all(all@, fp);
        }
    } else {
        assert(pods_view(pods@) =~= Seq::<PodInfoView>::empty());
    }

    let subset_name = string_or(&dest.destination.subset, "default");
    let weight = match dest.weight {
        Some(w) => w,
        None => 100,
    };
    let destination_rule = match dr_index {
        Some(di) => Some(drs[di].metadata.name.clone()),
        None => None,
    };
    SubnetTarget { subset_name, weight, destination_rule, service_meta: svc_meta, matching_pods: pods }
}

fn gateways_of(vs: &VirtualService) -> (r: Vec<String>)
    ensures
        strings_view(r@) == trace_gateways(*vs),
{
    match &vs.spec.gateways {
        Some(g) => clone_strings(g),
        None => {
            let mut v: Vec<String> = Vec::new();
            v.push(String::from_str("mesh"));
            assert(strings_view(v@) =~= seq!["mesh"@]);
            v
        },
    }
}

fn push_dest_traces(
    snapshot: &ClusterSnapshot,
    vs: &VirtualService,
    vs_ns: &String,
    gws: &Vec<String>,
    route: &HttpRoute,
    uri_match: &String,
    dest: &HttpRouteDestination,
    traces: &mut Vec<RouteTrace>,
)
    requires
        vs_ns@ == text_or(vs.metadata.namespace, Seq::empty()),
        strings_view(gws@) == trace_gateways(*vs),
        uri_match@ == uri_match_text(*route),
    ensures
        traces_view(final(traces)@) == traces_view(old(traces)@) + dest_traces_fn(*snapshot, *vs, *route)(*dest),
{
    let target = build_target(snapshot, vs_ns, dest);
    let ghost start = traces_view(traces@);
    let ghost gv = trace_gateways(*vs);
    let ghost ft = |gw: Seq<char>| trace_of(*snapshot, *vs, *route, *dest, gw);
    assert(traces_view(traces@) =~= start + gv.take(0).map_values(ft));
    for g in 0..gws.len()
        invariant
            strings_view(gws@) == gv,
            gv == trace_gateways(*vs),
            vs_ns@ == text_or(vs.metadata.namespace, Seq::empty()),
            uri_match@ == uri_match_text(*route),
            target@ == target_of(*snapshot, vs_ns@, *dest),
            ft == (|gw: Seq<char>| trace_of(*snapshot, *vs, *route, *dest, gw)),
            traces_view(traces@) == start + gv.take(g as int).map_values(ft),
    {
        let mut targets: Vec<SubnetTarget> = Vec::new();
        targets.push(SubnetTarget {
            subset_name: target.subset_name.clone(),
            weight: target.weight,
            destination_rule: match &target.destination_rule {
                Some(d) => Some(d.clone()),
                None => None,
            },
            service_meta: duplicate_meta(&target.service_meta),
            matching_pods: clone_pods(&target.matching_pods),
        });
        let trace = RouteTrace {
            gateway_name: gws[g].clone(),
            gateway_hosts: clone_strings(&vs.spec.hosts),
            vs_name: vs.metadata.name.clone(),
            vs_namespace: vs_ns.clone(),
            uri_match: uri_match.clone(),
            service_host: dest.destination.host.clone(),
            targets,
        };
        proof {
            assert(strings_view(gws@)[g as int] == gws@[g as int]@);
            assert(trace@.targets =~= seq![target_of(*snapshot, vs_ns@, *dest)]);
            assert(trace@ == ft(gv[g as int]));
        }
        let ghost prev = traces@;
        traces.push(trace);
        assert(traces_view(traces@) =~= traces_view(prev).push(trace@));
        assert(gv.take(g + 1).map_values(ft) =~= gv.take(g as int).map_values(ft).push(ft(gv[g as int])));
    }
    assert(gv.take(gws@.len() as int) =~= gv);
}

/// Traces every HTTP route destination of every virtual service, once per gateway,
/// optionally only for virtual services of one namespace.
pub fn build_traces(snapshot: &ClusterSnapshot, filter_ns: Option<&str>) -> (traces: Vec<RouteTrace>)
    ensures
        traces_view(traces@) == all_traces(*snapshot, match filter_ns {
            Some(f) => Some(f@),
            None => None,
        }),
{
    let ghost filter = match filter_ns {
        Some(f) => Some(f@),
        None => None::<Seq<char>>,
    };
    let mut traces: Vec<RouteTrace> = Vec::new();
    let vss = &snapshot.virtual_services;
    let ghost fv = vs_traces_fn(*snapshot, filter);
    proof {
        lemma_concat_map_empty(vss@, fv);
    }
    for i in 0..vss.len()
        invariant
            fv == vs_traces_fn(*snapshot, filter),
            filter == (match filter_ns {
                Some(f) => Some(f@),
                None => None::<Seq<char>>,
            }),
            traces_view(traces@) == concat_map(vss@.take(i as int), fv),
    {
        let vs = &vss[i];
        let ghost before = traces_view(traces@);
        let skip = match filter_ns {
            Some(f) => match &vs.metadata.namespace {
                Some(n) => !str_eq(n.as_str(), f),
                None => true,
            },
            None => false,
        };
        if skip {
            assert(traces_view(traces@) =~= before + Seq::<RouteTraceView>::empty());
        } else {
            proof {
                reveal_strlit("");
            }
            let vs_ns = string_or(&vs.metadata.namespace, "");
            let gws = gateways_of(vs);
            match &vs.spec.http {
                None => {
                    assert(traces_view(traces@) =~= before + Seq::<RouteTraceView>::empty());
                },
                Some(routes) => {
                    let ghost fr = route_traces_fn(*snapshot, *vs);
                    proof {
                        lemma_concat_map_empty(routes@, fr);
                        assert(traces_view(traces@) =~= before + concat_map(routes@.take(0), fr));
                    }
                    for r in 0..routes.len()
                        invariant
                            fr == route_traces_fn(*snapshot, *vs),
                            vs_ns@ == text_or(vs.metadata.namespace, Seq::empty()),
                            strings_view(gws@) == trace_gateways(*vs),
                            traces_view(traces@) == before + concat_map(routes@.take(r as int), fr),
                    {
                        let route = &routes[r];
                        let ghost mid = traces_view(traces@);
                        let uri_match = uri_match_of(route);
                        match &route.route {
                            None => {
                                assert(traces_view(traces@) =~= mid + Seq::<RouteTraceView>::empty());
                            },
                            Some(dests) => {
                                let ghost fd = dest_traces_fn(*snapshot, *vs, *route);
                                proof {
                                    lemma_concat_map_empty(dests@, fd);
                                    assert(traces_view(traces@) =~= mid + concat_map(dests@.take(0), fd));
                                }
                                for d in 0..dests.len()
                                    invariant
                                        fd == dest_traces_fn(*snapshot, *vs, *route),
                                        vs_ns@ == text_or(vs.metadata.namespace, Seq::empty()),
                                        strings_view(gws@) == trace_gateways(*vs),
                                        uri_match@ == uri_match_text(*route),
                                        traces_view(traces@) == mid + concat_map(dests@.take(d as int), fd),
                                {
                                    push_dest_traces(snapshot, vs, &vs_ns, &gws, route, &uri_match, &dests[d], &mut traces);
                                    proof {
                                        lemma_concat_map_step(dests@, d as int, fd);
                                        assert(traces_view(traces@) =~= mid + concat_map(dests@.take(d + 1), fd));
                                    }
                                }
                                proof {
                                    lemma_concat_map_all(dests@, fd);
                                }
                            },
                        }
                        proof {
                            lemma_concat_map_step(routes@, r as int, fr);
                            assert(traces_view(traces@) =~= before + concat_map(routes@.take(r + 1), fr));
                        }
                    }
                    proof {
                        lemma_concat_map_all(routes@, fr);
                    }
                },
            }
        }
        proof {
            lemma_concat_map_step(vss@, i as int, fv);
            assert(traces_view(traces@) =~= concat_map(vss@.take(i + 1), fv));
        }
    }
    proof {
        lemma_concat_map_all(vss@, fv);
    }
    traces
}

/// Builds the traffic traces of a snapshot.
pub struct TrafficGraph;

impl TrafficGraph {
    /// Traces every HTTP route destination of every virtual service in scope
    /// (see `build_traces`).
    pub fn build_traces(snapshot: &ClusterSnapshot, filter_ns: Option<&str>) -> (traces: Vec<RouteTrace>)
        ensures
            traces_view(traces@) == all_traces(*snapshot, match filter_ns {
                Some(f) => Some(f@),
                None => None,
            }),
    {
        build_traces(snapshot, filter_ns)
    }
}

} // verus!

verus! {

/// The pods a selector reaches: none for an empty selector; otherwise exactly the
/// pods of namespace `ns` that carry every label of the selector.
pub proof fn law_matching_pods_exact(pods: Seq<PodInfo>, ns: Seq<char>, sel: Map<Seq<char>, Seq<char>>)
    ensures
        sel =~= Map::empty() ==> matching_pods(pods, ns, sel).len() == 0,
        forall|k: int| 0 <= k < matching_pods(pods, ns, sel).len() ==>
            (#[trigger] matching_pods(pods, ns, sel)[k]).namespace == ns
                && selects(sel, matching_pods(pods, ns, sel)[k].labels),
        !(sel =~= Map::empty()) ==> forall|i: int|
            0 <= i < pods.len() && pods[i].namespace@ == ns && selects(sel, pods[i].labels@)
                ==> #[trigger] matching_pods(pods, ns, sel).contains(pods[i]@),
{
    let f = pod_match_fn(ns, sel);
    let m = matching_pods(pods, ns, sel);
    assert forall|k: int| 0 <= k < m.len() implies
        (#[trigger] m[k]).namespace == ns && selects(sel, m[k].labels) by {
        let (i, j) = crate::seqs::lemma_concat_map_index(pods, f, k);
        assert(f(pods[i]).len() > 0);
    }
    if !(sel =~= Map::empty()) {
        assert forall|i: int| 0 <= i < pods.len() && pods[i].namespace@ == ns && selects(sel, pods[i].labels@)
            implies #[trigger] m.contains(pods[i]@) by {
            assert(f(pods[i])[0] == pods[i]@);
            crate::seqs::lemma_concat_map_member(pods, f, i, 0);
        }
    }
}

/// Under a namespace filter, every trace belongs to a virtual service of that namespace.
pub proof fn law_traces_respect_namespace_filter(s: ClusterSnapshot, ns: Seq<char>)
    ensures
        forall|k: int| 0 <= k < all_traces(s, Some(ns)).len() ==>
            (#[trigger] all_traces(s, Some(ns))[k]).vs_namespace == ns,
{
    let vss = s.virtual_services@;
    let fv = vs_traces_fn(s, Some(ns));
    assert forall|k: int| 0 <= k < all_traces(s, Some(ns)).len() implies
        (#[trigger] all_traces(s, Some(ns))[k]).vs_namespace == ns by {
        let (a, b) = crate::seqs::lemma_concat_map_index(vss, fv, k);
        let vs = vss[a];
        assert(in_scope(vs, Some(ns)));
        let rs = vs.spec.http.unwrap();
        let fr = route_traces_fn(s, vs);
        let (c, d) = crate::seqs::lemma_concat_map_index(rs@, fr, b);
        let route = rs@[c];
        let ds = route.route.unwrap();
        let fd = dest_traces_fn(s, vs, route);
        let (e, g) = crate::seqs::lemma_concat_map_index(ds@, fd, d);
        assert(fd(ds@[e])[g] == trace_of(s, vs, route, ds@[e], trace_gateways(vs)[g]));
    }
}

/// Every pod that a trace reaches lives in the namespace of the trace's virtual
/// service, and each trace has exactly one target.
pub proof fn law_trace_pods_in_route_namespace(s: ClusterSnapshot, filter_ns: Option<Seq<char>>)
    ensures
        forall|k: int| 0 <= k < all_traces(s, filter_ns).len() ==>
            (#[trigger] all_traces(s, filter_ns)[k]).targets.len() == 1,
        forall|k: int, q: int| 0 <= k < all_traces(s, filter_ns).len()
            && 0 <= q < all_traces(s, filter_ns)[k].targets[0].matching_pods.len() ==>
            (#[trigger] all_traces(s, filter_ns)[k].targets[0].matching_pods[q]).namespace
                == all_traces(s, filter_ns)[k].vs_namespace,
{
    let vss = s.virtual_services@;
    let fv = vs_traces_fn(s, filter_ns);
    let all = all_traces(s, filter_ns);
    assert forall|k: int| 0 <= k < all.len() implies exists|vs: VirtualService, route: HttpRoute, d: HttpRouteDestination, gw: Seq<char>|
        #[trigger] all[k] == trace_of(s, vs, route, d, gw) by {
        let (a, b) = crate::seqs::lemma_concat_map_index(vss, fv, k);
        let vs = vss[a];
        let rs = vs.spec.http.unwrap();
        let fr = route_traces_fn(s, vs);
        let (c, d) = crate::seqs::lemma_concat_map_index(rs@, fr, b);
        let route = rs@[c];
        let ds = route.route.unwrap();
        let fd = dest_traces_fn(s, vs, route);
        let (e, g) = crate::seqs::lemma_concat_map_index(ds@, fd, d);
        assert(fd(ds@[e])[g] == trace_of(s, vs, route, ds@[e], trace_gateways(vs)[g]));
    }
    assert forall|k: int, q: int| 0 <= k < all.len() && 0 <= q < all[k].targets[0].matching_pods.len() implies
        (#[trigger] all[k].targets[0].matching_pods[q]).namespace == all[k].vs_namespace by {
        let (vs, route, d, gw) = choose|vs: VirtualService, route: HttpRoute, d: HttpRouteDestination, gw: Seq<char>|
            #[trigger] all[k] == trace_of(s, vs, route, d, gw);
        let ns = text_or(vs.metadata.namespace, Seq::empty());
        let t = target_of(s, ns, d);
        let host = d.destination.host@;
        let meta = meta_lookup(s.services_meta@, ns, before_char(host, '.'));
        let sel = target_selector(meta, subset_labels(governing_dr(s, host), d.destination.subset));
        law_matching_pods_exact(s.pods@, ns, sel);
        assert(t.matching_pods == matching_pods(s.pods@, ns, sel));
        assert(all[k].targets[0] == t);
    }
}

/// The trace lies in namespace `ns`.
pub open spec fn trace_in_namespace(ns: Seq<char>) -> spec_fn(RouteTraceView) -> bool {
    |t: RouteTraceView| t.vs_namespace == ns
}

/// Every trace of a virtual service lies in its namespace.
proof fn lemma_vs_traces_namespace(s: ClusterSnapshot, vs: VirtualService)
    ensures
        forall|k: int| 0 <= k < vs_traces_fn(s, None)(vs).len() ==>
            (#[trigger] vs_traces_fn(s, None)(vs)[k]).vs_namespace == text_or(vs.metadata.namespace, Seq::empty()),
{
    let t = vs_traces_fn(s, None)(vs);
    assert forall|k: int| 0 <= k < t.len() implies
        (#[trigger] t[k]).vs_namespace == text_or(vs.metadata.namespace, Seq::empty()) by {
        let rs = vs.spec.http.unwrap();
        let fr = route_traces_fn(s, vs);
        let (c, d) = crate::seqs::lemma_concat_map_index(rs@, fr, k);
        let route = rs@[c];
        let ds = route.route.unwrap();
        let fd = dest_traces_fn(s, vs, route);
        let (e, g) = crate::seqs::lemma_concat_map_index(ds@, fd, d);
        assert(fd(ds@[e])[g] == trace_of(s, vs, route, ds@[e], trace_gateways(vs)[g]));
    }
}

proof fn lemma_filtered_traces(s: ClusterSnapshot, vss: Seq<VirtualService>, ns: Seq<char>)
    requires
        forall|i: int| 0 <= i < vss.len() ==> (#[trigger] vss[i]).metadata.namespace is Some,
    ensures
        concat_map(vss, vs_traces_fn(s, Some(ns))) == concat_map(vss, vs_traces_fn(s, None)).filter(trace_in_namespace(ns)),
    decreases vss.len(),
{
    let p = trace_in_namespace(ns);
    let fs = vs_traces_fn(s, Some(ns));
    let fa = vs_traces_fn(s, None);
    if vss.len() == 0 {
        reveal(Seq::filter);
    } else {
        let t = vss.drop_last();
        assert forall|i: int| 0 <= i < t.len() implies (#[trigger] t[i]).metadata.namespace is Some by {
            assert(t[i] == vss[i]);
        }
        lemma_filtered_traces(s, t, ns);
        let vs = vss.last();
        assert(vs == vss[vss.len() - 1]);
        Seq::filter_distributes_over_add(concat_map(t, fa), fa(vs), p);
        lemma_vs_traces_namespace(s, vs);
        if in_scope(vs, Some(ns)) {
            assert(fs(vs) == fa(vs));
            assert forall|k: int| 0 <= k < fa(vs).len() implies p(#[trigger] fa(vs)[k]) by {}
            crate::seqs::lemma_filter_all(fa(vs), p);
        } else {
            assert forall|k: int| 0 <= k < fa(vs).len() implies !p(#[trigger] fa(vs)[k]) by {}
            crate::seqs::lemma_filter_none(fa(vs), p);
            assert(fs(vs) == Seq::<RouteTraceView>::empty());
            assert(concat_map(t, fs) + fs(vs) =~= concat_map(t, fs));
            assert(concat_map(t, fs) + Seq::<RouteTraceView>::empty() =~= concat_map(t, fs));
        }
    }
}

/// When every virtual service has a namespace, the traces under a namespace filter are
/// exactly the unfiltered traces of that namespace, in the same order.
pub proof fn law_filtered_traces_are_the_namespace_subsequence(s: ClusterSnapshot, ns: Seq<char>)
    requires
        forall|i: int| 0 <= i < s.virtual_services@.len() ==> (#[trigger] s.virtual_services@[i]).metadata.namespace is Some,
    ensures
        all_traces(s, Some(ns)) == all_traces(s, None).filter(trace_in_namespace(ns)),
{
    lemma_filtered_traces(s, s.virtual_services@, ns);
}

/// Destination rule `dr` covers `host`: its host is `host`, or begins with the service
/// name of `host` (the part before the first `.`).
pub open spec fn rule_covers(dr: DestinationRule, host: Seq<char>) -> bool {
    let svc = before_char(host, '.');
    dr.spec.host@ == host || (svc.len() <= dr.spec.host@.len() && dr.spec.host@.subrange(0, svc.len() as int) == svc)
}

/// Trace `k` comes from a destination `d` of a route of a virtual service, on a gateway.
proof fn lemma_trace_origin(s: ClusterSnapshot, filter_ns: Option<Seq<char>>, k: int)
    -> (o: (VirtualService, HttpRoute, HttpRouteDestination, Seq<char>))
    requires
        0 <= k < all_traces(s, filter_ns).len(),
    ensures
        all_traces(s, filter_ns)[k] == trace_of(s, o.0, o.1, o.2, o.3),
{
    let vss = s.virtual_services@;
    let fv = vs_traces_fn(s, filter_ns);
    let (a, b) = crate::seqs::lemma_concat_map_index(vss, fv, k);
    let vs = vss[a];
    let rs = vs.spec.http.unwrap();
    let fr = route_traces_fn(s, vs);
    let (c, d) = crate::seqs::lemma_concat_map_index(rs@, fr, b);
    let route = rs@[c];
    let ds = route.route.unwrap();
    let fd = dest_traces_fn(s, vs, route);
    let (e, g) = crate::seqs::lemma_concat_map_index(ds@, fd, d);
    assert(fd(ds@[e])[g] == trace_of(s, vs, route, ds@[e], trace_gateways(vs)[g]));
    (vs, route, ds@[e], trace_gateways(vs)[g])
}

/// The destination rule a trace shows is the first rule that covers the trace's
/// destination host: a rule for `name.ns.svc.cluster.local` governs a route to `name`.
pub proof fn law_trace_shows_first_covering_rule(s: ClusterSnapshot, filter_ns: Option<Seq<char>>, k: int, i: int)
    requires
        0 <= k < all_traces(s, filter_ns).len(),
        0 <= i < s.destination_rules@.len(),
        rule_covers(s.destination_rules@[i], all_traces(s, filter_ns)[k].service_host),
        forall|j: int| 0 <= j < i ==> !rule_covers(#[trigger] s.destination_rules@[j], all_traces(s, filter_ns)[k].service_host),
    ensures
        all_traces(s, filter_ns)[k].targets.len() == 1,
        all_traces(s, filter_ns)[k].targets[0].destination_rule == Some(s.destination_rules@[i].metadata.name@),
{
    let (vs, route, d, gw) = lemma_trace_origin(s, filter_ns, k);
    let host = d.destination.host@;
    let drs = s.destination_rules@;
    let p = dr_governs_fn(host, before_char(host, '.'));
    assert forall|j: int| 0 <= j < drs.len() implies #[trigger] p(drs[j]) == rule_covers(drs[j], host) by {}
    lemma_first_index_bounds(drs, p);
    assert(p(drs[i]));
    match first_index(drs, p) {
        Some(f) => {
            if f < i {
                assert(!rule_covers(drs[f], host));
            }
            assert(f == i);
        },
        None => {
            assert(!p(drs[i]));
        },
    }
}

/// A trace whose destination host no destination rule covers shows no rule.
pub proof fn law_trace_without_covering_rule(s: ClusterSnapshot, filter_ns: Option<Seq<char>>, k: int)
    requires
        0 <= k < all_traces(s, filter_ns).len(),
        forall|j: int| 0 <= j < s.destination_rules@.len() ==> !rule_covers(#[trigger] s.destination_rules@[j], all_traces(s, filter_ns)[k].service_host),
    ensures
        all_traces(s, filter_ns)[k].targets.len() == 1,
        all_traces(s, filter_ns)[k].targets[0].destination_rule is None,
{
    let (vs, route, d, gw) = lemma_trace_origin(s, filter_ns, k);
    let host = d.destination.host@;
    let drs = s.destination_rules@;
    let p = dr_governs_fn(host, before_char(host, '.'));
    assert forall|j: int| 0 <= j < drs.len() implies #[trigger] p(drs[j]) == rule_covers(drs[j], host) by {}
    lemma_first_index_bounds(drs, p);
    if let Some(f) = first_index(drs, p) {
        assert(p(drs[f]));
        assert(!rule_covers(drs[f], host));
    }
}

/// When a trace names a subset (other than the `default` it shows for a destination
/// without one) and the first rule covering its host defines that subset with labels,
/// every pod the trace reaches carries each of those labels: the subset narrows the
/// service's pods and is never ignored.
pub proof fn law_trace_pods_carry_subset_labels(
    s: ClusterSnapshot,
    filter_ns: Option<Seq<char>>,
    k: int,
    i: int,
    q: int,
)
    requires
        0 <= k < all_traces(s, filter_ns).len(),
        0 <= i < s.destination_rules@.len(),
        rule_covers(s.destination_rules@[i], all_traces(s, filter_ns)[k].service_host),
        forall|j: int| 0 <= j < i ==> !rule_covers(#[trigger] s.destination_rules@[j], all_traces(s, filter_ns)[k].service_host),
        all_traces(s, filter_ns)[k].targets[0].subset_name != "default"@,
        s.destination_rules@[i].spec.subsets is Some,
        0 <= q < s.destination_rules@[i].spec.subsets.unwrap()@.len(),
        s.destination_rules@[i].spec.subsets.unwrap()@[q].name@ == all_traces(s, filter_ns)[k].targets[0].subset_name,
        forall|r: int| 0 <= r < q ==> (#[trigger] s.destination_rules@[i].spec.subsets.unwrap()@[r]).name@
            != all_traces(s, filter_ns)[k].targets[0].subset_name,
        s.destination_rules@[i].spec.subsets.unwrap()@[q].labels is Some,
    ensures
        forall|m: int, key: Seq<char>| 0 <= m < all_traces(s, filter_ns)[k].targets[0].matching_pods.len()
            && (#[trigger] s.destination_rules@[i].spec.subsets.unwrap()@[q].labels.unwrap()@.contains_key(key))
            ==> (#[trigger] all_traces(s, filter_ns)[k].targets[0].matching_pods[m]).labels.contains_key(key)
                && all_traces(s, filter_ns)[k].targets[0].matching_pods[m].labels[key]
                    == s.destination_rules@[i].spec.subsets.unwrap()@[q].labels.unwrap()@[key],
{
    let (vs, route, d, gw) = lemma_trace_origin(s, filter_ns, k);
    law_trace_shows_first_covering_rule(s, filter_ns, k, i);
    let host = d.destination.host@;
    let drs = s.destination_rules@;
    let dr = drs[i];
    let p = dr_governs_fn(host, before_char(host, '.'));
    assert forall|j: int| 0 <= j < drs.len() implies #[trigger] p(drs[j]) == rule_covers(drs[j], host) by {}
    lemma_first_index_bounds(drs, p);
    match first_index(drs, p) {
        Some(f) => {
            if f < i {
                assert(!rule_covers(drs[f], host));
            }
            if f > i {
                assert(!p(drs[i]));
            }
            assert(f == i);
        },
        None => {
            assert(!p(drs[i]));
        },
    }
    assert(governing_dr(s, host) == Some(dr));
    let ns = text_or(vs.metadata.namespace, Seq::empty());
    let n = all_traces(s, filter_ns)[k].targets[0].subset_name;
    assert(d.destination.subset is Some) by {
        if d.destination.subset is None {
            assert(n == "default"@);
        }
    }
    let name = d.destination.subset.unwrap();
    assert(name@ == n);
    let ss = dr.spec.subsets.unwrap();
    let ps = subset_named_fn(name@);
    lemma_first_index_bounds(ss@, ps);
    match first_index(ss@, ps) {
        Some(f) => {
            if f < q {
                assert(!ps(ss@[f]));
            }
            if f > q {
                assert(!ps(ss@[q]));
            }
            assert(f == q);
        },
        None => {
            assert(!ps(ss@[q]));
        },
    }
    let l = ss@[q].labels.unwrap()@;
    assert(subset_labels(governing_dr(s, host), d.destination.subset) == Some(l));
    let meta = meta_lookup(s.services_meta@, ns, before_char(host, '.'));
    let sel = target_selector(meta, Some(l));
    law_matching_pods_exact(s.pods@, ns, sel);
    let pods = all_traces(s, filter_ns)[k].targets[0].matching_pods;
    assert(pods == matching_pods(s.pods@, ns, sel));
    assert forall|m: int, key: Seq<char>| 0 <= m < pods.len() && #[trigger] l.contains_key(key)
        implies (#[trigger] pods[m]).labels.contains_key(key) && pods[m].labels[key] == l[key] by {
        assert(sel.contains_key(key));
        assert(sel[key] == l[key]);
        assert(selects(sel, pods[m].labels));
    }
}

} // verus!

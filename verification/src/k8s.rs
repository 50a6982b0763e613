//! The cluster snapshot that the analyses read.

use vstd::prelude::*;
use crate::labels::Labels;
use crate::model::{
    DestinationRule, Gateway, ResourceKey, ServiceEntry, VirtualService, clone_strings, contains_string,
    string_or, strings_view, text_or,
};
use crate::objects::{PodRecord, ServicePortRecord, ServiceRecord};
use crate::seqs::{concat_map, lemma_concat_map_all, lemma_concat_map_empty, lemma_concat_map_step};
use crate::text::{int_decimal, int_to_decimal, lemma_text_lt_irreflexive, lemma_text_lt_total, lemma_text_lt_transitive, str_eq, text_less, text_lt};

verus! {

/// A pod as the traffic graph sees it.
#[derive(Debug, PartialEq)]
pub struct PodInfo {
    pub name: String,
    pub namespace: String,
    pub labels: Labels,
    pub is_ready: bool,
    pub phase: String,
}

/// The contents of a `PodInfo`.
pub struct PodInfoView {
    pub name: Seq<char>,
    pub namespace: Seq<char>,
    pub labels: Map<Seq<char>, Seq<char>>,
    pub is_ready: bool,
    pub phase: Seq<char>,
}

impl View for PodInfo {
    type V = PodInfoView;

    open spec fn view(&self) -> PodInfoView {
        PodInfoView {
            name: self.name@,
            namespace: self.namespace@,
            labels: self.labels@,
            is_ready: self.is_ready,
            phase: self.phase@,
        }
    }
}

impl PodInfo {
    /// An equal copy.
    pub fn duplicate(&self) -> (r: PodInfo)
        ensures
            r@ == self@,
    {
        PodInfo {
            name: self.name.clone(),
            namespace: self.namespace.clone(),
            labels: self.labels.duplicate(),
            is_ready: self.is_ready,
            phase: self.phase.clone(),
        }
    }
}

/// Selector and ports of a Kubernetes service.
#[derive(Debug, PartialEq)]
pub struct ServiceMeta {
    pub name: String,
    pub namespace: String,
    pub selector: Labels,
    /// Each port as `name:number`.
    pub ports: Vec<String>,
}

/// The contents of a `ServiceMeta`.
pub struct ServiceMetaView {
    pub name: Seq<char>,
    pub namespace: Seq<char>,
    pub selector: Map<Seq<char>, Seq<char>>,
    pub ports: Seq<Seq<char>>,
}

impl View for ServiceMeta {
    type V = ServiceMetaView;

    open spec fn view(&self) -> ServiceMetaView {
        ServiceMetaView {
            name: self.name@,
            namespace: self.namespace@,
            selector: self.selector@,
            ports: strings_view(self.ports@),
        }
    }
}

impl ServiceMeta {
    /// An equal copy.
    pub fn duplicate(&self) -> (r: ServiceMeta)
        ensures
            r@ == self@,
    {
        ServiceMeta {
            name: self.name.clone(),
            namespace: self.namespace.clone(),
            selector: self.selector.duplicate(),
            ports: crate::model::clone_strings(&self.ports),
        }
    }
}

/// Everything the mesh analyses read, taken at one moment.
#[derive(Debug, PartialEq)]
pub struct ClusterSnapshot {
    pub gateways: Vec<Gateway>,
    pub virtual_services: Vec<VirtualService>,
    pub destination_rules: Vec<DestinationRule>,
    pub service_entries: Vec<ServiceEntry>,
    /// The services that exist, each once.
    pub existing_service_keys: Vec<ResourceKey>,
    /// Hosts declared by service entries, each once.
    pub external_hosts: Vec<String>,
    /// Service metadata by key; a later entry for a key replaces an earlier one.
    pub services_meta: Vec<ServiceMeta>,
    pub pods: Vec<PodInfo>,
    /// Namespaces that hold services or service entries, sorted and distinct.
    pub namespaces: Vec<String>,
}


/// The keys of the services that have a namespace.
pub open spec fn service_keys(services: Seq<ServiceRecord>) -> Seq<(Seq<char>, Seq<char>)> {
    concat_map(services, service_key_fn())
}

pub open spec fn service_key_fn() -> spec_fn(ServiceRecord) -> Seq<(Seq<char>, Seq<char>)> {
    |s: ServiceRecord| match s.namespace {
        Some(ns) => seq![(ns@, s.name@)],
        None => Seq::empty(),
    }
}

/// `name:port` of a service port (an empty name when it has none).
pub open spec fn port_text(p: ServicePortRecord) -> Seq<char> {
    text_or(p.name, Seq::empty()) + ":"@ + int_decimal(p.port as int)
}

pub open spec fn service_meta_of(s: ServiceRecord, ns: Seq<char>) -> ServiceMetaView {
    ServiceMetaView {
        name: s.name@,
        namespace: ns,
        selector: match s.selector {
            Some(l) => l@,
            None => Map::empty(),
        },
        ports: match s.ports {
            Some(ps) => ps@.map_values(port_text_fn()),
            None => Seq::empty(),
        },
    }
}

/// The metadata of the services that have a namespace.
pub open spec fn service_metas(services: Seq<ServiceRecord>) -> Seq<ServiceMetaView> {
    concat_map(services, service_meta_fn())
}

pub open spec fn service_meta_fn() -> spec_fn(ServiceRecord) -> Seq<ServiceMetaView> {
    |s: ServiceRecord| match s.namespace {
        Some(ns) => seq![service_meta_of(s, ns@)],
        None => Seq::empty(),
    }
}

/// Hosts declared by the service entries.
pub open spec fn entry_hosts(entries: Seq<ServiceEntry>) -> Seq<Seq<char>> {
    concat_map(entries, entry_hosts_fn())
}

pub open spec fn entry_hosts_fn() -> spec_fn(ServiceEntry) -> Seq<Seq<char>> {
    |e: ServiceEntry| strings_view(e.spec.hosts@)
}

/// Every container is ready (none when the status lists no containers) and the pod runs.
pub open spec fn pod_ready(p: PodRecord) -> bool {
    let containers_ready = match p.container_statuses {
        Some(cs) => forall|i: int| 0 <= i < cs@.len() ==> (#[trigger] cs@[i]).ready,
        None => false,
    };
    containers_ready && text_or(p.phase, "Unknown"@) == "Running"@
}

pub open spec fn pod_info_of(p: PodRecord) -> PodInfoView {
    PodInfoView {
        name: p.name@,
        namespace: text_or(p.namespace, "default"@),
        labels: match p.labels {
            Some(l) => l@,
            None => Map::empty(),
        },
        is_ready: pod_ready(p),
        phase: text_or(p.phase, "Unknown"@),
    }
}

/// Namespaces of the services and service entries that have one.
pub open spec fn namespaces_of(services: Seq<ServiceRecord>, entries: Seq<ServiceEntry>) -> Seq<Seq<char>> {
    concat_map(services, service_ns_fn()) + concat_map(entries, entry_ns_fn())
}

pub open spec fn service_ns_fn() -> spec_fn(ServiceRecord) -> Seq<Seq<char>> {
    |s: ServiceRecord| match s.namespace {
        Some(ns) => seq![ns@],
        None => Seq::empty(),
    }
}

pub open spec fn entry_ns_fn() -> spec_fn(ServiceEntry) -> Seq<Seq<char>> {
    |e: ServiceEntry| match e.metadata.namespace {
        Some(ns) => seq![ns@],
        None => Seq::empty(),
    }
}

pub open spec fn port_text_fn() -> spec_fn(ServicePortRecord) -> Seq<char> {
    |p: ServicePortRecord| port_text(p)
}

/// Strictly increasing in text order.
pub open spec fn strictly_sorted(s: Seq<Seq<char>>) -> bool {
    forall|i: int, j: int| 0 <= i < j < s.len() ==> text_lt(#[trigger] s[i], #[trigger] s[j])
}

/// The contents of each pod.
pub open spec fn pods_info_view(v: Seq<PodInfo>) -> Seq<PodInfoView> {
    v.map_values(|p: PodInfo| p@)
}

pub open spec fn metas_view(v: Seq<ServiceMeta>) -> Seq<ServiceMetaView> {
    v.map_values(|m: ServiceMeta| m@)
}

pub open spec fn keys_view(v: Seq<ResourceKey>) -> Seq<(Seq<char>, Seq<char>)> {
    v.map_values(|k: ResourceKey| k@)
}

fn port_string(p: &ServicePortRecord) -> (r: String)
    ensures
        r@ == port_text(*p),
{
    proof {
        reveal_strlit("");
    }
    let mut r = string_or(&p.name, "");
    r.append(":");
    let digits = int_to_decimal(p.port as i64);
    r.append(digits.as_str());
    r
}

fn meta_for(s: &ServiceRecord, ns: &String) -> (m: ServiceMeta)
    ensures
        m@ == service_meta_of(*s, ns@),
{
    let selector = match &s.selector {
        Some(l) => l.duplicate(),
        None => Labels::new(),
    };
    let mut ports: Vec<String> = Vec::new();
    if let Some(ps) = &s.ports {
        for i in 0..ps.len()
            invariant
                ports@.len() == i,
                strings_view(ports@) == ps@.take(i as int).map_values(port_text_fn()),
        {
            let t = port_string(&ps[i]);
            let ghost prev = ports@;
            ports.push(t);
            assert(strings_view(ports@) =~= ps@.take(i + 1).map_values(port_text_fn())) by {
                let target = ps@.take(i + 1).map_values(port_text_fn());
                assert forall|j: int| 0 <= j < i + 1 implies strings_view(ports@)[j] == target[j] by {
                    if j < i {
                        assert(ports@[j] == prev[j]);
                        assert(strings_view(prev)[j] == ps@.take(i as int).map_values(port_text_fn())[j]);
                    } else {
                        assert(strings_view(ports@)[j] == t@);
                    }
                }
            }
        }
        assert(ps@.take(ps@.len() as int) =~= ps@);
    } else {
        assert(strings_view(ports@) =~= Seq::<Seq<char>>::empty());
    }
    ServiceMeta { name: s.name.clone(), namespace: ns.clone(), selector, ports }
}

fn pod_info_for(p: &PodRecord) -> (r: PodInfo)
    ensures
        r@ == pod_info_of(*p),
{
    let phase = string_or(&p.phase, "Unknown");
    let containers_ready = match &p.container_statuses {
        None => false,
        Some(cs) => {
            let mut all = true;
            for i in 0..cs.len()
                invariant
                    all == (forall|j: int| 0 <= j < i ==> (#[trigger] cs@[j]).ready),
            {
                if !cs[i].ready {
                    all = false;
                }
            }
            all
        },
    };
    let is_ready = containers_ready && str_eq(phase.as_str(), "Running");
    let labels = match &p.labels {
        Some(l) => l.duplicate(),
        None => Labels::new(),
    };
    PodInfo { name: p.name.clone(), namespace: string_or(&p.namespace, "default"), labels, is_ready, phase }
}

/// Inserts `x` into a strictly sorted list, unless it is already there.
fn insert_sorted(v: &mut Vec<String>, x: &String)
    requires
        strictly_sorted(strings_view(old(v)@)),
    ensures
        strictly_sorted(strings_view(final(v)@)),
        forall|t: Seq<char>| strings_view(final(v)@).contains(t) <==> (strings_view(old(v)@).contains(t) || t == x@),
{
    let ghost s = strings_view(v@);
    let mut k: usize = 0;
    while k < v.len() && text_less(v[k].as_str(), x.as_str())
        invariant
            s == strings_view(v@),
            strictly_sorted(s),
            k <= v@.len(),
            forall|j: int| 0 <= j < k ==> text_lt(#[trigger] s[j], x@),
        decreases v@.len() - k,
    {
        k = k + 1;
    }
    if k < v.len() && v[k] == *x {
        assert(s[k as int] == x@);
        return;
    }
    proof {
        if k < s.len() {
            assert(s[k as int] != x@);
            assert(!text_lt(s[k as int], x@));
            lemma_text_lt_total(s[k as int], x@);
            assert(text_lt(x@, s[k as int]));
            assert forall|j: int| k <= j < s.len() implies text_lt(x@, #[trigger] s[j]) by {
                if j > k {
                    lemma_text_lt_transitive(x@, s[k as int], s[j]);
                }
            }
        }
    }
    v.insert(k, x.clone());
    let ghost t = strings_view(v@);
    proof {
        assert(t =~= s.insert(k as int, x@));
        assert forall|i: int, j: int| 0 <= i < j < t.len() implies text_lt(#[trigger] t[i], #[trigger] t[j]) by {
            if j < k {
            } else if j == k {
            } else if i < k {
                assert(t[j] == s[j - 1]);
                assert(text_lt(s[i], x@));
                assert(text_lt(x@, s[j - 1]));
                lemma_text_lt_transitive(s[i], x@, s[j - 1]);
            } else if i == k {
                assert(t[j] == s[j - 1]);
            } else {
                assert(t[i] == s[i - 1] && t[j] == s[j - 1]);
            }
        }
        assert forall|u: Seq<char>| t.contains(u) <==> (s.contains(u) || u == x@) by {
            if t.contains(u) {
                let m = choose|m: int| 0 <= m < t.len() && t[m] == u;
                if m < k {
                    assert(s[m] == u);
                } else if m > k {
                    assert(s[m - 1] == u);
                }
            }
            if s.contains(u) {
                let m = choose|m: int| 0 <= m < s.len() && s[m] == u;
                if m < k {
                    assert(t[m] == u);
                } else {
                    assert(t[m + 1] == u);
                }
            }
            if u == x@ {
                assert(t[k as int] == u);
            }
        }
    }
}

/// The keys once each, in order of first occurrence (the set of the keys).
fn distinct_keys(v: Vec<ResourceKey>) -> (r: Vec<ResourceKey>)
    ensures
        keys_view(r@).no_duplicates(),
        forall|k: (Seq<char>, Seq<char>)| keys_view(r@).contains(k) <==> keys_view(v@).contains(k),
{
    let mut r: Vec<ResourceKey> = Vec::new();
    for i in 0..v.len()
        invariant
            keys_view(r@).no_duplicates(),
            forall|k: (Seq<char>, Seq<char>)| keys_view(r@).contains(k) <==> keys_view(v@.take(i as int)).contains(k),
    {
        let ghost x = v@[i as int]@;
        let mut seen = false;
        for j in 0..r.len()
            invariant
                i < v@.len(),
                x == v@[i as int]@,
                seen == (exists|m: int| 0 <= m < j && #[trigger] keys_view(r@)[m] == x),
        {
            assert(keys_view(r@)[j as int] == r@[j as int]@);
            if r[j].same_as(&v[i]) {
                seen = true;
            }
        }
        let ghost before = keys_view(r@);
        let ghost prev = keys_view(v@.take(i as int));
        let ghost next = keys_view(v@.take(i + 1));
        assert(next =~= prev.push(x));
        if !seen {
            r.push(ResourceKey::new(v[i].namespace.as_str(), v[i].name.as_str()));
            assert(keys_view(r@) =~= before.push(x));
            assert(!before.contains(x));
        } else {
            proof {
                let m = choose|m: int| 0 <= m < before.len() && #[trigger] before[m] == x;
                assert(before.contains(x));
            }
        }
        proof {
            broadcast use vstd::seq_lib::lemma_seq_contains_after_push;
            assert forall|k: (Seq<char>, Seq<char>)| keys_view(r@).contains(k) <==> next.contains(k) by {
                assert(before.contains(k) <==> prev.contains(k));
            }
        }
    }
    assert(v@.take(v@.len() as int) =~= v@);
    r
}

/// The strings once each, in order of first occurrence (the set of the strings).
fn distinct_strings(v: Vec<String>) -> (r: Vec<String>)
    ensures
        strings_view(r@).no_duplicates(),
        forall|t: Seq<char>| strings_view(r@).contains(t) <==> strings_view(v@).contains(t),
{
    let mut r: Vec<String> = Vec::new();
    for i in 0..v.len()
        invariant
            strings_view(r@).no_duplicates(),
            forall|t: Seq<char>| strings_view(r@).contains(t) <==> strings_view(v@.take(i as int)).contains(t),
    {
        let ghost x = v@[i as int]@;
        let seen = contains_string(&r, v[i].as_str());
        let ghost before = strings_view(r@);
        let ghost prev = strings_view(v@.take(i as int));
        let ghost next = strings_view(v@.take(i + 1));
        assert(next =~= prev.push(x));
        if !seen {
            let copy = v[i].clone();
            r.push(copy);
            assert(strings_view(r@) =~= before.push(x));
        }
        proof {
            broadcast use vstd::seq_lib::lemma_seq_contains_after_push;
            assert forall|t: Seq<char>| strings_view(r@).contains(t) <==> next.contains(t) by {
                assert(before.contains(t) <==> prev.contains(t));
            }
        }
    }
    assert(v@.take(v@.len() as int) =~= v@);
    r
}

/// Assembles a snapshot from the listed resources: service keys and metadata (services
/// without a namespace are left out), service-entry hosts, pod readiness and the sorted
/// set of namespaces.
pub fn build_snapshot(
    gateways: Vec<Gateway>,
    virtual_services: Vec<VirtualService>,
    destination_rules: Vec<DestinationRule>,
    service_entries: Vec<ServiceEntry>,
    services: &[ServiceRecord],
    pods: &[PodRecord],
) -> (s: ClusterSnapshot)
    ensures
        s.gateways == gateways,
        s.virtual_services == virtual_services,
        s.destination_rules == destination_rules,
        s.service_entries == service_entries,
        keys_view(s.existing_service_keys@).no_duplicates(),
        forall|k: (Seq<char>, Seq<char>)| keys_view(s.existing_service_keys@).contains(k) <==> service_keys(services@).contains(k),
        metas_view(s.services_meta@) == service_metas(services@),
        strings_view(s.external_hosts@).no_duplicates(),
        forall|t: Seq<char>| strings_view(s.external_hosts@).contains(t) <==> entry_hosts(service_entries@).contains(t),
        pods_info_view(s.pods@) == pods@.map_values(|p: PodRecord| pod_info_of(p)),
        strictly_sorted(strings_view(s.namespaces@)),
        forall|t: Seq<char>| strings_view(s.namespaces@).contains(t) <==> namespaces_of(services@, service_entries@).contains(t),
{
    let mut keys: Vec<ResourceKey> = Vec::new();
    let mut metas: Vec<ServiceMeta> = Vec::new();
    let mut found_namespaces: Vec<String> = Vec::new();
    let ghost fk = service_key_fn();
    let ghost fm = service_meta_fn();
    let ghost fn_s = service_ns_fn();
    let ghost fn_e = entry_ns_fn();
    proof {
        lemma_concat_map_empty(services@, fk);
        lemma_concat_map_empty(services@, fm);
        lemma_concat_map_empty(services@, fn_s);
        assert(keys_view(keys@) =~= Seq::<(Seq<char>, Seq<char>)>::empty());
        assert(metas_view(metas@) =~= Seq::<ServiceMetaView>::empty());
        assert(strings_view(found_namespaces@) =~= Seq::<Seq<char>>::empty());
    }
    for i in 0..services.len()
        invariant
            fk == service_key_fn(),
            fm == service_meta_fn(),
            fn_s == service_ns_fn(),
            keys_view(keys@) == concat_map(services@.take(i as int), fk),
            metas_view(metas@) == concat_map(services@.take(i as int), fm),
            strictly_sorted(strings_view(found_namespaces@)),
            forall|t: Seq<char>| strings_view(found_namespaces@).contains(t) <==> concat_map(services@.take(i as int), fn_s).contains(t),
    {
        let svc = &services[i];
        let ghost k0 = keys@;
        let ghost m0 = metas@;
        let ghost n0 = strings_view(found_namespaces@);
        let ghost c0 = concat_map(services@.take(i as int), fn_s);
        proof {
            lemma_concat_map_step(services@, i as int, fk);
            lemma_concat_map_step(services@, i as int, fm);
            lemma_concat_map_step(services@, i as int, fn_s);
        }
        if let Some(ns) = &svc.namespace {
            assert(fk(services@[i as int]) == seq![(ns@, svc.name@)]);
            assert(fm(services@[i as int]) == seq![service_meta_of(*svc, ns@)]);
            assert(fn_s(services@[i as int]) == seq![ns@]);
            let key = ResourceKey::new(ns.as_str(), svc.name.as_str());
            keys.push(key);
            let meta = meta_for(svc, ns);
            metas.push(meta);
            insert_sorted(&mut found_namespaces, ns);
            proof {
                assert(keys_view(keys@) =~= keys_view(k0).push((ns@, svc.name@)));
                assert(metas_view(metas@) =~= metas_view(m0).push(service_meta_of(*svc, ns@)));
                assert forall|t: Seq<char>| strings_view(found_namespaces@).contains(t) <==> concat_map(services@.take(i + 1), fn_s).contains(t) by {
                    let c1 = concat_map(services@.take(i + 1), fn_s);
                    assert(c1 =~= c0.push(ns@));
                    if c1.contains(t) && t != ns@ {
                        let m = choose|m: int| 0 <= m < c1.len() && c1[m] == t;
                        assert(c0[m] == t);
                    }
                    if c0.contains(t) {
                        let m = choose|m: int| 0 <= m < c0.len() && c0[m] == t;
                        assert(c1[m] == t);
                    }
                    if t == ns@ {
                        assert(c1[c0.len() as int] == t);
                    }
                }
            }
        } else {
            proof {
                assert(fk(services@[i as int]) == Seq::<(Seq<char>, Seq<char>)>::empty());
                assert(fm(services@[i as int]) == Seq::<ServiceMetaView>::empty());
                assert(fn_s(services@[i as int]) == Seq::<Seq<char>>::empty());
                assert(keys_view(keys@) =~= concat_map(services@.take(i + 1), fk));
                assert(metas_view(metas@) =~= concat_map(services@.take(i + 1), fm));
                assert(concat_map(services@.take(i + 1), fn_s) =~= c0);
            }
        }
    }
    proof {
        lemma_concat_map_all(services@, fk);
        lemma_concat_map_all(services@, fm);
        lemma_concat_map_all(services@, fn_s);
    }
    let ghost from_services = concat_map(services@, fn_s);

    // Hosts and namespaces of the service entries.
    let mut external_hosts: Vec<String> = Vec::new();
    let ghost fh = entry_hosts_fn();
    proof {
        lemma_concat_map_empty(service_entries@, fh);
        lemma_concat_map_empty(service_entries@, fn_e);
        assert(strings_view(external_hosts@) =~= Seq::<Seq<char>>::empty());
    }
    for i in 0..service_entries.len()
        invariant
            fh == entry_hosts_fn(),
            fn_e == entry_ns_fn(),
            strings_view(external_hosts@) == concat_map(service_entries@.take(i as int), fh),
            strictly_sorted(strings_view(found_namespaces@)),
            forall|t: Seq<char>| strings_view(found_namespaces@).contains(t) <==> (from_services + concat_map(service_entries@.take(i as int), fn_e)).contains(t),
    {
        let se = &service_entries[i];
        let ghost h0 = external_hosts@;
        let ghost c0 = from_services + concat_map(service_entries@.take(i as int), fn_e);
        proof {
            lemma_concat_map_step(service_entries@, i as int, fh);
            lemma_concat_map_step(service_entries@, i as int, fn_e);
        }
        let mut hosts = clone_strings(&se.spec.hosts);
        let ghost added = hosts@;
        external_hosts.append(&mut hosts);
        assert(strings_view(external_hosts@) =~= strings_view(h0) + strings_view(added));
        if let Some(ns) = &se.metadata.namespace {
            assert(fn_e(service_entries@[i as int]) == seq![ns@]);
            insert_sorted(&mut found_namespaces, ns);
            proof {
                let c1 = from_services + concat_map(service_entries@.take(i + 1), fn_e);
                assert(c1 =~= c0.push(ns@));
                assert forall|t: Seq<char>| strings_view(found_namespaces@).contains(t) <==> c1.contains(t) by {
                    if c1.contains(t) && t != ns@ {
                        let m = choose|m: int| 0 <= m < c1.len() && c1[m] == t;
                        assert(c0[m] == t);
                    }
                    if c0.contains(t) {
                        let m = choose|m: int| 0 <= m < c0.len() && c0[m] == t;
                        assert(c1[m] == t);
                    }
                    if t == ns@ {
                        assert(c1[c0.len() as int] == t);
                    }
                }
            }
        } else {
            assert(fn_e(service_entries@[i as int]) == Seq::<Seq<char>>::empty());
            assert(from_services + concat_map(service_entries@.take(i + 1), fn_e) =~= c0);
        }
    }
    proof {
        lemma_concat_map_all(service_entries@, fh);
        lemma_concat_map_all(service_entries@, fn_e);
    }

    // Pods with their readiness.
    let mut pod_infos: Vec<PodInfo> = Vec::new();
    for i in 0..pods.len()
        invariant
            pods_info_view(pod_infos@) == pods@.take(i as int).map_values(|p: PodRecord| pod_info_of(p)),
    {
        let info = pod_info_for(&pods[i]);
        let ghost prev = pod_infos@;
        pod_infos.push(info);
        assert(pods_info_view(pod_infos@) =~= pods_info_view(prev).push(info@));
        assert(pods@.take(i + 1).map_values(|p: PodRecord| pod_info_of(p)) =~= pods@.take(i as int).map_values(|p: PodRecord| pod_info_of(p)).push(pod_info_of(pods@[i as int])));
    }
    assert(pods@.take(pods@.len() as int) =~= pods@);

    ClusterSnapshot {
        gateways,
        virtual_services,
        destination_rules,
        service_entries,
        existing_service_keys: distinct_keys(keys),
        external_hosts: distinct_strings(external_hosts),
        services_meta: metas,
        pods: pod_infos,
        namespaces: found_namespaces,
    }
}

/// A pod is taken as ready exactly when its phase is `Running` and its status lists
/// containers, every one of them ready: one unready container, a missing status or
/// any other phase makes it not ready.
pub proof fn law_pod_ready_iff_running_and_all_containers_ready(p: PodRecord)
    ensures
        pod_info_of(p).is_ready <==> (p.phase is Some && p.phase.unwrap()@ == "Running"@
            && p.container_statuses is Some
            && forall|j: int| 0 <= j < p.container_statuses.unwrap()@.len()
                ==> (#[trigger] p.container_statuses.unwrap()@[j]).ready),
{
    if p.phase is None {
        assert("Unknown"@ != "Running"@) by {
            reveal_strlit("Unknown");
            reveal_strlit("Running");
            assert("Unknown"@[0] != "Running"@[0]);
        }
    }
}

} // verus!

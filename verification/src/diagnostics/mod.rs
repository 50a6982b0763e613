//! Cluster forensics: incident timelines, node capacity and admission webhook traps.

pub mod tetris;
pub mod timeline;
pub mod webhooks;

use vstd::prelude::*;
use crate::model::strings_view;
use crate::objects::{EventRecord, NodeRecord, PodRecord, Timestamp};
use crate::seqs::{concat_map, lemma_concat_map_all, lemma_concat_map_empty, lemma_concat_map_step};
use crate::text::str_eq;
use tetris::{NodeTetrisProfile, profile_of, profiles_fit, profiles_view};
use timeline::{CausalAnalysis, CausalAnalysisView, causal_analysis, is_text};
use webhooks::{WebhookAuditReport, WebhookConfiguration, audit_reports, reports_view};

verus! {

/// Everything the forensics views show.
pub struct DiagnosticsSnapshot {
    pub incidents: Vec<CausalAnalysis>,
    pub node_profiles: Vec<NodeTetrisProfile>,
    pub webhook_reports: Vec<WebhookAuditReport>,
}

pub open spec fn analyses_view(v: Seq<CausalAnalysis>) -> Seq<CausalAnalysisView> {
    v.map_values(|a: CausalAnalysis| a@)
}

pub open spec fn app_service_fn() -> spec_fn(PodRecord) -> Seq<Seq<char>> {
    |p: PodRecord|
        if is_text(p.phase, "Running"@) {
            match (p.namespace, p.labels) {
                (Some(ns), Some(l)) => if l@.contains_key("app"@) {
                    seq![ns@ + "/"@ + l@["app"@]]
                } else {
                    Seq::empty()
                },
                _ => Seq::empty(),
            }
        } else {
            Seq::empty()
        }
}

/// `namespace/app` of every running pod that has a namespace and an `app` label: the
/// services taken to have ready endpoints.
pub open spec fn running_app_services(pods: Seq<PodRecord>) -> Seq<Seq<char>> {
    concat_map(pods, app_service_fn())
}

pub open spec fn incident_fn(events: Seq<EventRecord>, now: Timestamp) -> spec_fn(PodRecord) -> Seq<CausalAnalysisView> {
    |p: PodRecord| match causal_analysis(p, events, now) {
        Some(a) => seq![a],
        None => Seq::empty(),
    }
}

/// The analyses of the pods that failed, in pod order.
pub open spec fn incidents_at(pods: Seq<PodRecord>, events: Seq<EventRecord>, now: Timestamp) -> Seq<CausalAnalysisView> {
    concat_map(pods, incident_fn(events, now))
}

/// The services with a running pod (see `running_app_services`).
pub fn active_services(pods: &[PodRecord]) -> (r: Vec<String>)
    ensures
        strings_view(r@) == running_app_services(pods@),
{
    let mut r: Vec<String> = Vec::new();
    let ghost f = app_service_fn();
    proof {
        lemma_concat_map_empty(pods@, f);
        assert(strings_view(r@) =~= Seq::<Seq<char>>::empty());
    }
    for i in 0..pods.len()
        invariant
            f == app_service_fn(),
            strings_view(r@) == concat_map(pods@.take(i as int), f),
    {
        let pod = &pods[i];
        let ghost prev = r@;
        proof {
            lemma_concat_map_step(pods@, i as int, f);
        }
        let running = match &pod.phase {
            Some(p) => str_eq(p.as_str(), "Running"),
            None => false,
        };
        let mut added = false;
        if running {
            if let Some(ns) = &pod.namespace {
                if let Some(labels) = &pod.labels {
                    if let Some(app) = labels.get("app") {
                        let mut key = ns.clone();
                        key.append("/");
                        key.append(app.as_str());
                        r.push(key);
                        added = true;
                        assert(strings_view(r@) =~= strings_view(prev).push(f(pods@[i as int])[0]));
                        assert(f(pods@[i as int]) =~= seq![f(pods@[i as int])[0]]);
                    }
                }
            }
        }
        if !added {
            assert(f(pods@[i as int]) =~= Seq::<Seq<char>>::empty());
            assert(strings_view(r@) =~= strings_view(prev));
        }
        assert(strings_view(r@) =~= concat_map(pods@.take(i + 1), f));
    }
    proof {
        lemma_concat_map_all(pods@, f);
    }
    r
}

impl DiagnosticsSnapshot {
    /// Assembles the forensics: the incidents of failed pods (events that carry no time
    /// placed at `now`), the capacity profile of each node and the webhook audit against
    /// the services of running pods.
    pub fn assemble(
        pods: &[PodRecord],
        events: &[EventRecord],
        nodes: &[NodeRecord],
        mutating: &[WebhookConfiguration],
        validating: &[WebhookConfiguration],
        now: Timestamp,
    ) -> (d: DiagnosticsSnapshot)
        requires
            profiles_fit(nodes@, pods@),
        ensures
            analyses_view(d.incidents@) == incidents_at(pods@, events@, now),
            profiles_view(d.node_profiles@) == nodes@.map_values(|n: NodeRecord| profile_of(n, pods@)),
            reports_view(d.webhook_reports@) == audit_reports(mutating@, validating@, running_app_services(pods@)),
    {
        // 1. Incidents and their timelines.
        let mut incidents: Vec<CausalAnalysis> = Vec::new();
        let ghost f = incident_fn(events@, now);
        proof {
            lemma_concat_map_empty(pods@, f);
            assert(analyses_view(incidents@) =~= Seq::<CausalAnalysisView>::empty());
        }
        for i in 0..pods.len()
            invariant
                f == incident_fn(events@, now),
                analyses_view(incidents@) == concat_map(pods@.take(i as int), f),
        {
            let ghost prev = incidents@;
            proof {
                lemma_concat_map_step(pods@, i as int, f);
            }
            match timeline::analyze_pod_at(&pods[i], events, now) {
                Some(a) => {
                    incidents.push(a);
                    assert(analyses_view(incidents@) =~= analyses_view(prev).push(a@));
                },
                None => {},
            }
            assert(analyses_view(incidents@) =~= concat_map(pods@.take(i + 1), f));
        }
        proof {
            lemma_concat_map_all(pods@, f);
        }

        // 2. Node capacity profiles.
        let node_profiles = tetris::build_profiles(nodes, pods);

        // 3. Webhooks against the services that have running pods.
        let active = active_services(pods);
        let webhook_reports = webhooks::audit(mutating, validating, &active);
        DiagnosticsSnapshot { incidents, node_profiles, webhook_reports }
    }
}

} // verus!

//! What the views derive from the data: health summary, pod readiness of a route
//! target, and the service card's texts.

use vstd::prelude::*;
use crate::analyzer::{AuditIssue, IssueSeverity, IssueView, issues_view};
use crate::graph::{SubnetTarget, pods_view};
use crate::k8s::{PodInfoView, ServiceMeta};
use crate::labels::Labels;
use crate::model::strings_view;

verus! {

/// Overall state of the mesh configuration.
#[derive(PartialEq, Eq, Clone, Copy, Debug, Structural)]
pub enum MeshHealth {
    Critical,
    Warning,
    Healthy,
}

/// State of the pods behind a route target.
#[derive(PartialEq, Eq, Clone, Copy, Debug, Structural)]
pub enum PodsHealth {
    /// No pod matches the selectors.
    DeadEnd,
    /// Some matching pods are not ready.
    Degraded,
    /// Every matching pod is ready.
    Healthy,
}

/// Number of critical issues.
pub open spec fn critical_count(s: Seq<IssueView>) -> nat
    decreases s.len(),
{
    if s.len() == 0 {
        0
    } else {
        critical_count(s.drop_last()) + if s.last().severity == IssueSeverity::Critical {
            1nat
        } else {
            0nat
        }
    }
}

proof fn lemma_critical_count_step(s: Seq<IssueView>, i: int)
    requires
        0 <= i < s.len(),
    ensures
        critical_count(s.take(i + 1)) == critical_count(s.take(i)) + if s[i].severity == IssueSeverity::Critical {
            1nat
        } else {
            0nat
        },
{
    assert(s.take(i + 1).drop_last() =~= s.take(i));
}

proof fn lemma_critical_count_bound(s: Seq<IssueView>)
    ensures
        critical_count(s) <= s.len(),
    decreases s.len(),
{
    if s.len() > 0 {
        lemma_critical_count_bound(s.drop_last());
    }
}

/// Critical when some issue is critical, warning when there are only warnings.
pub open spec fn health_of(critical: nat, warnings: nat) -> MeshHealth {
    if critical > 0 {
        MeshHealth::Critical
    } else if warnings > 0 {
        MeshHealth::Warning
    } else {
        MeshHealth::Healthy
    }
}

fn count_critical(v: &Vec<AuditIssue>) -> (n: usize)
    ensures
        n == critical_count(issues_view(v@)),
{
    let ghost s = issues_view(v@);
    let mut n: usize = 0;
    assert(s.take(0) =~= Seq::<IssueView>::empty());
    for i in 0..v.len()
        invariant
            s == issues_view(v@),
            n == critical_count(s.take(i as int)),
            n <= i,
    {
        proof {
            lemma_critical_count_step(s, i as int);
        }
        if v[i].severity == IssueSeverity::Critical {
            n = n + 1;
        }
    }
    assert(s.take(v@.len() as int) =~= s);
    n
}

/// The critical issues and the warnings among duplicates and orphans, and the mesh health.
pub fn summarize(duplicates: &Vec<AuditIssue>, orphans: &Vec<AuditIssue>) -> (r: (usize, usize, MeshHealth))
    requires
        duplicates@.len() + orphans@.len() <= usize::MAX,
    ensures
        r.0 == critical_count(issues_view(duplicates@)) + critical_count(issues_view(orphans@)),
        r.0 + r.1 == duplicates@.len() + orphans@.len(),
        r.2 == health_of(r.0 as nat, r.1 as nat),
{
    let c1 = count_critical(duplicates);
    let c2 = count_critical(orphans);
    proof {
        lemma_critical_count_bound(issues_view(duplicates@));
        lemma_critical_count_bound(issues_view(orphans@));
    }
    let crit = c1 + c2;
    let warn = duplicates.len() + orphans.len() - crit;
    let health = if crit > 0 {
        MeshHealth::Critical
    } else if warn > 0 {
        MeshHealth::Warning
    } else {
        MeshHealth::Healthy
    };
    (crit, warn, health)
}

/// Number of ready pods.
pub open spec fn ready_count(s: Seq<PodInfoView>) -> nat
    decreases s.len(),
{
    if s.len() == 0 {
        0
    } else {
        ready_count(s.drop_last()) + if s.last().is_ready {
            1nat
        } else {
            0nat
        }
    }
}

pub open spec fn pods_health_of(ready: nat, total: nat) -> PodsHealth {
    if total == 0 {
        PodsHealth::DeadEnd
    } else if ready < total {
        PodsHealth::Degraded
    } else {
        PodsHealth::Healthy
    }
}

/// Ready and total matching pods of a route target, and what that means for the route.
pub fn target_readiness(target: &SubnetTarget) -> (r: (usize, usize, PodsHealth))
    ensures
        r.0 == ready_count(pods_view(target.matching_pods@)),
        r.1 == target.matching_pods@.len(),
        r.2 == pods_health_of(r.0 as nat, r.1 as nat),
{
    let pods = &target.matching_pods;
    let ghost s = pods_view(pods@);
    let mut ready: usize = 0;
    assert(s.take(0) =~= Seq::<PodInfoView>::empty());
    for i in 0..pods.len()
        invariant
            s == pods_view(pods@),
            ready == ready_count(s.take(i as int)),
            ready <= i,
    {
        assert(s.take(i + 1).drop_last() =~= s.take(i as int));
        if pods[i].is_ready {
            ready = ready + 1;
        }
    }
    assert(s.take(pods@.len() as int) =~= s);
    let total = pods.len();
    let health = if total == 0 {
        PodsHealth::DeadEnd
    } else if ready < total {
        PodsHealth::Degraded
    } else {
        PodsHealth::Healthy
    };
    (ready, total, health)
}

/// The parts joined with `sep` between them.
pub open spec fn joined(parts: Seq<Seq<char>>, sep: Seq<char>) -> Seq<char>
    decreases parts.len(),
{
    if parts.len() == 0 {
        Seq::empty()
    } else if parts.len() == 1 {
        parts[0]
    } else {
        joined(parts.drop_last(), sep) + sep + parts.last()
    }
}

fn join_strings(parts: &Vec<String>, sep: &str) -> (r: String)
    ensures
        r@ == joined(strings_view(parts@), sep@),
{
    let ghost s = strings_view(parts@);
    let mut r = String::new();
    assert(s.take(0) =~= Seq::<Seq<char>>::empty());
    for i in 0..parts.len()
        invariant
            s == strings_view(parts@),
            r@ == joined(s.take(i as int), sep@),
    {
        assert(s.take(i + 1).drop_last() =~= s.take(i as int));
        if i > 0 {
            r.append(sep);
        } else {
            assert(s.take(1) =~= seq![s[0]]);
        }
        r.append(parts[i].as_str());
    }
    assert(s.take(parts@.len() as int) =~= s);
    r
}

/// `key=value` of each selector entry, in the selector's order.
pub open spec fn selector_parts(l: Labels) -> Seq<Seq<char>> {
    l.entry_seq().map_values(|e: (Seq<char>, Seq<char>)| e.0 + "="@ + e.1)
}

/// Ports and selector of the service card: the ports joined by `, ` (`default` when it
/// lists none), the selector as `key=value` pairs (`No selector` when empty); `Unknown`
/// and `External / No Service` when the destination is no Kubernetes service.
pub open spec fn service_card(meta: Option<ServiceMeta>) -> (Seq<char>, Seq<char>) {
    match meta {
        Some(m) => (
            if m.ports@.len() == 0 {
                "default"@
            } else {
                joined(strings_view(m.ports@), ", "@)
            },
            if m.selector.entry_seq().len() == 0 {
                "No selector"@
            } else {
                joined(selector_parts(m.selector), ", "@)
            },
        ),
        None => ("Unknown"@, "External / No Service"@),
    }
}

/// The texts of the service card of a route target (see `service_card`).
pub fn service_card_text(meta: &Option<ServiceMeta>) -> (r: (String, String))
    ensures
        (r.0@, r.1@) == service_card(*meta),
{
    match meta {
        None => (String::from_str("Unknown"), String::from_str("External / No Service")),
        Some(m) => {
            let ports = if m.ports.len() == 0 {
                String::from_str("default")
            } else {
                join_strings(&m.ports, ", ")
            };
            let n = m.selector.len();
            let selector = if n == 0 {
                String::from_str("No selector")
            } else {
                let mut parts: Vec<String> = Vec::new();
                for i in 0..n
                    invariant
                        n == m.selector.entry_seq().len(),
                        parts@.len() == i,
                        strings_view(parts@) == selector_parts(m.selector).take(i as int),
                {
                    let (k, v) = m.selector.entry(i);
                    let mut part = k.clone();
                    part.append("=");
                    part.append(v.as_str());
                    let ghost prev = parts@;
                    parts.push(part);
                    assert(strings_view(parts@) =~= selector_parts(m.selector).take(i + 1)) by {
                        assert forall|j: int| 0 <= j < i implies strings_view(parts@)[j] == strings_view(prev)[j] by {
                            assert(parts@[j] == prev[j]);
                        }
                    }
                }
                assert(selector_parts(m.selector).take(n as int) =~= selector_parts(m.selector));
                join_strings(&parts, ", ")
            };
            (ports, selector)
        },
    }
}

} // verus!

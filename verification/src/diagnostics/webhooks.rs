//! Admission webhooks that can block pod creation for the whole cluster.

use vstd::prelude::*;
use crate::model::{contains_string, string_or, strings_view, text_or};
use crate::seqs::{concat_map, lemma_concat_map_all, lemma_concat_map_empty, lemma_concat_map_step};
use crate::text::{int_decimal, int_to_decimal, str_eq};

verus! {

/// The in-cluster service a webhook calls.
#[derive(Clone, Debug, PartialEq)]
pub struct ServiceReference {
    pub namespace: String,
    pub name: String,
    pub port: Option<i32>,
}

/// Operations and resources a webhook rule intercepts.
#[derive(Clone, Debug, PartialEq)]
pub struct RuleWithOperations {
    pub operations: Option<Vec<String>>,
    pub resources: Option<Vec<String>>,
}

/// One webhook of a mutating or validating configuration.
#[derive(Clone, Debug, PartialEq)]
pub struct Webhook {
    pub name: String,
    /// `None` when the webhook is called by URL.
    pub service: Option<ServiceReference>,
    pub failure_policy: Option<String>,
    pub timeout_seconds: Option<i32>,
    pub rules: Option<Vec<RuleWithOperations>>,
}

/// A `MutatingWebhookConfiguration` or `ValidatingWebhookConfiguration`.
#[derive(Clone, Debug, PartialEq)]
pub struct WebhookConfiguration {
    pub name: String,
    pub webhooks: Option<Vec<Webhook>>,
}

#[derive(Debug, Clone, Copy, PartialEq, Eq, Structural)]
pub enum WebhookRiskLevel {
    Safe,
    Warning,
    /// When the backing service is down, pod creation in the cluster is blocked.
    ClusterBlocker,
}

/// The audit of one webhook.
#[derive(Debug, Clone, PartialEq)]
pub struct WebhookAuditReport {
    pub name: String,
    /// `Mutating` or `Validating`.
    pub hook_type: &'static str,
    /// `namespace/service-name:port`.
    pub service_ref: String,
    /// `Fail` or `Ignore`.
    pub failure_policy: String,
    pub timeout_seconds: i32,
    pub intercepts_all_pods: bool,
    pub service_has_endpoints: bool,
    pub risk_level: WebhookRiskLevel,
    pub risk_explanation: String,
}

pub struct WebhookAuditReportView {
    pub name: Seq<char>,
    pub hook_type: Seq<char>,
    pub service_ref: Seq<char>,
    pub failure_policy: Seq<char>,
    pub timeout_seconds: i32,
    pub intercepts_all_pods: bool,
    pub service_has_endpoints: bool,
    pub risk_level: WebhookRiskLevel,
    pub risk_explanation: Seq<char>,
}

impl View for WebhookAuditReport {
    type V = WebhookAuditReportView;

    open spec fn view(&self) -> WebhookAuditReportView {
        WebhookAuditReportView {
            name: self.name@,
            hook_type: self.hook_type@,
            service_ref: self.service_ref@,
            failure_policy: self.failure_policy@,
            timeout_seconds: self.timeout_seconds,
            intercepts_all_pods: self.intercepts_all_pods,
            service_has_endpoints: self.service_has_endpoints,
            risk_level: self.risk_level,
            risk_explanation: self.risk_explanation@,
        }
    }
}

pub open spec fn reports_view(v: Seq<WebhookAuditReport>) -> Seq<WebhookAuditReportView> {
    v.map_values(|r: WebhookAuditReport| r@)
}

/// `namespace/name` of the called service.
pub open spec fn service_key(s: ServiceReference) -> Seq<char> {
    s.namespace@ + "/"@ + s.name@
}

/// The shown reference (`namespace/name:port`, port 443 by default) and the key
/// looked up among active services; `External URL` and an empty key without a service.
pub open spec fn service_ref_text(svc: Option<ServiceReference>) -> (Seq<char>, Seq<char>) {
    match svc {
        Some(s) => (
            service_key(s) + ":"@ + int_decimal(match s.port {
                Some(p) => p as int,
                None => 443,
            }),
            service_key(s),
        ),
        None => ("External URL"@, Seq::empty()),
    }
}

/// A rule intercepts pod creation when it names `pods` (or `*`) and `CREATE` (or `*`).
pub open spec fn rule_hits_pod_create(r: RuleWithOperations) -> bool {
    let resources = match r.resources {
        Some(v) => strings_view(v@),
        None => Seq::empty(),
    };
    let operations = match r.operations {
        Some(v) => strings_view(v@),
        None => Seq::empty(),
    };
    (resources.contains("pods"@) || resources.contains("*"@)) && (operations.contains("CREATE"@)
        || operations.contains("*"@))
}

/// Some rule intercepts pod creation.
pub open spec fn any_rule_hits(rs: Seq<RuleWithOperations>) -> bool {
    exists|i: int| 0 <= i < rs.len() && rule_hits_pod_create(#[trigger] rs[i])
}

pub open spec fn intercepts_pod_creation(rules: Option<Vec<RuleWithOperations>>) -> bool {
    match rules {
        Some(rs) => any_rule_hits(rs@),
        None => false,
    }
}

/// Risk of a webhook: it blocks the cluster when it fails closed and its service has no
/// endpoints; it is a warning when it fails closed on all pod creations with a timeout of
/// at least 10 s.
pub open spec fn risk_of(failure_policy: Seq<char>, intercepts_all_pods: bool, has_endpoints: bool, timeout: i32) -> (WebhookRiskLevel, Seq<char>) {
    if failure_policy == "Fail"@ && !has_endpoints {
        (
            WebhookRiskLevel::ClusterBlocker,
            "CATASTROPHIC RISK: failurePolicy: Fail, но у сервиса вебхука 0 готовых подов! Создание подов в кластере парализовано."@,
        )
    } else if failure_policy == "Fail"@ && intercepts_all_pods && timeout >= 10 {
        (
            WebhookRiskLevel::Warning,
            "ВЫСОКИЙ РИСК: Перехватывает создание всех подов с таймаутом "@ + int_decimal(timeout as int)
                + "s. Падение бэкенда вебхука заблокирует деплои."@,
        )
    } else {
        (WebhookRiskLevel::Safe, "Штатный режим: рисков блокировки API не обнаружено."@)
    }
}

/// The report on one webhook of configuration `config_name`.
pub open spec fn report_of(config_name: Seq<char>, hook: Webhook, hook_type: Seq<char>, active: Seq<Seq<char>>) -> WebhookAuditReportView {
    let (svc_ref, svc_key) = service_ref_text(hook.service);
    let failure_policy = text_or(hook.failure_policy, "Fail"@);
    let timeout = match hook.timeout_seconds {
        Some(t) => t,
        None => 10i32,
    };
    let intercepts = intercepts_pod_creation(hook.rules);
    let has_endpoints = active.contains(svc_key);
    let (level, explanation) = risk_of(failure_policy, intercepts, has_endpoints, timeout);
    WebhookAuditReportView {
        name: config_name + "/"@ + hook.name@,
        hook_type: hook_type,
        service_ref: svc_ref,
        failure_policy: failure_policy,
        timeout_seconds: timeout,
        intercepts_all_pods: intercepts,
        service_has_endpoints: has_endpoints,
        risk_level: level,
        risk_explanation: explanation,
    }
}

pub open spec fn config_reports_fn(hook_type: Seq<char>, active: Seq<Seq<char>>) -> spec_fn(WebhookConfiguration) -> Seq<WebhookAuditReportView> {
    |c: WebhookConfiguration| match c.webhooks {
        Some(hs) => hs@.map_values(|h: Webhook| report_of(c.name@, h, hook_type, active)),
        None => Seq::empty(),
    }
}

/// Reports on every mutating webhook, then on every validating webhook.
pub open spec fn audit_reports(mutating: Seq<WebhookConfiguration>, validating: Seq<WebhookConfiguration>, active: Seq<Seq<char>>) -> Seq<WebhookAuditReportView> {
    concat_map(mutating, config_reports_fn("Mutating"@, active)) + concat_map(validating, config_reports_fn("Validating"@, active))
}

/// The shown service reference of a webhook and the key of its service.
pub fn extract_service_ref(svc: &Option<ServiceReference>) -> (r: (String, String))
    ensures
        (r.0@, r.1@) == service_ref_text(*svc),
{
    match svc {
        Some(s) => {
            let port: i32 = match s.port {
                Some(p) => p,
                None => 443,
            };
            let mut key = s.namespace.clone();
            key.append("/");
            key.append(s.name.as_str());
            let mut shown = key.clone();
            shown.append(":");
            let digits = int_to_decimal(port as i64);
            shown.append(digits.as_str());
            (shown, key)
        },
        None => {
            proof {
                reveal_strlit("");
            }
            (String::from_str("External URL"), String::new())
        },
    }
}

/// Classifies the risk that a webhook blocks the API.
pub fn assess_risk(failure_policy: &str, intercepts_all_pods: bool, has_endpoints: bool, timeout: i32) -> (r: (WebhookRiskLevel, String))
    ensures
        (r.0, r.1@) == risk_of(failure_policy@, intercepts_all_pods, has_endpoints, timeout),
{
    let fails_closed = str_eq(failure_policy, "Fail");
    if fails_closed && !has_endpoints {
        (
            WebhookRiskLevel::ClusterBlocker,
            String::from_str(
                "CATASTROPHIC RISK: failurePolicy: Fail, но у сервиса вебхука 0 готовых подов! Создание подов в кластере парализовано.",
            ),
        )
    } else if fails_closed && intercepts_all_pods && timeout >= 10 {
        let mut text = String::from_str("ВЫСОКИЙ РИСК: Перехватывает создание всех подов с таймаутом ");
        let digits = int_to_decimal(timeout as i64);
        text.append(digits.as_str());
        text.append("s. Падение бэкенда вебхука заблокирует деплои.");
        (WebhookRiskLevel::Warning, text)
    } else {
        (WebhookRiskLevel::Safe, String::from_str("Штатный режим: рисков блокировки API не обнаружено."))
    }
}

fn any_of(values: &Option<Vec<String>>, a: &str, b: &str) -> (r: bool)
    ensures
        r == ({
            let v = match *values {
                Some(v) => strings_view(v@),
                None => Seq::empty(),
            };
            v.contains(a@) || v.contains(b@)
        }),
{
    match values {
        Some(v) => contains_string(v, a) || contains_string(v, b),
        None => false,
    }
}

fn intercepts_all(rules: &Option<Vec<RuleWithOperations>>) -> (r: bool)
    ensures
        r == intercepts_pod_creation(*rules),
{
    match rules {
        None => false,
        Some(rs) => {
            for i in 0..rs.len()
                invariant
                    *rules == Some(*rs),
                    forall|j: int| 0 <= j < i ==> !rule_hits_pod_create(#[trigger] rs@[j]),
            {
                let rule = &rs[i];
                if any_of(&rule.resources, "pods", "*") && any_of(&rule.operations, "CREATE", "*") {
                    assert(rule_hits_pod_create(rs@[i as int]));
                    assert(0 <= i < rs@.len());
                    assert(*rules == Some(*rs));
                    assert(any_rule_hits(rs@));
                    return true;
                }
            }
            false
        },
    }
}

fn audit_hook(config_name: &String, hook: &Webhook, hook_type: &'static str, active: &Vec<String>) -> (r: WebhookAuditReport)
    ensures
        r@ == report_of(config_name@, *hook, hook_type@, strings_view(active@)),
{
    let (svc_ref, svc_key) = extract_service_ref(&hook.service);
    let failure_policy = string_or(&hook.failure_policy, "Fail");
    let timeout: i32 = match hook.timeout_seconds {
        Some(t) => t,
        None => 10,
    };
    let intercepts = intercepts_all(&hook.rules);
    let has_endpoints = contains_string(active, svc_key.as_str());
    let (risk_level, risk_explanation) = assess_risk(failure_policy.as_str(), intercepts, has_endpoints, timeout);
    let mut name = config_name.clone();
    name.append("/");
    name.append(hook.name.as_str());
    WebhookAuditReport {
        name,
        hook_type,
        service_ref: svc_ref,
        failure_policy,
        timeout_seconds: timeout,
        intercepts_all_pods: intercepts,
        service_has_endpoints: has_endpoints,
        risk_level,
        risk_explanation,
    }
}

fn audit_configs(configs: &[WebhookConfiguration], hook_type: &'static str, active: &Vec<String>, reports: &mut Vec<WebhookAuditReport>)
    ensures
        reports_view(final(reports)@) == reports_view(old(reports)@) + concat_map(configs@, config_reports_fn(hook_type@, strings_view(active@))),
{
    let ghost start = reports_view(reports@);
    let ghost fc = config_reports_fn(hook_type@, strings_view(active@));
    proof {
        lemma_concat_map_empty(configs@, fc);
        assert(reports_view(reports@) =~= start + concat_map(configs@.take(0), fc));
    }
    for i in 0..configs.len()
        invariant
            fc == config_reports_fn(hook_type@, strings_view(active@)),
            reports_view(reports@) == start + concat_map(configs@.take(i as int), fc),
    {
        let config = &configs[i];
        let ghost mid = reports_view(reports@);
        match &config.webhooks {
            None => {
                assert(reports_view(reports@) =~= mid + Seq::<WebhookAuditReportView>::empty());
            },
            Some(hooks) => {
                let ghost fh = |h: Webhook| report_of(config.name@, h, hook_type@, strings_view(active@));
                assert(reports_view(reports@) =~= mid + hooks@.take(0).map_values(fh));
                for h in 0..hooks.len()
                    invariant
                        fh == (|h: Webhook| report_of(config.name@, h, hook_type@, strings_view(active@))),
                        reports_view(reports@) == mid + hooks@.take(h as int).map_values(fh),
                {
                    let report = audit_hook(&config.name, &hooks[h], hook_type, active);
                    let ghost prev = reports@;
                    reports.push(report);
                    assert(reports_view(reports@) =~= reports_view(prev).push(report@));
                    assert(hooks@.take(h + 1).map_values(fh) =~= hooks@.take(h as int).map_values(fh).push(fh(hooks@[h as int])));
                }
                assert(hooks@.take(hooks@.len() as int) =~= hooks@);
            },
        }
        proof {
            lemma_concat_map_step(configs@, i as int, fc);
            assert(reports_view(reports@) =~= start + concat_map(configs@.take(i + 1), fc));
        }
    }
    proof {
        lemma_concat_map_all(configs@, fc);
    }
}

/// Audits every webhook of the mutating configurations, then of the validating ones.
pub fn audit(mutating: &[WebhookConfiguration], validating: &[WebhookConfiguration], active_service_endpoints: &Vec<String>) -> (reports: Vec<WebhookAuditReport>)
    ensures
        reports_view(reports@) == audit_reports(mutating@, validating@, strings_view(active_service_endpoints@)),
{
    let mut reports: Vec<WebhookAuditReport> = Vec::new();
    assert(reports_view(reports@) =~= Seq::<WebhookAuditReportView>::empty());
    audit_configs(mutating, "Mutating", active_service_endpoints, &mut reports);
    audit_configs(validating, "Validating", active_service_endpoints, &mut reports);
    reports
}

/// Audits admission webhooks.
pub struct WebhookAuditor;

impl WebhookAuditor {
    /// See `audit`.
    pub fn audit(mutating: &[WebhookConfiguration], validating: &[WebhookConfiguration], active_service_endpoints: &Vec<String>) -> (reports: Vec<WebhookAuditReport>)
        ensures
            reports_view(reports@) == audit_reports(mutating@, validating@, strings_view(active_service_endpoints@)),
    {
        audit(mutating, validating, active_service_endpoints)
    }
}

} // verus!

verus! {

/// A webhook blocks the cluster exactly when it fails closed and its service has no
/// endpoints; one that does not fail closed is always safe.
pub proof fn law_cluster_blocker_iff_fail_closed_without_endpoints(
    failure_policy: Seq<char>,
    intercepts_all_pods: bool,
    has_endpoints: bool,
    timeout: i32,
)
    ensures
        risk_of(failure_policy, intercepts_all_pods, has_endpoints, timeout).0 == WebhookRiskLevel::ClusterBlocker
            <==> (failure_policy == "Fail"@ && !has_endpoints),
        failure_policy != "Fail"@ ==> risk_of(failure_policy, intercepts_all_pods, has_endpoints, timeout).0
            == WebhookRiskLevel::Safe,
{
}

/// Every report marks its webhook a cluster blocker exactly when the webhook fails
/// closed (`Fail`, also when no policy is set) and its service has no endpoints.
pub proof fn law_reports_blocker_iff_fail_closed_without_endpoints(
    mutating: Seq<WebhookConfiguration>,
    validating: Seq<WebhookConfiguration>,
    active: Seq<Seq<char>>,
)
    ensures
        forall|k: int| 0 <= k < audit_reports(mutating, validating, active).len() ==> {
            let r = #[trigger] audit_reports(mutating, validating, active)[k];
            (r.risk_level == WebhookRiskLevel::ClusterBlocker) <==> (r.failure_policy == "Fail"@
                && !r.service_has_endpoints)
        },
{
    let all = audit_reports(mutating, validating, active);
    let fm = config_reports_fn("Mutating"@, active);
    let fv = config_reports_fn("Validating"@, active);
    let m = concat_map(mutating, fm);
    assert forall|k: int| 0 <= k < all.len() implies {
        let r = #[trigger] all[k];
        (r.risk_level == WebhookRiskLevel::ClusterBlocker) <==> (r.failure_policy == "Fail"@
            && !r.service_has_endpoints)
    } by {
        if k < m.len() {
            let (i, j) = crate::seqs::lemma_concat_map_index(mutating, fm, k);
            assert(all[k] == m[k]);
            let hs = mutating[i].webhooks.unwrap();
            assert(fm(mutating[i])[j] == report_of(mutating[i].name@, hs@[j], "Mutating"@, active));
        } else {
            let (i, j) = crate::seqs::lemma_concat_map_index(validating, fv, k - m.len());
            let hs = validating[i].webhooks.unwrap();
            assert(fv(validating[i])[j] == report_of(validating[i].name@, hs@[j], "Validating"@, active));
        }
    }
}

/// The list names `a` or `b`.
pub open spec fn names_either(v: Option<Vec<String>>, a: Seq<char>, b: Seq<char>) -> bool {
    match v {
        Some(l) => exists|x: int| 0 <= x < l@.len() && (#[trigger] l@[x]@ == a || l@[x]@ == b),
        None => false,
    }
}

/// Some rule of the webhook, at any position of its list, names `pods` (or `*`) and
/// `CREATE` (or `*`).
pub open spec fn hook_creates_pods(hook: Webhook) -> bool {
    match hook.rules {
        Some(rs) => exists|r: int| 0 <= r < rs@.len() && names_either(#[trigger] rs@[r].resources, "pods"@, "*"@)
            && names_either(rs@[r].operations, "CREATE"@, "*"@),
        None => false,
    }
}

/// The webhook's failure policy; `Fail` when none is set.
pub open spec fn policy_or_fail(hook: Webhook) -> Seq<char> {
    match hook.failure_policy {
        Some(p) => p@,
        None => "Fail"@,
    }
}

/// The webhook's timeout; 10 seconds when none is set.
pub open spec fn timeout_or_ten(hook: Webhook) -> i32 {
    match hook.timeout_seconds {
        Some(t) => t,
        None => 10,
    }
}

/// `namespace/name` of the service the webhook calls; empty for a webhook called by URL.
pub open spec fn called_service(hook: Webhook) -> Seq<char> {
    match hook.service {
        Some(sv) => sv.namespace@ + "/"@ + sv.name@,
        None => Seq::empty(),
    }
}

/// What a report says of its webhook's risk: policy, timeout and endpoints as the
/// webhook sets them; a cluster blocker when it fails closed and its service has no
/// endpoints; a warning when it fails closed, its service has endpoints, it intercepts
/// pod creation and its timeout is at least 10 s; safe otherwise.
pub open spec fn report_states_risk(r: WebhookAuditReportView, hook: Webhook, active: Seq<Seq<char>>) -> bool {
    let fails_closed = policy_or_fail(hook) == "Fail"@;
    let up = active.contains(called_service(hook));
    &&& r.failure_policy == policy_or_fail(hook)
    &&& r.timeout_seconds == timeout_or_ten(hook)
    &&& r.service_has_endpoints == up
    &&& (r.risk_level == WebhookRiskLevel::ClusterBlocker) <==> (fails_closed && !up)
    &&& (r.risk_level == WebhookRiskLevel::Warning) <==> (fails_closed && up && hook_creates_pods(hook)
        && timeout_or_ten(hook) >= 10)
}

proof fn lemma_report_intercepts(config_name: Seq<char>, hook: Webhook, hook_type: Seq<char>, active: Seq<Seq<char>>)
    ensures
        report_of(config_name, hook, hook_type, active).intercepts_all_pods == hook_creates_pods(hook),
        report_of(config_name, hook, hook_type, active).name == config_name + "/"@ + hook.name@,
        report_of(config_name, hook, hook_type, active).hook_type == hook_type,
        report_states_risk(report_of(config_name, hook, hook_type, active), hook, active),
{
    assert forall|v: Option<Vec<String>>, a: Seq<char>, b: Seq<char>|
        #![trigger names_either(v, a, b)]
        names_either(v, a, b) == (match v {
            Some(l) => strings_view(l@).contains(a) || strings_view(l@).contains(b),
            None => Seq::<Seq<char>>::empty().contains(a) || Seq::<Seq<char>>::empty().contains(b),
        }) by {
        if let Some(l) = v {
            let sv = strings_view(l@);
            if names_either(v, a, b) {
                let x = choose|x: int| 0 <= x < l@.len() && (#[trigger] l@[x]@ == a || l@[x]@ == b);
                assert(sv[x] == l@[x]@);
            }
            if sv.contains(a) {
                let x = choose|x: int| 0 <= x < sv.len() && sv[x] == a;
                assert(l@[x]@ == a);
            }
            if sv.contains(b) {
                let x = choose|x: int| 0 <= x < sv.len() && sv[x] == b;
                assert(l@[x]@ == b);
            }
        }
    }
    if let Some(rs) = hook.rules {
        assert forall|r: int| 0 <= r < rs@.len() implies rule_hits_pod_create(#[trigger] rs@[r]) == (
            names_either(rs@[r].resources, "pods"@, "*"@) && names_either(rs@[r].operations, "CREATE"@, "*"@)) by {
            assert(names_either(rs@[r].resources, "pods"@, "*"@) == (match rs@[r].resources {
                Some(l) => strings_view(l@).contains("pods"@) || strings_view(l@).contains("*"@),
                None => Seq::<Seq<char>>::empty().contains("pods"@) || Seq::<Seq<char>>::empty().contains("*"@),
            }));
            assert(names_either(rs@[r].operations, "CREATE"@, "*"@) == (match rs@[r].operations {
                Some(l) => strings_view(l@).contains("CREATE"@) || strings_view(l@).contains("*"@),
                None => Seq::<Seq<char>>::empty().contains("CREATE"@) || Seq::<Seq<char>>::empty().contains("*"@),
            }));
        }
    }
}

/// Every webhook of a mutating configuration gets a report, named
/// `configuration/webhook`, that marks it as intercepting pod creation exactly when
/// some rule of it, at any position, names pods (or `*`) and `CREATE` (or `*`), and
/// that states its risk as `report_states_risk` says.
pub proof fn law_mutating_hook_report(
    mutating: Seq<WebhookConfiguration>,
    validating: Seq<WebhookConfiguration>,
    active: Seq<Seq<char>>,
    c: int,
    h: int,
)
    requires
        0 <= c < mutating.len(),
        mutating[c].webhooks is Some,
        0 <= h < mutating[c].webhooks.unwrap()@.len(),
    ensures
        exists|k: int| 0 <= k < audit_reports(mutating, validating, active).len() && {
            let r = #[trigger] audit_reports(mutating, validating, active)[k];
            let hook = mutating[c].webhooks.unwrap()@[h];
            &&& r.name == mutating[c].name@ + "/"@ + hook.name@
            &&& r.hook_type == "Mutating"@
            &&& r.intercepts_all_pods == hook_creates_pods(hook)
            &&& report_states_risk(r, hook, active)
        },
{
    let f = config_reports_fn("Mutating"@, active);
    let hook = mutating[c].webhooks.unwrap()@[h];
    let rep = report_of(mutating[c].name@, hook, "Mutating"@, active);
    lemma_report_intercepts(mutating[c].name@, hook, "Mutating"@, active);
    assert(f(mutating[c])[h] == rep);
    crate::seqs::lemma_concat_map_member(mutating, f, c, h);
    let m = concat_map(mutating, f);
    let k = choose|k: int| 0 <= k < m.len() && m[k] == rep;
    let all = audit_reports(mutating, validating, active);
    assert(all[k] == rep);
}

/// The same for every webhook of a validating configuration.
pub proof fn law_validating_hook_report(
    mutating: Seq<WebhookConfiguration>,
    validating: Seq<WebhookConfiguration>,
    active: Seq<Seq<char>>,
    c: int,
    h: int,
)
    requires
        0 <= c < validating.len(),
        validating[c].webhooks is Some,
        0 <= h < validating[c].webhooks.unwrap()@.len(),
    ensures
        exists|k: int| 0 <= k < audit_reports(mutating, validating, active).len() && {
            let r = #[trigger] audit_reports(mutating, validating, active)[k];
            let hook = validating[c].webhooks.unwrap()@[h];
            &&& r.name == validating[c].name@ + "/"@ + hook.name@
            &&& r.hook_type == "Validating"@
            &&& r.intercepts_all_pods == hook_creates_pods(hook)
            &&& report_states_risk(r, hook, active)
        },
{
    let f = config_reports_fn("Validating"@, active);
    let hook = validating[c].webhooks.unwrap()@[h];
    let rep = report_of(validating[c].name@, hook, "Validating"@, active);
    lemma_report_intercepts(validating[c].name@, hook, "Validating"@, active);
    assert(f(validating[c])[h] == rep);
    crate::seqs::lemma_concat_map_member(validating, f, c, h);
    let v = concat_map(validating, f);
    let k = choose|k: int| 0 <= k < v.len() && v[k] == rep;
    let m = concat_map(mutating, config_reports_fn("Mutating"@, active));
    let all = audit_reports(mutating, validating, active);
    assert(all[m.len() + k] == rep);
}

} // verus!

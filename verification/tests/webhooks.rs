use istio_lens::diagnostics::webhooks::{
    assess_risk, audit, extract_service_ref, RuleWithOperations, ServiceReference, Webhook, WebhookAuditor,
    WebhookConfiguration, WebhookRiskLevel,
};

const BLOCKER: &str = "CATASTROPHIC RISK: failurePolicy: Fail, но у сервиса вебхука 0 готовых подов! Создание подов в кластере парализовано.";
const SAFE: &str = "Штатный режим: рисков блокировки API не обнаружено.";

fn strings(v: &[&str]) -> Vec<String> {
    v.iter().map(|s| s.to_string()).collect()
}

fn rule(ops: &[&str], res: &[&str]) -> RuleWithOperations {
    RuleWithOperations { operations: Some(strings(ops)), resources: Some(strings(res)) }
}

fn hook(name: &str, svc: Option<(&str, &str, Option<i32>)>, policy: Option<&str>, timeout: Option<i32>, rules: Option<Vec<RuleWithOperations>>) -> Webhook {
    Webhook {
        name: name.to_string(),
        service: svc.map(|(ns, n, port)| ServiceReference { namespace: ns.to_string(), name: n.to_string(), port }),
        failure_policy: policy.map(|p| p.to_string()),
        timeout_seconds: timeout,
        rules,
    }
}

#[test]
fn service_reference_text_and_key() {
    let with_default_port = Some(ServiceReference { namespace: "istio-system".to_string(), name: "istiod".to_string(), port: None });
    assert_eq!(
        extract_service_ref(&with_default_port),
        ("istio-system/istiod:443".to_string(), "istio-system/istiod".to_string())
    );
    let with_port = Some(ServiceReference { namespace: "gk".to_string(), name: "hook".to_string(), port: Some(8443) });
    assert_eq!(extract_service_ref(&with_port), ("gk/hook:8443".to_string(), "gk/hook".to_string()));
    assert_eq!(extract_service_ref(&None), ("External URL".to_string(), String::new()));
}

#[test]
fn fail_closed_without_endpoints_blocks_the_cluster() {
    assert_eq!(assess_risk("Fail", false, false, 1), (WebhookRiskLevel::ClusterBlocker, BLOCKER.to_string()));
    assert_eq!(assess_risk("Fail", true, false, 30), (WebhookRiskLevel::ClusterBlocker, BLOCKER.to_string()));
}

#[test]
fn fail_closed_on_all_pods_with_long_timeout_is_a_warning() {
    assert_eq!(
        assess_risk("Fail", true, true, 10),
        (
            WebhookRiskLevel::Warning,
            "ВЫСОКИЙ РИСК: Перехватывает создание всех подов с таймаутом 10s. Падение бэкенда вебхука заблокирует деплои.".to_string()
        )
    );
    assert_eq!(
        assess_risk("Fail", true, true, 30).1,
        "ВЫСОКИЙ РИСК: Перехватывает создание всех подов с таймаутом 30s. Падение бэкенда вебхука заблокирует деплои."
    );
}

#[test]
fn other_webhooks_are_safe() {
    assert_eq!(assess_risk("Fail", true, true, 9), (WebhookRiskLevel::Safe, SAFE.to_string()));
    assert_eq!(assess_risk("Fail", false, true, 30), (WebhookRiskLevel::Safe, SAFE.to_string()));
    assert_eq!(assess_risk("Ignore", true, false, 30), (WebhookRiskLevel::Safe, SAFE.to_string()));
    assert_eq!(assess_risk("fail", true, false, 30).0, WebhookRiskLevel::Safe);
}

#[test]
fn audit_reports_each_webhook_of_each_configuration() {
    let mutating = vec![
        WebhookConfiguration {
            name: "istio-sidecar-injector".to_string(),
            webhooks: Some(vec![
                hook("inject.istio.io", Some(("istio-system", "istiod", None)), None, None, Some(vec![rule(&["CREATE"], &["pods"])])),
                hook("url.hook", None, Some("Ignore"), Some(5), None),
            ]),
        },
        WebhookConfiguration { name: "empty".to_string(), webhooks: None },
    ];
    let validating = vec![WebhookConfiguration {
        name: "gatekeeper".to_string(),
        webhooks: Some(vec![hook(
            "check.gk",
            Some(("gk", "gatekeeper", Some(8443))),
            Some("Fail"),
            Some(3),
            Some(vec![rule(&["UPDATE"], &["pods"]), rule(&["*"], &["*"])]),
        )]),
    }];
    let active = strings(&["istio-system/istiod"]);
    let reports = audit(&mutating, &validating, &active);
    assert_eq!(reports.len(), 3);

    let r = &reports[0];
    assert_eq!(r.name, "istio-sidecar-injector/inject.istio.io");
    assert_eq!(r.hook_type, "Mutating");
    assert_eq!(r.service_ref, "istio-system/istiod:443");
    assert_eq!(r.failure_policy, "Fail");
    assert_eq!(r.timeout_seconds, 10);
    assert!(r.intercepts_all_pods);
    assert!(r.service_has_endpoints);
    assert_eq!(r.risk_level, WebhookRiskLevel::Warning);

    let r = &reports[1];
    assert_eq!(r.name, "istio-sidecar-injector/url.hook");
    assert_eq!(r.service_ref, "External URL");
    assert_eq!(r.failure_policy, "Ignore");
    assert_eq!(r.timeout_seconds, 5);
    assert!(!r.intercepts_all_pods);
    assert!(!r.service_has_endpoints);
    assert_eq!(r.risk_level, WebhookRiskLevel::Safe);
    assert_eq!(r.risk_explanation, SAFE);

    let r = &reports[2];
    assert_eq!(r.name, "gatekeeper/check.gk");
    assert_eq!(r.hook_type, "Validating");
    assert_eq!(r.service_ref, "gk/gatekeeper:8443");
    assert!(r.intercepts_all_pods);
    assert!(!r.service_has_endpoints);
    assert_eq!(r.risk_level, WebhookRiskLevel::ClusterBlocker);
    assert_eq!(r.risk_explanation, BLOCKER);
}

#[test]
fn rules_without_pods_or_create_do_not_intercept() {
    let cfg = vec![WebhookConfiguration {
        name: "c".to_string(),
        webhooks: Some(vec![
            hook("a", None, None, None, Some(vec![rule(&["CREATE"], &["deployments"])])),
            hook("b", None, None, None, Some(vec![RuleWithOperations { operations: None, resources: Some(strings(&["pods"])) }])),
            hook("c", None, None, None, Some(vec![])),
        ]),
    }];
    let reports = audit(&[], &cfg, &Vec::new());
    assert!(reports.iter().all(|r| !r.intercepts_all_pods));
    assert!(reports.iter().all(|r| r.risk_level == WebhookRiskLevel::ClusterBlocker));
}

#[test]
fn auditor_matches_audit() {
    let cfg = vec![WebhookConfiguration {
        name: "c".to_string(),
        webhooks: Some(vec![hook("a", Some(("ns", "svc", None)), None, None, None)]),
    }];
    let active = strings(&["ns/svc"]);
    assert_eq!(WebhookAuditor::audit(&cfg, &[], &active), audit(&cfg, &[], &active));
}

use lm_gateway::config::{BackendConfig, Config, GatewayConfig, ProfileConfig, Provider, RoutingMode, TierConfig};
use lm_gateway::router::{
    failed_entry, finish_entry, first_choice_content, is_sufficient, model_hint, plan_route, rewrite_body,
    served_entry, sufficient_content, tier_backend, EscalateStep, Escalation,
};
use lm_gateway::traffic::{BackendHealth, TrafficLog};
use lm_gateway::{ErrorKind, Json};

fn rs(x: &str) -> Json {
    Json::Str(x.to_string())
}

fn ro(pairs: Vec<(&str, Json)>) -> Json {
    Json::Object(pairs.into_iter().map(|(k, v)| (k.to_string(), v)).collect())
}

fn response_with_content(content: &str) -> Json {
    ro(vec![("choices", Json::Array(vec![ro(vec![("message", ro(vec![("content", rs(content))]))])]))])
}

fn mock_config(mode: RoutingMode) -> Config {
    Config {
        gateway: GatewayConfig::default(),
        backends: vec![(
            "mock".to_string(),
            BackendConfig {
                base_url: "http://127.0.0.1:9".to_string(),
                api_key_env: None,
                timeout_ms: 5_000,
                provider: Provider::OpenAI,
            },
        )],
        tiers: vec![
            TierConfig { name: "local:fast".into(), backend: "mock".into(), model: "fast-model".into() },
            TierConfig { name: "cloud:economy".into(), backend: "mock".into(), model: "economy-model".into() },
        ],
        aliases: vec![("hint:fast".to_string(), "local:fast".to_string())],
        profiles: vec![(
            "default".to_string(),
            ProfileConfig {
                mode,
                classifier: "local:fast".into(),
                max_auto_tier: "cloud:economy".into(),
                expert_requires_flag: false,
            },
        )],
        clients: vec![],
    }
}

#[test]
fn sufficient_for_normal_response() {
    let r = response_with_content("Here is a detailed explanation of how Rust lifetimes work.");
    assert!(is_sufficient(&r));
}

#[test]
fn insufficient_when_content_is_very_short() {
    assert!(!is_sufficient(&response_with_content("Sure.")));
    assert!(!is_sufficient(&response_with_content("")));
}

#[test]
fn insufficient_when_model_refuses() {
    let refusals = [
        "I cannot help with that request.",
        "As an AI, I must decline to answer.",
        "I don't know the answer to your question.",
        "I'm not able to provide that information.",
        "I don't have enough information to respond accurately.",
    ];
    for phrase in refusals {
        assert!(!is_sufficient(&response_with_content(phrase)), "expected refusal to be insufficient: {phrase}");
    }
}

#[test]
fn refusal_detection_is_case_insensitive() {
    let r = response_with_content("AS AN AI language model, I cannot do that at all.");
    assert!(!is_sufficient(&r));
}

#[test]
fn insufficient_when_choices_array_is_missing() {
    assert!(!is_sufficient(&ro(vec![])));
    assert!(!is_sufficient(&ro(vec![("choices", Json::Array(vec![]))])));
}

#[test]
fn sufficiency_counts_characters_not_bytes() {
    assert!(!sufficient_content("ééééééééééééééééééé", "ééééééééééééééééééé"));
    assert!(sufficient_content("éééééééééééééééééééé", "éééééééééééééééééééé"));
    assert!(!sufficient_content("Well, i cannot say.......", "well, i cannot say......."));
}

#[test]
fn sufficiency_is_the_same_on_every_call() {
    let r = response_with_content("A full enough answer for the heuristic test harness.");
    let first = is_sufficient(&r);
    let second = is_sufficient(&r);
    assert_eq!(first, second);
    assert!(first);
    assert_eq!(
        first_choice_content(&r),
        Some("A full enough answer for the heuristic test harness.")
    );
}

#[test]
fn plan_resolves_alias_and_default_profile() {
    let config = mock_config(RoutingMode::Dispatch);
    let body = ro(vec![("model", rs("hint:fast")), ("messages", Json::Array(vec![]))]);
    let plan = plan_route(&config, &body, None).unwrap();
    assert_eq!(plan.profile_name, "default");
    assert_eq!(plan.model_hint, "hint:fast");
    assert_eq!(plan.tier.name, "local:fast");
    assert_eq!(plan.profile.mode, RoutingMode::Dispatch);
}

#[test]
fn dispatch_resolves_direct_tier_name_without_alias() {
    let config = mock_config(RoutingMode::Dispatch);
    let body = ro(vec![("model", rs("cloud:economy")), ("messages", Json::Array(vec![]))]);
    let plan = plan_route(&config, &body, None).unwrap();
    assert_eq!(plan.tier.name, "cloud:economy");
}

#[test]
fn dispatch_falls_back_to_classifier_tier_on_unknown_model() {
    let config = mock_config(RoutingMode::Dispatch);
    let body = ro(vec![("model", rs("totally:unknown")), ("messages", Json::Array(vec![]))]);
    let plan = plan_route(&config, &body, None).unwrap();
    assert_eq!(plan.tier.name, "local:fast");
}

#[test]
fn missing_model_uses_fast_hint() {
    let config = mock_config(RoutingMode::Dispatch);
    assert_eq!(model_hint(&ro(vec![])), "hint:fast");
    let plan = plan_route(&config, &ro(vec![("model", Json::Null)]), Some("nonexistent")).unwrap();
    assert_eq!(plan.model_hint, "hint:fast");
    assert_eq!(plan.tier.name, "local:fast");
    assert_eq!(plan.profile_name, "nonexistent");
}

#[test]
fn route_errors_when_no_profile_is_configured() {
    let mut config = mock_config(RoutingMode::Dispatch);
    config.profiles.clear();
    let err = plan_route(&config, &ro(vec![]), None).unwrap_err();
    assert_eq!(err.kind, ErrorKind::Configuration);
    assert!(err.message.contains("no matching profile"));
}

#[test]
fn missing_classifier_tier_is_a_configuration_error() {
    let mut config = mock_config(RoutingMode::Dispatch);
    config.profiles[0].1.classifier = "gone".into();
    let err = plan_route(&config, &ro(vec![("model", rs("nope"))]), None).unwrap_err();
    assert_eq!(err.kind, ErrorKind::Configuration);
    assert_eq!(err.message, "classifier tier not found");
}

#[test]
fn unknown_backend_is_a_configuration_error() {
    let config = mock_config(RoutingMode::Dispatch);
    let tier = TierConfig { name: "x".into(), backend: "nowhere".into(), model: "m".into() };
    let err = tier_backend(&config, &tier).unwrap_err();
    assert_eq!(err.kind, ErrorKind::Configuration);
    assert_eq!(err.message, "backend `nowhere` not in config");
    assert_eq!(tier_backend(&config, &config.tiers[0]).unwrap().timeout_ms, 5_000);
}

#[test]
fn rewrite_sets_model_and_stream() {
    let mut body = ro(vec![("model", rs("hint:fast")), ("messages", Json::Array(vec![]))]);
    rewrite_body(&mut body, "fast-model", false);
    assert_eq!(body.get("model").and_then(|v| v.as_str()), Some("fast-model"));
    assert!(matches!(body.get("stream"), Some(Json::Bool(false))));
    assert!(matches!(body.get("messages"), Some(Json::Array(_))));
    rewrite_body(&mut body, "other", true);
    assert!(matches!(body.get("stream"), Some(Json::Bool(true))));
    let mut not_object = rs("text");
    rewrite_body(&mut not_object, "m", true);
    assert_eq!(not_object.as_str(), Some("text"));
}

#[test]
fn dispatch_routes_to_resolved_tier_and_returns_response() {
    let config = mock_config(RoutingMode::Dispatch);
    let mut log = TrafficLog::new(100);
    let mut body = ro(vec![
        ("model", rs("hint:fast")),
        ("messages", Json::Array(vec![ro(vec![("role", rs("user")), ("content", rs("hi"))])])),
    ]);
    let plan = plan_route(&config, &body, None).unwrap();
    let backend = tier_backend(&config, &plan.tier).unwrap();
    assert_eq!(backend.base_url, "http://127.0.0.1:9");
    rewrite_body(&mut body, plan.tier.model.as_str(), false);
    assert_eq!(body.get("model").and_then(|v| v.as_str()), Some("fast-model"));
    let resp = response_with_content("A full enough answer for the heuristic test harness.");
    assert!(first_choice_content(&resp).is_some());
    let entry = finish_entry(served_entry(&plan.tier, 12, 0, false), &plan, plan.profile.mode.label(), None);
    assert_eq!(entry.tier, "local:fast");
    assert_eq!(entry.backend, "mock");
    assert!(entry.success);
    assert!(!entry.escalated);
    assert_eq!(entry.routing_mode.as_deref(), Some("dispatch"));
    log.push(entry);
    let entries = log.recent(10);
    assert_eq!(entries.len(), 1);
    assert_eq!(entries[0].tier, "local:fast");
}

fn run_escalation(config: &Config, answers: &[&str]) -> (String, bool) {
    let profile = config.profile("default").unwrap();
    let mut esc = Escalation::start(config, profile, false);
    let health: Vec<(String, BackendHealth)> = Vec::new();
    loop {
        match esc.next_step(config, &health) {
            EscalateStep::Try(i) => {
                let resp = response_with_content(answers[i]);
                if let Some(escalated) = esc.accept(i, Some(&resp)) {
                    let entry = served_entry(&config.tiers[i], 1, i, true);
                    assert_eq!(escalated, entry.escalated);
                    return (entry.tier, entry.escalated);
                }
                assert!(esc.accept(i, None).is_none());
            }
            EscalateStep::Exhausted => return (String::new(), false),
        }
    }
}

#[test]
fn escalate_returns_first_sufficient_response() {
    let config = mock_config(RoutingMode::Escalate);
    let long = "This is a sufficient answer from the cheapest tier, no need to escalate further.";
    let (tier, escalated) = run_escalation(&config, &[long, long]);
    assert_eq!(tier, "local:fast");
    assert!(!escalated);
}

#[test]
fn escalate_climbs_past_insufficient_answer() {
    let config = mock_config(RoutingMode::Escalate);
    let (tier, escalated) =
        run_escalation(&config, &["idk", "A long and helpful answer from the second tier of the ladder."]);
    assert_eq!(tier, "cloud:economy");
    assert!(escalated);
}

#[test]
fn escalate_exhausts_when_nothing_is_sufficient() {
    let config = mock_config(RoutingMode::Escalate);
    let (tier, _) = run_escalation(&config, &["idk", "no"]);
    assert_eq!(tier, "");
}

#[test]
fn escalation_stops_at_ceiling_and_skips_unhealthy() {
    let mut config = mock_config(RoutingMode::Escalate);
    config.tiers.push(TierConfig { name: "cloud:expert".into(), backend: "mock".into(), model: "big".into() });
    config.profiles[0].1.max_auto_tier = "cloud:economy".into();
    let profile = config.profile("default").unwrap();
    let mut esc = Escalation::start(&config, profile, true);
    assert_eq!(esc.end, 2);
    let sick = vec![("mock".to_string(), BackendHealth { total: 5, errors: 5, healthy: false })];
    assert!(matches!(esc.next_step(&config, &sick), EscalateStep::Exhausted));
    let mut esc = Escalation::start(&config, profile, true);
    let fine = vec![("mock".to_string(), BackendHealth { total: 5, errors: 0, healthy: true })];
    assert!(matches!(esc.next_step(&config, &fine), EscalateStep::Try(0)));
    assert!(matches!(esc.next_step(&config, &fine), EscalateStep::Try(1)));
    assert!(matches!(esc.next_step(&config, &fine), EscalateStep::Exhausted));
}

#[test]
fn unknown_ceiling_means_last_tier() {
    let mut config = mock_config(RoutingMode::Escalate);
    config.profiles[0].1.max_auto_tier = "missing".into();
    let profile = config.profile("default").unwrap();
    let esc = Escalation::start(&config, profile, false);
    assert_eq!(esc.end, 2);
}

#[test]
fn failed_and_finished_entries() {
    let config = mock_config(RoutingMode::Dispatch);
    let plan = plan_route(&config, &ro(vec![("model", rs("local:fast"))]), Some("default")).unwrap();
    let e = failed_entry(&plan.tier, 7, "backend returned HTTP 500");
    assert!(!e.success);
    assert_eq!(e.error.as_deref(), Some("backend returned HTTP 500"));
    let e = finish_entry(e, &plan, "stream", Some("req-9"));
    assert_eq!(e.id, "req-9");
    assert_eq!(e.profile.as_deref(), Some("default"));
    assert_eq!(e.requested_model.as_deref(), Some("local:fast"));
    assert_eq!(e.routing_mode.as_deref(), Some("stream"));
}

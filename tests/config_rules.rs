use lm_gateway::config::{
    admin_port, client_port, timeout_ms, traffic_log_capacity, BackendConfig, ClientConfig, Config,
    ConfigError, GatewayConfig, ProfileConfig, Provider, RoutingMode, TierConfig,
};

fn backend(url: &str) -> BackendConfig {
    BackendConfig { base_url: url.to_string(), api_key_env: None, timeout_ms: 30_000, provider: Provider::OpenAI }
}

fn tier(name: &str, backend: &str, model: &str) -> TierConfig {
    TierConfig { name: name.to_string(), backend: backend.to_string(), model: model.to_string() }
}

fn profile(mode: RoutingMode, classifier: &str, max_auto_tier: &str) -> ProfileConfig {
    ProfileConfig {
        mode,
        classifier: classifier.to_string(),
        max_auto_tier: max_auto_tier.to_string(),
        expert_requires_flag: false,
    }
}

fn minimal_config() -> Config {
    Config {
        gateway: GatewayConfig::default(),
        backends: vec![("ollama".to_string(), backend("http://localhost:11434"))],
        tiers: vec![tier("local:fast", "ollama", "qwen2.5:1.5b"), tier("cloud:economy", "ollama", "qwen2.5:7b")],
        aliases: vec![
            ("hint:fast".to_string(), "local:fast".to_string()),
            ("hint:cloud".to_string(), "cloud:economy".to_string()),
        ],
        profiles: vec![("default".to_string(), profile(RoutingMode::Dispatch, "local:fast", "cloud:economy"))],
        clients: vec![],
    }
}

#[test]
fn minimal_config_is_valid() {
    assert!(minimal_config().validate().is_ok());
}

#[test]
fn validation_rejects_tier_with_unknown_backend() {
    let mut config = minimal_config();
    config.tiers.push(tier("bad:tier", "nonexistent", "x"));
    assert!(config.validate().is_err());
    match config.validate() {
        Err(ConfigError::UnknownBackend { tier, backend }) => {
            assert_eq!(tier, "bad:tier");
            assert_eq!(backend, "nonexistent");
        }
        other => panic!("unexpected: {:?}", other),
    }
}

#[test]
fn validation_rejects_alias_pointing_to_unknown_tier() {
    let mut config = minimal_config();
    config.aliases.push(("bad:alias".to_string(), "no-such-tier".to_string()));
    assert!(config.validate().is_err());
    assert!(matches!(config.validate(), Err(ConfigError::UnknownAliasTarget { .. })));
}

#[test]
fn validation_rejects_profile_with_unknown_classifier() {
    let mut config = minimal_config();
    config.profiles.push(("bad".to_string(), profile(RoutingMode::Dispatch, "no-such-tier", "local:fast")));
    assert!(config.validate().is_err());
    assert!(matches!(config.validate(), Err(ConfigError::UnknownClassifier { .. })));
}

#[test]
fn validation_rejects_client_with_unknown_profile() {
    let mut config = minimal_config();
    config.clients.push(ClientConfig { key_env: "KEY".to_string(), profile: "missing".to_string() });
    match config.validate() {
        Err(e) => {
            assert!(matches!(e, ConfigError::UnknownClientProfile { .. }));
            assert_eq!(e.message(), "[[clients]] entry with key_env `KEY` references unknown profile `missing`");
        }
        Ok(()) => panic!("expected an error"),
    }
}

#[test]
fn validation_error_message_names_tier_and_backend() {
    let mut config = minimal_config();
    config.tiers.push(tier("bad:tier", "nonexistent", "x"));
    let e = config.validate().unwrap_err();
    assert_eq!(e.message(), "tier `bad:tier` references unknown backend `nonexistent`");
}

#[test]
fn resolve_tier_by_direct_name() {
    let config = minimal_config();
    let tier = config.resolve_tier("local:fast");
    assert!(tier.is_some());
    assert_eq!(tier.unwrap().name, "local:fast");
}

#[test]
fn resolve_tier_via_alias() {
    let config = minimal_config();
    let tier = config.resolve_tier("hint:fast");
    assert!(tier.is_some());
    assert_eq!(tier.unwrap().name, "local:fast");
}

#[test]
fn resolve_tier_returns_none_for_unknown() {
    let config = minimal_config();
    assert!(config.resolve_tier("completely:unknown").is_none());
}

#[test]
fn alias_and_target_resolve_to_same_tier() {
    let config = minimal_config();
    let by_alias = config.resolve_tier("hint:cloud").unwrap();
    let by_name = config.resolve_tier("cloud:economy").unwrap();
    assert_eq!(by_alias.name, "cloud:economy");
    assert_eq!(by_name.name, "cloud:economy");
    assert_eq!(by_alias.model, "qwen2.5:7b");
}

#[test]
fn profile_returns_named_profile_when_present() {
    let config = minimal_config();
    assert!(config.profile("default").is_some());
}

#[test]
fn profile_falls_back_to_default_for_unknown_name() {
    let config = minimal_config();
    assert!(config.profile("nonexistent").is_some());
}

#[test]
fn unknown_profile_is_the_default_profile() {
    let mut config = minimal_config();
    config.profiles.push(("economy".to_string(), profile(RoutingMode::Escalate, "cloud:economy", "cloud:economy")));
    let fallback = config.profile("nonexistent").unwrap();
    let default = config.profile("default").unwrap();
    assert_eq!(fallback.classifier, default.classifier);
    assert_eq!(fallback.mode, RoutingMode::Dispatch);
    assert_eq!(config.profile("economy").unwrap().mode, RoutingMode::Escalate);
}

#[test]
fn profile_returns_none_when_neither_named_nor_default_exists() {
    let mut config = minimal_config();
    config.profiles.clear();
    assert!(config.profile("anything").is_none());
}

#[test]
fn gateway_defaults_match_documented_values() {
    let g = GatewayConfig::default();
    assert_eq!(g.client_port, 8080);
    assert_eq!(g.admin_port, 8081);
    assert_eq!(g.traffic_log_capacity, 500);
    assert_eq!(client_port(), 8080);
    assert_eq!(admin_port(), 8081);
    assert_eq!(traffic_log_capacity(), 500);
    assert_eq!(timeout_ms(), 30_000);
}

#[test]
fn mode_and_provider_names() {
    assert_eq!(RoutingMode::Dispatch.label(), "dispatch");
    assert_eq!(RoutingMode::Escalate.label(), "escalate");
    assert_eq!(RoutingMode::default(), RoutingMode::Dispatch);
    assert_eq!(Provider::default(), Provider::OpenAI);
    assert_eq!(Provider::OpenRouter.name(), "openrouter");
    assert_eq!(Provider::Anthropic.name(), "anthropic");
    assert_eq!(Provider::Ollama.name(), "ollama");
    assert_eq!(Provider::OpenAI.name(), "openai");
}

#[test]
fn backend_lookup_by_name() {
    let config = minimal_config();
    assert_eq!(config.backend("ollama").unwrap().base_url, "http://localhost:11434");
    assert!(config.backend("missing").is_none());
}

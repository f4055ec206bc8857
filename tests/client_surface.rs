use lm_gateway::config::{BackendConfig, ClientConfig, Config, GatewayConfig, Provider, TierConfig};
use lm_gateway::service::{build_client_map, client_auth, default_limit, model_list, ready, ClientAuth, TrafficQuery};

fn surface_config() -> Config {
    Config {
        gateway: GatewayConfig::default(),
        backends: vec![
            (
                "local".to_string(),
                BackendConfig { base_url: "http://l".into(), api_key_env: None, timeout_ms: 1, provider: Provider::Ollama },
            ),
            (
                "cloud".to_string(),
                BackendConfig {
                    base_url: "http://c".into(),
                    api_key_env: Some("CLOUD_KEY".into()),
                    timeout_ms: 1,
                    provider: Provider::OpenAI,
                },
            ),
        ],
        tiers: vec![
            TierConfig { name: "local:fast".into(), backend: "local".into(), model: "a".into() },
            TierConfig { name: "cloud:economy".into(), backend: "cloud".into(), model: "b".into() },
        ],
        aliases: vec![("hint:fast".into(), "local:fast".into())],
        profiles: vec![],
        clients: vec![],
    }
}

#[test]
fn no_clients_configured_passes_through() {
    assert!(matches!(client_auth(&vec![], None), ClientAuth::Disabled));
    assert!(matches!(client_auth(&vec![], Some("Bearer x")), ClientAuth::Disabled));
}

#[test]
fn valid_key_injects_profile() {
    let map = vec![("secret-key-123".to_string(), "economy".to_string())];
    match client_auth(&map, Some("Bearer secret-key-123")) {
        ClientAuth::Profile(p) => assert_eq!(p, "economy"),
        other => panic!("unexpected {:?}", other),
    }
}

#[test]
fn invalid_key_returns_401() {
    let map = vec![("secret-key-123".to_string(), "economy".to_string())];
    assert!(matches!(client_auth(&map, Some("Bearer wrong-key")), ClientAuth::Unauthorized));
    assert!(matches!(client_auth(&map, Some("secret-key-123")), ClientAuth::Unauthorized));
}

#[test]
fn missing_key_when_clients_configured_returns_401() {
    let map = vec![("secret-key-123".to_string(), "economy".to_string())];
    assert!(matches!(client_auth(&map, None), ClientAuth::Unauthorized));
}

#[test]
fn client_map_skips_unset_keys_and_last_binding_wins() {
    let clients = vec![
        ClientConfig { key_env: "A".into(), profile: "one".into() },
        ClientConfig { key_env: "B".into(), profile: "two".into() },
        ClientConfig { key_env: "C".into(), profile: "three".into() },
        ClientConfig { key_env: "D".into(), profile: "four".into() },
    ];
    let keys = vec![Some("k1".to_string()), None, Some(String::new()), Some("k1".to_string())];
    let map = build_client_map(&clients, &keys);
    assert_eq!(map, vec![("k1".to_string(), "four".to_string())]);
}

#[test]
fn list_models_returns_all_tiers() {
    let models = model_list(&surface_config());
    let ids: Vec<&str> = models.iter().map(|m| m.id.as_str()).collect();
    assert!(ids.contains(&"local:fast"), "missing local:fast: {ids:?}");
    assert!(ids.contains(&"cloud:economy"), "missing cloud:economy: {ids:?}");
    assert_eq!(models[1].owned_by, "cloud");
}

#[test]
fn list_models_includes_aliases() {
    let models = model_list(&surface_config());
    let alias = models.iter().find(|m| m.id == "hint:fast").expect("alias hint:fast not in model list");
    assert_eq!(alias.owned_by, "alias");
    assert_eq!(alias.resolves_to.as_deref(), Some("local:fast"));
    assert_eq!(models.len(), 3);
}

#[test]
fn status_ready_false_when_backend_api_key_missing() {
    let config = surface_config();
    assert!(!ready(&config, &vec![false, false]));
    assert!(ready(&config, &vec![false, true]));
}

#[test]
fn traffic_query_default_limit() {
    assert_eq!(default_limit(), 100);
    assert_eq!(TrafficQuery::default().limit, 100);
}

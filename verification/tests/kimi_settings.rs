use kimi_config::{get_current_provider_id, get_providers, prepare_provider, read_kimi_config_json};
use kimi_config::{read_kimi_mcp_servers_map, remove_provider, remove_server_from_kimi};
use kimi_config::{set_current_provider, set_default_model, sync_single_server_to_kimi};
use kimi_config::write_prepared_config;
use serde_json::Value;
use std::path::PathBuf;

fn json(text: &str) -> Value {
    serde_json::from_str(text).unwrap()
}

#[test]
fn test_kimi_provider_crud_and_mcp() {
    let dir = PathBuf::from("kimi-home");

    // Nothing is there at first.
    let providers = get_providers(None).unwrap();
    assert!(providers.is_empty());

    // A first provider.
    let provider_config = json(
        r#"{
            "type": "openai",
            "baseUrl": "https://cortex.botiverse.dev/v1",
            "apiKey": "sk-cortex-secret",
            "model": "devin/swe-2",
            "models": [
                { "id": "devin/swe-2", "name": "Devin SWE-2" },
                { "id": "k3", "name": "K3" }
            ]
        }"#,
    );
    let prepared = prepare_provider(None, "cortex", provider_config).unwrap();
    let config = write_prepared_config(false, &dir, &prepared).unwrap().content;

    let providers = get_providers(Some(&config)).unwrap();
    assert_eq!(providers.len(), 1);
    let cortex = providers.get("cortex").unwrap();
    assert_eq!(cortex["name"], "cortex");
    assert_eq!(cortex["type"], "openai");
    assert_eq!(cortex["baseUrl"], "https://cortex.botiverse.dev/v1");
    assert_eq!(cortex["apiKey"], "sk-cortex-secret");
    assert_eq!(cortex["model"], "devin/swe-2");

    let current_id = get_current_provider_id(Some(&config)).unwrap();
    assert_eq!(current_id, Some("cortex".to_string()));

    // A second one.
    let or_config = json(
        r#"{
            "type": "openai",
            "baseUrl": "https://openrouter.ai/api/v1",
            "apiKey": "sk-or-test",
            "model": "openrouter/sonnet-3.5"
        }"#,
    );
    let prepared2 = prepare_provider(Some(&config), "openrouter", or_config.clone()).unwrap();
    let config = write_prepared_config(false, &dir, &prepared2).unwrap().content;

    let providers = get_providers(Some(&config)).unwrap();
    assert_eq!(providers.len(), 2);

    // The second one is put to use.
    let config = set_current_provider(&dir, Some(&config), "openrouter", &or_config).unwrap().content;
    assert_eq!(
        get_current_provider_id(Some(&config)).unwrap(),
        Some("openrouter".to_string())
    );

    // The first one is removed.
    let config = remove_provider(&dir, Some(&config), "cortex").unwrap().unwrap().content;
    let providers = get_providers(Some(&config)).unwrap();
    assert_eq!(providers.len(), 1);
    assert!(!providers.contains_key("cortex"));
    assert!(providers.contains_key("openrouter"));
    assert_eq!(
        get_current_provider_id(Some(&config)).unwrap(),
        Some("openrouter".to_string())
    );

    // MCP servers.
    let server_spec = json(
        r#"{
            "command": "npx",
            "args": ["-y", "@modelcontextprotocol/server-filesystem"]
        }"#,
    );
    let mcp = sync_single_server_to_kimi(true, &dir, None, "filesystem", &server_spec)
        .unwrap()
        .unwrap()
        .content;
    let mcp_map = read_kimi_mcp_servers_map(&dir, Some(&mcp)).unwrap();
    assert_eq!(mcp_map.len(), 1);
    assert!(mcp_map.contains_key("filesystem"));

    let mcp = remove_server_from_kimi(true, &dir, Some(&mcp), "filesystem").unwrap().unwrap().content;
    let mcp_map = read_kimi_mcp_servers_map(&dir, Some(&mcp)).unwrap();
    assert!(mcp_map.is_empty());
}

#[test]
fn test_kimi_set_default_model() {
    let dir = PathBuf::from("kimi-home");
    let provider_config = json(
        r#"{
            "type": "openai",
            "baseUrl": "https://api.moonshot.cn/v1",
            "apiKey": "sk-test",
            "model": "moonshot-v1-8k",
            "models": [
                { "id": "moonshot-v1-8k", "name": "Moonshot 8k" },
                { "id": "moonshot-v1-32k", "name": "Moonshot 32k" }
            ]
        }"#,
    );
    let prepared = prepare_provider(None, "moonshot", provider_config).unwrap();
    let config = write_prepared_config(false, &dir, &prepared).unwrap().content;

    assert_eq!(
        get_current_provider_id(Some(&config)).unwrap(),
        Some("moonshot".to_string())
    );

    let (write, name) = set_default_model(&dir, Some(&config), "moonshot-v1-32k").unwrap();
    assert_eq!(name, "moonshot-v1-32k");
    let config = write.content;
    assert_eq!(
        get_current_provider_id(Some(&config)).unwrap(),
        Some("moonshot".to_string())
    );

    let json = read_kimi_config_json(Some(&config)).unwrap();
    assert_eq!(json["default_model"], "moonshot-v1-32k");
}

use kimi_config::mcp::{servers_in_value, value_with_servers};
use kimi_config::{read_kimi_mcp_servers_map, remove_server_from_kimi, set_kimi_mcp_servers_map};
use kimi_config::{sync_single_server_to_kimi, AppError, ServerMap};
use serde_json::Value;
use std::path::PathBuf;

fn json(text: &str) -> Value {
    serde_json::from_str(text).unwrap()
}

fn dir() -> PathBuf {
    PathBuf::from("home").join(".kimi-code")
}

#[test]
fn servers_are_read_from_the_file() {
    assert!(read_kimi_mcp_servers_map(&dir(), None).unwrap().is_empty());
    assert!(read_kimi_mcp_servers_map(&dir(), Some("[]")).unwrap().is_empty());
    assert!(read_kimi_mcp_servers_map(&dir(), Some("{}")).unwrap().is_empty());
    assert!(read_kimi_mcp_servers_map(&dir(), Some(r#"{ "mcpServers": [1] }"#)).unwrap().is_empty());
    let text = r#"{ "mcpServers": { "a": { "command": "x" }, "b": 2 }, "other": true }"#;
    let servers = read_kimi_mcp_servers_map(&dir(), Some(text)).unwrap();
    assert_eq!(servers.len(), 2);
    assert_eq!(servers.get("a").unwrap(), &json(r#"{ "command": "x" }"#));
    assert_eq!(servers.get("b").unwrap(), &json("2"));
    assert!(servers.get("other").is_none());
    assert_eq!(servers_in_value(&json(text)).len(), 2);
}

#[test]
fn a_text_that_is_no_json_is_refused() {
    match read_kimi_mcp_servers_map(&dir(), Some("{ \"mcpServers\": ")) {
        Err(AppError::Json { path, message }) => {
            assert_eq!(path, dir().join("mcp.json"));
            assert!(!message.is_empty());
        }
        _ => panic!("not refused"),
    }
    assert!(sync_single_server_to_kimi(true, &dir(), Some(""), "a", &json("1")).is_err());
    assert!(remove_server_from_kimi(true, &dir(), Some("x"), "a").is_err());
}

#[test]
fn servers_are_written_beside_what_is_there() {
    let mut servers = ServerMap::new();
    servers.insert("fs".to_string(), json(r#"{ "command": "npx" }"#));
    let write = set_kimi_mcp_servers_map(&dir(), None, &servers).unwrap();
    assert_eq!(write.path, dir().join("mcp.json"));
    assert_eq!(write.mode, 0o644);
    assert_eq!(
        write.content,
        "{\n  \"mcpServers\": {\n    \"fs\": {\n      \"command\": \"npx\"\n    }\n  }\n}"
    );
    let before = r#"{ "theme": 1, "mcpServers": { "old": {} }, "list": [null] }"#;
    let write = set_kimi_mcp_servers_map(&dir(), Some(before), &servers).unwrap();
    assert_eq!(
        json(&write.content),
        json(r#"{ "theme": 1, "list": [null], "mcpServers": { "fs": { "command": "npx" } } }"#)
    );
    assert_eq!(
        value_with_servers(Some(json(before)), &servers).unwrap(),
        json(r#"{ "theme": 1, "list": [null], "mcpServers": { "fs": { "command": "npx" } } }"#)
    );
    // A file that holds no object is written anew.
    for broken in ["", "{", "[1, 2]", "3"] {
        let write = set_kimi_mcp_servers_map(&dir(), Some(broken), &servers).unwrap();
        assert_eq!(json(&write.content), json(r#"{ "mcpServers": { "fs": { "command": "npx" } } }"#));
    }
}

#[test]
fn a_server_is_added_changed_and_removed() {
    let before = r#"{ "mcpServers": { "a": 1 }, "x": "y" }"#;
    let added = sync_single_server_to_kimi(true, &dir(), Some(before), "b", &json("[-2, 3.5]"))
        .unwrap()
        .unwrap()
        .content;
    assert_eq!(json(&added), json(r#"{ "mcpServers": { "a": 1, "b": [-2, 3.5] }, "x": "y" }"#));
    let changed = sync_single_server_to_kimi(true, &dir(), Some(&added), "a", &json("{}"))
        .unwrap()
        .unwrap()
        .content;
    assert_eq!(json(&changed), json(r#"{ "mcpServers": { "a": {}, "b": [-2, 3.5] }, "x": "y" }"#));
    let removed = remove_server_from_kimi(true, &dir(), Some(&changed), "b").unwrap().unwrap().content;
    assert_eq!(json(&removed), json(r#"{ "mcpServers": { "a": {} }, "x": "y" }"#));
    let again = remove_server_from_kimi(true, &dir(), Some(&removed), "b").unwrap().unwrap().content;
    assert_eq!(again, removed);
    let servers = read_kimi_mcp_servers_map(&dir(), Some(&again)).unwrap();
    assert!(!servers.contains_key("b") && servers.contains_key("a"));
}

#[test]
fn nothing_is_written_where_the_settings_are_not_kept_in_step() {
    assert!(sync_single_server_to_kimi(false, &dir(), None, "a", &json("1")).unwrap().is_none());
    assert!(sync_single_server_to_kimi(false, &dir(), Some("{"), "a", &json("1")).unwrap().is_none());
    assert!(remove_server_from_kimi(false, &dir(), Some("{"), "a").unwrap().is_none());
}

#[test]
fn a_map_holds_each_name_once() {
    let mut servers = ServerMap::new();
    assert!(servers.is_empty());
    servers.insert("a".to_string(), json("1"));
    servers.insert("b".to_string(), json("2"));
    servers.insert("a".to_string(), json("3"));
    assert_eq!(servers.len(), 2);
    assert_eq!(servers.get("a").unwrap(), &json("3"));
    servers.remove("c");
    assert_eq!(servers.len(), 2);
    servers.remove("a");
    assert!(!servers.contains_key("a"));
    assert!(servers.contains_key("b"));
    assert_eq!(servers.len(), 1);
    assert_eq!(servers.into_entries(), vec![("b".to_string(), json("2"))]);
}

#[test]
fn a_nesting_beyond_what_the_parser_takes_is_not_read() {
    let nested = |levels: usize| {
        let mut v = json("1");
        for _ in 0..levels {
            v = Value::from(vec![v]);
        }
        v
    };
    // The object of the file and that of the servers are two levels.
    let fits = sync_single_server_to_kimi(true, &dir(), None, "a", &nested(125)).unwrap().unwrap();
    let servers = read_kimi_mcp_servers_map(&dir(), Some(&fits.content)).unwrap();
    assert_eq!(servers.get("a").unwrap(), &nested(125));
    let deep = sync_single_server_to_kimi(true, &dir(), None, "a", &nested(126)).unwrap().unwrap();
    assert!(read_kimi_mcp_servers_map(&dir(), Some(&deep.content)).is_err());
}

#[test]
fn servers_are_read_as_written_whatever_else_is_there() {
    let before = r#"{ "scale": [0.1, 1.7976931348623157e308, 5e-324], "mcpServers": { "a": { "n": -3 } } }"#;
    let old = read_kimi_mcp_servers_map(&dir(), Some(before)).unwrap();
    let added = sync_single_server_to_kimi(true, &dir(), Some(before), "b", &json("[2.5, 1e300]"))
        .unwrap()
        .unwrap()
        .content;
    let removed = remove_server_from_kimi(true, &dir(), Some(&added), "b").unwrap().unwrap().content;
    let after = read_kimi_mcp_servers_map(&dir(), Some(&removed)).unwrap();
    assert_eq!(after.into_entries(), old.into_entries());
    // Nothing is left of servers that were there before.
    let mut servers = ServerMap::new();
    servers.insert("c".to_string(), json(r#"{ "x": [1, null, "y"] }"#));
    let write = set_kimi_mcp_servers_map(&dir(), Some(before), &servers).unwrap();
    let read = read_kimi_mcp_servers_map(&dir(), Some(&write.content)).unwrap();
    assert_eq!(read.into_entries(), servers.into_entries());
}

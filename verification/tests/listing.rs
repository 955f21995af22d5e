use kimi_config::listing::{current_provider_in, providers_in};
use kimi_config::{get_current_provider_id, get_provider, get_providers, read_kimi_config_json, AppError};
use serde_json::Value;

fn json(text: &str) -> Value {
    serde_json::from_str(text).unwrap()
}

fn config_message(e: AppError) -> String {
    match e {
        AppError::Config(message) => message,
        other => panic!("{:?}", other),
    }
}

#[test]
fn blank_files_list_nothing() {
    assert!(get_providers(Some("")).unwrap().is_empty());
    assert!(get_providers(Some(" \t\n\u{3000}")).unwrap().is_empty());
    assert!(get_provider(None, "a").unwrap().is_none());
    assert_eq!(get_current_provider_id(None).unwrap(), None);
    assert_eq!(get_current_provider_id(Some("")).unwrap(), None);
    assert_eq!(read_kimi_config_json(None).unwrap(), json("{}"));
    assert_eq!(read_kimi_config_json(Some(" \n")).unwrap(), json("{}"));
}

#[test]
fn a_text_that_is_no_document_is_refused() {
    let start = "Failed to parse Kimi config.toml: ";
    let bad = "providers = [";
    let a = config_message(get_providers(Some(bad)).unwrap_err());
    assert!(a.starts_with(start) && a.len() > start.len());
    let b = config_message(get_provider(Some(bad), "a").unwrap_err());
    assert_eq!(a, b);
    let c = config_message(get_current_provider_id(Some(bad)).unwrap_err());
    assert_eq!(a, c);
    let d = config_message(read_kimi_config_json(Some(bad)).unwrap_err());
    assert!(d.starts_with(start) && d.len() > start.len());
    // White space beyond what a document takes is no document, where a blank file is not
    // taken to be an empty one.
    assert!(get_current_provider_id(Some("\u{3000}")).is_err());
}

#[test]
fn a_provider_is_listed_with_its_settings() {
    let text = r#"
default_model = "b"

[providers.one]
type = "anthropic"
base_url = "https://one"
api_key = "k1"

[models.a]
provider = "one"
display_name = "Model A"

[models.b]
provider = "one"

[models.c]
provider = "two"
"#;
    let providers = get_providers(Some(text)).unwrap();
    assert_eq!(
        providers.get("one").unwrap(),
        &json(
            r#"{
                "name": "one",
                "type": "anthropic",
                "baseUrl": "https://one",
                "base_url": "https://one",
                "apiKey": "k1",
                "api_key": "k1",
                "model": "b",
                "models": [
                    { "id": "a", "name": "Model A" },
                    { "id": "b", "name": "b" }
                ]
            }"#
        )
    );
    assert_eq!(get_provider(Some(text), "one").unwrap().as_ref(), providers.get("one"));
    assert_eq!(get_provider(Some(text), "two").unwrap(), None);
    assert_eq!(get_current_provider_id(Some(text)).unwrap(), Some("one".to_string()));
}

#[test]
fn what_is_missing_is_left_out() {
    let text = "[providers.bare]\n[models.x]\nprovider = \"other\"\n";
    assert_eq!(
        get_provider(Some(text), "bare").unwrap().unwrap(),
        json(r#"{ "name": "bare", "type": "openai" }"#)
    );
}

#[test]
fn the_first_model_stands_for_a_provider_that_does_not_serve_the_default() {
    let text = "default_model = \"z\"\n[providers.p]\n[models.m]\nprovider = \"p\"\n[models.n]\nprovider = \"p\"\n[models.z]\nprovider = \"q\"\n";
    let p = get_provider(Some(text), "p").unwrap().unwrap();
    assert_eq!(p["model"], "m");
    let no_default = "[providers.p]\n[models.m]\nprovider = \"p\"\n";
    assert_eq!(get_provider(Some(no_default), "p").unwrap().unwrap()["model"], "m");
}

#[test]
fn other_spellings_are_read_where_the_first_is_missing() {
    let text = "[providers.p]\nbaseUrl = \"https://b\"\napiKey = \"kb\"\n";
    let p = get_provider(Some(text), "p").unwrap().unwrap();
    assert_eq!(p["base_url"], "https://b");
    assert_eq!(p["api_key"], "kb");
    // A first spelling that is no string hides the second.
    let text = "[providers.p]\nbase_url = 1\nbaseUrl = \"https://b\"\napi_key = 2\napiKey = \"kb\"\n";
    let p = get_provider(Some(text), "p").unwrap().unwrap();
    assert!(p.get("baseUrl").is_none() && p.get("base_url").is_none());
    assert!(p.get("apiKey").is_none() && p.get("api_key").is_none());
}

#[test]
fn providers_come_in_order_and_only_tables_count() {
    let text = "[providers]\nnine = 9\nz = { type = \"t\" }\na.type = \"u\"\n[providers.m]\n";
    let providers = get_providers(Some(text)).unwrap();
    let names: Vec<&String> = providers.keys().collect();
    assert_eq!(names, vec!["z", "a", "m"]);
    assert_eq!(providers["z"]["type"], "t");
    assert_eq!(providers["a"]["type"], "u");
    assert!(get_providers(Some("providers = 3\n")).unwrap().is_empty());
    assert!(get_providers(Some("x = 3\n")).unwrap().is_empty());
}

#[test]
fn models_that_are_no_tables_are_passed_over() {
    let text = "[providers.p]\n[models]\na = \"p\"\nb = { provider = \"p\" }\n";
    let p = get_provider(Some(text), "p").unwrap().unwrap();
    assert_eq!(p["models"], json(r#"[{ "id": "b", "name": "b" }]"#));
    let text = "models = 1\n[providers.p]\n";
    assert!(get_provider(Some(text), "p").unwrap().unwrap().get("models").is_none());
}

#[test]
fn the_provider_in_use_is_that_of_the_default_model() {
    let none = |text: &str| assert_eq!(get_current_provider_id(Some(text)).unwrap(), None);
    none("[models.m]\nprovider = \"p\"\n");
    none("default_model = \"x\"\n[models.m]\nprovider = \"p\"\n");
    none("default_model = 1\n[models.m]\nprovider = \"p\"\n");
    none("default_model = \"m\"\n[models.m]\nprovider = 3\n");
    none("default_model = \"m\"\n[models]\nm = 3\n");
    none("default_model = \"m\"\nmodels = 3\n");
    let text = "default_model = \"m\"\n[models.m]\nprovider = \"p\"\n";
    assert_eq!(get_current_provider_id(Some(text)).unwrap(), Some("p".to_string()));
}

#[test]
fn a_document_is_listed_as_its_text_is() {
    let text = "default_model = \"m\"\n[providers.p]\ntype = \"t\"\n[models.m]\nprovider = \"p\"\n";
    let doc: toml_edit::DocumentMut = text.parse().unwrap();
    assert_eq!(providers_in(&doc), get_providers(Some(text)).unwrap());
    assert_eq!(current_provider_in(&doc), Some("p".to_string()));
}

#[test]
fn the_configuration_is_read_as_json() {
    let text = "default_model = \"m\"\nlist = [1, true, \"x\"]\n[providers.p]\ntype = \"t\"\n";
    assert_eq!(
        read_kimi_config_json(Some(text)).unwrap(),
        json(
            r#"{
                "default_model": "m",
                "list": [1, true, "x"],
                "providers": { "p": { "type": "t" } }
            }"#
        )
    );
}

#[test]
fn every_kind_of_value_is_read_as_json() {
    let text = "i = -5\nf = 2.5\nn = nan\nx = -inf\nb = false\nd = 1979-05-27 07:32:00.50+01:00\na = [1, [\"s\", { k = 2 }]]\n[t]\nu.v = \"w\"\n[[l]]\nm = 1\n[[l]]\n";
    assert_eq!(
        read_kimi_config_json(Some(text)).unwrap(),
        json(
            r#"{
                "i": -5, "f": 2.5, "n": null, "x": null, "b": false,
                "d": { "$__toml_private_datetime": "1979-05-27T07:32:00.5+01:00" },
                "a": [1, ["s", { "k": 2 }]],
                "t": { "u": { "v": "w" } },
                "l": [{ "m": 1 }, {}]
            }"#
        )
    );
    // The two parsers refuse a text with the same words.
    let a = config_message(read_kimi_config_json(Some("a = 1\na = 2\n")).unwrap_err());
    let b = config_message(get_providers(Some("a = 1\na = 2\n")).unwrap_err());
    assert_eq!(a, b);
    // A table with the key that marks a date is a date, or none.
    let text = "\"$__toml_private_datetime\" = \"1979-05-27\"\n";
    assert_eq!(read_kimi_config_json(Some(text)).unwrap(), json(r#"{ "$__toml_private_datetime": "1979-05-27" }"#));
    assert!(read_kimi_config_json(Some("\"$__toml_private_datetime\" = \"x\"\n")).is_err());
}

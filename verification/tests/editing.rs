use kimi_config::editing::{prepare_in, remove_in, select_in, set_default_in};
use kimi_config::saving::FILE_MODE;
use kimi_config::{get_current_provider_id, get_provider, get_providers, prepare_provider, remove_provider};
use kimi_config::{read_kimi_config_json, set_current_provider, set_default_model, AppError};
use serde_json::Value;
use std::path::PathBuf;

fn json(text: &str) -> Value {
    serde_json::from_str(text).unwrap()
}

fn dir() -> PathBuf {
    PathBuf::from("home").join(".kimi-code")
}

fn prepare(content: &str, id: &str, config: &str) -> String {
    prepare_provider(Some(content), id, json(config)).unwrap()
}

fn remove(content: &str, id: &str) -> String {
    remove_provider(&dir(), Some(content), id).unwrap().unwrap().content
}

fn config_message(e: AppError) -> String {
    match e {
        AppError::Config(message) => message,
        other => panic!("{:?}", other),
    }
}

#[test]
fn a_first_provider_is_written_in_full() {
    let text = prepare(
        "",
        "p",
        r#"{ "type": "kimi", "baseUrl": " https://u ", "apiKey": "\tk\n", "model": " m ",
             "models": [{ "id": "m" }, "n", { "id": " o " }, { "id": "" }, " ", 3, { "name": "x" }, "n"] }"#,
    );
    assert_eq!(
        text,
        "default_model = \"m\"\n\n[providers]\n\n[providers.p]\ntype = \"kimi\"\nbase_url = \"https://u\"\napi_key = \"k\"\n\n[models]\n\n[models.m]\nprovider = \"p\"\nmodel = \"m\"\n\n[models.n]\nprovider = \"p\"\nmodel = \"n\"\n\n[models.o]\nprovider = \"p\"\nmodel = \"o\"\n"
    );
    let p = get_provider(Some(&text), "p").unwrap().unwrap();
    assert_eq!(p["type"], "kimi");
    assert_eq!(p["baseUrl"], "https://u");
    assert_eq!(p["apiKey"], "k");
    assert_eq!(p["model"], "m");
    assert_eq!(p["models"].as_array().unwrap().len(), 3);
}

#[test]
fn a_configuration_without_settings_gives_the_usual_kind() {
    let text = prepare("", "p", "{}");
    assert_eq!(text, "[providers]\n\n[providers.p]\ntype = \"openai\"\n");
    // A configuration that is no object is one without settings.
    assert_eq!(prepare("", "p", "[]"), text);
    assert_eq!(prepare_provider(None, "p", json("{}")).unwrap(), text);
}

#[test]
fn the_first_spelling_of_an_address_counts() {
    let url = |config: &str| {
        let text = prepare("", "p", config);
        get_provider(Some(&text), "p").unwrap().unwrap().get("baseUrl").cloned()
    };
    assert_eq!(url(r#"{ "baseUrl": "a", "base_url": "b", "endpoint": "c" }"#), Some(json("\"a\"")));
    assert_eq!(url(r#"{ "base_url": "b", "endpoint": "c" }"#), Some(json("\"b\"")));
    assert_eq!(url(r#"{ "endpoint": "c" }"#), Some(json("\"c\"")));
    assert_eq!(url(r#"{ "baseUrl": " ", "endpoint": "c" }"#), None);
    assert_eq!(url(r#"{ "baseUrl": 1, "endpoint": "c" }"#), None);
}

#[test]
fn a_key_is_kept_replaced_or_removed() {
    let before = "[providers.p]\ntype = \"openai\"\napi_key = \"old\"\nextra = 1\n";
    let key = |config: &str| {
        let text = prepare(before, "p", config);
        assert!(text.contains("extra = 1"));
        get_provider(Some(&text), "p").unwrap().unwrap().get("apiKey").cloned()
    };
    assert_eq!(key("{}"), Some(json("\"old\"")));
    assert_eq!(key(r#"{ "apiKey": "new" }"#), Some(json("\"new\"")));
    assert_eq!(key(r#"{ "api_key": "new" }"#), Some(json("\"new\"")));
    assert_eq!(key(r#"{ "apiKey": "" }"#), None);
    assert_eq!(key(r#"{ "api_key": null }"#), None);
    assert_eq!(key(r#"{ "apiKey": " ", "api_key": "hidden" }"#), None);
}

#[test]
fn an_address_is_kept_where_none_is_given() {
    let before = "[providers.p]\nbase_url = \"https://old\"\n";
    let text = prepare(before, "p", r#"{ "type": "t" }"#);
    assert_eq!(get_provider(Some(&text), "p").unwrap().unwrap()["baseUrl"], "https://old");
}

#[test]
fn other_settings_and_comments_stay() {
    let before = "# mine\ntheme = \"dark\" # really\ndefault_model = \"x\"\n\n[providers.q]\ntype = \"t\"\n\n[models.x]\nprovider = \"q\"\nlimit = 5\n";
    let text = prepare(before, "p", r#"{ "model": "m" }"#);
    assert!(text.starts_with("# mine\ntheme = \"dark\" # really\ndefault_model = \"x\"\n"));
    assert!(text.contains("[models.x]\nprovider = \"q\"\nlimit = 5\n"));
    assert_eq!(get_providers(Some(&text)).unwrap().len(), 2);
    assert_eq!(
        get_provider(Some(&text), "q").unwrap(),
        get_provider(Some(before), "q").unwrap()
    );
    // The default model stays what it was.
    assert_eq!(get_current_provider_id(Some(&text)).unwrap(), Some("q".to_string()));
}

#[test]
fn a_model_changes_its_provider() {
    let before = "default_model = \"m\"\n[providers.q]\n[models.m]\nprovider = \"q\"\ndisplay_name = \"M\"\n";
    let text = prepare(before, "p", r#"{ "models": ["m"] }"#);
    assert_eq!(get_current_provider_id(Some(&text)).unwrap(), Some("p".to_string()));
    let p = get_provider(Some(&text), "p").unwrap().unwrap();
    assert_eq!(p["models"], json(r#"[{ "id": "m", "name": "M" }]"#));
    assert!(get_provider(Some(&text), "q").unwrap().unwrap().get("models").is_none());
}

#[test]
fn models_that_are_no_tables_stay() {
    let before = "[models]\nm = 3\n";
    let text = prepare(before, "p", r#"{ "models": ["m", "n"] }"#);
    let p = get_provider(Some(&text), "p").unwrap().unwrap();
    assert_eq!(p["models"], json(r#"[{ "id": "n", "name": "n" }]"#));
    assert_eq!(read_kimi_config_json(Some(&text)).unwrap()["models"]["m"], json("3"));
    assert_eq!(read_kimi_config_json(Some(&text)).unwrap()["default_model"], "m");

    let text = prepare("models = 4\n", "p", r#"{ "model": "m" }"#);
    assert_eq!(read_kimi_config_json(Some(&text)).unwrap()["models"], json("4"));
    assert_eq!(read_kimi_config_json(Some(&text)).unwrap()["default_model"], "m");
    assert!(get_provider(Some(&text), "p").unwrap().unwrap().get("models").is_none());
}

#[test]
fn inline_and_dotted_tables_are_changed_in_place() {
    let before = "providers = { p = { type = \"a\" } }\nmodels.m.provider = \"p\"\n";
    let text = prepare(before, "p", r#"{ "type": "b", "model": "m", "apiKey": "k" }"#);
    let p = get_provider(Some(&text), "p").unwrap().unwrap();
    assert_eq!(p["type"], "b");
    assert_eq!(p["apiKey"], "k");
    assert_eq!(p["model"], "m");
    let text = prepare(&text, "q", r#"{ "model": "n" }"#);
    assert_eq!(get_providers(Some(&text)).unwrap().len(), 2);
    let text = remove(&text, "p");
    assert_eq!(get_providers(Some(&text)).unwrap().len(), 1);
    assert_eq!(get_current_provider_id(Some(&text)).unwrap(), Some("q".to_string()));
}

#[test]
fn odd_names_are_written_and_read() {
    let id = "a.b \"c\"\n'd'\\";
    let config = r#"{ "type": "x\ty", "apiKey": "'''\"\"\"\\", "model": "m/1.5 é" }"#;
    let text = prepare("", id, config);
    let p = get_provider(Some(&text), id).unwrap().unwrap();
    assert_eq!(p["name"], id);
    assert_eq!(p["type"], "x\ty");
    assert_eq!(p["apiKey"], "'''\"\"\"\\");
    assert_eq!(p["model"], "m/1.5 \u{e9}");
    assert_eq!(get_current_provider_id(Some(&text)).unwrap(), Some(id.to_string()));
    assert!(get_providers(Some(&remove(&text, id))).unwrap().is_empty());
}

#[test]
fn what_is_no_table_is_refused() {
    let e = prepare_provider(Some("providers = 1\n"), "p", json("{}")).unwrap_err();
    assert_eq!(config_message(e), "Kimi config.toml [providers] is not a table");
    let e = prepare_provider(Some("[providers]\np = 1\n"), "p", json("{}")).unwrap_err();
    assert_eq!(config_message(e), "Kimi provider table 'p' is invalid");
}

#[test]
fn a_text_that_is_no_document_is_not_changed() {
    let bad = "= 1";
    let start = "Failed to parse Kimi config.toml: ";
    let a = prepare_provider(Some(bad), "p", json("{}")).unwrap_err();
    assert!(config_message(a).starts_with(start));
    let b = remove_provider(&dir(), Some(bad), "p").unwrap_err();
    assert!(config_message(b).starts_with(start));
    let c = set_current_provider(&dir(), Some(bad), "p", &json("{}")).unwrap_err();
    assert!(config_message(c).starts_with(start));
    let d = set_default_model(&dir(), Some(bad), "m").unwrap_err();
    assert!(config_message(d).starts_with(start));
}

#[test]
fn configuring_twice_is_configuring_once() {
    let before = "default_model = \"z\"\n[providers.p]\napi_key = \"k\"\n[models.m]\nprovider = \"q\"\n[models]\nn = 3\n";
    let config = r#"{ "type": "t", "apiKey": "", "baseUrl": "u", "models": ["m", "n", "o"] }"#;
    let once = prepare(before, "p", config);
    assert_eq!(prepare(&once, "p", config), once);
}

#[test]
fn a_removed_provider_takes_its_models_along() {
    let text = "default_model = \"b\"\n[providers.p]\ntype = \"t\"\n[providers.q]\ntype = \"t\"\n[models.a]\nprovider = \"q\"\n[models.b]\nprovider = \"p\"\n[models.c]\nprovider = \"p\"\n[models.d]\nprovider = \"q\"\n";
    let left = remove(text, "p");
    let v = read_kimi_config_json(Some(&left)).unwrap();
    assert_eq!(
        v,
        json(
            r#"{
                "default_model": "a",
                "providers": { "q": { "type": "t" } },
                "models": { "a": { "provider": "q" }, "d": { "provider": "q" } }
            }"#
        )
    );
    assert_eq!(get_provider(Some(&left), "p").unwrap(), None);
    assert_eq!(get_current_provider_id(Some(&left)).unwrap(), Some("q".to_string()));
    // Once more changes nothing.
    assert_eq!(remove(&left, "p"), left);
}

#[test]
fn the_default_model_goes_with_the_last_model() {
    let text = prepare("", "p", r#"{ "model": "m" }"#);
    let left = remove(&text, "p");
    assert!(read_kimi_config_json(Some(&left)).unwrap().get("default_model").is_none());
    assert!(get_providers(Some(&left)).unwrap().is_empty());
    assert_eq!(get_current_provider_id(Some(&left)).unwrap(), None);
}

#[test]
fn a_default_model_of_another_provider_stays() {
    let text = "default_model = \"a\"\n[providers.p]\n[providers.q]\n[models.a]\nprovider = \"q\"\n[models.b]\nprovider = \"p\"\n";
    let left = remove(text, "p");
    assert_eq!(read_kimi_config_json(Some(&left)).unwrap()["default_model"], "a");
    assert_eq!(get_current_provider_id(Some(&left)).unwrap(), Some("q".to_string()));
    // A default model that is not there stays too.
    let text = "default_model = \"gone\"\n[models.b]\nprovider = \"p\"\n";
    assert_eq!(read_kimi_config_json(Some(&remove(text, "p"))).unwrap()["default_model"], "gone");
}

#[test]
fn without_a_file_there_is_nothing_to_remove() {
    assert!(remove_provider(&dir(), None, "p").unwrap().is_none());
    assert_eq!(remove("", "p"), "");
    assert_eq!(remove("providers = 1\nmodels = 2\n", "p"), "providers = 1\nmodels = 2\n");
}

#[test]
fn removing_undoes_configuring() {
    let before = "[providers.q]\ntype = \"t\"\n[models.a]\nprovider = \"q\"\n";
    let after = remove(&prepare(before, "p", r#"{ "model": "m" }"#), "p");
    assert_eq!(get_providers(Some(&after)).unwrap()["q"]["type"], "t");
    assert_eq!(get_providers(Some(&after)).unwrap().len(), 1);
}

fn select(content: Option<&str>, id: &str, config: &str) -> String {
    let write = set_current_provider(&dir(), content, id, &json(config)).unwrap();
    assert_eq!(write.path, dir().join("config.toml"));
    assert_eq!(write.mode, FILE_MODE);
    write.content
}

#[test]
fn a_provider_is_put_to_use_by_its_model() {
    // By the model that the configuration names.
    let text = select(None, "p", r#"{ "model": "m" }"#);
    assert_eq!(text, "default_model = \"m\"\n\n[models]\n\n[models.m]\nprovider = \"p\"\nmodel = \"m\"\n");
    assert_eq!(get_current_provider_id(Some(&text)).unwrap(), Some("p".to_string()));
    // By the first model that it serves.
    let before = "[models.a]\nprovider = \"q\"\n[models.b]\nprovider = \"p\"\n[models.c]\nprovider = \"p\"\n";
    let text = select(Some(before), "p", "{}");
    assert_eq!(text, format!("default_model = \"b\"\n{before}"));
    assert_eq!(get_current_provider_id(Some(&text)).unwrap(), Some("p".to_string()));
    // By its own name.
    let text = select(Some(" \n"), "p", r#"{ "model": 3 }"#);
    assert_eq!(text, "default_model = \"p\"\n\n[models]\n\n[models.p]\nprovider = \"p\"\nmodel = \"p\"\n");
}

#[test]
fn a_model_of_another_provider_is_taken_from_it() {
    let before = "default_model = 'x'\n[models.m]\nprovider = 'a'\n";
    let text = select(Some(before), "b", r#"{ "model": "m" }"#);
    assert_eq!(get_current_provider_id(Some(&text)).unwrap(), Some("b".to_string()));
    // Only the provider of the model changes.
    let before = "[models.m]\nprovider = \"a\"\nmodel = \"other\"\nlimit = 5\n[models.n]\nprovider = \"a\"\n";
    let text = select(Some(before), "b", r#"{ "model": "m" }"#);
    assert_eq!(
        read_kimi_config_json(Some(&text)).unwrap(),
        json(
            r#"{
                "default_model": "m",
                "models": {
                    "m": { "provider": "b", "model": "other", "limit": 5 },
                    "n": { "provider": "a" }
                }
            }"#
        )
    );
    // A model without a provider is given one.
    let text = select(Some("[models.m]\n"), "b", r#"{ "model": "m" }"#);
    assert_eq!(get_current_provider_id(Some(&text)).unwrap(), Some("b".to_string()));
}

#[test]
fn a_model_that_the_provider_serves_stays_as_it_is() {
    let before = "[models.m]\n# mine\nprovider = 'p' # yes\n";
    let text = select(Some(before), "p", r#"{ "model": "m" }"#);
    assert_eq!(text, format!("default_model = \"m\"\n{before}"));
}

#[test]
fn what_is_no_table_stays_when_a_provider_is_put_to_use() {
    let text = select(Some("models = 1\n"), "p", r#"{ "model": "m" }"#);
    assert_eq!(get_current_provider_id(Some(&text)).unwrap(), None);
    assert_eq!(read_kimi_config_json(Some(&text)).unwrap()["default_model"], "m");
    let text = select(Some("[models]\nm = 1\n"), "p", r#"{ "model": "m" }"#);
    assert_eq!(read_kimi_config_json(Some(&text)).unwrap()["models"]["m"], json("1"));
}

#[test]
fn a_configured_provider_can_be_put_to_use() {
    let before = "default_model = \"a\"\n[providers.q]\n[models.a]\nprovider = \"q\"\n";
    let config = r#"{ "model": "m" }"#;
    let text = select(Some(&prepare(before, "p", config)), "p", config);
    assert_eq!(get_current_provider_id(Some(&text)).unwrap(), Some("p".to_string()));
    assert_eq!(get_providers(Some(&text)).unwrap().len(), 2);
}

#[test]
fn the_default_model_is_the_one_set_last() {
    let (write, name) = set_default_model(&dir(), None, "m \"1\"").unwrap();
    assert_eq!(name, "m \"1\"");
    assert_eq!(write.content, "default_model = 'm \"1\"'\n");
    assert_eq!(write.path, dir().join("config.toml"));
    assert_eq!(write.mode, 0o644);
    let (write, _) = set_default_model(&dir(), Some(&write.content), "n").unwrap();
    assert_eq!(read_kimi_config_json(Some(&write.content)).unwrap(), json(r#"{ "default_model": "n" }"#));
}

#[test]
fn documents_are_changed_as_their_texts_are() {
    let text = "[providers.q]\ntype = \"t\"\n";
    let config = json(r#"{ "model": "m" }"#);
    let mut doc: toml_edit::DocumentMut = text.parse().unwrap();
    prepare_in(&mut doc, "p", &config).unwrap();
    let prepared = prepare_provider(Some(text), "p", config.clone()).unwrap();
    assert_eq!(doc.to_string(), prepared);
    select_in(&mut doc, "q", &json("{}"));
    assert_eq!(doc["default_model"].as_str(), Some("q"));
    set_default_in(&mut doc, "m");
    assert_eq!(doc["default_model"].as_str(), Some("m"));
    remove_in(&mut doc, "p");
    assert_eq!(doc["default_model"].as_str(), Some("q"));
    assert!(doc["providers"].get("p").is_none());
    let mut odd: toml_edit::DocumentMut = "providers = 1\n".parse().unwrap();
    assert!(prepare_in(&mut odd, "p", &config).is_err());
}

#[test]
fn other_providers_and_values_survive_a_change() {
    let before = "n = 1\nf = 1.50\nb = true\nd = 1979-05-27T07:32:00Z\nl = [1, [\"x\", { y = 2 }]]\n[providers.q]\nbase_url = 7\nbaseUrl = \"hidden\"\napiKey = \"k\"\n[[hooks]]\nz = 0\n";
    let text = prepare(before, "p", r#"{ "model": "m" }"#);
    for line in ["n = 1\n", "f = 1.50\n", "b = true\n", "d = 1979-05-27T07:32:00Z\n", "l = [1, [\"x\", { y = 2 }]]\n"] {
        assert!(text.contains(line));
    }
    let q = get_provider(Some(&text), "q").unwrap();
    assert_eq!(q, get_provider(Some(before), "q").unwrap());
    assert_eq!(q.unwrap(), json(r#"{ "name": "q", "type": "openai", "apiKey": "k", "api_key": "k" }"#));
    let left = remove(&text, "p");
    assert_eq!(get_provider(Some(&left), "q").unwrap(), get_provider(Some(before), "q").unwrap());
    let mut was = read_kimi_config_json(Some(before)).unwrap();
    was["models"] = json("{}");
    assert_eq!(read_kimi_config_json(Some(&left)).unwrap(), was);
}

#[test]
fn too_many_quotes_in_a_row_are_refused() {
    let refusal = "Kimi config.toml cannot hold this many quotes in a row";
    for quote in ["'", "\""] {
        let fits = quote.repeat(255);
        let long = format!("a{}b", quote.repeat(256));

        let (write, _) = set_default_model(&dir(), None, &fits).unwrap();
        assert_eq!(read_kimi_config_json(Some(&write.content)).unwrap()["default_model"], fits);
        let e = set_default_model(&dir(), None, &long).unwrap_err();
        assert_eq!(config_message(e), refusal);

        for key in ["type", "baseUrl", "apiKey", "model"] {
            let mut config = json("{}");
            config[key] = Value::from(long.as_str());
            let e = prepare_provider(None, "p", config.clone()).unwrap_err();
            assert_eq!(config_message(e), refusal);
            // What else is wrong is said first.
            let e = prepare_provider(Some("providers = 1\n"), "p", config).unwrap_err();
            assert_eq!(config_message(e), "Kimi config.toml [providers] is not a table");
        }
        let e = prepare_provider(None, &long, json(r#"{ "model": "m" }"#)).unwrap_err();
        assert_eq!(config_message(e), refusal);
        // A key is written otherwise.
        let text = prepare("", &long, "{}");
        assert!(get_provider(Some(&text), &long).unwrap().is_some());

        let e = set_current_provider(&dir(), None, &long, &json("{}")).unwrap_err();
        assert_eq!(config_message(e), refusal);

        let doc = prepare("", "p", r#"{ "model": "m" }"#) + "[models.'x']\nprovider = \"q\"\n";
        assert!(remove_provider(&dir(), Some(&doc), "p").is_ok());
        let key = if quote == "'" { format!("\"{long}\"") } else { format!("'{long}'") };
        let doc = doc.replace("'x'", &key);
        let e = remove_provider(&dir(), Some(&doc), "p").unwrap_err();
        assert_eq!(config_message(e), refusal);
    }
    // What is not written is not counted.
    let long = "'".repeat(256);
    let text = prepare("models = 1\ndefault_model = 'a'\n", &long, r#"{ "model": "b" }"#);
    assert!(get_provider(Some(&text), &long).unwrap().is_some());
    let text = prepare("default_model = 'a'\n[models]\nb = 1\n", &long, r#"{ "model": "b" }"#);
    assert!(get_provider(Some(&text), &long).unwrap().is_some());
    let mut config = json("{}");
    config["model"] = Value::from(long.as_str());
    let text = prepare_provider(Some("models = 1\ndefault_model = 'a'\n"), "p", config.clone()).unwrap();
    assert!(get_provider(Some(&text), "p").unwrap().is_some());
    let e = prepare_provider(Some("models = 1\n"), "p", config).unwrap_err();
    assert_eq!(config_message(e), refusal);
    let model = json(r#"{ "model": "m" }"#);
    for before in ["models = 1\n".to_string(), "[models]\nm = 1\n".to_string(), format!("[models.m]\nprovider = \"{long}\"\n")] {
        assert!(set_current_provider(&dir(), Some(&before), &long, &model).is_ok());
    }
    let e = set_current_provider(&dir(), Some("[models.m]\n"), &long, &model).unwrap_err();
    assert_eq!(config_message(e), refusal);
    // A string that is in the file already stays in it.
    let text = format!("note = \"{}\"\n", "'".repeat(300));
    assert!(prepare(&text, "p", "{}").starts_with(&text));
}

fn layouts() -> Vec<&'static str> {
    vec![
        "",
        "# only a comment",
        "\u{feff}a = 1\r\n# c\r\n[providers.p]\r\ntype = 't' # d\r\n",
        "providers = {}\nmodels = {}\n",
        "providers = { p = { api_key = 'k', base_url = 'u' } , q.type = 't' }\nmodels = { m.provider = 'p', n = { provider = 'q' } }\n",
        "providers.p.api_key = 'k'\nproviders.q.type = 't'\nmodels.m.provider = 'p'\n",
        "# c\nproviders . p . api_key = 'k'\n\n# d\nmodels . m . provider = 'q' # e\ndefault_model = 'm' # f\n",
        "providers.p.x = 1\n[providers.p.s]\n[providers.q]\n[models.m.s]\ny = 1\n",
        "[models.m.s]\ny = 1\n[models.m]\nprovider = 'p'\n[models]\nz.provider = 'q'\n",
        "[z]\n[[models.m.tools]]\na = 1\n[[models.m.tools]]\n[models.m.tools.b]\nc = 1\n[z.sub]\n[providers.p.s]\n",
        "[providers]\np.api_key = 'k'\n[[providers.p.hooks]]\nx = 1\n[providers.p.s]\n[models]\nm.provider = 'p'\n[models.m.s]\n",
        "[providers.p]\n# c\napi_key = 'k' # d\n\n# e\n[models.m] # f\n# g\nprovider = 'p'\n[other]\n# end",
        "[ default_model ]\nx = 1\n[ models . 'm' ]\nprovider = \"p\"\n[providers.'p']\n",
        "default_model.x = 1\nmodels = 1\n[providers.p]\n",
        "[[default_model]]\n[models]\nm = 1\n[providers]\nq = 1\n",
        "[[a]]\n[a.b]\n[[a]]\n[a.b]\nc = 1\n[providers.p]\n[[a.d]]\n[models.m]\nprovider = 'p'\n[models.n]\nprovider = 'q'\n",
        "l = [\n  1, # c\n  { x.y = 1, z = 2, x.w = [ 'v' ] },\n]\nd = 1979-05-27 07:32:00.50-00:00\nf = -inf\ns = \"\"\"\na\\\n  b\"\"\"\n[providers.p]\n",
    ]
}

/// What a document holds, without tables that are empty.
fn held(v: &toml::Value) -> toml::Value {
    match v {
        toml::Value::Table(t) => {
            let mut kept = toml::Table::new();
            for (k, x) in t {
                let emptied = k == "providers" || k == "models";
                if !(emptied && x.as_table().is_some_and(|y| y.is_empty())) {
                    kept.insert(k.clone(), x.clone());
                }
            }
            toml::Value::Table(kept)
        }
        other => other.clone(),
    }
}

#[test]
fn whatever_the_layout_what_was_written_is_read() {
    let configs = [
        json("{}"),
        json(r##"{ "apiKey": "", "model": "m", "models": ["n", "a b", "#x"] }"##),
        json(r#"{ "type": "x\ny", "baseUrl": "'\"", "apiKey": "\\''\"\"\"", "model": "k.1" }"#),
    ];
    let mut written: u32 = 0;
    for before in layouts() {
        let doc: toml_edit::DocumentMut = before.parse().unwrap();
        let mut changed: Vec<toml_edit::DocumentMut> = vec![doc.clone()];
        for config in &configs {
            for id in ["p", "q", "new one"] {
                let mut d = doc.clone();
                if prepare_in(&mut d, id, config).is_ok() {
                    changed.push(d.clone());
                    remove_in(&mut d, id);
                    changed.push(d.clone());
                    remove_in(&mut d, "q");
                    changed.push(d);
                }
                let mut d = doc.clone();
                select_in(&mut d, id, config);
                changed.push(d.clone());
                remove_in(&mut d, id);
                set_default_in(&mut d, "other");
                changed.push(d);
            }
        }
        for d in changed {
            let text = d.to_string();
            let read: toml::Value = toml::from_str(&text).unwrap();
            let told: toml::Value = toml_edit::de::from_document(d).unwrap();
            // Compared as texts, in which a number that is none equals itself.
            assert_eq!(format!("{:?}", held(&read)), format!("{:?}", held(&told)), "{text}");
            written += 1;
        }
    }
    assert!(written > 300);
}

#[test]
fn changing_twice_after_reading_is_changing_once() {
    let config = json(r#"{ "apiKey": "", "baseUrl": "u", "model": "m", "models": ["n"] }"#);
    for before in layouts() {
        if let Ok(once) = prepare_provider(Some(before), "p", config.clone()) {
            let twice = prepare_provider(Some(&once), "p", config.clone()).unwrap();
            assert_eq!(
                read_kimi_config_json(Some(&twice)).unwrap(),
                read_kimi_config_json(Some(&once)).unwrap()
            );
            let old: Vec<String> = get_providers(Some(before)).unwrap().into_keys().collect();
            let new = get_providers(Some(&once)).unwrap();
            assert!(new.contains_key("p") && old.iter().all(|k| new.contains_key(k)));
            assert!(new.keys().all(|k| k == "p" || old.contains(k)));
        }
        let once = remove(before, "p");
        assert_eq!(get_provider(Some(&once), "p").unwrap(), None);
        assert_ne!(get_current_provider_id(Some(&once)).unwrap(), Some("p".to_string()));
        let twice = remove(&once, "p");
        assert_eq!(
            read_kimi_config_json(Some(&twice)).unwrap(),
            read_kimi_config_json(Some(&once)).unwrap()
        );
    }
}

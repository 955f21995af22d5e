use kimi_config::text::{fill, holds, is_writable, joined, number_text};
use kimi_config::{get_kimi_agents_md_path, get_kimi_config_dir, get_kimi_config_path, get_kimi_mcp_path};
use kimi_config::{get_kimi_skills_dir, DEFAULT_KIMI_CONFIG_DIR, KIMI_CONFIG_FILE, KIMI_HOME_ENV};
use std::path::PathBuf;

#[test]
fn the_directory_is_the_first_that_is_named() {
    let chosen = Some(PathBuf::from("/chosen"));
    let named = Some(PathBuf::from("/named"));
    let home = Some(PathBuf::from("/home/me"));
    assert_eq!(
        get_kimi_config_dir(chosen, named.clone(), home.clone()),
        PathBuf::from("/chosen")
    );
    assert_eq!(get_kimi_config_dir(None, named, home.clone()), PathBuf::from("/named"));
    assert_eq!(
        get_kimi_config_dir(None, Some(PathBuf::new()), home.clone()),
        PathBuf::from("/home/me/.kimi-code")
    );
    assert_eq!(get_kimi_config_dir(None, None, home), PathBuf::from("/home/me/.kimi-code"));
    assert_eq!(get_kimi_config_dir(None, None, None), PathBuf::from(".kimi-code"));
    assert_eq!(
        get_kimi_config_dir(Some(PathBuf::new()), Some(PathBuf::from("x")), None),
        PathBuf::new()
    );
}

#[test]
fn the_files_lie_in_the_directory() {
    let dir = PathBuf::from("/d/.kimi-code");
    assert_eq!(get_kimi_config_path(&dir), PathBuf::from("/d/.kimi-code/config.toml"));
    assert_eq!(get_kimi_mcp_path(&dir), PathBuf::from("/d/.kimi-code/mcp.json"));
    assert_eq!(get_kimi_skills_dir(&dir), PathBuf::from("/d/.kimi-code/skills"));
    assert_eq!(get_kimi_agents_md_path(&dir), PathBuf::from("/d/.kimi-code/AGENTS.md"));
}

#[test]
fn the_names_are_those_of_the_command_line() {
    assert_eq!(DEFAULT_KIMI_CONFIG_DIR, ".kimi-code");
    assert_eq!(KIMI_HOME_ENV, "KIMI_CODE_HOME");
    assert_eq!(KIMI_CONFIG_FILE, "config.toml");
}

#[test]
fn text_is_trimmed() {
    assert_eq!(fill(Some(" \u{a0}\u{2003}a b\u{3000}\n")), Some("a b"));
    assert_eq!(fill(Some("\u{85}\u{1680}\u{2028}\u{205f}")), None);
    assert_eq!(fill(Some("\u{200b}")), Some("\u{200b}"));
    assert_eq!(fill(Some("")), None);
    assert_eq!(fill(None), None);
}

#[test]
fn names_are_compared_whole() {
    let names = vec!["a".to_string(), "bc".to_string()];
    assert!(holds(&names, "bc"));
    assert!(!holds(&names, "b"));
    assert!(!holds(&Vec::new(), ""));
    assert_eq!(joined("a: ", "b"), "a: b");
}

#[test]
fn quotes_are_counted_in_a_row() {
    assert!(is_writable(""));
    assert!(is_writable(&"x".repeat(300)));
    for quote in ["'", "\""] {
        assert!(is_writable(&quote.repeat(255)));
        assert!(!is_writable(&quote.repeat(256)));
        assert!(is_writable(&format!("{}-{}", quote.repeat(255), quote.repeat(255))));
        assert!(!is_writable(&format!("a{}", quote.repeat(300))));
    }
    assert!(is_writable(&"'\"".repeat(300)));
}

#[test]
fn numbers_are_written_in_decimal() {
    assert_eq!(number_text(0), "0");
    assert_eq!(number_text(9), "9");
    assert_eq!(number_text(10), "10");
    assert_eq!(number_text(1234567890), "1234567890");
}

use dst_update_publisher::config::{build_config, parse_po_file_list, split_on, EnvSettings};
use dst_update_publisher::error::AppError;

fn required() -> EnvSettings {
    EnvSettings {
        rss_url: None,
        update_page_url: None,
        redis_url: None,
        redis_channel: None,
        redis_dedupe_key: None,
        llm_api_base: Some("http://llm".into()),
        llm_api_key: Some("k".into()),
        llm_model: None,
        po_zip_path: Some("scripts.zip".into()),
        po_zip_po_files: Some("scripts/languages/chinese_s.po".into()),
    }
}

fn config_error(env: &EnvSettings) -> String {
    match build_config(env) {
        Err(AppError::Config(m)) => m,
        _ => panic!("expected a configuration error"),
    }
}

#[test]
fn config_defaults() {
    let c = build_config(&required()).ok().unwrap();
    assert_eq!(c.rss_url, "https://forums.kleientertainment.com/rss/6-dont-starve-together-updates.xml/");
    assert_eq!(c.update_page_url, "https://forums.kleientertainment.com/game-updates/dst/");
    assert_eq!(c.redis_url, "redis://127.0.0.1:6379");
    assert_eq!(c.redis_channel, "dst-updates");
    assert_eq!(c.redis_dedupe_key, "dst:last_build");
    assert_eq!(c.llm_model, "gpt-4o");
    assert_eq!(c.llm_api_base, "http://llm");
    assert_eq!(c.po_zip_path, "scripts.zip");
    assert_eq!(c.po_zip_po_files, vec!["scripts/languages/chinese_s.po".to_string()]);
}

#[test]
fn config_overrides() {
    let mut env = required();
    env.redis_channel = Some("ch".into());
    env.llm_model = Some("m".into());
    let c = build_config(&env).ok().unwrap();
    assert_eq!(c.redis_channel, "ch");
    assert_eq!(c.llm_model, "m");
}

#[test]
fn config_required_in_order() {
    let mut env = required();
    env.llm_api_base = None;
    env.po_zip_path = None;
    assert_eq!(config_error(&env), "LLM_API_BASE is required");
    let mut env = required();
    env.llm_api_key = None;
    assert_eq!(config_error(&env), "LLM_API_KEY is required");
    let mut env = required();
    env.po_zip_path = None;
    assert_eq!(config_error(&env), "PO_ZIP_PATH is required");
    let mut env = required();
    env.po_zip_po_files = None;
    assert!(config_error(&env).starts_with("PO_ZIP_PO_FILES is required (comma-separated"));
}

#[test]
fn config_empty_po_list() {
    let mut env = required();
    env.po_zip_po_files = Some(" , ,".into());
    assert_eq!(config_error(&env), "PO_ZIP_PO_FILES must contain at least one PO file path");
}

#[test]
fn po_list_trimmed_without_empty() {
    assert_eq!(
        parse_po_file_list(" a.po , ,b.po,"),
        vec!["a.po".to_string(), "b.po".to_string()]
    );
}

#[test]
fn split_keeps_empty_pieces() {
    assert_eq!(split_on("", ','), vec![String::new()]);
    assert_eq!(split_on("a,,b", ','), vec!["a".to_string(), String::new(), "b".to_string()]);
}

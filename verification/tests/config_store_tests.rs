use espanso_core::config::{AppProperties, Config, ConfigDoc};
use espanso_core::config_store::{ConfigFileEntry, ConfigStoreError, DefaultConfigStore};

fn app(title: Option<&str>, class: Option<&str>, exec_path: Option<&str>) -> AppProperties {
    AppProperties {
        title: title.map(|s| s.to_string()),
        class: class.map(|s| s.to_string()),
        exec_path: exec_path.map(|s| s.to_string()),
    }
}

fn config(label: &str, filter_class: Option<&str>) -> Config {
    Config::new(
        label.to_string(),
        None,
        filter_class.map(|s| s.to_string()),
        None,
    )
}

#[test]
fn config_store_selects_correctly() {
    // A configuration with no filters stands in for an always-matching
    // predicate; a class filter against an absent class never matches.
    let default = config("default", Some("nomatch-default"));
    let custom1 = config("custom1", Some("custom1"));
    let custom2 = config("custom2", None);

    let store = DefaultConfigStore::new(default, vec![custom1, custom2]);

    assert_eq!(store.default().label(), "default");
    assert_eq!(store.active(&app(None, None, None)).label(), "custom2");
}

#[test]
fn config_store_active_fallback_to_default_if_no_match() {
    let default = config("default", Some("nomatch-default"));
    let custom1 = config("custom1", Some("custom1"));
    let custom2 = config("custom2", Some("custom2"));

    let store = DefaultConfigStore::new(default, vec![custom1, custom2]);

    assert_eq!(store.default().label(), "default");
    assert_eq!(store.active(&app(None, None, None)).label(), "default");
}

fn doc(label: &str, filter_title: Option<&str>, filter_class: Option<&str>) -> ConfigDoc {
    ConfigDoc {
        label: label.to_string(),
        filter_title: filter_title.map(|s| s.to_string()),
        filter_class: filter_class.map(|s| s.to_string()),
        filter_exec: None,
        match_paths: Vec::new(),
    }
}

fn entry(name: &str, doc: Result<ConfigDoc, String>) -> ConfigFileEntry {
    ConfigFileEntry {
        file_name: name.to_string(),
        is_file: true,
        doc,
    }
}

#[test]
fn load_without_default_fails() {
    let entries = vec![entry("custom_a.yml", Ok(doc("custom_a", None, None)))];
    match DefaultConfigStore::load(entries) {
        Err(ConfigStoreError::MissingDefault) => {}
        _ => panic!("expected the missing-default failure"),
    }
}

#[test]
fn load_collects_non_fatal_errors_and_keeps_siblings() {
    // Two valid customs, one broken custom: the store is built with the
    // two valid ones and exactly one non-fatal error is reported.
    let entries = vec![
        entry("default.yml", Ok(doc("default", None, None))),
        entry("custom_a.yml", Ok(doc("custom_a", None, Some("Slack")))),
        entry("broken.yaml", Err("unexpected token".to_string())),
        entry("custom_b.yml", Ok(doc("custom_b", Some("Terminal"), None))),
        entry("notes.txt", Ok(doc("ignored", None, None))),
    ];
    let (store, errors) = DefaultConfigStore::load(entries).unwrap();
    assert_eq!(store.default().label(), "default");
    assert_eq!(store.configs().len(), 3);
    assert_eq!(errors.len(), 1);
    assert_eq!(errors[0].file, "broken.yaml");
    assert_eq!(errors[0].error, "unexpected token");
}

#[test]
fn load_end_to_end_selects_by_application() {
    let entries = vec![
        entry("default.yml", Ok(doc("default", None, None))),
        entry("custom_a.yml", Ok(doc("custom_a", None, Some("Slack")))),
        entry("custom_b.yml", Ok(doc("custom_b", Some("Terminal"), None))),
    ];
    let (store, errors) = DefaultConfigStore::load(entries).unwrap();
    assert!(errors.is_empty());

    assert_eq!(store.active(&app(None, Some("Slack"), None)).label(), "custom_a");
    assert_eq!(
        store.active(&app(Some("Terminal - bash"), None, None)).label(),
        "custom_b"
    );
    assert_eq!(store.active(&app(None, None, None)).label(), "default");
}

#[test]
fn load_prefers_yml_default_and_accepts_uppercase_extensions() {
    let entries = vec![
        entry("default.yaml", Ok(doc("default-yaml", None, None))),
        entry("default.yml", Ok(doc("default-yml", None, None))),
        entry("custom.YML", Ok(doc("custom", None, None))),
    ];
    let (store, errors) = DefaultConfigStore::load(entries).unwrap();
    assert!(errors.is_empty());
    assert_eq!(store.default().label(), "default-yml");
    // default.yaml is an ordinary candidate once default.yml won
    assert_eq!(store.configs().len(), 3);
}

#[test]
fn load_with_broken_default_is_fatal() {
    let entries = vec![
        entry("default.yml", Err("bad indentation".to_string())),
        entry("custom_a.yml", Ok(doc("custom_a", None, None))),
    ];
    match DefaultConfigStore::load(entries) {
        Err(ConfigStoreError::InvalidDefault(cause)) => assert_eq!(cause, "bad indentation"),
        _ => panic!("expected a fatal default failure"),
    }
}

#[test]
fn configs_lists_default_then_customs_in_order() {
    let default = config("default", None);
    let customs = vec![config("custom1", None), config("custom2", None)];
    let store = DefaultConfigStore::new(default, customs);
    let labels: Vec<&str> = store.configs().iter().map(|c| c.label()).collect();
    assert_eq!(labels, vec!["default", "custom1", "custom2"]);
}

#[test]
fn get_all_match_paths_deduplicates_union() {
    let mut default = config("default", None);
    default.add_match_path("base.yml".to_string());
    default.add_match_path("shared.yml".to_string());

    let mut custom = config("custom", Some("Slack"));
    custom.add_match_path("shared.yml".to_string());
    custom.add_match_path("slack.yml".to_string());

    let store = DefaultConfigStore::new(default, vec![custom]);
    let mut paths = store.get_all_match_paths();
    paths.sort();
    assert_eq!(paths, vec!["base.yml", "shared.yml", "slack.yml"]);
}

#[test]
fn load_from_single_file_builds_degraded_store() {
    let (store, errors) = DefaultConfigStore::load_from_single_file(
        "solo.yml".to_string(),
        Ok(doc("solo", None, None)),
    )
    .unwrap();
    assert!(errors.is_empty());
    assert_eq!(store.default().label(), "solo");
    assert_eq!(store.configs().len(), 1);
    // the file itself is recorded as an extra match-contributing path
    assert_eq!(store.get_all_match_paths(), vec!["solo.yml"]);
}

#[test]
fn load_from_single_file_failure_is_fatal() {
    match DefaultConfigStore::load_from_single_file(
        "solo.yml".to_string(),
        Err("broken".to_string()),
    ) {
        Err(e) => assert_eq!(e.kind_message(), "missing default.yml config file"),
        Ok(_) => panic!("expected a fatal failure"),
    }
}

use espanso_core::app_info::{
    chop_trailing_byte, empty_app_info, parse_niri_focused_window, WaylandEmptyAppInfoProvider,
    WaylandKDEAppInfoProvider, WaylandNiriAppInfoProvider,
};
use espanso_core::app_info::AppInfoProvider;
use espanso_core::package::{default_is_core, default_original_repo};
use espanso_core::path_env::{add_espanso_to_path, is_espanso_in_path, remove_espanso_from_path};
use espanso_core::stats_db::{
    build_top_sql, build_totals_sql, build_unique_sql, get_stats_db_path_in, time_filter,
};

#[test]
fn empty_provider_knows_nothing() {
    let provider = WaylandEmptyAppInfoProvider::new();
    let info = provider.get_info();
    assert!(info.title.is_none() && info.class.is_none() && info.exec_path.is_none());
    let info = empty_app_info();
    assert!(info.title.is_none() && info.class.is_none() && info.exec_path.is_none());
    let _ = WaylandKDEAppInfoProvider::new();
    let _ = WaylandNiriAppInfoProvider::new();
}

#[test]
fn chop_trailing_byte_drops_the_newline() {
    let mut bytes = b"firefox\n".to_vec();
    chop_trailing_byte(&mut bytes);
    assert_eq!(bytes, b"firefox");
    let mut empty: Vec<u8> = Vec::new();
    chop_trailing_byte(&mut empty);
    assert!(empty.is_empty());
}

#[test]
fn parse_niri_listing_reads_the_fields() {
    let lines: Vec<String> = [
        "Focused window:",
        "  Title: \"Terminal - bash\"",
        "  App ID: \"org.kde.konsole\"",
        "  PID: 4242",
        "  Is floating: no",
    ]
    .iter()
    .map(|s| s.to_string())
    .collect();
    let fields = parse_niri_focused_window(&lines);
    assert_eq!(fields.title.as_deref(), Some("Terminal - bash"));
    assert_eq!(fields.app_id.as_deref(), Some("org.kde.konsole"));
    assert_eq!(fields.pid.as_deref(), Some("4242"));
}

#[test]
fn parse_niri_listing_without_window_is_empty() {
    let lines: Vec<String> = vec!["No window is focused.".to_string()];
    let fields = parse_niri_focused_window(&lines);
    assert!(fields.title.is_none() && fields.app_id.is_none() && fields.pid.is_none());
}

#[test]
fn package_listing_defaults() {
    assert!(!default_is_core());
    assert_eq!(default_original_repo(), "");
}

#[test]
fn path_registration_logic() {
    let paths = vec!["C:\\bin".to_string(), "C:\\espanso".to_string()];
    assert!(is_espanso_in_path(&paths));
    assert!(!is_espanso_in_path(&vec!["C:\\bin".to_string()]));

    assert_eq!(
        add_espanso_to_path(vec!["C:\\bin".to_string()], "C:\\espanso".to_string()),
        "C:\\bin;C:\\espanso"
    );
    assert_eq!(remove_espanso_from_path(&paths), "C:\\bin");
}

#[test]
fn time_filter_maps_each_period() {
    assert_eq!(time_filter("today"), "AND timestamp >= datetime('now', 'start of day')");
    assert_eq!(time_filter("week"), "AND timestamp >= datetime('now', '-7 days')");
    assert_eq!(time_filter("month"), "AND timestamp >= datetime('now', '-30 days')");
    assert_eq!(time_filter("year"), "AND timestamp >= datetime('now', '-365 days')");
    assert_eq!(time_filter("all"), "");
    assert_eq!(time_filter("anything-else"), "");
}

#[test]
fn stats_db_path_sits_under_the_base_dir() {
    assert_eq!(get_stats_db_path_in("/home/user/.config/espanso"),
        "/home/user/.config/espanso/stats.db");
}

#[test]
fn stats_queries_are_assembled_exactly() {
    assert_eq!(
        build_totals_sql("", false),
        "SELECT COUNT(*) FROM expansions e JOIN triggers t ON e.trigger_id = t.id WHERE 1=1 "
    );
    assert_eq!(
        build_totals_sql("AND timestamp >= datetime('now', '-7 days')", true),
        "SELECT COUNT(*) FROM expansions e JOIN triggers t ON e.trigger_id = t.id WHERE 1=1 AND timestamp >= datetime('now', '-7 days') AND t.name LIKE ?"
    );
    assert_eq!(
        build_unique_sql("", false),
        "SELECT COUNT(*) FROM (SELECT DISTINCT t.id FROM expansions e JOIN triggers t ON e.trigger_id = t.id WHERE 1=1 )"
    );
    assert_eq!(
        build_top_sql("", true),
        "SELECT t.name as trigger, COUNT(*) as count FROM expansions e JOIN triggers t ON e.trigger_id = t.id WHERE 1=1  AND t.name LIKE ? GROUP BY t.name ORDER BY count DESC LIMIT ?"
    );
}

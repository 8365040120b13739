//! Settings.

use logcrab::config::{
    DltTimestampSource, FavoriteFilter, GlobalConfig, SearchRule, SCHEMA_VERSION,
};
use serde_json::Value;

fn favorite(v: &Value) -> Option<FavoriteFilter> {
    let name = match v.get("name") {
        Some(n) => n.as_str()?.to_string(),
        None => String::new(),
    };
    Some(FavoriteFilter {
        search_text: v.get("search_text")?.as_str()?.to_string(),
        case_sensitive: v.get("case_sensitive")?.as_bool()?,
        name,
    })
}

/// Reads the settings of a text; the version is zero where `unversioned` says so.
fn read(contents: &str, unversioned: bool) -> Option<GlobalConfig> {
    let v: Value = serde_json::from_str(contents).ok()?;
    let o = v.as_object()?;
    let mut c = GlobalConfig::default();
    c.schema_version = if unversioned {
        0
    } else {
        u32::try_from(o.get("schema_version")?.as_u64()?).ok()?
    };
    if let Some(b) = o.get("bright_mode") {
        c.bright_mode = b.as_bool()?;
    }
    if let Some(shortcuts) = o.get("shortcuts") {
        for (k, v) in shortcuts.as_object()? {
            c.shortcuts.insert(k.clone(), v.as_str()?.to_string());
        }
    }
    if let Some(favorites) = o.get("favorite_filters") {
        for f in favorites.as_array()? {
            c.favorite_filters.push(favorite(f)?);
        }
    }
    Some(c)
}

fn parse_contents(contents: &str) -> GlobalConfig {
    let probe = serde_json::from_str::<Value>(contents)
        .ok()
        .and_then(|v| v.as_object().map(|o| o.get("schema_version").cloned()))
        .map(|v| v.and_then(|n| n.as_u64()).and_then(|n| u32::try_from(n).ok()));
    GlobalConfig::parse_contents(probe, &|unversioned: bool| read(contents, unversioned))
}

#[test]
fn v0_config_without_schema_version_migrates() {
    let json = r#"{ "bright_mode": true }"#;
    let config = parse_contents(json);

    assert_eq!(config.schema_version, SCHEMA_VERSION);
    assert!(config.bright_mode, "user setting should survive v0 migration");
    assert!(!config.read_only);
}

#[test]
fn v0_config_preserves_complex_fields() {
    let json = r#"{
            "shortcuts": { "MoveUp": "k" },
            "favorite_filters": [
                { "search_text": "ERROR", "case_sensitive": false, "name": "errors" }
            ],
            "bright_mode": false
        }"#;
    let config = parse_contents(json);

    assert_eq!(config.schema_version, SCHEMA_VERSION);
    assert_eq!(config.shortcuts.len(), 1);
    assert_eq!(config.favorite_filters.len(), 1);
    assert_eq!(config.favorite_filters[0].search_text, "ERROR");
    assert_eq!(config.favorite_filters[0].name, "errors");
}

#[test]
fn future_version_sets_read_only() {
    let json = format!(r#"{{ "schema_version": {} }}"#, SCHEMA_VERSION + 95);
    let config = parse_contents(&json);

    assert!(config.read_only);
    assert_eq!(config.schema_version, SCHEMA_VERSION);
    assert!(!config.bright_mode);
    assert!(config.shortcuts.is_empty());
    assert!(config.favorite_filters.is_empty());
}

#[test]
fn malformed_json_falls_back_to_defaults() {
    let config = parse_contents("not json at all {{{");

    assert_eq!(config.schema_version, SCHEMA_VERSION);
    assert!(!config.read_only);
    assert!(!config.bright_mode);
}

#[test]
fn json_array_falls_back_to_defaults() {
    let config = parse_contents("[1, 2, 3]");

    assert_eq!(config.schema_version, SCHEMA_VERSION);
    assert!(!config.read_only);
}

#[test]
fn unknown_fields_preserves_known() {
    let json = format!(
        r#"{{
                "schema_version": {},
                "bright_mode": true,
                "totally_made_up_field": 42
            }}"#,
        SCHEMA_VERSION
    );
    let config = parse_contents(&json);

    assert_eq!(config.schema_version, SCHEMA_VERSION);
    assert!(config.bright_mode);
    assert!(!config.read_only);
}

#[test]
fn v1_config_migrates_to_current() {
    let json = r#"{ "schema_version": 1, "bright_mode": true }"#;
    let config = parse_contents(json);

    assert_eq!(config.schema_version, SCHEMA_VERSION);
    assert!(config.bright_mode);
    assert!(!config.read_only);
    assert!(!config.use_sidecar_scoring);
    assert!(!config.hide_duplicates);
}

#[test]
fn current_version_no_migration() {
    let json = format!(r#"{{ "schema_version": {}, "bright_mode": true }}"#, SCHEMA_VERSION);
    let config = parse_contents(&json);

    assert_eq!(config.schema_version, SCHEMA_VERSION);
    assert!(config.bright_mode);
    assert!(!config.read_only);
}

#[test]
fn empty_string_falls_back_to_defaults() {
    let config = parse_contents("");

    assert_eq!(config.schema_version, SCHEMA_VERSION);
    assert!(!config.read_only);
}

#[test]
fn defaults_are_those_of_a_first_start() {
    let c = GlobalConfig::default();
    assert_eq!(c.sidecar_host, "127.0.0.1");
    assert_eq!(c.sidecar_port, 8765);
    assert!(c.grey_rare_ml_lines);
    assert_eq!(c.selected_model, None);
    assert_eq!(c.file_config.dlt, DltTimestampSource::StorageTime);
    assert!(!c.file_config.pcap.show_mac_addresses);
    assert!(c.is_saved());
    assert_eq!(DltTimestampSource::default(), DltTimestampSource::StorageTime);
}

#[test]
fn settings_of_newer_programs_are_not_saved() {
    let bright = |mut c: GlobalConfig| {
        assert!(!c.bright_mode);
        c.bright_mode = true;
        c
    };
    let newer = Some(Some(SCHEMA_VERSION + 1));
    let c = GlobalConfig::update(false, newer, &|_: bool| None, bright);
    assert!(c.read_only && !c.is_saved() && c.bright_mode);
    let c = GlobalConfig::update(true, None, &|_: bool| None, bright);
    assert!(c.is_saved() && c.bright_mode);
    let older = |zero: bool| {
        assert!(!zero);
        let mut c = GlobalConfig::default();
        c.schema_version = 2;
        c.hide_duplicates = true;
        Some(c)
    };
    let c = GlobalConfig::update(false, Some(Some(2)), &older, bright);
    assert!(c.hide_duplicates && c.bright_mode);
    assert_eq!(c.schema_version, SCHEMA_VERSION);
}

#[test]
fn saved_settings_come_back() {
    let settings = |_: bool| {
        let mut c = GlobalConfig::default();
        c.sidecar_host = "elsewhere".to_string();
        c.sidecar_port = 9;
        c.last_log_directory = Some("/logs".to_string());
        c.favorite_filters.push(FavoriteFilter::new("x".to_string(), true));
        Some(c)
    };
    let probe = Some(Some(SCHEMA_VERSION));
    let c = GlobalConfig::parse_contents(probe, &settings);
    assert_eq!(format!("{c:?}"), format!("{:?}", settings(false).unwrap()));
    let c = GlobalConfig::update(false, probe, &settings, |c: GlobalConfig| c);
    assert_eq!(format!("{c:?}"), format!("{:?}", settings(false).unwrap()));
}

#[test]
fn scoring_follows_the_settings() {
    let mut c = GlobalConfig::default();
    c.use_sidecar_scoring = true;
    c.selected_model = Some("m".to_string());
    let s = c.scoring_config();
    assert!(s.use_sidecar);
    assert_eq!(s.sidecar_host, "127.0.0.1");
    assert_eq!(s.sidecar_port, 8765);
    assert_eq!(s.model_id.as_deref(), Some("m"));
}

#[test]
fn favorites_are_named_and_found() {
    let mut f = FavoriteFilter::new("ERROR".to_string(), true);
    assert_eq!(f.display_name(), "ERROR");
    f.name = "errors".to_string();
    assert_eq!(f.display_name(), "errors");
    f.name = String::new();
    assert_eq!(f.display_name(), "ERROR");
    let rule = |t: &str, c: bool| SearchRule { search_text: t.to_string(), case_sensitive: c };
    assert!(f.matches(&rule("ERROR", true)));
    assert!(!f.matches(&rule("ERROR", false)));
    assert!(!f.matches(&rule("error", true)));
}

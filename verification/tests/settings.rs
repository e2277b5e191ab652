use ts_bridge::capabilities::{
    advertised_capabilities, encode_token_rows, modifier_mask, semantic_token_modifiers,
    semantic_token_types, token_type_index, user_commands, TokenRow,
};
use ts_bridge::config::{
    Config, DiagnosticPublishMode, PluginSettings, TsserverLogVerbosity,
};
use ts_bridge::registry::{
    idle_sweep, idle_sweep_interval, overflow_sweep, parse_env_bool, parse_idle_ttl, should_evict,
    RegistryEntry,
};

#[test]
fn advertised_capabilities_include_inlay_hints_when_enabled() {
    let settings = PluginSettings::new();
    let caps = advertised_capabilities(&settings);
    assert!(caps.inlay_hint);
    assert!(caps.position_encoding_utf16, "initialize should advertise UTF-16 positions");
    assert!(caps.incremental_sync);
    assert!(caps.open_close);
}

#[test]
fn advertised_capabilities_disable_inlay_hints_when_setting_is_false() {
    let mut settings = PluginSettings::new();
    settings.enable_inlay_hints = false;
    let caps = advertised_capabilities(&settings);
    assert!(!caps.inlay_hint, "initialize must omit inlay hint capability when disabled");
}

#[test]
fn advertised_vocabulary_is_exact() {
    let caps = advertised_capabilities(&PluginSettings::new());
    assert_eq!(
        caps.completion_triggers,
        vec![".", "\"", "'", "`", "/", "@", "<", "#", " "],
    );
    assert_eq!(caps.signature_triggers, vec!["(", ",", "<"]);
    assert_eq!(caps.signature_retriggers, vec![",", ")"]);
    assert_eq!(caps.code_action_kinds, vec!["quickfix", "source.organizeImports"]);
    assert_eq!(
        semantic_token_types(),
        vec![
            "namespace", "type", "class", "interface", "enum", "enumMember", "typeParameter",
            "function", "method", "property", "variable", "parameter", "keyword", "string",
            "number",
        ],
    );
    assert_eq!(
        semantic_token_modifiers(),
        vec![
            "declaration", "definition", "readonly", "static", "async", "abstract", "deprecated",
            "defaultLibrary",
        ],
    );
    assert_eq!(
        user_commands(),
        vec![
            "TSBOrganizeImports", "TSBSortImports", "TSBRemoveUnusedImports", "TSBRemoveUnused",
            "TSBAddMissingImports", "TSBFixAll", "TSBGoToSourceDefinition", "TSBRenameFile",
            "TSBFileReferences", "TSBRestartProject",
        ],
    );
}

#[test]
fn classification_indices_follow_the_legend() {
    assert_eq!(token_type_index("class"), Some(2));
    assert_eq!(token_type_index("local class name"), Some(2));
    assert_eq!(token_type_index("method"), Some(8));
    assert_eq!(token_type_index("member function name"), Some(8));
    assert_eq!(token_type_index("let"), Some(10));
    assert_eq!(token_type_index("numeric literal"), Some(14));
    assert_eq!(token_type_index("jsx text"), None);
    let words = vec![String::from("declaration"), String::from("static")];
    assert_eq!(modifier_mask(&words), (1 << 0) | (1 << 3));
    let unknown = vec![String::from("mystery")];
    assert_eq!(modifier_mask(&unknown), 0);
}

#[test]
fn publish_mode_and_verbosity_parse() {
    assert_eq!(DiagnosticPublishMode::from_str("change"), DiagnosticPublishMode::Change);
    assert_eq!(DiagnosticPublishMode::from_str("insert_leave"), DiagnosticPublishMode::InsertLeave);
    assert_eq!(DiagnosticPublishMode::from_str("anything"), DiagnosticPublishMode::InsertLeave);
    assert_eq!(TsserverLogVerbosity::from_str("terse"), Some(TsserverLogVerbosity::Terse));
    assert_eq!(
        TsserverLogVerbosity::from_str("requestTime"),
        Some(TsserverLogVerbosity::RequestTime),
    );
    assert_eq!(
        TsserverLogVerbosity::from_str("request_time"),
        Some(TsserverLogVerbosity::RequestTime),
    );
    assert_eq!(TsserverLogVerbosity::from_str("loud"), None);
    assert_eq!(TsserverLogVerbosity::Verbose.as_cli_flag(), "verbose");
}

#[test]
fn workspace_settings_merge_reports_changes() {
    let mut config = Config::new(PluginSettings::new());
    let settings: serde_json::Value = serde_json::from_str(
        r#"{ "ts-bridge": { "enable_inlay_hints": false, "publish_diagnostic_on": "change" } }"#,
    )
    .expect("literal parses");
    assert!(config.apply_workspace_settings(&settings));
    assert!(!config.plugin().enable_inlay_hints);
    assert_eq!(config.plugin().publish_diagnostic_on, DiagnosticPublishMode::Change);
    // Applying the same settings again changes nothing.
    assert!(!config.apply_workspace_settings(&settings));
}

#[test]
fn tsserver_launch_options_merge() {
    let mut config = Config::new(PluginSettings::new());
    let settings: serde_json::Value = serde_json::from_str(
        r#"{ "tsserver": {
            "locale": "de",
            "log_verbosity": "verbose",
            "max_old_space_size": 4096,
            "global_plugins": ["a-plugin", 5, "b-plugin"]
        } }"#,
    )
    .expect("literal parses");
    assert!(config.apply_workspace_settings(&settings));
    let tsserver = &config.plugin().tsserver;
    assert_eq!(tsserver.locale.as_deref(), Some("de"));
    assert_eq!(tsserver.log_verbosity, Some(TsserverLogVerbosity::Verbose));
    assert_eq!(tsserver.max_old_space_size, Some(4096));
    assert_eq!(tsserver.global_plugins, vec!["a-plugin", "b-plugin"]);
}

#[test]
fn idle_entries_are_evicted_inside_the_window() {
    let entry = RegistryEntry { last_used: 1_000, active_sessions: 0 };
    let ttl = 60;
    assert!(!should_evict(&entry, 1_059, ttl));
    assert!(should_evict(&entry, 1_060, ttl));
    assert!(should_evict(&entry, 1_100, ttl));
    let busy = RegistryEntry { last_used: 1_000, active_sessions: 1 };
    assert!(!should_evict(&busy, 1_100, ttl));

    let entries = vec![entry, busy];
    let (kept, evicted) = idle_sweep(entries, 1_100, ttl);
    assert_eq!(kept.len(), 1);
    assert_eq!(evicted.len(), 1);
    assert_eq!(kept[0].active_sessions, 1);
    assert_eq!(evicted[0].active_sessions, 0);
}

#[test]
fn sweep_interval_is_half_the_ttl_clamped() {
    assert_eq!(idle_sweep_interval(0), 5);
    assert_eq!(idle_sweep_interval(8), 5);
    assert_eq!(idle_sweep_interval(30), 15);
    assert_eq!(idle_sweep_interval(1_800), 60);
}

#[test]
fn env_bool_spellings() {
    assert_eq!(parse_env_bool("1"), Some(true));
    assert_eq!(parse_env_bool(" true "), Some(true));
    assert_eq!(parse_env_bool("YES"), Some(true));
    assert_eq!(parse_env_bool("On"), Some(true));
    assert_eq!(parse_env_bool("0"), Some(false));
    assert_eq!(parse_env_bool("FALSE"), Some(false));
    assert_eq!(parse_env_bool("no"), Some(false));
    assert_eq!(parse_env_bool("off"), Some(false));
    assert_eq!(parse_env_bool("maybe"), None);
    assert_eq!(parse_env_bool(""), None);
}

#[test]
fn idle_ttl_spellings() {
    assert_eq!(parse_idle_ttl("30s"), Some(Some(30)));
    assert_eq!(parse_idle_ttl("5m"), Some(Some(300)));
    assert_eq!(parse_idle_ttl("2h"), Some(Some(7200)));
    assert_eq!(parse_idle_ttl("45"), Some(Some(45)));
    assert_eq!(parse_idle_ttl(" 45 "), Some(Some(45)));
    assert_eq!(parse_idle_ttl("off"), Some(None));
    assert_eq!(parse_idle_ttl("OFF"), Some(None));
    assert_eq!(parse_idle_ttl("0"), Some(None));
    assert_eq!(parse_idle_ttl("abc"), None);
    assert_eq!(parse_idle_ttl(""), None);
}

#[test]
fn token_rows_encode_relatively() {
    let rows = vec![
        TokenRow { line: 0, start: 0, length: 4, token_type: 2, modifiers: 1 },
        TokenRow { line: 0, start: 10, length: 3, token_type: 8, modifiers: 0 },
        TokenRow { line: 2, start: 5, length: 1, token_type: 10, modifiers: 0 },
    ];
    let data = encode_token_rows(&rows);
    assert_eq!(
        data,
        vec![
            0, 0, 4, 2, 1, // first row: absolute
            0, 10, 3, 8, 0, // same line: start relative
            2, 5, 1, 10, 0, // new line: start absolute again
        ],
    );
}

#[test]
fn overflow_sweep_evicts_the_oldest_down_to_the_cap() {
    let entries = vec![
        RegistryEntry { last_used: 50, active_sessions: 1 },
        RegistryEntry { last_used: 10, active_sessions: 0 },
        RegistryEntry { last_used: 90, active_sessions: 2 },
        RegistryEntry { last_used: 30, active_sessions: 0 },
    ];
    let (kept, evicted) = overflow_sweep(entries, 2);
    assert_eq!(kept.len(), 2);
    assert_eq!(evicted.len(), 2);
    let mut evicted_times: Vec<u64> = evicted.iter().map(|e| e.last_used).collect();
    evicted_times.sort();
    assert_eq!(evicted_times, vec![10, 30]);
    let under_cap = vec![RegistryEntry { last_used: 10, active_sessions: 0 }];
    let (kept, evicted) = overflow_sweep(under_cap, 2);
    assert_eq!(kept.len(), 1);
    assert!(evicted.is_empty());
}

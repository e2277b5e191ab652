use ts_bridge::capabilities::advertised_capabilities;
use ts_bridge::config::{Config, PluginSettings};
use ts_bridge::hints::HintCacheKey;
use ts_bridge::pending::{AdapterKind, LspId};
use ts_bridge::rpc::{DispatchReceipt, ServerKind};
use ts_bridge::session::{
    classify_method, control_restart_decision, InlayPreferenceState, MethodDecision, RestartKind,
    SessionCore,
};
use ts_bridge::types::{Position, Range};

fn range(start_line: u32, start_char: u32, end_line: u32, end_char: u32) -> Range {
    Range {
        start: Position { line: start_line, character: start_char },
        end: Position { line: end_line, character: end_char },
    }
}

fn hint_value(text: &str) -> serde_json::Value {
    serde_json::from_str(&format!("[{{\"label\":\"{text}\"}}]")).expect("literal parses")
}

#[test]
fn restart_replays_exactly_the_open_documents() {
    let config = Config::new(PluginSettings::new());
    let mut session = SessionCore::new(config, String::from("/w"));
    session.documents.open("file:///w/a.ts", "const a = 1;", Some(3), Some(String::from("typescript")));
    session.documents.open("file:///w/b.tsx", "let b;", Some(1), Some(String::from("typescriptreact")));
    session.pending.track_one(
        DispatchReceipt { server: ServerKind::Syntax, seq: 2 },
        &LspId::Number(8),
        AdapterKind::Quickinfo,
        None,
        None,
    );
    session.inlay_cache.store(
        HintCacheKey::new("file:///w/a.ts", &range(0, 0, 5, 0)),
        hint_value("x"),
    );

    let failed = session.on_restarting();
    assert_eq!(failed.len(), 1);
    assert!(failed[0].matches(&LspId::Number(8)));
    assert!(session.pending.is_empty());
    assert!(session
        .inlay_cache
        .lookup(&HintCacheKey::new("file:///w/a.ts", &range(0, 0, 5, 0)))
        .is_none());
    assert!(session.inlay_preferences.configured_for.is_none());

    // The documents survived the restart: the replay set is exactly the open
    // documents with their current text, version and language.
    let replay = session.on_restarted();
    assert_eq!(replay.len(), 2);
    assert_eq!(replay[0].uri, "file:///w/a.ts");
    assert_eq!(replay[0].version, Some(3));
    assert_eq!(replay[0].language_id.as_deref(), Some("typescript"));
    let text: String = replay[0].text.iter().collect();
    assert_eq!(text, "const a = 1;");
    assert_eq!(replay[1].uri, "file:///w/b.tsx");

    // The configuration is untouched, so the advertised capabilities after
    // the restart equal the ones advertised before.
    let caps = advertised_capabilities(session.config.plugin());
    assert!(caps.inlay_hint);
    assert!(caps.position_encoding_utf16);
}

#[test]
fn control_notification_validates_action_kind_and_root() {
    assert_eq!(
        control_restart_decision("restart", Some("both"), Some(true)),
        Some(RestartKind::Both),
    );
    assert_eq!(
        control_restart_decision("restart", Some("syntax"), None),
        Some(RestartKind::Syntax),
    );
    assert_eq!(control_restart_decision("restart", None, None), Some(RestartKind::Both));
    // A non-matching root URI is ignored.
    assert_eq!(control_restart_decision("restart", Some("both"), Some(false)), None);
    // Unknown actions and kinds are ignored.
    assert_eq!(control_restart_decision("reload", Some("both"), Some(true)), None);
    assert_eq!(control_restart_decision("restart", Some("everything"), Some(true)), None);
}

#[test]
fn restart_kind_parses_and_reports() {
    assert_eq!(RestartKind::from_str("syntax"), Some(RestartKind::Syntax));
    assert_eq!(RestartKind::from_str("semantic"), Some(RestartKind::Semantic));
    assert_eq!(RestartKind::from_str("both"), Some(RestartKind::Both));
    assert_eq!(RestartKind::from_str("all"), None);
    assert_eq!(RestartKind::Syntax.as_flags(), (true, false));
    assert_eq!(RestartKind::Semantic.as_flags(), (false, true));
    assert_eq!(RestartKind::Both.as_flags(), (true, true));
    assert_eq!(RestartKind::Both.label(), "both");
}

#[test]
fn identical_hint_requests_hit_the_cache_until_an_edit() {
    let mut session = SessionCore::new(Config::new(PluginSettings::new()), String::from("/w"));
    let key = HintCacheKey::new("file:///w/a.ts", &range(0, 0, 9, 0));
    assert!(session.inlay_cache.lookup(&key).is_none());
    session.inlay_cache.store(key.duplicate(), hint_value("cached"));
    // The identical request is served from the cache.
    let hit = session.inlay_cache.lookup(&key).expect("cache hit");
    assert_eq!(hit.as_array().map(|a| a.len()), Some(1));
    // A different range misses.
    let other = HintCacheKey::new("file:///w/a.ts", &range(0, 0, 9, 1));
    assert!(session.inlay_cache.lookup(&other).is_none());
    // An edit to the document invalidates every entry for its URI.
    session.inlay_cache.invalidate("file:///w/a.ts");
    assert!(session.inlay_cache.lookup(&key).is_none());
}

#[test]
fn inlay_preferences_reconfigure_only_on_change() {
    let mut prefs = InlayPreferenceState::new();
    assert!(prefs.needs_configure(true));
    prefs.mark_configured(true);
    assert!(!prefs.needs_configure(true));
    assert!(prefs.needs_configure(false));
    prefs.invalidate();
    assert!(prefs.needs_configure(true));
}

#[test]
fn request_methods_classify_onto_the_routing_table() {
    assert_eq!(classify_method("shutdown"), MethodDecision::Shutdown);
    assert_eq!(classify_method("initialize"), MethodDecision::InitializeAgain);
    assert_eq!(classify_method("workspace/executeCommand"), MethodDecision::ExecuteCommand);
    assert_eq!(classify_method("textDocument/inlayHint"), MethodDecision::InlayHint);
    assert_eq!(
        classify_method("textDocument/hover"),
        MethodDecision::Route(AdapterKind::Quickinfo),
    );
    assert_eq!(
        classify_method("textDocument/completion"),
        MethodDecision::Route(AdapterKind::Completion),
    );
    assert_eq!(
        classify_method("textDocument/semanticTokens/range"),
        MethodDecision::Route(AdapterKind::SemanticTokens),
    );
    assert_eq!(classify_method("textDocument/mystery"), MethodDecision::Unknown);
}

use ts_bridge::diagnostics::{
    map_severity, Diagnostic, DiagnosticsEvent, DiagnosticsKind, DiagnosticSeverity,
    DiagnosticsState, FileDiagnostics, StepProgress, StepState, Workload,
};
use ts_bridge::protocol::{parse_tsserver_event, request_for_file};
use ts_bridge::queue::Priority;
use ts_bridge::rpc::{Route, ServerKind};
use ts_bridge::types::{Position, Range};

fn diag(message: &str) -> Diagnostic {
    Diagnostic {
        range: Range {
            start: Position { line: 0, character: 0 },
            end: Position { line: 0, character: 3 },
        },
        severity: DiagnosticSeverity::Error,
        code: Some(1),
        message: String::from(message),
    }
}

#[test]
fn request_for_file_targets_both_servers() {
    let spec = request_for_file("/workspace/foo.ts");
    assert_eq!(spec.route, Route::Both);
    assert_eq!(spec.priority, Priority::Low);
    let files = spec
        .payload
        .get("arguments")
        .and_then(|args| args.get("files"))
        .and_then(|entry| entry.as_array())
        .expect("files not present");
    assert_eq!(files.len(), 1);
    assert_eq!(files[0].as_str(), Some("/workspace/foo.ts"));
    assert_eq!(
        spec.payload.get("arguments").and_then(|args| args.get("delay")).and_then(|v| v.as_u64()),
        Some(0),
    );
    assert_eq!(spec.payload.get("command").and_then(|v| v.as_str()), Some("geterr"));
}

#[test]
fn parse_tsserver_event_converts_diagnostics() {
    let payload: serde_json::Value = serde_json::from_str(
        r#"{
            "type": "event",
            "event": "semanticDiag",
            "body": {
                "file": "/workspace/foo.ts",
                "request_seq": 7,
                "diagnostics": [{
                    "start": { "line": 1, "offset": 1 },
                    "end": { "line": 1, "offset": 4 },
                    "text": "oops",
                    "category": "error",
                    "code": 123
                }]
            }
        }"#,
    )
    .expect("literal parses");

    match parse_tsserver_event(&payload) {
        Some(DiagnosticsEvent::Report { uri, diagnostics, request_seq, kind }) => {
            assert_eq!(kind, DiagnosticsKind::Semantic);
            assert_eq!(request_seq, Some(7));
            assert_eq!(uri, "file:///workspace/foo.ts");
            assert_eq!(diagnostics.len(), 1);
            assert_eq!(diagnostics[0].message, "oops");
            assert_eq!(diagnostics[0].severity, DiagnosticSeverity::Error);
            assert_eq!(diagnostics[0].code, Some(123));
            assert_eq!(diagnostics[0].range.start, Position { line: 0, character: 0 });
            assert_eq!(diagnostics[0].range.end, Position { line: 0, character: 3 });
        },
        other => panic!("unexpected diagnostics event: {other:?}"),
    }
}

#[test]
fn parse_tsserver_event_detects_completion_events() {
    let payload: serde_json::Value = serde_json::from_str(
        r#"{
            "type": "event",
            "event": "requestCompleted",
            "body": { "request_seq": 99 }
        }"#,
    )
    .expect("literal parses");

    match parse_tsserver_event(&payload) {
        Some(DiagnosticsEvent::Completed { request_seq }) => assert_eq!(request_seq, 99),
        other => panic!("expected completion event, got {other:?}"),
    }
}

#[test]
fn geterr_round_trip_merges_kinds_in_order() {
    // One geterr dispatched to both children. The syntax child reports two
    // syntax diagnostics and no suggestions; the semantic child reports one.
    let uri = String::from("file:///w/a.ts");
    let mut state = DiagnosticsState::new();
    state.register_pending(ServerKind::Syntax, 5);
    state.register_pending(ServerKind::Semantic, 5);

    state.handle_event(
        ServerKind::Syntax,
        DiagnosticsEvent::Report {
            kind: DiagnosticsKind::Syntax,
            request_seq: Some(5),
            uri: uri.clone(),
            diagnostics: vec![diag("syntax-1"), diag("syntax-2")],
        },
    );
    // Suggestions are still awaited: nothing is published yet.
    assert!(state.take_ready().is_none());

    state.handle_event(
        ServerKind::Syntax,
        DiagnosticsEvent::Report {
            kind: DiagnosticsKind::Suggestion,
            request_seq: Some(5),
            uri: uri.clone(),
            diagnostics: vec![],
        },
    );
    // The syntax dispatch saturated: one publish with the two syntax entries.
    let (first_uri, first) = state.take_ready().expect("syntax publish ready");
    assert_eq!(first_uri, uri);
    assert_eq!(first.len(), 2);
    assert_eq!(first[0].message, "syntax-1");
    assert_eq!(first[1].message, "syntax-2");
    assert!(state.take_ready().is_none());

    // A requestCompleted for the already-released record changes nothing.
    state.handle_event(ServerKind::Syntax, DiagnosticsEvent::Completed { request_seq: 5 });
    assert!(state.take_ready().is_none());

    state.handle_event(
        ServerKind::Semantic,
        DiagnosticsEvent::Report {
            kind: DiagnosticsKind::Semantic,
            request_seq: Some(5),
            uri: uri.clone(),
            diagnostics: vec![diag("semantic-1")],
        },
    );
    // The semantic kinds overlay the retained state: the cumulative list for
    // the file holds all three diagnostics in syntax, semantic order.
    let (second_uri, second) = state.take_ready().expect("semantic publish ready");
    assert_eq!(second_uri, uri);
    assert_eq!(second.len(), 3);
    assert_eq!(second[0].message, "syntax-1");
    assert_eq!(second[1].message, "syntax-2");
    assert_eq!(second[2].message, "semantic-1");
    assert!(!state.has_pending());
}

#[test]
fn request_completed_flushes_whatever_arrived() {
    let uri = String::from("file:///w/a.ts");
    let mut state = DiagnosticsState::new();
    state.register_pending(ServerKind::Syntax, 3);
    state.handle_event(
        ServerKind::Syntax,
        DiagnosticsEvent::Report {
            kind: DiagnosticsKind::Syntax,
            request_seq: Some(3),
            uri: uri.clone(),
            diagnostics: vec![diag("only-syntax")],
        },
    );
    assert!(state.take_ready().is_none());
    // The suggestion report never comes; completion forces the flush and
    // releases the record.
    state.handle_event(ServerKind::Syntax, DiagnosticsEvent::Completed { request_seq: 3 });
    let (flushed_uri, flushed) = state.take_ready().expect("forced flush ready");
    assert_eq!(flushed_uri, uri);
    assert_eq!(flushed.len(), 1);
    assert_eq!(flushed[0].message, "only-syntax");
    assert!(!state.has_pending());
}

#[test]
fn stray_report_is_published_on_its_own() {
    let mut state = DiagnosticsState::new();
    state.handle_event(
        ServerKind::Syntax,
        DiagnosticsEvent::Report {
            kind: DiagnosticsKind::Syntax,
            request_seq: Some(44),
            uri: String::from("file:///w/b.ts"),
            diagnostics: vec![diag("stray")],
        },
    );
    let (uri, list) = state.take_ready().expect("stray publish ready");
    assert_eq!(uri, "file:///w/b.ts");
    assert_eq!(list.len(), 1);
}

#[test]
fn step_progress_expectations_follow_the_server() {
    let syntax = StepProgress::for_server(ServerKind::Syntax);
    assert!(syntax.syntax.expected);
    assert!(!syntax.semantic.expected);
    assert!(syntax.suggestion.expected);
    assert_eq!(syntax.expected_count(), 2);

    let semantic = StepProgress::for_server(ServerKind::Semantic);
    assert!(!semantic.syntax.expected);
    assert!(semantic.semantic.expected);
    assert!(!semantic.suggestion.expected);
    assert_eq!(semantic.expected_count(), 1);

    let mut progress = syntax;
    assert!(progress.mark(DiagnosticsKind::Syntax));
    assert!(!progress.mark(DiagnosticsKind::Syntax));
    assert_eq!(progress.finish_outstanding(), 1);
}

#[test]
fn step_state_marks_only_awaited_steps() {
    let mut awaited = StepState::expected(true);
    assert_eq!(awaited.expected_count(), 1);
    assert!(awaited.mark_done());
    assert!(!awaited.mark_done());
    let mut unexpected = StepState::expected(false);
    assert_eq!(unexpected.expected_count(), 0);
    assert!(!unexpected.mark_done());
}

#[test]
fn workload_counts_saturate() {
    let mut workload = Workload::new();
    workload.add_expected(3);
    workload.add_completed(2);
    assert_eq!(workload.expected, 3);
    assert_eq!(workload.completed, 2);
    workload.add_completed(5);
    assert_eq!(workload.completed, 3);
    workload.reset();
    assert_eq!(workload.expected, 0);
}

#[test]
fn collect_merges_in_syntax_semantic_suggestion_order() {
    let mut fd = FileDiagnostics::new();
    fd.update_kind(DiagnosticsKind::Suggestion, vec![diag("sug")]);
    fd.update_kind(DiagnosticsKind::Semantic, vec![diag("sem")]);
    fd.update_kind(DiagnosticsKind::Syntax, vec![diag("syn-a"), diag("syn-b")]);
    let merged = fd.collect();
    assert_eq!(merged.len(), 4);
    assert_eq!(merged[0].message, "syn-a");
    assert_eq!(merged[1].message, "syn-b");
    assert_eq!(merged[2].message, "sem");
    assert_eq!(merged[3].message, "sug");
}

#[test]
fn kind_and_severity_names_map_exactly() {
    assert_eq!(DiagnosticsKind::from_event_name("syntaxDiag"), Some(DiagnosticsKind::Syntax));
    assert_eq!(DiagnosticsKind::from_event_name("semanticDiag"), Some(DiagnosticsKind::Semantic));
    assert_eq!(
        DiagnosticsKind::from_event_name("suggestionDiag"),
        Some(DiagnosticsKind::Suggestion),
    );
    assert_eq!(DiagnosticsKind::from_event_name("telemetry"), None);
    assert_eq!(map_severity(Some("error")), DiagnosticSeverity::Error);
    assert_eq!(map_severity(Some("warning")), DiagnosticSeverity::Warning);
    assert_eq!(map_severity(Some("suggestion")), DiagnosticSeverity::Hint);
    assert_eq!(map_severity(Some("message")), DiagnosticSeverity::Information);
    assert_eq!(map_severity(Some("whatever")), DiagnosticSeverity::Warning);
    assert_eq!(map_severity(None), DiagnosticSeverity::Warning);
}

use ts_bridge::pending::{AdapterKind, LspId, PendingRequests};
use ts_bridge::rpc::{DispatchReceipt, ServerKind};

#[test]
fn resolves_at_most_once_per_key() {
    let mut table = PendingRequests::new();
    table.track_one(
        DispatchReceipt { server: ServerKind::Syntax, seq: 7 },
        &LspId::Number(3),
        AdapterKind::Quickinfo,
        None,
        None,
    );
    let first = table.take(ServerKind::Syntax, 7);
    assert!(first.is_some());
    let entry = first.unwrap();
    assert!(entry.id.matches(&LspId::Number(3)));
    assert_eq!(entry.adapter, AdapterKind::Quickinfo);
    // A duplicate response with the same key finds nothing and is dropped.
    let second = table.take(ServerKind::Syntax, 7);
    assert!(second.is_none());
}

#[test]
fn keys_are_per_server() {
    let mut table = PendingRequests::new();
    table.track_one(
        DispatchReceipt { server: ServerKind::Syntax, seq: 1 },
        &LspId::Number(10),
        AdapterKind::Definition,
        None,
        None,
    );
    table.track_one(
        DispatchReceipt { server: ServerKind::Semantic, seq: 1 },
        &LspId::Number(10),
        AdapterKind::Definition,
        None,
        None,
    );
    let semantic = table.take(ServerKind::Semantic, 1).expect("semantic entry present");
    assert!(semantic.id.matches(&LspId::Number(10)));
    let syntax = table.take(ServerKind::Syntax, 1).expect("syntax entry present");
    assert!(syntax.id.matches(&LspId::Number(10)));
}

#[test]
fn chained_tracking_keeps_the_original_id() {
    // A request dispatched to both children, then continued with a follow-up:
    // every tracked entry carries the original LSP id.
    let mut table = PendingRequests::new();
    let original = LspId::Text(String::from("req-42"));
    table.track_one(
        DispatchReceipt { server: ServerKind::Syntax, seq: 5 },
        &original,
        AdapterKind::FixAllChain,
        None,
        None,
    );
    let step_one = table.take(ServerKind::Syntax, 5).expect("first step present");
    // The adapter answered Continue: the follow-up is tracked under a new
    // sequence number but the same id.
    table.track_one(
        DispatchReceipt { server: ServerKind::Syntax, seq: 6 },
        &step_one.id,
        AdapterKind::FixAllChain,
        None,
        None,
    );
    let step_two = table.take(ServerKind::Syntax, 6).expect("second step present");
    assert!(step_two.id.matches(&original));
}

#[test]
fn fail_all_reports_each_request_once() {
    let mut table = PendingRequests::new();
    let id = LspId::Number(9);
    table.track_one(
        DispatchReceipt { server: ServerKind::Syntax, seq: 1 },
        &id,
        AdapterKind::Definition,
        None,
        None,
    );
    table.track_one(
        DispatchReceipt { server: ServerKind::Semantic, seq: 1 },
        &id,
        AdapterKind::Definition,
        None,
        None,
    );
    table.track_one(
        DispatchReceipt { server: ServerKind::Syntax, seq: 2 },
        &LspId::Number(11),
        AdapterKind::Quickinfo,
        None,
        None,
    );
    let mut failed = table.fail_all();
    assert_eq!(failed.len(), 2);
    assert!(table.is_empty());
    let mut nine = 0;
    let mut eleven = 0;
    for entry in failed.drain(..) {
        if entry.matches(&LspId::Number(9)) {
            nine += 1;
        }
        if entry.matches(&LspId::Number(11)) {
            eleven += 1;
        }
    }
    assert_eq!(nine, 1);
    assert_eq!(eleven, 1);
}

#[test]
fn resolve_classifies_frames_and_drops_duplicates() {
    let mut table = PendingRequests::new();
    table.track_one(
        DispatchReceipt { server: ServerKind::Syntax, seq: 12 },
        &LspId::Number(1),
        AdapterKind::Quickinfo,
        None,
        None,
    );
    let event: serde_json::Value =
        serde_json::from_str(r#"{ "type": "event", "event": "typingsInstallerPid" }"#)
            .expect("literal parses");
    assert!(matches!(
        table.resolve(ServerKind::Syntax, &event),
        ts_bridge::pending::Resolution::NotAResponse,
    ));

    let failure: serde_json::Value = serde_json::from_str(
        r#"{ "type": "response", "request_seq": 12, "success": false, "message": "boom" }"#,
    )
    .expect("literal parses");
    match table.resolve(ServerKind::Syntax, &failure) {
        ts_bridge::pending::Resolution::Failed { id, message } => {
            assert!(id.matches(&LspId::Number(1)));
            assert_eq!(message, "boom");
        }
        other => panic!("expected a failed resolution, got {other:?}"),
    }
    // The same frame again finds nothing: the entry resolved at most once.
    assert!(matches!(
        table.resolve(ServerKind::Syntax, &failure),
        ts_bridge::pending::Resolution::Unknown,
    ));
}

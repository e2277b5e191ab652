use serde_json::Value;
use ts_bridge::queue::{Priority, RequestQueue};
use ts_bridge::rpc::{Dispatcher, Route, ServerKind};

fn payload(label: &str) -> Value {
    serde_json::from_str(&format!("{{\"command\":\"{label}\"}}")).expect("literal parses")
}

fn command_of(value: &Value) -> &str {
    value.get("command").and_then(|v| v.as_str()).expect("command present")
}

#[test]
fn drains_const_then_normal_then_low_in_insertion_order() {
    let mut queue = RequestQueue::new();
    queue.enqueue(payload("low-1"), Priority::Low);
    queue.enqueue(payload("normal-1"), Priority::Normal);
    queue.enqueue(payload("const-1"), Priority::Const);
    queue.enqueue(payload("normal-2"), Priority::Normal);
    queue.enqueue(payload("const-2"), Priority::Const);
    queue.enqueue(payload("low-2"), Priority::Low);

    let mut drained = Vec::new();
    while let Some(request) = queue.dequeue() {
        drained.push(request);
    }
    let commands: Vec<&str> = drained.iter().map(|r| command_of(&r.payload)).collect();
    assert_eq!(
        commands,
        vec!["const-1", "const-2", "normal-1", "normal-2", "low-1", "low-2"],
    );
    // Within each band the assigned sequence numbers are increasing.
    assert!(drained[0].seq < drained[1].seq);
    assert!(drained[2].seq < drained[3].seq);
    assert!(drained[4].seq < drained[5].seq);
    assert!(queue.is_empty());
}

#[test]
fn enqueue_assigns_monotonic_seq_and_stamps_payload() {
    let mut queue = RequestQueue::new();
    let first = queue.enqueue(payload("a"), Priority::Normal);
    let second = queue.enqueue(payload("b"), Priority::Normal);
    assert_eq!(first, 0);
    assert_eq!(second, 1);
    let front = queue.dequeue().expect("front present");
    assert_eq!(front.payload.get("seq").and_then(|v| v.as_u64()), Some(0));
    let back = queue.dequeue().expect("back present");
    assert_eq!(back.payload.get("seq").and_then(|v| v.as_u64()), Some(1));
}

#[test]
fn dispatch_both_yields_two_receipts_with_semantic_child() {
    let mut dispatcher = Dispatcher::new(true);
    let receipts = dispatcher.dispatch(Route::Both, payload("updateOpen"), Priority::Const);
    assert_eq!(receipts.len(), 2);
    assert_eq!(receipts[0].server, ServerKind::Syntax);
    assert_eq!(receipts[1].server, ServerKind::Semantic);
}

#[test]
fn dispatch_both_yields_one_receipt_without_semantic_child() {
    let mut dispatcher = Dispatcher::new(false);
    let receipts = dispatcher.dispatch(Route::Both, payload("updateOpen"), Priority::Const);
    assert_eq!(receipts.len(), 1);
    assert_eq!(receipts[0].server, ServerKind::Syntax);
}

#[test]
fn dispatch_semantic_without_child_yields_no_receipts() {
    let mut dispatcher = Dispatcher::new(false);
    let receipts = dispatcher.dispatch(Route::Semantic, payload("geterr"), Priority::Low);
    assert!(receipts.is_empty());
}

#[test]
fn drain_hands_requests_back_in_priority_order() {
    let mut dispatcher = Dispatcher::new(true);
    dispatcher.dispatch(Route::Syntax, payload("geterr"), Priority::Low);
    dispatcher.dispatch(Route::Syntax, payload("quickinfo"), Priority::Normal);
    dispatcher.dispatch(Route::Syntax, payload("configure"), Priority::Const);
    let drained = dispatcher.drain(ServerKind::Syntax);
    let commands: Vec<&str> = drained.iter().map(|r| command_of(&r.payload)).collect();
    assert_eq!(commands, vec!["configure", "quickinfo", "geterr"]);
    assert!(dispatcher.drain(ServerKind::Syntax).is_empty());
}

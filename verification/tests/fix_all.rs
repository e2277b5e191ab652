use ts_bridge::protocol::{
    fix_all_chain_ids, fix_all_start, fix_all_step, hover_markdown, render_tag,
    tsserver_range_from_value, FixAllStep, TextEdit, WorkspaceEditAcc,
};
use ts_bridge::types::{Position, Range};

fn edit(text: &str) -> TextEdit {
    TextEdit {
        range: Range {
            start: Position { line: 0, character: 0 },
            end: Position { line: 0, character: 0 },
        },
        new_text: String::from(text),
    }
}

fn edits_for(acc: &WorkspaceEditAcc, uri: &str) -> Vec<String> {
    for entry in &acc.changes {
        if entry.0 == uri {
            return entry.1.iter().map(|e| e.new_text.clone()).collect();
        }
    }
    Vec::new()
}

#[test]
fn chain_walks_the_three_fix_ids_and_replies_once() {
    let (first, state) = fix_all_start("/w/a.ts");
    assert_eq!(first, "fixClassIncorrectlyImplementsInterface");
    assert_eq!(state.file, "/w/a.ts");

    // First response contributes one edit for a.ts.
    let step = fix_all_step(state, vec![(String::from("file:///w/a.ts"), vec![edit("one")])]);
    let (second, state) = match step {
        FixAllStep::Continue { next_fix_id, state } => (next_fix_id, state),
        FixAllStep::Done { .. } => panic!("chain ended early"),
    };
    assert_eq!(second, "fixAwaitInSyncFunction");

    // Second response touches another file.
    let step = fix_all_step(state, vec![(String::from("file:///w/b.ts"), vec![edit("two")])]);
    let (third, state) = match step {
        FixAllStep::Continue { next_fix_id, state } => (next_fix_id, state),
        FixAllStep::Done { .. } => panic!("chain ended early"),
    };
    assert_eq!(third, "fixUnreachableCode");

    // Third response adds to a.ts again; the chain is exhausted and exactly
    // one reply carries the merged workspace edit.
    let step = fix_all_step(state, vec![(String::from("file:///w/a.ts"), vec![edit("three")])]);
    let done = match step {
        FixAllStep::Done { edit } => edit,
        FixAllStep::Continue { .. } => panic!("chain should be exhausted"),
    };
    assert_eq!(edits_for(&done, "file:///w/a.ts"), vec!["one", "three"]);
    assert_eq!(edits_for(&done, "file:///w/b.ts"), vec!["two"]);
}

#[test]
fn chain_ids_are_fixed_and_ordered() {
    let ids = fix_all_chain_ids();
    assert_eq!(
        ids,
        vec!["fixClassIncorrectlyImplementsInterface", "fixAwaitInSyncFunction", "fixUnreachableCode"],
    );
}

#[test]
fn merge_appends_per_document() {
    let mut acc = WorkspaceEditAcc::new();
    acc.merge_file("file:///w/a.ts", vec![edit("a1")]);
    acc.merge_file("file:///w/b.ts", vec![edit("b1")]);
    acc.merge_file("file:///w/a.ts", vec![edit("a2"), edit("a3")]);
    assert_eq!(edits_for(&acc, "file:///w/a.ts"), vec!["a1", "a2", "a3"]);
    assert_eq!(edits_for(&acc, "file:///w/b.ts"), vec!["b1"]);
}

#[test]
fn hover_markdown_matches_the_quickinfo_shape() {
    let tags = render_tag("deprecated", "Use greetAsync.");
    let value = hover_markdown("const greet: () => void", "Greets the user.", &tags);
    assert_eq!(
        value,
        "```typescript\nconst greet: () => void\n```\n\nGreets the user.\n\n_@deprecated_ \u{2014} Use greetAsync.",
    );
    assert_eq!(hover_markdown("", "docs only", ""), "docs only");
    assert_eq!(hover_markdown("", "", ""), "");
}

#[test]
fn source_definition_spans_convert_to_zero_based_ranges() {
    let span: serde_json::Value = serde_json::from_str(
        r#"{
            "file": "/w/lib.ts",
            "start": { "line": 6, "offset": 3 },
            "end": { "line": 6, "offset": 10 }
        }"#,
    )
    .expect("literal parses");
    let range = tsserver_range_from_value(&span).expect("span converts");
    assert_eq!(range.start, Position { line: 5, character: 2 });
    assert_eq!(range.end, Position { line: 5, character: 9 });
    assert_eq!(
        ts_bridge::utils::tsserver_file_to_uri("/w/lib.ts").as_deref(),
        Some("file:///w/lib.ts"),
    );
}

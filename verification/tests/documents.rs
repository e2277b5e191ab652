use ts_bridge::documents::{DocumentState, DocumentStore, LineMetrics, TextSpan};
use ts_bridge::types::{Position, Range, TextDocumentContentChangeEvent};

fn range(start_line: u32, start_char: u32, end_line: u32, end_char: u32) -> Range {
    Range {
        start: Position { line: start_line, character: start_char },
        end: Position { line: end_line, character: end_char },
    }
}

/// UTF-16 offset of `(line, character)` computed by a plain reference scan
/// over the text, clamped the way the store clamps.
fn reference_offset(text: &str, line: u32, character: u32) -> u32 {
    let mut lines: Vec<Vec<u16>> = Vec::new();
    let mut current: Vec<u16> = Vec::new();
    let mut terminators: Vec<u32> = Vec::new();
    let mut chars = text.chars().peekable();
    while let Some(c) = chars.next() {
        if c == '\n' {
            lines.push(current);
            terminators.push(1);
            current = Vec::new();
        } else if c == '\r' {
            let mut units = 1;
            if chars.peek() == Some(&'\n') {
                chars.next();
                units = 2;
            }
            lines.push(current);
            terminators.push(units);
            current = Vec::new();
        } else {
            let mut buffer = [0u16; 2];
            for unit in c.encode_utf16(&mut buffer) {
                current.push(*unit);
            }
        }
    }
    lines.push(current);
    let l = (line as usize).min(lines.len() - 1);
    let mut offset: u32 = 0;
    for k in 0..l {
        offset += lines[k].len() as u32 + terminators[k];
    }
    offset + (character).min(lines[l].len() as u32)
}

#[test]
fn span_agrees_with_reference_scan_on_mixed_planes() {
    // ASCII, BMP (é, U+00E9) and supplementary plane (𐐷, U+10437) characters.
    let text = "const a = 'é';\nlet b = \"𐐷𐐷\";\r\nend";
    let mut store = DocumentStore::new();
    store.open("file:///w/a.ts", text, Some(1), Some(String::from("typescript")));

    let cases = [
        (0u32, 0u32, 1u32, 4u32),
        (0, 12, 1, 11),
        (1, 9, 2, 3),
        (0, 0, 2, 3),
        (1, 0, 1, 12),
        (9, 99, 9, 99),
    ];
    for (sl, sc, el, ec) in cases {
        let span = store
            .span_for_range("file:///w/a.ts", &range(sl, sc, el, ec))
            .expect("document is open");
        let a = reference_offset(text, sl, sc);
        let b = reference_offset(text, el, ec);
        assert_eq!(span.start, a.min(b), "start for ({sl},{sc})..({el},{ec})");
        assert_eq!(span.length, a.max(b) - a.min(b), "length for ({sl},{sc})..({el},{ec})");
    }
}

#[test]
fn span_for_unknown_document_is_none() {
    let store = DocumentStore::new();
    assert!(store.span_for_range("file:///w/missing.ts", &range(0, 0, 0, 1)).is_none());
}

#[test]
fn incremental_change_splices_text() {
    let mut store = DocumentStore::new();
    store.open("file:///w/a.ts", "let x = 1;\nlet y = 2;\n", Some(1), None);
    let changes = vec![TextDocumentContentChangeEvent {
        range: Some(range(1, 4, 1, 5)),
        text: String::from("z"),
    }];
    store.apply_changes("file:///w/a.ts", &changes, Some(2));
    // After the edit the second line reads `let z = 2;`: offset of (1, 5)
    // still matches a reference scan of the edited text.
    let span = store
        .span_for_range("file:///w/a.ts", &range(1, 0, 1, 5))
        .expect("document is open");
    assert_eq!(span.start, 11);
    assert_eq!(span.length, 5);
}

#[test]
fn full_sync_change_replaces_text() {
    let mut store = DocumentStore::new();
    store.open("file:///w/a.ts", "old", Some(1), None);
    let changes = vec![TextDocumentContentChangeEvent {
        range: None,
        text: String::from("brand new\ncontents"),
    }];
    store.apply_changes("file:///w/a.ts", &changes, Some(2));
    let span = store
        .span_for_range("file:///w/a.ts", &range(1, 0, 1, 8))
        .expect("document is open");
    assert_eq!(span.start, 10);
    assert_eq!(span.length, 8);
}

#[test]
fn reversed_range_edit_is_dropped() {
    let mut state = DocumentState::new("abcdef", Some(1));
    let change = TextDocumentContentChangeEvent {
        range: Some(range(0, 4, 0, 1)),
        text: String::from("X"),
    };
    state.apply_change(&change);
    assert_eq!(state.text.len(), 6);
    assert_eq!(state.text[0], 'a');
    assert_eq!(state.text[5], 'f');
}

#[test]
fn trailing_terminator_keeps_final_position_addressable() {
    let state = DocumentState::new("a\n", Some(1));
    assert_eq!(state.line_metrics.len(), 2);
    assert_eq!(state.line_metrics[1].start_char, 2);
    assert_eq!(state.line_metrics[1].content_chars, 0);
    assert_eq!(state.line_metrics[1].start_utf16, 2);
    assert_eq!(state.total_utf16, 2);
}

#[test]
fn crlf_counts_two_utf16_units() {
    let state = DocumentState::new("ab\r\ncd", Some(1));
    assert_eq!(state.line_metrics.len(), 2);
    assert_eq!(state.line_metrics[1].start_utf16, 4);
    assert_eq!(state.total_utf16, 6);
}

#[test]
fn close_forgets_the_document() {
    let mut store = DocumentStore::new();
    store.open("file:///w/a.ts", "x", Some(1), None);
    assert!(store.is_open("file:///w/a.ts"));
    store.close("file:///w/a.ts");
    assert!(!store.is_open("file:///w/a.ts"));
}

#[test]
fn covering_length_starts_at_zero() {
    let span = TextSpan::covering_length(5_000_000);
    assert_eq!(span.start, 0);
    assert_eq!(span.length, 5_000_000);
}

#[test]
fn empty_document_has_one_empty_line() {
    let metrics = LineMetrics::empty();
    assert_eq!(metrics.start_char, 0);
    assert_eq!(metrics.content_utf16, 0);
    let state = DocumentState::new("", None);
    assert_eq!(state.line_metrics.len(), 1);
    assert_eq!(state.total_utf16, 0);
}

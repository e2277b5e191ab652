use ts_bridge::types::{Position, Range};
use ts_bridge::utils::{
    lsp_position_to_tsserver, lsp_range_to_tsserver, script_kind_from_language, str_eq,
    str_starts_with, str_to_chars, tsserver_file_to_uri, tsserver_position_to_lsp,
    uri_to_file_path, file_path_to_uri,
};

fn range(start_line: u32, start_char: u32, end_line: u32, end_char: u32) -> Range {
    Range {
        start: Position { line: start_line, character: start_char },
        end: Position { line: end_line, character: end_char },
    }
}

#[test]
fn lsp_range_to_tsserver_is_one_based() {
    let input = range(0, 0, 4, 15);
    let converted = lsp_range_to_tsserver(&input);
    assert_eq!(converted.start.line, 1);
    assert_eq!(converted.start.offset, 1);
    assert_eq!(converted.end.line, 5);
    assert_eq!(converted.end.offset, 16);
}

#[test]
fn position_conversion_round_trips() {
    let original = Position { line: 41, character: 7 };
    let ts = lsp_position_to_tsserver(&original);
    let back = tsserver_position_to_lsp(&ts);
    assert_eq!(back.line, original.line);
    assert_eq!(back.character, original.character);

    let origin = Position { line: 0, character: 0 };
    let ts = lsp_position_to_tsserver(&origin);
    assert_eq!(ts.line, 1);
    assert_eq!(ts.offset, 1);
    let back = tsserver_position_to_lsp(&ts);
    assert_eq!(back.line, 0);
    assert_eq!(back.character, 0);
}

#[test]
fn script_kind_covers_known_languages() {
    assert_eq!(script_kind_from_language(Some("javascript")), "JS");
    assert_eq!(script_kind_from_language(Some("javascriptreact")), "JSX");
    assert_eq!(script_kind_from_language(Some("typescriptreact")), "TSX");
    assert_eq!(script_kind_from_language(Some("json")), "JSON");
    assert_eq!(script_kind_from_language(Some("typescript")), "TS");
    assert_eq!(script_kind_from_language(None), "TS");
}

#[test]
fn string_helpers_behave() {
    assert!(str_eq("héllo", "héllo"));
    assert!(!str_eq("héllo", "hello"));
    assert!(str_starts_with("zipfile:///a.ts", "zipfile://"));
    assert!(!str_starts_with("file:///a.ts", "zipfile://"));
    let chars = str_to_chars("a𐐷b");
    assert_eq!(chars.len(), 3);
    assert_eq!(chars[1], '𐐷');
}

#[test]
fn file_path_uri_round_trip() {
    let uri = file_path_to_uri("/tmp/ts-bridge-test.ts").expect("path converts to URI");
    assert_eq!(uri, "file:///tmp/ts-bridge-test.ts");
    let back = uri_to_file_path(&uri).expect("URI converts back to path");
    assert_eq!(back, "/tmp/ts-bridge-test.ts");
}

#[test]
fn zipfile_identifiers_pass_through() {
    let uri = tsserver_file_to_uri("zipfile:///lib/foo.d.ts").expect("zipfile passes through");
    assert_eq!(uri, "zipfile:///lib/foo.d.ts");
    let uri = tsserver_file_to_uri("/w/a.ts").expect("plain path wraps");
    assert_eq!(uri, "file:///w/a.ts");
}

//! Plain data carried between the editor side and the bridge core.

use vstd::prelude::*;

verus! {

/// Zero-based position in a document, measured in UTF-16 code units within the
/// line, as LSP transmits it.
#[derive(Debug, Clone, Copy, PartialEq, Eq, Structural)]
pub struct Position {
    pub line: u32,
    pub character: u32,
}

/// Half-open LSP range between two positions.
#[derive(Debug, Clone, Copy, PartialEq, Eq, Structural)]
pub struct Range {
    pub start: Position,
    pub end: Position,
}

/// Names an open text document.
#[derive(Debug, Clone)]
pub struct TextDocumentIdentifier {
    pub uri: String,
}

/// Document payload delivered by `textDocument/didOpen`.
#[derive(Debug, Clone)]
pub struct TextDocumentItem {
    pub uri: String,
    pub language_id: Option<String>,
    pub version: i32,
    pub text: String,
}

#[derive(Debug, Clone)]
pub struct DidOpenTextDocumentParams {
    pub text_document: TextDocumentItem,
}

#[derive(Debug, Clone)]
pub struct VersionedTextDocumentIdentifier {
    pub uri: String,
    pub version: Option<i32>,
}

/// One incremental edit: replaces `range` with `text`, or the whole document
/// when `range` is absent.
#[derive(Debug, Clone)]
pub struct TextDocumentContentChangeEvent {
    pub range: Option<Range>,
    pub text: String,
}

#[derive(Debug, Clone)]
pub struct DidChangeTextDocumentParams {
    pub text_document: VersionedTextDocumentIdentifier,
    pub content_changes: Vec<TextDocumentContentChangeEvent>,
}

#[derive(Debug, Clone)]
pub struct DidCloseTextDocumentParams {
    pub text_document: TextDocumentIdentifier,
}

} // verus!

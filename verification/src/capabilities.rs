//! The capability set the bridge advertises on `initialize`, and the
//! semantic-token vocabulary it classifies against.

use vstd::prelude::*;

use crate::config::PluginSettings;
use crate::utils::{str_eq, str_to_string};

verus! {

/// The capability toggles the bridge advertises. Every toggle is fixed except
/// the inlay-hint provider, which follows the plugin setting.
#[derive(Debug)]
pub struct CapabilitySet {
    pub position_encoding_utf16: bool,
    pub open_close: bool,
    pub incremental_sync: bool,
    pub save_options: bool,
    pub hover: bool,
    pub definition: bool,
    pub references: bool,
    pub type_definition: bool,
    pub document_symbol: bool,
    pub workspace_symbol: bool,
    pub document_formatting: bool,
    pub completion_resolve: bool,
    pub completion_triggers: Vec<String>,
    pub signature_triggers: Vec<String>,
    pub signature_retriggers: Vec<String>,
    pub code_action_kinds: Vec<String>,
    pub code_action_resolve: bool,
    pub rename_prepare: bool,
    pub semantic_tokens_full: bool,
    pub semantic_tokens_range: bool,
    pub token_types: Vec<String>,
    pub token_modifiers: Vec<String>,
    pub inlay_hint: bool,
    pub commands: Vec<String>,
}

/// The completion trigger characters, in advertised order.
pub open spec fn spec_completion_triggers() -> Seq<Seq<char>> {
    seq!["."@, "\""@, "'"@, "`"@, "/"@, "@"@, "<"@, "#"@, " "@]
}

/// The signature-help trigger characters.
pub open spec fn spec_signature_triggers() -> Seq<Seq<char>> {
    seq!["("@, ","@, "<"@]
}

/// The signature-help retrigger characters.
pub open spec fn spec_signature_retriggers() -> Seq<Seq<char>> {
    seq![","@, ")"@]
}

/// The advertised code-action kinds.
pub open spec fn spec_code_action_kinds() -> Seq<Seq<char>> {
    seq!["quickfix"@, "source.organizeImports"@]
}

/// The semantic-token types, in legend order.
pub open spec fn spec_token_types() -> Seq<Seq<char>> {
    seq![
        "namespace"@,
        "type"@,
        "class"@,
        "interface"@,
        "enum"@,
        "enumMember"@,
        "typeParameter"@,
        "function"@,
        "method"@,
        "property"@,
        "variable"@,
        "parameter"@,
        "keyword"@,
        "string"@,
        "number"@,
    ]
}

/// The semantic-token modifiers, in legend order.
pub open spec fn spec_token_modifiers() -> Seq<Seq<char>> {
    seq![
        "declaration"@,
        "definition"@,
        "readonly"@,
        "static"@,
        "async"@,
        "abstract"@,
        "deprecated"@,
        "defaultLibrary"@,
    ]
}

/// The user-command vocabulary.
pub open spec fn spec_user_commands() -> Seq<Seq<char>> {
    seq![
        "TSBOrganizeImports"@,
        "TSBSortImports"@,
        "TSBRemoveUnusedImports"@,
        "TSBRemoveUnused"@,
        "TSBAddMissingImports"@,
        "TSBFixAll"@,
        "TSBGoToSourceDefinition"@,
        "TSBRenameFile"@,
        "TSBFileReferences"@,
        "TSBRestartProject"@,
    ]
}

/// A string list's texts, element for element.
pub open spec fn texts_of(v: Seq<String>) -> Seq<Seq<char>> {
    v.map_values(|s: String| s@)
}

fn push_str(v: &mut Vec<String>, s: &str)
    ensures
        final(v)@.len() == old(v)@.len() + 1,
        texts_of(final(v)@) == texts_of(old(v)@).push(s@),
        forall|i: int| 0 <= i < old(v)@.len() ==> (#[trigger] final(v)@[i])@ == old(v)@[i]@,
{
    v.push(str_to_string(s));
    proof {
        assert(texts_of(v@) =~= texts_of(old(v)@).push(s@));
    }
}

/// Exactly the toggles the bridge advertises: every fixed capability is on,
/// the vocabularies are the enumerated ones, and the inlay-hint provider is
/// present precisely when `inlay_hints` is.
pub open spec fn advertises(r: CapabilitySet, inlay_hints: bool) -> bool {
    &&& r.position_encoding_utf16
    &&& r.open_close
    &&& r.incremental_sync
    &&& r.save_options
    &&& r.hover
    &&& r.definition
    &&& r.references
    &&& r.type_definition
    &&& r.document_symbol
    &&& r.workspace_symbol
    &&& r.document_formatting
    &&& r.completion_resolve
    &&& r.code_action_resolve
    &&& r.rename_prepare
    &&& r.semantic_tokens_full
    &&& r.semantic_tokens_range
    &&& r.inlay_hint == inlay_hints
    &&& texts_of(r.completion_triggers@) == spec_completion_triggers()
    &&& texts_of(r.signature_triggers@) == spec_signature_triggers()
    &&& texts_of(r.signature_retriggers@) == spec_signature_retriggers()
    &&& texts_of(r.code_action_kinds@) == spec_code_action_kinds()
    &&& texts_of(r.token_types@) == spec_token_types()
    &&& texts_of(r.token_modifiers@) == spec_token_modifiers()
    &&& texts_of(r.commands@) == spec_user_commands()
}

/// The advertised surface is a function of the inlay-hint setting alone: two
/// capability sets advertised for the same setting agree on every toggle and
/// on every vocabulary, so a session that keeps its settings across a restart
/// advertises the same capabilities afterwards.
pub proof fn lemma_capabilities_determined(a: CapabilitySet, b: CapabilitySet, inlay_hints: bool)
    requires
        advertises(a, inlay_hints),
        advertises(b, inlay_hints),
    ensures
        a.inlay_hint == b.inlay_hint,
        texts_of(a.commands@) == texts_of(b.commands@),
        texts_of(a.token_types@) == texts_of(b.token_types@),
        texts_of(a.token_modifiers@) == texts_of(b.token_modifiers@),
        texts_of(a.completion_triggers@) == texts_of(b.completion_triggers@),
        a.position_encoding_utf16 == b.position_encoding_utf16,
        a.incremental_sync == b.incremental_sync,
{
}

/// Builds the capability set advertised for the given settings: UTF-16
/// positions, incremental sync with open/close and save notifications, the
/// full fixed feature set, and the inlay-hint provider exactly when the
/// setting enables it.
pub fn advertised_capabilities(settings: &PluginSettings) -> (r: CapabilitySet)
    ensures
        advertises(r, settings.enable_inlay_hints),
{
    let mut completion_triggers: Vec<String> = Vec::new();
    proof {
        assert(texts_of(completion_triggers@) =~= Seq::<Seq<char>>::empty());
    }
    push_str(&mut completion_triggers, ".");
    push_str(&mut completion_triggers, "\"");
    push_str(&mut completion_triggers, "'");
    push_str(&mut completion_triggers, "`");
    push_str(&mut completion_triggers, "/");
    push_str(&mut completion_triggers, "@");
    push_str(&mut completion_triggers, "<");
    push_str(&mut completion_triggers, "#");
    push_str(&mut completion_triggers, " ");
    proof {
        assert(texts_of(completion_triggers@) =~= spec_completion_triggers());
    }

    let mut signature_triggers: Vec<String> = Vec::new();
    proof {
        assert(texts_of(signature_triggers@) =~= Seq::<Seq<char>>::empty());
    }
    push_str(&mut signature_triggers, "(");
    push_str(&mut signature_triggers, ",");
    push_str(&mut signature_triggers, "<");
    proof {
        assert(texts_of(signature_triggers@) =~= spec_signature_triggers());
    }

    let mut signature_retriggers: Vec<String> = Vec::new();
    proof {
        assert(texts_of(signature_retriggers@) =~= Seq::<Seq<char>>::empty());
    }
    push_str(&mut signature_retriggers, ",");
    push_str(&mut signature_retriggers, ")");
    proof {
        assert(texts_of(signature_retriggers@) =~= spec_signature_retriggers());
    }

    let mut code_action_kinds: Vec<String> = Vec::new();
    proof {
        assert(texts_of(code_action_kinds@) =~= Seq::<Seq<char>>::empty());
    }
    push_str(&mut code_action_kinds, "quickfix");
    push_str(&mut code_action_kinds, "source.organizeImports");
    proof {
        assert(texts_of(code_action_kinds@) =~= spec_code_action_kinds());
    }

    let token_types = semantic_token_types();
    let token_modifiers = semantic_token_modifiers();
    let commands = user_commands();

    CapabilitySet {
        position_encoding_utf16: true,
        open_close: true,
        incremental_sync: true,
        save_options: true,
        hover: true,
        definition: true,
        references: true,
        type_definition: true,
        document_symbol: true,
        workspace_symbol: true,
        document_formatting: true,
        completion_resolve: true,
        completion_triggers,
        signature_triggers,
        signature_retriggers,
        code_action_kinds,
        code_action_resolve: true,
        rename_prepare: true,
        semantic_tokens_full: true,
        semantic_tokens_range: true,
        token_types,
        token_modifiers,
        inlay_hint: settings.enable_inlay_hints,
        commands,
    }
}

/// The semantic-token type legend, in order.
pub fn semantic_token_types() -> (r: Vec<String>)
    ensures
        texts_of(r@) == spec_token_types(),
{
    let mut out: Vec<String> = Vec::new();
    proof {
        assert(texts_of(out@) =~= Seq::<Seq<char>>::empty());
    }
    push_str(&mut out, "namespace");
    push_str(&mut out, "type");
    push_str(&mut out, "class");
    push_str(&mut out, "interface");
    push_str(&mut out, "enum");
    push_str(&mut out, "enumMember");
    push_str(&mut out, "typeParameter");
    push_str(&mut out, "function");
    push_str(&mut out, "method");
    push_str(&mut out, "property");
    push_str(&mut out, "variable");
    push_str(&mut out, "parameter");
    push_str(&mut out, "keyword");
    push_str(&mut out, "string");
    push_str(&mut out, "number");
    proof {
        assert(texts_of(out@) =~= spec_token_types());
    }
    out
}

/// The semantic-token modifier legend, in order.
pub fn semantic_token_modifiers() -> (r: Vec<String>)
    ensures
        texts_of(r@) == spec_token_modifiers(),
{
    let mut out: Vec<String> = Vec::new();
    proof {
        assert(texts_of(out@) =~= Seq::<Seq<char>>::empty());
    }
    push_str(&mut out, "declaration");
    push_str(&mut out, "definition");
    push_str(&mut out, "readonly");
    push_str(&mut out, "static");
    push_str(&mut out, "async");
    push_str(&mut out, "abstract");
    push_str(&mut out, "deprecated");
    push_str(&mut out, "defaultLibrary");
    proof {
        assert(texts_of(out@) =~= spec_token_modifiers());
    }
    out
}

/// The user-command vocabulary, in advertised order.
pub fn user_commands() -> (r: Vec<String>)
    ensures
        texts_of(r@) == spec_user_commands(),
{
    let mut out: Vec<String> = Vec::new();
    proof {
        assert(texts_of(out@) =~= Seq::<Seq<char>>::empty());
    }
    push_str(&mut out, "TSBOrganizeImports");
    push_str(&mut out, "TSBSortImports");
    push_str(&mut out, "TSBRemoveUnusedImports");
    push_str(&mut out, "TSBRemoveUnused");
    push_str(&mut out, "TSBAddMissingImports");
    push_str(&mut out, "TSBFixAll");
    push_str(&mut out, "TSBGoToSourceDefinition");
    push_str(&mut out, "TSBRenameFile");
    push_str(&mut out, "TSBFileReferences");
    push_str(&mut out, "TSBRestartProject");
    proof {
        assert(texts_of(out@) =~= spec_user_commands());
    }
    out
}

/// The legend index a tsserver classification maps to, if it is part of the
/// advertised vocabulary.
pub open spec fn spec_token_type_index(c: Seq<char>) -> Option<u32> {
    if c == "module"@ || c == "namespace"@ {
        Some(0u32)
    } else if c == "type"@ || c == "type alias"@ {
        Some(1u32)
    } else if c == "class"@ || c == "class name"@ || c == "local class name"@ {
        Some(2u32)
    } else if c == "interface"@ || c == "interface name"@ {
        Some(3u32)
    } else if c == "enum"@ || c == "enum name"@ || c == "local enum name"@ {
        Some(4u32)
    } else if c == "enum member name"@ {
        Some(5u32)
    } else if c == "type parameter name"@ {
        Some(6u32)
    } else if c == "function"@ || c == "function name"@ {
        Some(7u32)
    } else if c == "member function name"@ || c == "member accessor name"@ || c == "method"@ {
        Some(8u32)
    } else if c == "property"@ || c == "property declaration"@ || c == "property name"@ || c
        == "member"@ {
        Some(9u32)
    } else if c == "var"@ || c == "let"@ || c == "const"@ || c == "variable"@ || c
        == "variable name"@ || c == "local variable name"@ {
        Some(10u32)
    } else if c == "parameter"@ || c == "parameter name"@ {
        Some(11u32)
    } else if c == "keyword"@ {
        Some(12u32)
    } else if c == "string"@ || c == "string literal"@ {
        Some(13u32)
    } else if c == "numeric literal"@ || c == "number"@ {
        Some(14u32)
    } else {
        None
    }
}

/// Maps a tsserver classification name onto its index in the advertised
/// token-type legend; classifications outside the vocabulary are dropped.
pub fn token_type_index(classification: &str) -> (r: Option<u32>)
    ensures
        r == spec_token_type_index(classification@),
        r is Some ==> r->0 < 15,
{
    let c = classification;
    if str_eq(c, "module") || str_eq(c, "namespace") {
        Some(0)
    } else if str_eq(c, "type") || str_eq(c, "type alias") {
        Some(1)
    } else if str_eq(c, "class") || str_eq(c, "class name") || str_eq(c, "local class name") {
        Some(2)
    } else if str_eq(c, "interface") || str_eq(c, "interface name") {
        Some(3)
    } else if str_eq(c, "enum") || str_eq(c, "enum name") || str_eq(c, "local enum name") {
        Some(4)
    } else if str_eq(c, "enum member name") {
        Some(5)
    } else if str_eq(c, "type parameter name") {
        Some(6)
    } else if str_eq(c, "function") || str_eq(c, "function name") {
        Some(7)
    } else if str_eq(c, "member function name") || str_eq(c, "member accessor name") || str_eq(
        c,
        "method",
    ) {
        Some(8)
    } else if str_eq(c, "property") || str_eq(c, "property declaration") || str_eq(
        c,
        "property name",
    ) || str_eq(c, "member") {
        Some(9)
    } else if str_eq(c, "var") || str_eq(c, "let") || str_eq(c, "const") || str_eq(c, "variable")
        || str_eq(c, "variable name") || str_eq(c, "local variable name") {
        Some(10)
    } else if str_eq(c, "parameter") || str_eq(c, "parameter name") {
        Some(11)
    } else if str_eq(c, "keyword") {
        Some(12)
    } else if str_eq(c, "string") || str_eq(c, "string literal") {
        Some(13)
    } else if str_eq(c, "numeric literal") || str_eq(c, "number") {
        Some(14)
    } else {
        None
    }
}

/// The modifier-mask bit a single modifier word sets, if it is part of the
/// advertised vocabulary.
pub open spec fn spec_modifier_bit(word: Seq<char>) -> Option<u32> {
    if word == "declare"@ || word == "declaration"@ {
        Some(0u32)
    } else if word == "definition"@ {
        Some(1u32)
    } else if word == "readonly"@ {
        Some(2u32)
    } else if word == "static"@ {
        Some(3u32)
    } else if word == "async"@ {
        Some(4u32)
    } else if word == "abstract"@ {
        Some(5u32)
    } else if word == "deprecated"@ {
        Some(6u32)
    } else if word == "defaultLibrary"@ {
        Some(7u32)
    } else {
        None
    }
}

/// The legend bit one modifier word contributes.
pub fn modifier_bit(word: &str) -> (r: Option<u32>)
    ensures
        r == spec_modifier_bit(word@),
        r is Some ==> r->0 < 8,
{
    if str_eq(word, "declare") || str_eq(word, "declaration") {
        Some(0)
    } else if str_eq(word, "definition") {
        Some(1)
    } else if str_eq(word, "readonly") {
        Some(2)
    } else if str_eq(word, "static") {
        Some(3)
    } else if str_eq(word, "async") {
        Some(4)
    } else if str_eq(word, "abstract") {
        Some(5)
    } else if str_eq(word, "deprecated") {
        Some(6)
    } else if str_eq(word, "defaultLibrary") {
        Some(7)
    } else {
        None
    }
}

/// Folds a list of modifier words into the legend bitmask; words outside the
/// vocabulary contribute nothing, so the result stays below `1 << 8`.
pub fn modifier_mask(words: &Vec<String>) -> (r: u32)
    ensures
        r < 256,
{
    let mut mask: u32 = 0;
    let mut i: usize = 0;
    while i < words.len()
        invariant
            mask < 256,
        decreases words@.len() - i,
    {
        if let Some(bit) = modifier_bit(words[i].as_str()) {
            proof {
                assert((1u32 << bit) < 256 && (mask | (1u32 << bit)) < 256) by (bit_vector)
                    requires
                        mask < 256,
                        bit < 8,
                ;
            }
            let bitval: u32 = 1u32 << bit;
            mask = mask | bitval;
        }
        i += 1;
    }
    mask
}

/// One classified span, with absolute zero-based coordinates.
#[derive(Debug, Clone, Copy, PartialEq, Eq, Structural)]
pub struct TokenRow {
    pub line: u32,
    pub start: u32,
    pub length: u32,
    pub token_type: u32,
    pub modifiers: u32,
}

/// Rows are in document order: lines non-decreasing, and starts non-decreasing
/// within one line.
pub open spec fn rows_sorted(rows: Seq<TokenRow>) -> bool {
    forall|k: int|
        0 < k < rows.len() ==> (#[trigger] rows[k]).line > rows[k - 1].line || (rows[k].line
            == rows[k - 1].line && rows[k].start >= rows[k - 1].start)
}

/// The five data words the LSP relative encoding emits for row `k`: the line
/// delta to the previous row, the start delta (absolute on a new line), and
/// the row's length, type and modifier mask.
pub open spec fn spec_token_word(rows: Seq<TokenRow>, k: int, field: int) -> int {
    let row = rows[k];
    if field == 0 {
        if k == 0 {
            row.line as int
        } else {
            row.line - rows[k - 1].line
        }
    } else if field == 1 {
        if k > 0 && rows[k - 1].line == row.line {
            row.start - rows[k - 1].start
        } else {
            row.start as int
        }
    } else if field == 2 {
        row.length as int
    } else if field == 3 {
        row.token_type as int
    } else {
        row.modifiers as int
    }
}

/// Encodes sorted token rows into the LSP semantic-token data array: five
/// words per row, each line and start relative to the previous row.
pub fn encode_token_rows(rows: &Vec<TokenRow>) -> (r: Vec<u32>)
    requires
        rows_sorted(rows@),
    ensures
        r@.len() == rows@.len() * 5,
        forall|k: int, field: int|
            0 <= k < rows@.len() && 0 <= field < 5 ==> #[trigger] r@[k * 5 + field]
                == spec_token_word(rows@, k, field),
{
    let mut data: Vec<u32> = Vec::new();
    let mut prev_line: u32 = 0;
    let mut prev_start: u32 = 0;
    let mut k: usize = 0;
    while k < rows.len()
        invariant
            rows_sorted(rows@),
            k <= rows@.len(),
            data@.len() == k * 5,
            k == 0 ==> prev_line == 0 && prev_start == 0,
            k > 0 ==> prev_line == rows@[k - 1].line && prev_start == rows@[k - 1].start,
            forall|j: int, field: int|
                0 <= j < k && 0 <= field < 5 ==> #[trigger] data@[j * 5 + field]
                    == spec_token_word(rows@, j, field),
        decreases rows@.len() - k,
    {
        let row = rows[k];
        proof {
            if k > 0 {
                assert(rows@[k as int].line > rows@[k as int - 1].line || (rows@[k as int].line
                    == rows@[k as int - 1].line && rows@[k as int].start >= rows@[k as int
                    - 1].start));
            }
        }
        let delta_line = if k == 0 {
            row.line
        } else {
            row.line - prev_line
        };
        let delta_start = if k > 0 && delta_line == 0 {
            row.start - prev_start
        } else {
            row.start
        };
        let ghost data_before = data@;
        data.push(delta_line);
        data.push(delta_start);
        data.push(row.length);
        data.push(row.token_type);
        data.push(row.modifiers);
        proof {
            assert forall|j: int, field: int|
                0 <= j < k + 1 && 0 <= field < 5 implies #[trigger] data@[j * 5 + field]
                == spec_token_word(rows@, j, field) by {
                if j < k {
                    assert(data@[j * 5 + field] == data_before[j * 5 + field]);
                }
            }
        }
        prev_line = row.line;
        prev_start = row.start;
        k += 1;
    }
    data
}

/// Relative-encoding law: the absolute coordinates are recoverable from the
/// encoded words, so the encoding loses nothing. The line of row `k` is the
/// sum of the first `k + 1` line deltas, and its start is its start delta
/// plus, when the line delta is zero, the previous row's start.
pub proof fn lemma_token_encoding_invertible(rows: Seq<TokenRow>, k: int)
    requires
        rows_sorted(rows),
        0 < k < rows.len(),
    ensures
        rows[k].line == rows[k - 1].line + spec_token_word(rows, k, 0),
        spec_token_word(rows, k, 0) == 0 ==> rows[k].start == rows[k - 1].start + spec_token_word(
            rows,
            k,
            1,
        ),
        spec_token_word(rows, k, 0) != 0 ==> rows[k].start == spec_token_word(rows, k, 1),
{
}

} // verus!

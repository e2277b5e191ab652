//! Request and notification specifications, and the pipeline pieces that
//! carry an LSP request through one or more tsserver round-trips.

use vstd::prelude::*;
use vstd::string::{StringExecFns, StrSliceExecFns};

use crate::diagnostics::{map_severity, spec_kind_of_event, Diagnostic, DiagnosticSeverity, DiagnosticsEvent, DiagnosticsKind};
use crate::diagnostics::spec_severity;
use crate::json::{
    json_array, json_as_str, json_as_u64, json_field, json_get, json_insert, json_object_new,
    json_string, json_u64, json_view, spec_field_text, spec_field_uint, spec_int_of, JsonData,
};
use crate::pending::AdapterKind;
use crate::queue::Priority;
use crate::rpc::Route;
use crate::types::{Position, Range};
use crate::utils::{spec_file_to_uri, str_eq, str_to_string, tsserver_file_to_uri};

verus! {

/// Everything the session needs to dispatch one tsserver request and handle
/// its reply.
#[derive(Debug)]
pub struct RequestSpec {
    pub route: Route,
    pub payload: serde_json::Value,
    pub priority: Priority,
    pub adapter: Option<AdapterKind>,
    pub context: Option<serde_json::Value>,
}

/// A one-way tsserver command: no reply is awaited.
#[derive(Debug)]
pub struct NotificationSpec {
    pub route: Route,
    pub payload: serde_json::Value,
    pub priority: Priority,
}

/// The `geterr` command payload for one file: the command name, the one-file
/// list, and a zero delay.
pub open spec fn spec_geterr_payload(file: Seq<char>) -> JsonData {
    JsonData::Object(
        Map::<Seq<char>, JsonData>::empty().insert(
            "command"@,
            JsonData::Text("geterr"@),
        ).insert(
            "arguments"@,
            JsonData::Object(
                Map::<Seq<char>, JsonData>::empty().insert(
                    "files"@,
                    JsonData::Array(seq![JsonData::Text(file)]),
                ).insert(
                    "delay"@,
                    JsonData::Number { as_int: Some(0i64), as_uint: Some(0u64) },
                ),
            ),
        ),
    )
}

/// Builds the `geterr` command for one file: routed to both children at the
/// background priority, so diagnostics never delay interactive requests.
pub fn request_for_file(file: &str) -> (r: NotificationSpec)
    ensures
        r.route == Route::Both,
        r.priority == Priority::Low,
        json_view(r.payload) == spec_geterr_payload(file@),
{
    let mut payload = json_object_new();
    json_insert(&mut payload, "command", json_string("geterr"));
    let mut arguments = json_object_new();
    let mut files: Vec<serde_json::Value> = Vec::new();
    let file_value = json_string(file);
    let ghost file_data = json_view(file_value);
    files.push(file_value);
    proof {
        assert(files@.len() == 1);
        assert(json_view(files@[0]) == file_data);
    }
    let files_value = json_array(files);
    proof {
        assert(json_view(files_value)->Array_0[0] == JsonData::Text(file@));
        assert(json_view(files_value)->Array_0 =~= seq![JsonData::Text(file@)]);
    }
    json_insert(&mut arguments, "files", files_value);
    json_insert(&mut arguments, "delay", json_u64(0));
    json_insert(&mut payload, "arguments", arguments);
    NotificationSpec { route: Route::Both, payload, priority: Priority::Low }
}

/// A one-based coordinate clamped into `u32` and moved down by one,
/// saturating at zero.
pub open spec fn spec_zero_based(n: u64) -> u32 {
    let clamped: u32 = if n > u32::MAX {
        u32::MAX
    } else {
        n as u32
    };
    if clamped > 0 {
        (clamped - 1) as u32
    } else {
        0u32
    }
}

/// The zero-based position a tsserver position object denotes: present
/// exactly when its `line` and `offset` fields read as unsigned numbers.
pub open spec fn spec_position_of(d: JsonData) -> Option<Position> {
    match (spec_field_uint(d, "line"@), spec_field_uint(d, "offset"@)) {
        (Some(line), Some(offset)) => Some(
            Position { line: spec_zero_based(line), character: spec_zero_based(offset) },
        ),
        _ => None,
    }
}

/// The zero-based range a tsserver object's `start` and `end` fields denote.
pub open spec fn spec_range_of(d: JsonData) -> Option<Range> {
    match (json_field(d, "start"@), json_field(d, "end"@)) {
        (Some(start), Some(end)) => match (spec_position_of(start), spec_position_of(end)) {
            (Some(start), Some(end)) => Some(Range { start, end }),
            _ => None,
        },
        _ => None,
    }
}

/// The JSON object a one-based tsserver position serialises to.
pub open spec fn spec_position_data(p: crate::utils::TsserverPosition) -> JsonData {
    JsonData::Object(
        Map::<Seq<char>, JsonData>::empty().insert(
            "line"@,
            JsonData::Number { as_int: Some(p.line as i64), as_uint: Some(p.line as u64) },
        ).insert(
            "offset"@,
            JsonData::Number { as_int: Some(p.offset as i64), as_uint: Some(p.offset as u64) },
        ),
    )
}

/// The JSON object a tsserver range serialises to.
pub open spec fn spec_range_data(
    start: crate::utils::TsserverPosition,
    end: crate::utils::TsserverPosition,
) -> JsonData {
    JsonData::Object(
        Map::<Seq<char>, JsonData>::empty().insert("start"@, spec_position_data(start)).insert(
            "end"@,
            spec_position_data(end),
        ),
    )
}

/// Coordinate round-trip through the wire: converting an LSP range to
/// tsserver's one-based coordinates, serialising it, and reading it back with
/// [`spec_range_of`] yields the original range.
pub proof fn lemma_range_read_round_trip(r: Range)
    requires
        r.start.line < u32::MAX,
        r.start.character < u32::MAX,
        r.end.line < u32::MAX,
        r.end.character < u32::MAX,
    ensures
        spec_range_of(
            spec_range_data(
                crate::utils::spec_lsp_position_to_tsserver(r.start),
                crate::utils::spec_lsp_position_to_tsserver(r.end),
            ),
        ) == Some(r),
{
    reveal_strlit("start");
    reveal_strlit("end");
    reveal_strlit("line");
    reveal_strlit("offset");
    let start = crate::utils::spec_lsp_position_to_tsserver(r.start);
    let end = crate::utils::spec_lsp_position_to_tsserver(r.end);
    let d = spec_range_data(start, end);
    assert("start"@ != "end"@) by {
        assert("start"@.len() != "end"@.len());
    }
    assert("line"@ != "offset"@) by {
        assert("line"@.len() != "offset"@.len());
    }
    assert(json_field(d, "start"@) == Some(spec_position_data(start)));
    assert(json_field(d, "end"@) == Some(spec_position_data(end)));
    assert(spec_field_uint(spec_position_data(start), "line"@) == Some(start.line as u64));
    assert(spec_field_uint(spec_position_data(start), "offset"@) == Some(start.offset as u64));
    assert(spec_field_uint(spec_position_data(end), "line"@) == Some(end.line as u64));
    assert(spec_field_uint(spec_position_data(end), "offset"@) == Some(end.offset as u64));
    assert(spec_position_of(spec_position_data(start)) == Some(r.start));
    assert(spec_position_of(spec_position_data(end)) == Some(r.end));
}

/// Reads a one-based tsserver position from a JSON value and converts it into
/// the zero-based LSP space, saturating at zero.
pub fn tsserver_position_value(value: &serde_json::Value) -> (r: Option<Position>)
    ensures
        r == spec_position_of(json_view(*value)),
{
    let line_value = match json_get(value, "line") {
        Some(v) => v,
        None => {
            return None;
        },
    };
    let line = match json_as_u64(line_value) {
        Some(n) => n,
        None => {
            return None;
        },
    };
    let offset_value = match json_get(value, "offset") {
        Some(v) => v,
        None => {
            return None;
        },
    };
    let offset = match json_as_u64(offset_value) {
        Some(n) => n,
        None => {
            return None;
        },
    };
    let line32 = if line > u32::MAX as u64 {
        u32::MAX
    } else {
        line as u32
    };
    let offset32 = if offset > u32::MAX as u64 {
        u32::MAX
    } else {
        offset as u32
    };
    Some(
        Position {
            line: if line32 > 0 {
                line32 - 1
            } else {
                0
            },
            character: if offset32 > 0 {
                offset32 - 1
            } else {
                0
            },
        },
    )
}

/// Reads a tsserver `start`/`end` pair into a zero-based LSP range.
pub fn tsserver_range_from_value(value: &serde_json::Value) -> (r: Option<Range>)
    ensures
        r == spec_range_of(json_view(*value)),
{
    let start_value = match json_get(value, "start") {
        Some(v) => v,
        None => {
            return None;
        },
    };
    let start = match tsserver_position_value(start_value) {
        Some(p) => p,
        None => {
            return None;
        },
    };
    let end_value = match json_get(value, "end") {
        Some(v) => v,
        None => {
            return None;
        },
    };
    let end = match tsserver_position_value(end_value) {
        Some(p) => p,
        None => {
            return None;
        },
    };
    Some(Range { start, end })
}

/// The signed number held by a field of an object view, if any.
pub open spec fn spec_field_int(d: JsonData, key: Seq<char>) -> Option<i64> {
    match json_field(d, key) {
        Some(field) => spec_int_of(field),
        None => None,
    }
}

/// What one tsserver diagnostic object converts to: its zero-based range,
/// category-mapped severity, numeric code and message text. Nothing when the
/// range or the message is unreadable.
pub open spec fn spec_diagnostic_of(d: JsonData) -> Option<
    (Range, DiagnosticSeverity, Option<i64>, Seq<char>),
> {
    match (spec_range_of(d), spec_field_text(d, "text"@)) {
        (Some(range), Some(text)) => Some(
            (range, spec_severity(spec_field_text(d, "category"@)), spec_field_int(d, "code"@), text),
        ),
        _ => None,
    }
}

/// The diagnostics a report's array converts to, in order, skipping
/// unconvertible elements.
pub open spec fn spec_diagnostics_list(elems: Seq<JsonData>) -> Seq<
    (Range, DiagnosticSeverity, Option<i64>, Seq<char>),
>
    decreases elems.len(),
{
    if elems.len() == 0 {
        Seq::empty()
    } else {
        let rest = spec_diagnostics_list(elems.drop_first());
        match spec_diagnostic_of(elems[0]) {
            Some(converted) => seq![converted] + rest,
            None => rest,
        }
    }
}

proof fn lemma_diagnostics_list_concat(a: Seq<JsonData>, b: Seq<JsonData>)
    ensures
        spec_diagnostics_list(a + b) == spec_diagnostics_list(a) + spec_diagnostics_list(b),
    decreases a.len(),
{
    if a.len() == 0 {
        assert(a + b =~= b);
        assert(spec_diagnostics_list(a) + spec_diagnostics_list(b) =~= spec_diagnostics_list(b));
    } else {
        assert((a + b).drop_first() =~= a.drop_first() + b);
        lemma_diagnostics_list_concat(a.drop_first(), b);
        match spec_diagnostic_of(a[0]) {
            Some(converted) => {
                assert(seq![converted] + (spec_diagnostics_list(a.drop_first())
                    + spec_diagnostics_list(b)) =~= (seq![converted] + spec_diagnostics_list(
                    a.drop_first(),
                )) + spec_diagnostics_list(b));
            },
            None => {},
        }
    }
}

proof fn lemma_diagnostics_list_singleton(e: JsonData)
    ensures
        spec_diagnostics_list(seq![e]) == (match spec_diagnostic_of(e) {
            Some(converted) => seq![converted],
            None => Seq::empty(),
        }),
{
    assert(seq![e].drop_first() =~= Seq::<JsonData>::empty());
    assert(spec_diagnostics_list(Seq::<JsonData>::empty()) =~= Seq::<
        (Range, DiagnosticSeverity, Option<i64>, Seq<char>),
    >::empty());
    match spec_diagnostic_of(e) {
        Some(converted) => {
            assert(seq![converted] + spec_diagnostics_list(seq![e].drop_first())
                =~= seq![converted]);
        },
        None => {},
    }
}

/// An executable diagnostic carries exactly a converted tuple's fields.
pub open spec fn diagnostic_matches(
    d: Diagnostic,
    m: (Range, DiagnosticSeverity, Option<i64>, Seq<char>),
) -> bool {
    &&& d.range == m.0
    &&& d.severity == m.1
    &&& d.code == m.2
    &&& d.message@ == m.3
}

/// The abstract event a tsserver frame parses to: completion of a `geterr`,
/// or one report of one kind for one file.
pub enum EventModel {
    Completed { request_seq: u64 },
    Report {
        kind: DiagnosticsKind,
        request_seq: Option<u64>,
        uri: Seq<char>,
        diagnostics: Seq<(Range, DiagnosticSeverity, Option<i64>, Seq<char>)>,
    },
}

/// The diagnostics event a frame denotes, if it is one: the frame must be an
/// event; `requestCompleted` yields a completion when the body carries a
/// sequence number; a diagnostics event name yields a report when the body
/// names a file that maps to a URI, carrying the converted diagnostics.
pub open spec fn spec_parse_event(d: JsonData) -> Option<EventModel> {
    if spec_field_text(d, "type"@) != Some("event"@) {
        None
    } else {
        match spec_field_text(d, "event"@) {
            None => None,
            Some(name) => {
                if name == "requestCompleted"@ {
                    match json_field(d, "body"@) {
                        Some(body) => match spec_field_uint(body, "request_seq"@) {
                            Some(request_seq) => Some(EventModel::Completed { request_seq }),
                            None => None,
                        },
                        None => None,
                    }
                } else {
                    match spec_kind_of_event(name) {
                        None => None,
                        Some(kind) => match json_field(d, "body"@) {
                            None => None,
                            Some(body) => match spec_field_text(body, "file"@) {
                                None => None,
                                Some(file) => match spec_file_to_uri(file) {
                                    None => None,
                                    Some(uri) => Some(
                                        EventModel::Report {
                                            kind,
                                            request_seq: spec_field_uint(body, "request_seq"@),
                                            uri,
                                            diagnostics: match json_field(body, "diagnostics"@) {
                                                Some(JsonData::Array(elems)) => spec_diagnostics_list(
                                                    elems,
                                                ),
                                                _ => Seq::empty(),
                                            },
                                        },
                                    ),
                                },
                            },
                        },
                    }
                }
            },
        }
    }
}

/// An executable event carries exactly its model's fields.
pub open spec fn event_matches(e: DiagnosticsEvent, m: EventModel) -> bool {
    match (e, m) {
        (
            DiagnosticsEvent::Completed { request_seq: a },
            EventModel::Completed { request_seq: b },
        ) => a == b,
        (
            DiagnosticsEvent::Report { kind: ka, request_seq: sa, uri: ua, diagnostics: da },
            EventModel::Report { kind: kb, request_seq: sb, uri: ub, diagnostics: db },
        ) => {
            &&& ka == kb
            &&& sa == sb
            &&& ua@ == ub
            &&& da@.len() == db.len()
            &&& forall|i: int| 0 <= i < db.len() ==> diagnostic_matches(#[trigger] da@[i], db[i])
        },
        _ => false,
    }
}

/// Converts one tsserver diagnostic object: its range, message text,
/// category-mapped severity and numeric code.
fn convert_diagnostic(value: &serde_json::Value) -> (r: Option<Diagnostic>)
    ensures
        r is Some <==> spec_diagnostic_of(json_view(*value)) is Some,
        r is Some ==> diagnostic_matches(r->0, spec_diagnostic_of(json_view(*value))->0),
{
    let range = match tsserver_range_from_value(value) {
        Some(range) => range,
        None => {
            return None;
        },
    };
    let message = match json_get(value, "text") {
        Some(text_value) => match json_as_str(text_value) {
            Some(text) => text,
            None => {
                return None;
            },
        },
        None => {
            return None;
        },
    };
    let category = match json_get(value, "category") {
        Some(category_value) => json_as_str(category_value),
        None => None,
    };
    let severity = map_severity(match &category {
        Some(text) => Some(text.as_str()),
        None => None,
    });
    let code = match json_get(value, "code") {
        Some(code_value) => crate::json::json_as_i64(code_value),
        None => None,
    };
    Some(Diagnostic { range, severity, code, message })
}

/// Parses a tsserver frame into a diagnostics event, if it is one: a
/// `syntaxDiag`/`semanticDiag`/`suggestionDiag` report or a
/// `requestCompleted` marker. Anything else yields nothing.
pub fn parse_tsserver_event(payload: &serde_json::Value) -> (r: Option<DiagnosticsEvent>)
    ensures
        r is Some <==> spec_parse_event(json_view(*payload)) is Some,
        r is Some ==> event_matches(r->0, spec_parse_event(json_view(*payload))->0),
{
    let type_value = match json_get(payload, "type") {
        Some(v) => v,
        None => {
            return None;
        },
    };
    let type_text = match json_as_str(type_value) {
        Some(t) => t,
        None => {
            return None;
        },
    };
    if !str_eq(type_text.as_str(), "event") {
        return None;
    }
    let event_value = match json_get(payload, "event") {
        Some(v) => v,
        None => {
            return None;
        },
    };
    let event_name = match json_as_str(event_value) {
        Some(t) => t,
        None => {
            return None;
        },
    };
    if str_eq(event_name.as_str(), "requestCompleted") {
        let seq = match json_get(payload, "body") {
            Some(body) => match json_get(body, "request_seq") {
                Some(seq_value) => json_as_u64(seq_value),
                None => None,
            },
            None => None,
        };
        return match seq {
            Some(request_seq) => Some(DiagnosticsEvent::Completed { request_seq }),
            None => None,
        };
    }
    let kind = match DiagnosticsKind::from_event_name(event_name.as_str()) {
        Some(kind) => kind,
        None => {
            return None;
        },
    };
    let body = match json_get(payload, "body") {
        Some(body) => body,
        None => {
            return None;
        },
    };
    let file = match json_get(body, "file") {
        Some(file_value) => match json_as_str(file_value) {
            Some(file) => file,
            None => {
                return None;
            },
        },
        None => {
            return None;
        },
    };
    let uri = match tsserver_file_to_uri(file.as_str()) {
        Some(uri) => uri,
        None => {
            return None;
        },
    };
    let request_seq = match json_get(body, "request_seq") {
        Some(seq_value) => json_as_u64(seq_value),
        None => None,
    };
    let mut diagnostics: Vec<Diagnostic> = Vec::new();
    if let Some(list_value) = json_get(body, "diagnostics") {
        if let Some(list) = crate::json::json_as_array(list_value) {
            let ghost elems = json_view(*list_value)->Array_0;
            proof {
                assert(spec_diagnostics_list(elems.take(0)) =~= Seq::<
                    (Range, DiagnosticSeverity, Option<i64>, Seq<char>),
                >::empty());
            }
            let mut i: usize = 0;
            while i < list.len()
                invariant
                    i <= list@.len(),
                    list@.len() == elems.len(),
                    forall|j: int| 0 <= j < elems.len() ==> json_view(#[trigger] list@[j]) == elems[j],
                    diagnostics@.len() == spec_diagnostics_list(elems.take(i as int)).len(),
                    forall|j: int|
                        0 <= j < diagnostics@.len() ==> diagnostic_matches(
                            #[trigger] diagnostics@[j],
                            spec_diagnostics_list(elems.take(i as int))[j],
                        ),
                decreases list@.len() - i,
            {
                let ghost prefix = spec_diagnostics_list(elems.take(i as int));
                proof {
                    assert(elems.take(i as int + 1) =~= elems.take(i as int) + seq![
                        elems[i as int],
                    ]);
                    lemma_diagnostics_list_concat(elems.take(i as int), seq![elems[i as int]]);
                    lemma_diagnostics_list_singleton(elems[i as int]);
                }
                let ghost before = diagnostics@;
                if let Some(diagnostic) = convert_diagnostic(&list[i]) {
                    diagnostics.push(diagnostic);
                    proof {
                        assert forall|j: int|
                            0 <= j < diagnostics@.len() implies diagnostic_matches(
                            #[trigger] diagnostics@[j],
                            spec_diagnostics_list(elems.take(i as int + 1))[j],
                        ) by {
                            if j < before.len() {
                                assert(diagnostics@[j] == before[j]);
                                assert(spec_diagnostics_list(elems.take(i as int + 1))[j]
                                    == prefix[j]);
                            }
                        }
                    }
                }
                i += 1;
            }
            proof {
                assert(elems.take(elems.len() as int) =~= elems);
            }
        }
    }
    Some(DiagnosticsEvent::Report { kind, request_seq, uri, diagnostics })
}

/// One accumulated workspace edit: text edits grouped by document.
#[derive(Debug)]
pub struct TextEdit {
    pub range: Range,
    pub new_text: String,
}

/// Edits grouped by the document they apply to.
#[derive(Debug)]
pub struct WorkspaceEditAcc {
    pub changes: Vec<(String, Vec<TextEdit>)>,
}

/// First edit list stored for `uri`, scanning from the front.
pub open spec fn edits_lookup(changes: Seq<(String, Vec<TextEdit>)>, uri: Seq<char>) -> Option<
    Seq<TextEdit>,
>
    decreases changes.len(),
{
    if changes.len() == 0 {
        None
    } else if changes[0].0@ == uri {
        Some(changes[0].1@)
    } else {
        edits_lookup(changes.drop_first(), uri)
    }
}

impl WorkspaceEditAcc {
    /// No edits yet.
    pub fn new() -> (r: WorkspaceEditAcc)
        ensures
            r.changes@.len() == 0,
            forall|u: Seq<char>| edits_lookup(r.changes@, u) is None,
    {
        WorkspaceEditAcc { changes: Vec::new() }
    }

    /// Appends one document's edits behind whatever is already recorded for
    /// that document; every other document's edits are untouched.
    pub fn merge_file(&mut self, uri: &str, mut edits: Vec<TextEdit>)
        ensures
            ({
                let stored = edits_lookup(final(self).changes@, uri@);
                let before = edits_lookup(old(self).changes@, uri@);
                &&& stored is Some
                &&& stored->0 == (match before {
                    Some(existing) => existing + edits@,
                    None => edits@,
                })
            }),
            forall|u: Seq<char>|
                u != uri@ ==> edits_lookup(final(self).changes@, u) == edits_lookup(
                    old(self).changes@,
                    u,
                ),
    {
        let found = find_edits(&self.changes, uri);
        match found {
            Some(i) => {
                proof {
                    lemma_edits_found(self.changes@, uri@, i as int);
                }
                let ghost before = self.changes@;
                let mut entry = self.changes.remove(i);
                entry.1.append(&mut edits);
                let ghost mid = self.changes@;
                proof {
                    assert(mid =~= before.take(i as int) + before.skip(i as int + 1));
                    assert forall|u: Seq<char>| u != uri@ implies edits_lookup(mid, u)
                        == edits_lookup(before, u) by {
                        lemma_edits_remove(before, i as int, u);
                    }
                }
                self.changes.insert(0, entry);
                proof {
                    assert(self.changes@[0].0@ == uri@);
                    assert(self.changes@.drop_first() =~= mid);
                }
            },
            None => {
                proof {
                    lemma_edits_none(self.changes@, uri@);
                }
                let ghost before = self.changes@;
                self.changes.insert(0, (str_to_string(uri), edits));
                proof {
                    assert(self.changes@[0].0@ == uri@);
                    assert(self.changes@.drop_first() =~= before);
                }
            },
        }
    }
}

/// Index of the edits recorded for `uri`, scanning from the front.
fn find_edits(changes: &Vec<(String, Vec<TextEdit>)>, uri: &str) -> (r: Option<usize>)
    ensures
        match r {
            Some(i) => {
                &&& i < changes@.len()
                &&& changes@[i as int].0@ == uri@
                &&& forall|j: int| 0 <= j < i ==> (#[trigger] changes@[j]).0@ != uri@
            },
            None => forall|j: int| 0 <= j < changes@.len() ==> (#[trigger] changes@[j]).0@ != uri@,
        },
{
    let mut i: usize = 0;
    while i < changes.len()
        invariant
            i <= changes@.len(),
            forall|j: int| 0 <= j < i ==> (#[trigger] changes@[j]).0@ != uri@,
        decreases changes@.len() - i,
    {
        if str_eq(changes[i].0.as_str(), uri) {
            return Some(i);
        }
        i += 1;
    }
    None
}

proof fn lemma_edits_found(changes: Seq<(String, Vec<TextEdit>)>, uri: Seq<char>, i: int)
    requires
        0 <= i < changes.len(),
        changes[i].0@ == uri,
        forall|j: int| 0 <= j < i ==> (#[trigger] changes[j]).0@ != uri,
    ensures
        edits_lookup(changes, uri) == Some(changes[i].1@),
    decreases changes.len(),
{
    if i > 0 {
        assert forall|j: int| 0 <= j < i - 1 implies (#[trigger] changes.drop_first()[j]).0@
            != uri by {
            assert(changes.drop_first()[j] == changes[j + 1]);
        }
        assert(changes.drop_first()[i - 1] == changes[i]);
        lemma_edits_found(changes.drop_first(), uri, i - 1);
    }
}

proof fn lemma_edits_remove(changes: Seq<(String, Vec<TextEdit>)>, i: int, u: Seq<char>)
    requires
        0 <= i < changes.len(),
        u != changes[i].0@,
    ensures
        edits_lookup(changes.take(i) + changes.skip(i + 1), u) == edits_lookup(changes, u),
    decreases changes.len(),
{
    let rest = changes.take(i) + changes.skip(i + 1);
    if i == 0 {
        assert(rest =~= changes.drop_first());
    } else {
        assert(rest[0] == changes[0]);
        if changes[0].0@ == u {
        } else {
            assert(changes.drop_first()[i - 1] == changes[i]);
            lemma_edits_remove(changes.drop_first(), i - 1, u);
            assert(rest.drop_first() =~= changes.drop_first().take(i - 1)
                + changes.drop_first().skip(i));
        }
    }
}

proof fn lemma_edits_none(changes: Seq<(String, Vec<TextEdit>)>, uri: Seq<char>)
    requires
        forall|j: int| 0 <= j < changes.len() ==> (#[trigger] changes[j]).0@ != uri,
    ensures
        edits_lookup(changes, uri) is None,
    decreases changes.len(),
{
    if changes.len() > 0 {
        assert forall|j: int|
            0 <= j < changes.drop_first().len() implies (#[trigger] changes.drop_first()[j]).0@
            != uri by {
            assert(changes.drop_first()[j] == changes[j + 1]);
        }
        lemma_edits_none(changes.drop_first(), uri);
    }
}

/// Some entry of the response's edit list names this document.
pub open spec fn touches(edits: Seq<(String, Vec<TextEdit>)>, u: Seq<char>) -> bool {
    exists|k: int| 0 <= k < edits.len() && (#[trigger] edits[k]).0@ == u
}

/// Every edit the response contributes to one document, in response order.
pub open spec fn spec_edits_for(edits: Seq<(String, Vec<TextEdit>)>, u: Seq<char>) -> Seq<TextEdit>
    decreases edits.len(),
{
    if edits.len() == 0 {
        Seq::empty()
    } else {
        (if edits[0].0@ == u {
            edits[0].1@
        } else {
            Seq::empty()
        }) + spec_edits_for(edits.drop_first(), u)
    }
}

proof fn lemma_edits_for_concat(a: Seq<(String, Vec<TextEdit>)>, b: Seq<(String, Vec<TextEdit>)>, u: Seq<char>)
    ensures
        spec_edits_for(a + b, u) == spec_edits_for(a, u) + spec_edits_for(b, u),
    decreases a.len(),
{
    if a.len() == 0 {
        assert(a + b =~= b);
        assert(spec_edits_for(a, u) + spec_edits_for(b, u) =~= spec_edits_for(b, u));
    } else {
        assert((a + b).drop_first() =~= a.drop_first() + b);
        lemma_edits_for_concat(a.drop_first(), b, u);
        let head = if a[0].0@ == u {
            a[0].1@
        } else {
            Seq::<TextEdit>::empty()
        };
        assert(head + (spec_edits_for(a.drop_first(), u) + spec_edits_for(b, u)) =~= (head
            + spec_edits_for(a.drop_first(), u)) + spec_edits_for(b, u));
    }
}

proof fn lemma_edits_for_singleton(e: (String, Vec<TextEdit>), u: Seq<char>)
    ensures
        spec_edits_for(seq![e], u) == (if e.0@ == u {
            e.1@
        } else {
            Seq::<TextEdit>::empty()
        }),
{
    assert(seq![e].drop_first() =~= Seq::<(String, Vec<TextEdit>)>::empty());
    if e.0@ == u {
        assert(e.1@ + spec_edits_for(Seq::<(String, Vec<TextEdit>)>::empty(), u) =~= e.1@);
    } else {
        assert(Seq::<TextEdit>::empty() + spec_edits_for(
            Seq::<(String, Vec<TextEdit>)>::empty(),
            u,
        ) =~= Seq::<TextEdit>::empty());
    }
}

proof fn lemma_edits_for_untouched(edits: Seq<(String, Vec<TextEdit>)>, u: Seq<char>)
    requires
        !touches(edits, u),
    ensures
        spec_edits_for(edits, u) == Seq::<TextEdit>::empty(),
    decreases edits.len(),
{
    if edits.len() > 0 {
        assert(edits[0].0@ != u);
        assert forall|k: int| 0 <= k < edits.drop_first().len() implies (
        #[trigger] edits.drop_first()[k]).0@ != u by {
            assert(edits.drop_first()[k] == edits[k + 1]);
        }
        lemma_edits_for_untouched(edits.drop_first(), u);
        assert(Seq::<TextEdit>::empty() + spec_edits_for(edits.drop_first(), u) =~= Seq::<
            TextEdit,
        >::empty());
    }
}

/// `after` is `before` with the response's edits merged in: every document the
/// response touches holds its previous edits followed by the response's, in
/// order; every other document is untouched.
pub open spec fn edits_merged(
    before: Seq<(String, Vec<TextEdit>)>,
    given: Seq<(String, Vec<TextEdit>)>,
    after: Seq<(String, Vec<TextEdit>)>,
) -> bool {
    forall|u: Seq<char>|
        #![trigger edits_lookup(after, u)]
        if touches(given, u) {
            edits_lookup(after, u) == Some(
                (match edits_lookup(before, u) {
                    Some(existing) => existing,
                    None => Seq::<TextEdit>::empty(),
                }) + spec_edits_for(given, u),
            )
        } else {
            edits_lookup(after, u) == edits_lookup(before, u)
        }
}

/// The running state of a fix-all command: the target file, the fix ids still
/// to be requested, and the edits gathered so far.
#[derive(Debug)]
pub struct FixAllState {
    pub file: String,
    pub pending_fix_ids: Vec<String>,
    pub accumulated: WorkspaceEditAcc,
}

/// What one fix-all chain step decides: issue the next `getCombinedCodeFix`
/// request, or reply with the accumulated edit.
#[derive(Debug)]
pub enum FixAllStep {
    Continue { next_fix_id: String, state: FixAllState },
    Done { edit: WorkspaceEditAcc },
}

/// The fix ids a fix-all command walks through, in order.
pub fn fix_all_chain_ids() -> (r: Vec<String>)
    ensures
        r@.len() == 3,
        r@[0]@ == "fixClassIncorrectlyImplementsInterface"@,
        r@[1]@ == "fixAwaitInSyncFunction"@,
        r@[2]@ == "fixUnreachableCode"@,
{
    let mut ids: Vec<String> = Vec::new();
    ids.push(str_to_string("fixClassIncorrectlyImplementsInterface"));
    ids.push(str_to_string("fixAwaitInSyncFunction"));
    ids.push(str_to_string("fixUnreachableCode"));
    ids
}

/// Starts a fix-all chain for `file`: the first fix id to request, and the
/// state carrying the rest.
pub fn fix_all_start(file: &str) -> (r: (String, FixAllState))
    ensures
        r.0@ == "fixClassIncorrectlyImplementsInterface"@,
        r.1.file@ == file@,
        r.1.pending_fix_ids@.len() == 2,
        r.1.pending_fix_ids@[0]@ == "fixAwaitInSyncFunction"@,
        r.1.pending_fix_ids@[1]@ == "fixUnreachableCode"@,
        r.1.accumulated.changes@.len() == 0,
{
    let mut ids = fix_all_chain_ids();
    let first = ids.remove(0);
    (
        first,
        FixAllState {
            file: str_to_string(file),
            pending_fix_ids: ids,
            accumulated: WorkspaceEditAcc::new(),
        },
    )
}

/// One chain step: merges the response's edits into the accumulator and
/// either continues with the next fix id or finishes with the merged edit.
/// Exactly one reply leaves the chain, when the pending ids run out.
pub fn fix_all_step(state: FixAllState, edits: Vec<(String, Vec<TextEdit>)>) -> (r: FixAllStep)
    ensures
        state.pending_fix_ids@.len() > 0 ==> (r matches FixAllStep::Continue {
            next_fix_id,
            state: st,
        } && next_fix_id@ == state.pending_fix_ids@[0]@ && st.file@ == state.file@
            && st.pending_fix_ids@.len() == state.pending_fix_ids@.len() - 1 && (forall|i: int|
            0 <= i < st.pending_fix_ids@.len() ==> (#[trigger] st.pending_fix_ids@[i])@
                == state.pending_fix_ids@[i + 1]@) && edits_merged(
            state.accumulated.changes@,
            edits@,
            st.accumulated.changes@,
        )),
        state.pending_fix_ids@.len() == 0 ==> (r matches FixAllStep::Done { edit } && edits_merged(
            state.accumulated.changes@,
            edits@,
            edit.changes@,
        )),
{
    let ghost file0 = state.file@;
    let ghost pend0 = state.pending_fix_ids@;
    let ghost acc0 = state.accumulated.changes@;
    let ghost given0 = edits@;
    let mut state = state;
    let mut edits = edits;
    proof {
        assert(edits_merged(acc0, given0.take(0), state.accumulated.changes@)) by {
            assert forall|u: Seq<char>| !touches(given0.take(0), u) by {}
        }
    }
    while edits.len() > 0
        invariant
            state.file@ == file0,
            state.pending_fix_ids@ == pend0,
            edits@.len() <= given0.len(),
            edits@ == given0.skip(given0.len() - edits@.len()),
            edits_merged(
                acc0,
                given0.take(given0.len() - edits@.len()),
                state.accumulated.changes@,
            ),
        decreases edits@.len(),
    {
        let ghost p = given0.len() - edits@.len();
        let ghost acc_before = state.accumulated.changes@;
        let entry = edits.remove(0);
        proof {
            assert(entry == given0[p]);
            assert(edits@ =~= given0.skip(p + 1));
        }
        state.accumulated.merge_file(entry.0.as_str(), entry.1);
        proof {
            lemma_step_merge(acc0, given0, p, acc_before, state.accumulated.changes@, entry);
        }
    }
    proof {
        assert(given0.take(given0.len() as int) =~= given0);
    }
    if state.pending_fix_ids.len() > 0 {
        let next = state.pending_fix_ids.remove(0);
        FixAllStep::Continue { next_fix_id: next, state }
    } else {
        FixAllStep::Done { edit: state.accumulated }
    }
}

/// One merge step extends the accumulated relation from a prefix of the
/// response's edits to one entry more.
proof fn lemma_step_merge(
    acc0: Seq<(String, Vec<TextEdit>)>,
    given: Seq<(String, Vec<TextEdit>)>,
    p: int,
    before: Seq<(String, Vec<TextEdit>)>,
    after: Seq<(String, Vec<TextEdit>)>,
    entry: (String, Vec<TextEdit>),
)
    requires
        0 <= p < given.len(),
        entry == given[p],
        edits_merged(acc0, given.take(p), before),
        edits_lookup(after, entry.0@) == Some(
            (match edits_lookup(before, entry.0@) {
                Some(existing) => existing,
                None => Seq::<TextEdit>::empty(),
            }) + entry.1@,
        ),
        forall|u: Seq<char>|
            u != entry.0@ ==> edits_lookup(after, u) == edits_lookup(before, u),
    ensures
        edits_merged(acc0, given.take(p + 1), after),
{
    assert(given.take(p + 1) =~= given.take(p) + seq![entry]);
    assert forall|u: Seq<char>|
        #![trigger edits_lookup(after, u)]
        if touches(given.take(p + 1), u) {
            edits_lookup(after, u) == Some(
                (match edits_lookup(acc0, u) {
                    Some(existing) => existing,
                    None => Seq::<TextEdit>::empty(),
                }) + spec_edits_for(given.take(p + 1), u),
            )
        } else {
            edits_lookup(after, u) == edits_lookup(acc0, u)
        } by {
        lemma_edits_for_concat(given.take(p), seq![entry], u);
        lemma_edits_for_singleton(entry, u);
        let base = match edits_lookup(acc0, u) {
            Some(existing) => existing,
            None => Seq::<TextEdit>::empty(),
        };
        if u == entry.0@ {
            assert(touches(given.take(p + 1), u)) by {
                assert(given.take(p + 1)[p] == entry);
            }
            if touches(given.take(p), u) {
                assert(base + (spec_edits_for(given.take(p), u) + entry.1@) =~= (base
                    + spec_edits_for(given.take(p), u)) + entry.1@);
            } else {
                lemma_edits_for_untouched(given.take(p), u);
                assert(spec_edits_for(given.take(p + 1), u) =~= entry.1@);
                assert(base + entry.1@ =~= base + spec_edits_for(given.take(p + 1), u));
            }
        } else {
            assert(spec_edits_for(given.take(p + 1), u) == spec_edits_for(given.take(p), u)
                + Seq::<TextEdit>::empty());
            assert(spec_edits_for(given.take(p), u) + Seq::<TextEdit>::empty() =~= spec_edits_for(
                given.take(p),
                u,
            ));
            if touches(given.take(p + 1), u) {
                assert(touches(given.take(p), u)) by {
                    let k0 = choose|k: int|
                        0 <= k < given.take(p + 1).len() && (#[trigger] given.take(p + 1)[k]).0@
                            == u;
                    assert(given.take(p)[k0] == given.take(p + 1)[k0]);
                }
            } else {
                assert(!touches(given.take(p), u)) by {
                    if touches(given.take(p), u) {
                        let k0 = choose|k: int|
                            0 <= k < given.take(p).len() && (#[trigger] given.take(p)[k]).0@ == u;
                        assert(given.take(p + 1)[k0] == given.take(p)[k0]);
                    }
                }
            }
        }
    }
}


/// One rendered documentation-tag line: the tag name set off as `_@name_`,
/// followed by its text after an em dash when there is any.
pub open spec fn spec_tag_line(name: Seq<char>, text: Seq<char>) -> Seq<char> {
    if text.len() == 0 {
        "_@"@ + name + "_"@
    } else {
        "_@"@ + name + "_"@ + " \u{2014} "@ + text
    }
}

/// Renders one documentation tag for the hover markdown.
pub fn render_tag(name: &str, text: &str) -> (r: String)
    ensures
        r@ == spec_tag_line(name@, text@),
{
    let mut out = crate::utils::str_to_string("_@");
    out.append(name);
    out.append("_");
    if text.unicode_len() > 0 {
        out.append(" \u{2014} ");
        out.append(text);
    }
    out
}

/// The hover markdown for a quickinfo reply: the display string in a
/// TypeScript code fence, then the documentation, then the rendered tags,
/// with empty sections dropped and the rest joined by blank lines.
pub open spec fn spec_hover_markdown(
    display: Seq<char>,
    documentation: Seq<char>,
    tags: Seq<char>,
) -> Seq<char> {
    let fence = if display.len() == 0 {
        Seq::<char>::empty()
    } else {
        "```typescript\n"@ + display + "\n```"@
    };
    let with_docs = if documentation.len() == 0 {
        fence
    } else if fence.len() == 0 {
        documentation
    } else {
        fence + "\n\n"@ + documentation
    };
    if tags.len() == 0 {
        with_docs
    } else if with_docs.len() == 0 {
        tags
    } else {
        with_docs + "\n\n"@ + tags
    }
}

/// Assembles the hover markdown from the flattened quickinfo parts.
pub fn hover_markdown(display: &str, documentation: &str, tags: &str) -> (r: String)
    ensures
        r@ == spec_hover_markdown(display@, documentation@, tags@),
{
    let mut out = String::new();
    if display.unicode_len() > 0 {
        out.append("```typescript\n");
        out.append(display);
        out.append("\n```");
    }
    if documentation.unicode_len() > 0 {
        if out.unicode_len() > 0 {
            out.append("\n\n");
        }
        out.append(documentation);
    }
    if tags.unicode_len() > 0 {
        if out.unicode_len() > 0 {
            out.append("\n\n");
        }
        out.append(tags);
    }
    proof {
        if display@.len() > 0 {
            assert(("```typescript\n"@ + display@).len() > 0);
        }
    }
    out
}

} // verus!

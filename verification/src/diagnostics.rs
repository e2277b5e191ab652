//! Diagnostics aggregation for `geterr` round-trips.
//!
//! Each dispatched `geterr` expects a fixed set of diagnostic kinds from the
//! child it went to: the syntax child reports syntax and suggestion
//! diagnostics, the semantic child reports semantic diagnostics. Reports are
//! buffered per file and per kind; when a request's expectations saturate, or
//! tsserver signals completion, the kinds for each touched file are merged in
//! the order syntax, semantic, suggestion and emitted as one publish.

use vstd::prelude::*;

use crate::rpc::ServerKind;
use crate::types::Range;
use crate::utils::str_eq;

verus! {

/// The three diagnostic report kinds tsserver emits.
#[derive(Debug, Clone, Copy, PartialEq, Eq, Structural)]
pub enum DiagnosticsKind {
    Syntax,
    Semantic,
    Suggestion,
}

/// The kind named by a tsserver event, if it is a diagnostics event.
pub open spec fn spec_kind_of_event(name: Seq<char>) -> Option<DiagnosticsKind> {
    if name == "syntaxDiag"@ {
        Some(DiagnosticsKind::Syntax)
    } else if name == "semanticDiag"@ {
        Some(DiagnosticsKind::Semantic)
    } else if name == "suggestionDiag"@ {
        Some(DiagnosticsKind::Suggestion)
    } else {
        None
    }
}

impl DiagnosticsKind {
    /// Recognises the tsserver event names that carry diagnostics.
    pub fn from_event_name(name: &str) -> (r: Option<DiagnosticsKind>)
        ensures
            r == spec_kind_of_event(name@),
    {
        if str_eq(name, "syntaxDiag") {
            Some(DiagnosticsKind::Syntax)
        } else if str_eq(name, "semanticDiag") {
            Some(DiagnosticsKind::Semantic)
        } else if str_eq(name, "suggestionDiag") {
            Some(DiagnosticsKind::Suggestion)
        } else {
            None
        }
    }
}

/// LSP diagnostic severities, by descending weight.
#[derive(Debug, Clone, Copy, PartialEq, Eq, Structural)]
pub enum DiagnosticSeverity {
    Error,
    Warning,
    Information,
    Hint,
}

/// The severity a tsserver category maps to; anything unrecognised is a
/// warning.
pub open spec fn spec_severity(category: Option<Seq<char>>) -> DiagnosticSeverity {
    if category == Some("error"@) {
        DiagnosticSeverity::Error
    } else if category == Some("warning"@) {
        DiagnosticSeverity::Warning
    } else if category == Some("suggestion"@) {
        DiagnosticSeverity::Hint
    } else if category == Some("message"@) {
        DiagnosticSeverity::Information
    } else {
        DiagnosticSeverity::Warning
    }
}

/// Maps tsserver's diagnostic category onto an LSP severity.
pub fn map_severity(category: Option<&str>) -> (r: DiagnosticSeverity)
    ensures
        r == spec_severity(match category {
            Some(c) => Some(c@),
            None => None,
        }),
{
    match category {
        Some(c) => {
            if str_eq(c, "error") {
                DiagnosticSeverity::Error
            } else if str_eq(c, "warning") {
                DiagnosticSeverity::Warning
            } else if str_eq(c, "suggestion") {
                DiagnosticSeverity::Hint
            } else if str_eq(c, "message") {
                DiagnosticSeverity::Information
            } else {
                DiagnosticSeverity::Warning
            }
        },
        None => DiagnosticSeverity::Warning,
    }
}

/// One converted diagnostic, ready to publish: zero-based range, severity,
/// tsserver's numeric code, and the message text. The source is always
/// reported as `tsserver`.
#[derive(Debug)]
pub struct Diagnostic {
    pub range: Range,
    pub severity: DiagnosticSeverity,
    pub code: Option<i64>,
    pub message: String,
}

impl Diagnostic {
    /// A copy of this diagnostic.
    pub fn duplicate(&self) -> (r: Diagnostic)
        ensures
            r == *self,
    {
        Diagnostic {
            range: self.range,
            severity: self.severity,
            code: self.code,
            message: self.message.clone(),
        }
    }
}

/// Copies a list of diagnostics.
pub fn copy_diagnostics(v: &Vec<Diagnostic>) -> (r: Vec<Diagnostic>)
    ensures
        r@ == v@,
{
    let mut out: Vec<Diagnostic> = Vec::new();
    let mut i: usize = 0;
    while i < v.len()
        invariant
            i <= v@.len(),
            out@ == v@.take(i as int),
        decreases v@.len() - i,
    {
        out.push(v[i].duplicate());
        proof {
            assert(v@.take(i as int + 1) =~= v@.take(i as int).push(v@[i as int]));
        }
        i += 1;
    }
    proof {
        assert(v@.take(v@.len() as int) =~= v@);
    }
    out
}

/// A parsed diagnostics event from a tsserver child.
#[derive(Debug)]
pub enum DiagnosticsEvent {
    /// One batch of diagnostics of one kind for one file.
    Report {
        kind: DiagnosticsKind,
        request_seq: Option<u64>,
        uri: String,
        diagnostics: Vec<Diagnostic>,
    },
    /// tsserver finished answering the `geterr` with this sequence number.
    Completed { request_seq: u64 },
}

/// Latest diagnostics of each kind for one file.
#[derive(Debug)]
pub struct FileDiagnostics {
    pub syntax: Vec<Diagnostic>,
    pub semantic: Vec<Diagnostic>,
    pub suggestion: Vec<Diagnostic>,
}

/// The merged list a file's diagnostics publish as: syntax first, then
/// semantic, then suggestion.
pub open spec fn spec_collect(fd: FileDiagnostics) -> Seq<Diagnostic> {
    fd.syntax@ + fd.semantic@ + fd.suggestion@
}

impl FileDiagnostics {
    /// No diagnostics of any kind.
    pub fn new() -> (r: FileDiagnostics)
        ensures
            r.syntax@.len() == 0,
            r.semantic@.len() == 0,
            r.suggestion@.len() == 0,
    {
        FileDiagnostics { syntax: Vec::new(), semantic: Vec::new(), suggestion: Vec::new() }
    }

    /// Overwrites the snapshot of one kind; the other kinds are untouched.
    pub fn update_kind(&mut self, kind: DiagnosticsKind, diagnostics: Vec<Diagnostic>)
        ensures
            kind == DiagnosticsKind::Syntax ==> *final(self) == (FileDiagnostics {
                syntax: diagnostics,
                ..*old(self)
            }),
            kind == DiagnosticsKind::Semantic ==> *final(self) == (FileDiagnostics {
                semantic: diagnostics,
                ..*old(self)
            }),
            kind == DiagnosticsKind::Suggestion ==> *final(self) == (FileDiagnostics {
                suggestion: diagnostics,
                ..*old(self)
            }),
    {
        match kind {
            DiagnosticsKind::Syntax => self.syntax = diagnostics,
            DiagnosticsKind::Semantic => self.semantic = diagnostics,
            DiagnosticsKind::Suggestion => self.suggestion = diagnostics,
        }
    }

    /// Merges the kinds into one list, in the order syntax, semantic,
    /// suggestion.
    pub fn collect(&self) -> (r: Vec<Diagnostic>)
        ensures
            r@ == spec_collect(*self),
    {
        let mut all = copy_diagnostics(&self.syntax);
        let mut semantic = copy_diagnostics(&self.semantic);
        let mut suggestion = copy_diagnostics(&self.suggestion);
        all.append(&mut semantic);
        all.append(&mut suggestion);
        all
    }
}

/// Whether one diagnostic kind is awaited and whether it has arrived.
#[derive(Debug, Clone, Copy, PartialEq, Eq, Structural)]
pub struct StepState {
    pub expected: bool,
    pub done: bool,
}

impl StepState {
    /// A step that is awaited iff `expected`; an unexpected step counts as
    /// already done.
    pub fn expected(expected: bool) -> (r: StepState)
        ensures
            r == (StepState { expected, done: !expected }),
    {
        StepState { expected, done: !expected }
    }

    /// How many reports this step still contributes to the workload.
    pub fn expected_count(&self) -> (r: u32)
        ensures
            r == if self.expected {
                1u32
            } else {
                0u32
            },
    {
        if self.expected {
            1
        } else {
            0
        }
    }

    /// Marks the step done; true when this completed an awaited step.
    pub fn mark_done(&mut self) -> (r: bool)
        ensures
            final(self).expected == old(self).expected,
            final(self).done == (old(self).done || old(self).expected),
            r == (old(self).expected && !old(self).done),
    {
        if self.expected && !self.done {
            self.done = true;
            true
        } else {
            false
        }
    }

    /// Forces the step done (used when `requestCompleted` arrives first);
    /// true when this completed an awaited step.
    pub fn finish(&mut self) -> (r: bool)
        ensures
            final(self).expected == old(self).expected,
            final(self).done == (old(self).done || old(self).expected),
            r == (old(self).expected && !old(self).done),
    {
        self.mark_done()
    }
}

/// Which kinds one `geterr` dispatch awaits, and which have arrived.
#[derive(Debug, Clone, Copy, PartialEq, Eq, Structural)]
pub struct StepProgress {
    pub syntax: StepState,
    pub semantic: StepState,
    pub suggestion: StepState,
}

/// A step is either awaited or already counts as done.
pub open spec fn step_wf(s: StepState) -> bool {
    s.expected || s.done
}

/// Every step of the progress record is in a consistent state.
pub open spec fn progress_wf(p: StepProgress) -> bool {
    &&& step_wf(p.syntax)
    &&& step_wf(p.semantic)
    &&& step_wf(p.suggestion)
}

/// The expectations a `geterr` sent to `server` starts with.
pub open spec fn spec_for_server(server: ServerKind) -> StepProgress {
    if server == ServerKind::Syntax {
        StepProgress {
            syntax: StepState { expected: true, done: false },
            semantic: StepState { expected: false, done: true },
            suggestion: StepState { expected: true, done: false },
        }
    } else {
        StepProgress {
            syntax: StepState { expected: false, done: true },
            semantic: StepState { expected: true, done: false },
            suggestion: StepState { expected: false, done: true },
        }
    }
}

/// All awaited kinds have arrived.
pub open spec fn saturated(p: StepProgress) -> bool {
    &&& p.syntax.done
    &&& p.semantic.done
    &&& p.suggestion.done
}

impl StepProgress {
    /// The expectations for a `geterr` sent to `server`: the syntax child
    /// reports syntax and suggestion diagnostics, the semantic child reports
    /// semantic diagnostics.
    pub fn for_server(server: ServerKind) -> (r: StepProgress)
        ensures
            r == spec_for_server(server),
            progress_wf(r),
    {
        match server {
            ServerKind::Syntax => StepProgress {
                syntax: StepState::expected(true),
                semantic: StepState::expected(false),
                suggestion: StepState::expected(true),
            },
            ServerKind::Semantic => StepProgress {
                syntax: StepState::expected(false),
                semantic: StepState::expected(true),
                suggestion: StepState::expected(false),
            },
        }
    }

    /// How many reports this dispatch contributes to the workload.
    pub fn expected_count(&self) -> (r: u32)
        ensures
            r == (if self.syntax.expected {
                1int
            } else {
                0int
            }) + (if self.semantic.expected {
                1int
            } else {
                0int
            }) + (if self.suggestion.expected {
                1int
            } else {
                0int
            }),
    {
        self.syntax.expected_count() + self.semantic.expected_count()
            + self.suggestion.expected_count()
    }

    /// Marks one kind's report as arrived; true when it completed an awaited
    /// step.
    pub fn mark(&mut self, kind: DiagnosticsKind) -> (r: bool)
        ensures
            kind == DiagnosticsKind::Syntax ==> {
                &&& final(self).semantic == old(self).semantic
                &&& final(self).suggestion == old(self).suggestion
                &&& final(self).syntax.expected == old(self).syntax.expected
                &&& final(self).syntax.done == (old(self).syntax.done || old(self).syntax.expected)
                &&& r == (old(self).syntax.expected && !old(self).syntax.done)
            },
            kind == DiagnosticsKind::Semantic ==> {
                &&& final(self).syntax == old(self).syntax
                &&& final(self).suggestion == old(self).suggestion
                &&& final(self).semantic.expected == old(self).semantic.expected
                &&& final(self).semantic.done == (old(self).semantic.done
                    || old(self).semantic.expected)
                &&& r == (old(self).semantic.expected && !old(self).semantic.done)
            },
            kind == DiagnosticsKind::Suggestion ==> {
                &&& final(self).syntax == old(self).syntax
                &&& final(self).semantic == old(self).semantic
                &&& final(self).suggestion.expected == old(self).suggestion.expected
                &&& final(self).suggestion.done == (old(self).suggestion.done
                    || old(self).suggestion.expected)
                &&& r == (old(self).suggestion.expected && !old(self).suggestion.done)
            },
    {
        match kind {
            DiagnosticsKind::Syntax => self.syntax.mark_done(),
            DiagnosticsKind::Semantic => self.semantic.mark_done(),
            DiagnosticsKind::Suggestion => self.suggestion.mark_done(),
        }
    }

    /// Forces every outstanding step done and returns how many were forced.
    pub fn finish_outstanding(&mut self) -> (r: u32)
        requires
            progress_wf(*old(self)),
        ensures
            saturated(*final(self)),
            final(self).syntax.expected == old(self).syntax.expected,
            final(self).semantic.expected == old(self).semantic.expected,
            final(self).suggestion.expected == old(self).suggestion.expected,
            r == (if old(self).syntax.expected && !old(self).syntax.done {
                1int
            } else {
                0int
            }) + (if old(self).semantic.expected && !old(self).semantic.done {
                1int
            } else {
                0int
            }) + (if old(self).suggestion.expected && !old(self).suggestion.done {
                1int
            } else {
                0int
            }),
    {
        let mut added: u32 = 0;
        if self.syntax.finish() {
            added = added + 1;
        }
        if self.semantic.finish() {
            added = added + 1;
        }
        if self.suggestion.finish() {
            added = added + 1;
        }
        added
    }
}

/// Counters behind the work-done progress report: how many kind reports are
/// expected across pending `geterr`s and how many have completed.
#[derive(Debug, Clone, Copy, PartialEq, Eq, Structural)]
pub struct Workload {
    pub expected: u32,
    pub completed: u32,
}

impl Workload {
    /// No outstanding work.
    pub fn new() -> (r: Workload)
        ensures
            r == (Workload { expected: 0u32, completed: 0u32 }),
    {
        Workload { expected: 0, completed: 0 }
    }

    /// Adds newly expected reports, saturating at the counter's maximum.
    pub fn add_expected(&mut self, count: u32)
        ensures
            final(self).completed == old(self).completed,
            final(self).expected == if old(self).expected + count <= u32::MAX {
                (old(self).expected + count) as u32
            } else {
                u32::MAX
            },
    {
        if count <= u32::MAX - self.expected {
            self.expected = self.expected + count;
        } else {
            self.expected = u32::MAX;
        }
    }

    /// Adds completed reports, never beyond the expected total.
    pub fn add_completed(&mut self, count: u32)
        ensures
            final(self).expected == old(self).expected,
            count == 0 ==> final(self).completed == old(self).completed,
            count > 0 ==> final(self).completed == if old(self).completed + count
                <= old(self).expected {
                (old(self).completed + count) as u32
            } else {
                old(self).expected
            },
    {
        if count == 0 {
            return ;
        }
        if count <= u32::MAX - self.completed && self.completed + count <= self.expected {
            self.completed = self.completed + count;
        } else {
            self.completed = self.expected;
        }
    }

    /// Clears both counters.
    pub fn reset(&mut self)
        ensures
            *final(self) == (Workload { expected: 0u32, completed: 0u32 }),
    {
        self.expected = 0;
        self.completed = 0;
    }
}


/// First file record stored under `uri`, scanning from the front.
pub open spec fn files_lookup(files: Seq<(String, FileDiagnostics)>, uri: Seq<char>) -> Option<
    FileDiagnostics,
>
    decreases files.len(),
{
    if files.len() == 0 {
        None
    } else if files[0].0@ == uri {
        Some(files[0].1)
    } else {
        files_lookup(files.drop_first(), uri)
    }
}

proof fn lemma_files_found(files: Seq<(String, FileDiagnostics)>, uri: Seq<char>, i: int)
    requires
        0 <= i < files.len(),
        files[i].0@ == uri,
        forall|j: int| 0 <= j < i ==> (#[trigger] files[j]).0@ != uri,
    ensures
        files_lookup(files, uri) == Some(files[i].1),
    decreases files.len(),
{
    if i > 0 {
        assert forall|j: int| 0 <= j < i - 1 implies (#[trigger] files.drop_first()[j]).0@
            != uri by {
            assert(files.drop_first()[j] == files[j + 1]);
        }
        assert(files.drop_first()[i - 1] == files[i]);
        lemma_files_found(files.drop_first(), uri, i - 1);
    }
}

proof fn lemma_files_none(files: Seq<(String, FileDiagnostics)>, uri: Seq<char>)
    requires
        forall|j: int| 0 <= j < files.len() ==> (#[trigger] files[j]).0@ != uri,
    ensures
        files_lookup(files, uri) is None,
    decreases files.len(),
{
    if files.len() > 0 {
        assert forall|j: int| 0 <= j < files.drop_first().len() implies (#[trigger] files.drop_first()[j]).0@
            != uri by {
            assert(files.drop_first()[j] == files[j + 1]);
        }
        lemma_files_none(files.drop_first(), uri);
    }
}

/// Everything remembered about one outstanding `geterr` dispatch: the
/// diagnostics that have arrived so far, per file, and which kinds are still
/// awaited.
#[derive(Debug)]
pub struct PendingDiagnosticsEntry {
    pub files: Vec<(String, FileDiagnostics)>,
    pub progress: StepProgress,
}

impl PendingDiagnosticsEntry {
    /// Entry invariant: one record per file, steps consistent.
    pub open spec fn wf(self) -> bool {
        &&& progress_wf(self.progress)
        &&& forall|a: int, b: int|
            0 <= a < b < self.files@.len() ==> (#[trigger] self.files@[a]).0@ != (
            #[trigger] self.files@[b]).0@
    }

    /// A fresh entry for a `geterr` sent to `server`.
    pub fn new(server: ServerKind) -> (r: PendingDiagnosticsEntry)
        ensures
            r.wf(),
            r.files@.len() == 0,
            r.progress == spec_for_server(server),
    {
        PendingDiagnosticsEntry { files: Vec::new(), progress: StepProgress::for_server(server) }
    }

    /// Overwrites the `kind` snapshot of `uri`'s record, creating the record
    /// when the file has not reported yet; every other file's record and the
    /// progress are untouched.
    pub fn update_file(&mut self, uri: &str, kind: DiagnosticsKind, diagnostics: Vec<Diagnostic>)
        requires
            old(self).wf(),
        ensures
            final(self).wf(),
            final(self).progress == old(self).progress,
            forall|u: Seq<char>|
                u != uri@ ==> files_lookup(final(self).files@, u) == files_lookup(
                    old(self).files@,
                    u,
                ),
            ({
                let stored = files_lookup(final(self).files@, uri@);
                let before = files_lookup(old(self).files@, uri@);
                &&& stored is Some
                &&& (kind == DiagnosticsKind::Syntax ==> stored->0.syntax@ == diagnostics@)
                &&& (kind == DiagnosticsKind::Semantic ==> stored->0.semantic@ == diagnostics@)
                &&& (kind == DiagnosticsKind::Suggestion ==> stored->0.suggestion@ == diagnostics@)
                &&& (kind != DiagnosticsKind::Syntax ==> stored->0.syntax@ == (match before {
                    Some(fd) => fd.syntax@,
                    None => Seq::<Diagnostic>::empty(),
                }))
                &&& (kind != DiagnosticsKind::Semantic ==> stored->0.semantic@ == (match before {
                    Some(fd) => fd.semantic@,
                    None => Seq::<Diagnostic>::empty(),
                }))
                &&& (kind != DiagnosticsKind::Suggestion ==> stored->0.suggestion@ == (
                match before {
                    Some(fd) => fd.suggestion@,
                    None => Seq::<Diagnostic>::empty(),
                }))
            }),
    {
        let found = find_file(&self.files, uri);
        let ghost orig = self.files@;
        let mut record = match found {
            Some(i) => {
                proof {
                    lemma_files_found(self.files@, uri@, i as int);
                }
                let ghost before = self.files@;
                let entry = self.files.remove(i);
                proof {
                    assert(self.files@ =~= before.take(i as int) + before.skip(i as int + 1));
                    assert forall|u: Seq<char>| u != uri@ implies files_lookup(self.files@, u)
                        == files_lookup(before, u) by {
                        lemma_files_remove(before, i as int, u);
                    }
                    assert forall|j: int|
                        0 <= j < self.files@.len() implies (#[trigger] self.files@[j]).0@
                        != uri@ by {
                        if j < i as int {
                            assert(self.files@[j] == before[j]);
                        } else {
                            assert(self.files@[j] == before[j + 1]);
                        }
                    }
                    assert forall|a: int, b: int|
                        0 <= a < b < self.files@.len() implies (#[trigger] self.files@[a]).0@ != (
                    #[trigger] self.files@[b]).0@ by {
                        let a0 = if a < i as int { a } else { a + 1 };
                        let b0 = if b < i as int { b } else { b + 1 };
                        assert(self.files@[a] == before[a0]);
                        assert(self.files@[b] == before[b0]);
                    }
                }
                entry.1
            },
            None => {
                proof {
                    lemma_files_none(self.files@, uri@);
                }
                FileDiagnostics::new()
            },
        };
        record.update_kind(kind, diagnostics);
        let ghost mid = self.files@;
        self.files.push((crate::utils::str_to_string(uri), record));
        proof {
            let n = self.files@.len() - 1;
            assert(self.files@[n].0@ == uri@);
            assert forall|j: int| 0 <= j < n implies (#[trigger] self.files@[j]).0@ != uri@ by {
                assert(self.files@[j] == mid[j]);
            }
            lemma_files_found(self.files@, uri@, n);
            assert forall|u: Seq<char>| u != uri@ implies files_lookup(self.files@, u)
                == files_lookup(mid, u) by {
                assert(self.files@ =~= mid.push(self.files@[n]));
                lemma_files_push(mid, self.files@[n], u);
            }
        }
    }
}

proof fn lemma_files_remove(files: Seq<(String, FileDiagnostics)>, i: int, u: Seq<char>)
    requires
        0 <= i < files.len(),
        u != files[i].0@,
    ensures
        files_lookup(files.take(i) + files.skip(i + 1), u) == files_lookup(files, u),
    decreases files.len(),
{
    let rest = files.take(i) + files.skip(i + 1);
    if i == 0 {
        assert(rest =~= files.drop_first());
    } else {
        assert(rest[0] == files[0]);
        if files[0].0@ == u {
        } else {
            assert(files.drop_first()[i - 1] == files[i]);
            lemma_files_remove(files.drop_first(), i - 1, u);
            assert(rest.drop_first() =~= files.drop_first().take(i - 1) + files.drop_first().skip(
                i,
            ));
        }
    }
}

proof fn lemma_files_push(
    files: Seq<(String, FileDiagnostics)>,
    entry: (String, FileDiagnostics),
    u: Seq<char>,
)
    requires
        u != entry.0@,
    ensures
        files_lookup(files.push(entry), u) == files_lookup(files, u),
    decreases files.len(),
{
    if files.len() == 0 {
        assert(files.push(entry)[0] == entry);
        assert(files.push(entry).drop_first() =~= files);
        assert(files_lookup(files, u) is None);
    } else {
        assert(files.push(entry)[0] == files[0]);
        assert(files.push(entry).drop_first() =~= files.drop_first().push(entry));
        lemma_files_push(files.drop_first(), entry, u);
    }
}

/// Index of the record for `uri`, scanning from the front.
fn find_file(files: &Vec<(String, FileDiagnostics)>, uri: &str) -> (r: Option<usize>)
    ensures
        match r {
            Some(i) => {
                &&& i < files@.len()
                &&& files@[i as int].0@ == uri@
                &&& forall|j: int| 0 <= j < i ==> (#[trigger] files@[j]).0@ != uri@
            },
            None => forall|j: int| 0 <= j < files@.len() ==> (#[trigger] files@[j]).0@ != uri@,
        },
{
    let mut i: usize = 0;
    while i < files.len()
        invariant
            i <= files@.len(),
            forall|j: int| 0 <= j < i ==> (#[trigger] files@[j]).0@ != uri@,
        decreases files@.len() - i,
    {
        if str_eq(files[i].0.as_str(), uri) {
            return Some(i);
        }
        i += 1;
    }
    None
}


/// First pending record stored under `key`, scanning from the front.
pub open spec fn diag_lookup(
    pending: Seq<((ServerKind, u64), PendingDiagnosticsEntry)>,
    key: (ServerKind, u64),
) -> Option<PendingDiagnosticsEntry>
    decreases pending.len(),
{
    if pending.len() == 0 {
        None
    } else if pending[0].0 == key {
        Some(pending[0].1)
    } else {
        diag_lookup(pending.drop_first(), key)
    }
}

proof fn lemma_diag_found(
    pending: Seq<((ServerKind, u64), PendingDiagnosticsEntry)>,
    key: (ServerKind, u64),
    i: int,
)
    requires
        0 <= i < pending.len(),
        pending[i].0 == key,
        forall|j: int| 0 <= j < i ==> (#[trigger] pending[j]).0 != key,
    ensures
        diag_lookup(pending, key) == Some(pending[i].1),
    decreases pending.len(),
{
    if i > 0 {
        assert forall|j: int| 0 <= j < i - 1 implies (#[trigger] pending.drop_first()[j]).0
            != key by {
            assert(pending.drop_first()[j] == pending[j + 1]);
        }
        assert(pending.drop_first()[i - 1] == pending[i]);
        lemma_diag_found(pending.drop_first(), key, i - 1);
    }
}

proof fn lemma_diag_none(
    pending: Seq<((ServerKind, u64), PendingDiagnosticsEntry)>,
    key: (ServerKind, u64),
)
    requires
        forall|j: int| 0 <= j < pending.len() ==> (#[trigger] pending[j]).0 != key,
    ensures
        diag_lookup(pending, key) is None,
    decreases pending.len(),
{
    if pending.len() > 0 {
        assert forall|j: int|
            0 <= j < pending.drop_first().len() implies (#[trigger] pending.drop_first()[j]).0
            != key by {
            assert(pending.drop_first()[j] == pending[j + 1]);
        }
        lemma_diag_none(pending.drop_first(), key);
    }
}

proof fn lemma_diag_remove(
    pending: Seq<((ServerKind, u64), PendingDiagnosticsEntry)>,
    i: int,
    key: (ServerKind, u64),
)
    requires
        0 <= i < pending.len(),
        key != pending[i].0,
    ensures
        diag_lookup(pending.take(i) + pending.skip(i + 1), key) == diag_lookup(pending, key),
    decreases pending.len(),
{
    let rest = pending.take(i) + pending.skip(i + 1);
    if i == 0 {
        assert(rest =~= pending.drop_first());
    } else {
        assert(rest[0] == pending[0]);
        if pending[0].0 == key {
        } else {
            assert(pending.drop_first()[i - 1] == pending[i]);
            lemma_diag_remove(pending.drop_first(), i - 1, key);
            assert(rest.drop_first() =~= pending.drop_first().take(i - 1)
                + pending.drop_first().skip(i));
        }
    }
}

proof fn lemma_diag_push(
    pending: Seq<((ServerKind, u64), PendingDiagnosticsEntry)>,
    entry: ((ServerKind, u64), PendingDiagnosticsEntry),
    key: (ServerKind, u64),
)
    requires
        key != entry.0,
    ensures
        diag_lookup(pending.push(entry), key) == diag_lookup(pending, key),
    decreases pending.len(),
{
    if pending.len() == 0 {
        assert(pending.push(entry)[0] == entry);
        assert(pending.push(entry).drop_first() =~= pending);
        assert(diag_lookup(pending, key) is None);
    } else {
        assert(pending.push(entry)[0] == pending[0]);
        assert(pending.push(entry).drop_first() =~= pending.drop_first().push(entry));
        lemma_diag_push(pending.drop_first(), entry, key);
    }
}

/// Keys of the outstanding records are unique.
pub open spec fn unique_diag_keys(s: Seq<((ServerKind, u64), PendingDiagnosticsEntry)>) -> bool {
    forall|a: int, b: int| 0 <= a < b < s.len() ==> (#[trigger] s[a]).0 != (#[trigger] s[b]).0
}

/// Every outstanding record is well formed.
pub open spec fn diag_entries_wf(s: Seq<((ServerKind, u64), PendingDiagnosticsEntry)>) -> bool {
    forall|k: int| 0 <= k < s.len() ==> (#[trigger] s[k]).1.wf()
}

/// File records carry one entry per URI.
pub open spec fn unique_file_uris(s: Seq<(String, FileDiagnostics)>) -> bool {
    forall|a: int, b: int| 0 <= a < b < s.len() ==> (#[trigger] s[a]).0@ != (#[trigger] s[b]).0@
}

proof fn lemma_diag_unique_remove(s: Seq<((ServerKind, u64), PendingDiagnosticsEntry)>, i: int)
    requires
        unique_diag_keys(s),
        diag_entries_wf(s),
        0 <= i < s.len(),
    ensures
        unique_diag_keys(s.take(i) + s.skip(i + 1)),
        diag_entries_wf(s.take(i) + s.skip(i + 1)),
        forall|j: int|
            0 <= j < (s.take(i) + s.skip(i + 1)).len() ==> (#[trigger] (s.take(i) + s.skip(i + 1))[j]).0
                != s[i].0,
{
    let rest = s.take(i) + s.skip(i + 1);
    assert forall|j: int| 0 <= j < rest.len() implies (#[trigger] rest[j]).0 != s[i].0 by {
        if j < i {
            assert(rest[j] == s[j]);
        } else {
            assert(rest[j] == s[j + 1]);
        }
    }
    assert forall|a: int, b: int| 0 <= a < b < rest.len() implies (#[trigger] rest[a]).0 != (
    #[trigger] rest[b]).0 by {
        let a0 = if a < i { a } else { a + 1 };
        let b0 = if b < i { b } else { b + 1 };
        assert(rest[a] == s[a0]);
        assert(rest[b] == s[b0]);
    }
    assert forall|k: int| 0 <= k < rest.len() implies (#[trigger] rest[k]).1.wf() by {
        let k0 = if k < i { k } else { k + 1 };
        assert(rest[k] == s[k0]);
    }
}

proof fn lemma_file_unique_remove(s: Seq<(String, FileDiagnostics)>, i: int)
    requires
        unique_file_uris(s),
        0 <= i < s.len(),
    ensures
        unique_file_uris(s.take(i) + s.skip(i + 1)),
        forall|j: int|
            0 <= j < (s.take(i) + s.skip(i + 1)).len() ==> (#[trigger] (s.take(i) + s.skip(i + 1))[j]).0@
                != s[i].0@,
{
    let rest = s.take(i) + s.skip(i + 1);
    assert forall|j: int| 0 <= j < rest.len() implies (#[trigger] rest[j]).0@ != s[i].0@ by {
        if j < i {
            assert(rest[j] == s[j]);
        } else {
            assert(rest[j] == s[j + 1]);
        }
    }
    assert forall|a: int, b: int| 0 <= a < b < rest.len() implies (#[trigger] rest[a]).0@ != (
    #[trigger] rest[b]).0@ by {
        let a0 = if a < i { a } else { a + 1 };
        let b0 = if b < i { b } else { b + 1 };
        assert(rest[a] == s[a0]);
        assert(rest[b] == s[b0]);
    }
}

/// The sequence with the first occurrence of `x` removed, if any.
pub open spec fn remove_first(s: Seq<u64>, x: u64) -> Seq<u64>
    decreases s.len(),
{
    if s.len() == 0 {
        s
    } else if s[0] == x {
        s.drop_first()
    } else {
        seq![s[0]] + remove_first(s.drop_first(), x)
    }
}

proof fn lemma_remove_first_at(s: Seq<u64>, x: u64, i: int)
    requires
        0 <= i < s.len(),
        s[i] == x,
        forall|j: int| 0 <= j < i ==> s[j] != x,
    ensures
        remove_first(s, x) == s.take(i) + s.skip(i + 1),
    decreases s.len(),
{
    if i == 0 {
        assert(s.take(0) + s.skip(1) =~= s.drop_first());
    } else {
        assert(s.drop_first()[i - 1] == s[i]);
        assert forall|j: int| 0 <= j < i - 1 implies s.drop_first()[j] != x by {
            assert(s.drop_first()[j] == s[j + 1]);
        }
        lemma_remove_first_at(s.drop_first(), x, i - 1);
        assert(seq![s[0]] + (s.drop_first().take(i - 1) + s.drop_first().skip(i)) =~= s.take(i)
            + s.skip(i + 1));
    }
}

proof fn lemma_remove_first_absent(s: Seq<u64>, x: u64)
    requires
        forall|j: int| 0 <= j < s.len() ==> s[j] != x,
    ensures
        remove_first(s, x) == s,
    decreases s.len(),
{
    if s.len() > 0 {
        assert forall|j: int| 0 <= j < s.drop_first().len() implies s.drop_first()[j] != x by {
            assert(s.drop_first()[j] == s[j + 1]);
        }
        lemma_remove_first_absent(s.drop_first(), x);
        assert(seq![s[0]] + s.drop_first() =~= s);
    }
}

/// Per-session diagnostics aggregator.
#[derive(Debug)]
pub struct DiagnosticsState {
    pending: Vec<((ServerKind, u64), PendingDiagnosticsEntry)>,
    order_syntax: Vec<u64>,
    order_semantic: Vec<u64>,
    latest: Vec<(String, FileDiagnostics)>,
    ready: Vec<(String, Vec<Diagnostic>)>,
    workload: Workload,
}

impl DiagnosticsState {
    /// The outstanding `geterr` records.
    pub closed spec fn pending_entries(self) -> Seq<((ServerKind, u64), PendingDiagnosticsEntry)> {
        self.pending@
    }

    /// The record tracked for one `geterr` dispatch, if any.
    pub open spec fn pending_entry(self, key: (ServerKind, u64)) -> Option<
        PendingDiagnosticsEntry,
    > {
        diag_lookup(self.pending_entries(), key)
    }

    /// The publishes waiting to be sent, in emission order.
    pub closed spec fn ready_list(self) -> Seq<(String, Vec<Diagnostic>)> {
        self.ready@
    }

    /// The progress counters.
    pub closed spec fn workload(self) -> Workload {
        self.workload
    }

    /// The per-file overlay cache.
    pub closed spec fn latest_entries(self) -> Seq<(String, FileDiagnostics)> {
        self.latest@
    }

    /// Aggregator invariant: pending keys unique and records well formed, one
    /// overlay record per file.
    pub open spec fn wf(self) -> bool {
        &&& unique_diag_keys(self.pending_entries())
        &&& diag_entries_wf(self.pending_entries())
        &&& unique_file_uris(self.latest_entries())
    }

    /// A fresh aggregator with nothing outstanding.
    pub fn new() -> (r: DiagnosticsState)
        ensures
            r.wf(),
            r.pending_entries().len() == 0,
            r.ready_list().len() == 0,
            r.workload() == (Workload { expected: 0u32, completed: 0u32 }),
    {
        DiagnosticsState {
            pending: Vec::new(),
            order_syntax: Vec::new(),
            order_semantic: Vec::new(),
            latest: Vec::new(),
            ready: Vec::new(),
            workload: Workload::new(),
        }
    }

    /// Index of the pending record under `key`, scanning from the front.
    fn find_pending(&self, server: ServerKind, seq: u64) -> (r: Option<usize>)
        ensures
            match r {
                Some(i) => {
                    &&& i < self.pending_entries().len()
                    &&& self.pending_entries()[i as int].0 == (server, seq)
                    &&& forall|j: int|
                        0 <= j < i ==> (#[trigger] self.pending_entries()[j]).0 != (server, seq)
                },
                None => forall|j: int|
                    0 <= j < self.pending_entries().len() ==> (
                    #[trigger] self.pending_entries()[j]).0 != (server, seq),
            },
    {
        let mut i: usize = 0;
        while i < self.pending.len()
            invariant
                i <= self.pending@.len(),
                forall|j: int| 0 <= j < i ==> (#[trigger] self.pending@[j]).0 != (server, seq),
            decreases self.pending@.len() - i,
        {
            if self.pending[i].0.0 == server && self.pending[i].0.1 == seq {
                return Some(i);
            }
            i += 1;
        }
        None
    }

    /// Removes and returns the pending record under `key`, if present; other
    /// keys are untouched.
    fn take_pending(&mut self, server: ServerKind, seq: u64) -> (r: Option<PendingDiagnosticsEntry>)
        requires
            old(self).wf(),
        ensures
            final(self).wf(),
            final(self).ready_list() == old(self).ready_list(),
            final(self).latest_entries() == old(self).latest_entries(),
            final(self).workload() == old(self).workload(),
            forall|sk: ServerKind| final(self).order_list(sk) == old(self).order_list(sk),
            r == old(self).pending_entry((server, seq)),
            r is Some ==> r->0.wf(),
            r is None ==> final(self).pending_entries() == old(self).pending_entries(),
            final(self).pending_entry((server, seq)) is None,
            forall|k: (ServerKind, u64)|
                k != (server, seq) ==> final(self).pending_entry(k) == old(self).pending_entry(k),
    {
        let found = self.find_pending(server, seq);
        match found {
            Some(i) => {
                proof {
                    lemma_diag_found(self.pending@, (server, seq), i as int);
                }
                let ghost before = self.pending@;
                let removed = self.pending.remove(i);
                proof {
                    assert(self.pending@ =~= before.take(i as int) + before.skip(i as int + 1));
                    lemma_diag_unique_remove(before, i as int);
                    assert forall|k: (ServerKind, u64)| k != (server, seq) implies diag_lookup(
                        self.pending@,
                        k,
                    ) == diag_lookup(before, k) by {
                        lemma_diag_remove(before, i as int, k);
                    }
                    lemma_diag_none(self.pending@, (server, seq));
                }
                Some(removed.1)
            },
            None => {
                proof {
                    lemma_diag_none(self.pending@, (server, seq));
                    assert(self.pending@ =~= old(self).pending@);
                }
                None
            },
        }
    }

    /// Records one dispatched `geterr`: a fresh pending record under
    /// `(server, seq)`, its sequence number at the back of that child's FIFO,
    /// and its expected reports added to the workload.
    pub fn register_pending(&mut self, server: ServerKind, seq: u64)
        requires
            old(self).wf(),
        ensures
            final(self).wf(),
            final(self).ready_list() == old(self).ready_list(),
            ({
                let stored = final(self).pending_entry((server, seq));
                &&& stored is Some
                &&& stored->0.files@.len() == 0
                &&& stored->0.progress == spec_for_server(server)
            }),
            forall|k: (ServerKind, u64)|
                k != (server, seq) ==> final(self).pending_entry(k) == old(self).pending_entry(k),
            forall|sk: ServerKind|
                final(self).order_list(sk) == if sk == server {
                    old(self).order_list(sk).push(seq)
                } else {
                    old(self).order_list(sk)
                },
    {
        let _ = self.take_pending(server, seq);
        let entry = PendingDiagnosticsEntry::new(server);
        self.workload.add_expected(entry.progress.expected_count());
        match server {
            ServerKind::Syntax => self.order_syntax.push(seq),
            ServerKind::Semantic => self.order_semantic.push(seq),
        }
        let ghost before = self.pending@;
        proof {
            assert(forall|j: int|
                0 <= j < before.len() ==> (#[trigger] before[j]).0 != (server, seq)) by {
                lemma_diag_none_converse(before, (server, seq));
            }
        }
        self.pending.push(((server, seq), entry));
        proof {
            let n = self.pending@.len() - 1;
            lemma_diag_found(self.pending@, (server, seq), n);
            assert forall|k: (ServerKind, u64)| k != (server, seq) implies diag_lookup(
                self.pending@,
                k,
            ) == diag_lookup(before, k) by {
                assert(self.pending@ =~= before.push(self.pending@[n]));
                lemma_diag_push(before, self.pending@[n], k);
            }
            assert forall|a: int, b: int|
                0 <= a < b < self.pending@.len() implies (#[trigger] self.pending@[a]).0 != (
            #[trigger] self.pending@[b]).0 by {
                if b < n {
                    assert(self.pending@[a] == before[a]);
                    assert(self.pending@[b] == before[b]);
                } else {
                    assert(self.pending@[a] == before[a]);
                }
            }
            assert forall|k: int| 0 <= k < self.pending@.len() implies (
            #[trigger] self.pending@[k]).1.wf() by {
                if k < n {
                    assert(self.pending@[k] == before[k]);
                }
            }
        }
    }

    /// Emits one publish per file of a finished `geterr` record: the kinds
    /// the dispatch awaited overlay the file's retained record, the result is
    /// merged in the order syntax, semantic, suggestion and appended to the
    /// ready list in the record's file order. The merged state is retained
    /// for the file unless the merge came out empty.
    fn emit_entry(&mut self, entry: PendingDiagnosticsEntry)
        requires
            old(self).wf(),
            entry.wf(),
        ensures
            final(self).wf(),
            final(self).pending_entries() == old(self).pending_entries(),
            final(self).workload() == old(self).workload(),
            final(self).ready_list().len() == old(self).ready_list().len() + entry.files@.len(),
            forall|k: int|
                0 <= k < old(self).ready_list().len() ==> final(self).ready_list()[k] == old(self).ready_list()[k],
            forall|k: int|
                0 <= k < entry.files@.len() ==> {
                    let emitted = final(self).ready_list()[old(self).ready_list().len() + k];
                    &&& emitted.0@ == (#[trigger] entry.files@[k]).0@
                    &&& emitted.1@ == spec_emit_merge(
                        files_lookup(old(self).latest_entries(), entry.files@[k].0@),
                        entry.progress,
                        entry.files@[k].1,
                    )
                },
            forall|k: int|
                0 <= k < entry.files@.len() ==> emit_retained(
                    files_lookup(old(self).latest_entries(), (#[trigger] entry.files@[k]).0@),
                    entry.progress,
                    entry.files@[k].1,
                    files_lookup(final(self).latest_entries(), entry.files@[k].0@),
                ),
            forall|u: Seq<char>|
                (forall|k: int| 0 <= k < entry.files@.len() ==> u != (#[trigger] entry.files@[k]).0@)
                    ==> files_lookup(final(self).latest_entries(), u) == files_lookup(
                    old(self).latest_entries(),
                    u,
                ),
            forall|sk: ServerKind| final(self).order_list(sk) == old(self).order_list(sk),
    {
        let files = entry.files;
        let progress = entry.progress;
        let ghost latest0 = self.latest@;
        let mut k: usize = 0;
        while k < files.len()
            invariant
                self.wf(),
                self.pending_entries() == old(self).pending_entries(),
                self.workload() == old(self).workload(),
                k <= files@.len(),
                forall|a: int, b: int|
                    0 <= a < b < files@.len() ==> (#[trigger] files@[a]).0@ != (
                    #[trigger] files@[b]).0@,
                forall|j: int|
                    0 <= j < k ==> emit_retained(
                        files_lookup(latest0, (#[trigger] files@[j]).0@),
                        progress,
                        files@[j].1,
                        files_lookup(self.latest@, files@[j].0@),
                    ),
                forall|u: Seq<char>|
                    (forall|j: int| 0 <= j < k ==> u != (#[trigger] files@[j]).0@) ==> files_lookup(
                        self.latest@,
                        u,
                    ) == files_lookup(latest0, u),
                self.order_syntax@ == old(self).order_syntax@,
                self.order_semantic@ == old(self).order_semantic@,
                self.ready@.len() == old(self).ready_list().len() + k,
                forall|j: int|
                    0 <= j < old(self).ready_list().len() ==> #[trigger] self.ready@[j] == old(self).ready_list()[j],
                forall|j: int|
                    0 <= j < k ==> {
                        let emitted = self.ready@[old(self).ready_list().len() + j];
                        &&& emitted.0@ == (#[trigger] files@[j]).0@
                        &&& emitted.1@ == spec_emit_merge(
                            files_lookup(latest0, files@[j].0@),
                            progress,
                            files@[j].1,
                        )
                    },
            decreases files@.len() - k,
        {
            let uri = files[k].0.clone();
            let ghost latest_entry_before = self.latest@;
            let ghost before_k = files_lookup(self.latest@, uri@);
            proof {
                assert forall|j: int| 0 <= j < k implies uri@ != (#[trigger] files@[j]).0@ by {}
                assert(before_k == files_lookup(latest0, uri@));
            }
            let found = find_file(&self.latest, uri.as_str());
            let mut base = match found {
                Some(i) => {
                    proof {
                        lemma_files_found(self.latest@, uri@, i as int);
                    }
                    let ghost lat = self.latest@;
                    let removed = self.latest.remove(i);
                    proof {
                        assert(self.latest@ =~= lat.take(i as int) + lat.skip(i as int + 1));
                        lemma_file_unique_remove(lat, i as int);
                        assert forall|u: Seq<char>| u != uri@ implies files_lookup(self.latest@, u)
                            == files_lookup(lat, u) by {
                            lemma_files_remove(lat, i as int, u);
                        }
                    }
                    removed.1
                },
                None => {
                    proof {
                        lemma_files_none(self.latest@, uri@);
                    }
                    FileDiagnostics::new()
                },
            };
            if progress.syntax.expected {
                base.update_kind(DiagnosticsKind::Syntax, copy_diagnostics(&files[k].1.syntax));
            }
            if progress.semantic.expected {
                base.update_kind(DiagnosticsKind::Semantic, copy_diagnostics(&files[k].1.semantic));
            }
            if progress.suggestion.expected {
                base.update_kind(
                    DiagnosticsKind::Suggestion,
                    copy_diagnostics(&files[k].1.suggestion),
                );
            }
            let combined = base.collect();
            proof {
                assert(combined@ == spec_emit_merge(before_k, progress, files@[k as int].1));
                assert(base.syntax@ == spec_emit_slice(
                    before_k,
                    progress,
                    files@[k as int].1,
                    DiagnosticsKind::Syntax,
                ));
                assert(base.semantic@ == spec_emit_slice(
                    before_k,
                    progress,
                    files@[k as int].1,
                    DiagnosticsKind::Semantic,
                ));
                assert(base.suggestion@ == spec_emit_slice(
                    before_k,
                    progress,
                    files@[k as int].1,
                    DiagnosticsKind::Suggestion,
                ));
            }
            proof {
                assert(forall|j: int|
                    0 <= j < self.latest@.len() ==> (#[trigger] self.latest@[j]).0@ != uri@);
                lemma_files_none(self.latest@, uri@);
            }
            if combined.len() > 0 {
                let still = find_file(&self.latest, uri.as_str());
                if still.is_none() {
                    let ghost mid = self.latest@;
                    self.latest.push((uri.clone(), base));
                    proof {
                        let n = self.latest@.len() - 1;
                        assert forall|a: int, b: int|
                            0 <= a < b < self.latest@.len() implies (
                        #[trigger] self.latest@[a]).0@ != (#[trigger] self.latest@[b]).0@ by {
                            if b < n {
                                assert(self.latest@[a] == mid[a]);
                                assert(self.latest@[b] == mid[b]);
                            } else {
                                assert(self.latest@[a] == mid[a]);
                            }
                        }
                        assert forall|u: Seq<char>| u != uri@ implies files_lookup(
                            self.latest@,
                            u,
                        ) == files_lookup(mid, u) by {
                            assert(self.latest@ =~= mid.push(self.latest@[n]));
                            lemma_files_push(mid, self.latest@[n], u);
                        }
                        assert forall|j: int| 0 <= j < mid.len() implies (#[trigger] mid[j]).0@
                            != uri@ by {}
                        lemma_files_found(self.latest@, uri@, n);
                    }
                }
            }
            proof {
                assert(emit_retained(
                    files_lookup(latest0, files@[k as int].0@),
                    progress,
                    files@[k as int].1,
                    files_lookup(self.latest@, files@[k as int].0@),
                ));
            }
            let ghost ready_before = self.ready@;
            self.ready.push((uri, combined));
            proof {
                assert forall|j: int|
                    0 <= j < old(self).ready_list().len() implies #[trigger] self.ready@[j] == old(self).ready_list()[j] by {
                    assert(self.ready@[j] == ready_before[j]);
                }
                assert forall|j: int| 0 <= j < k + 1 implies {
                    let emitted = self.ready@[old(self).ready_list().len() + j];
                    emitted.0@ == (#[trigger] files@[j]).0@ && emitted.1@ == spec_emit_merge(
                        files_lookup(latest0, files@[j].0@),
                        progress,
                        files@[j].1,
                    )
                } by {
                    if j < k {
                        assert(self.ready@[old(self).ready_list().len() + j] == ready_before[old(self).ready_list().len() + j]);
                    } else {
                        assert(before_k == files_lookup(latest0, files@[j].0@));
                    }
                }
                assert forall|j: int| 0 <= j < k + 1 implies emit_retained(
                    files_lookup(latest0, (#[trigger] files@[j]).0@),
                    progress,
                    files@[j].1,
                    files_lookup(self.latest@, files@[j].0@),
                ) by {
                    if j < k {
                        assert(files@[j].0@ != files@[k as int].0@);
                        assert(files_lookup(self.latest@, files@[j].0@) == files_lookup(
                            latest_entry_before,
                            files@[j].0@,
                        ));
                    }
                }
                assert forall|u: Seq<char>|
                    (forall|j: int| 0 <= j < k + 1 ==> u != (#[trigger] files@[j]).0@)
                        implies files_lookup(self.latest@, u) == files_lookup(latest0, u) by {
                    assert(u != files@[k as int].0@);
                    assert(files_lookup(self.latest@, u) == files_lookup(latest_entry_before, u));
                }
            }
            k += 1;
        }
    }

    /// The next publish to send, if any: the oldest emitted entry.
    pub fn take_ready(&mut self) -> (r: Option<(String, Vec<Diagnostic>)>)
        requires
            old(self).wf(),
        ensures
            final(self).wf(),
            final(self).pending_entries() == old(self).pending_entries(),
            final(self).workload() == old(self).workload(),
            old(self).ready_list().len() == 0 ==> r is None && final(self).ready_list() == old(self).ready_list(),
            old(self).ready_list().len() > 0 ==> {
                &&& r == Some(old(self).ready_list()[0])
                &&& final(self).ready_list() == old(self).ready_list().drop_first()
            },
    {
        if self.ready.len() == 0 {
            None
        } else {
            let front = self.ready.remove(0);
            proof {
                assert(self.ready@ =~= old(self).ready@.drop_first());
            }
            Some(front)
        }
    }

    /// True while some `geterr` is still outstanding.
    pub fn has_pending(&self) -> (r: bool)
        ensures
            r == (self.pending_entries().len() > 0),
    {
        self.pending.len() > 0
    }

    /// Percentage of expected reports that have completed; nothing while no
    /// work is expected.
    pub fn progress_percent(&self) -> (r: Option<u32>)
        ensures
            self.workload().expected == 0 ==> r is None,
            self.workload().expected > 0 ==> {
                let scaled = if self.workload().completed * 100 <= u32::MAX {
                    (self.workload().completed * 100) as u32
                } else {
                    u32::MAX
                };
                r == Some((scaled / self.workload().expected) as u32)
            },
    {
        if self.workload.expected == 0 {
            None
        } else {
            let scaled = if self.workload.completed <= u32::MAX / 100 {
                self.workload.completed * 100
            } else {
                u32::MAX
            };
            proof {
                if self.workload.completed <= u32::MAX / 100 {
                    assert(self.workload.completed * 100 <= u32::MAX) by (nonlinear_arith)
                        requires
                            self.workload.completed <= u32::MAX / 100,
                    ;
                } else {
                    assert(self.workload.completed * 100 > u32::MAX) by (nonlinear_arith)
                        requires
                            self.workload.completed > u32::MAX / 100,
                    ;
                }
            }
            Some(scaled / self.workload.expected)
        }
    }

    /// Clears the workload counters once nothing is outstanding.
    pub fn reset_if_idle(&mut self)
        requires
            old(self).wf(),
        ensures
            final(self).wf(),
            final(self).pending_entries() == old(self).pending_entries(),
            final(self).ready_list() == old(self).ready_list(),
            old(self).pending_entries().len() == 0 ==> final(self).workload() == (Workload {
                expected: 0u32,
                completed: 0u32,
            }),
            old(self).pending_entries().len() > 0 ==> final(self).workload() == old(self).workload(),
    {
        if self.pending.len() == 0 {
            self.workload.reset();
        }
    }

    /// Drops everything the aggregator holds.
    pub fn clear(&mut self)
        ensures
            final(self).wf(),
            final(self).pending_entries().len() == 0,
            final(self).ready_list().len() == 0,
            final(self).workload() == (Workload { expected: 0u32, completed: 0u32 }),
    {
        self.pending.clear();
        self.order_syntax.clear();
        self.order_semantic.clear();
        self.latest.clear();
        self.ready.clear();
        self.workload.reset();
    }
}

proof fn lemma_diag_none_converse(
    pending: Seq<((ServerKind, u64), PendingDiagnosticsEntry)>,
    key: (ServerKind, u64),
)
    requires
        diag_lookup(pending, key) is None,
    ensures
        forall|j: int| 0 <= j < pending.len() ==> (#[trigger] pending[j]).0 != key,
    decreases pending.len(),
{
    if pending.len() > 0 {
        lemma_diag_none_converse(pending.drop_first(), key);
        assert forall|j: int| 0 <= j < pending.len() implies (#[trigger] pending[j]).0 != key by {
            if j > 0 {
                assert(pending.drop_first()[j - 1] == pending[j]);
            }
        }
    }
}


/// The progress record after a report of `kind` arrives.
pub open spec fn spec_mark(p: StepProgress, kind: DiagnosticsKind) -> StepProgress {
    match kind {
        DiagnosticsKind::Syntax => StepProgress {
            syntax: StepState { expected: p.syntax.expected, done: p.syntax.done || p.syntax.expected },
            semantic: p.semantic,
            suggestion: p.suggestion,
        },
        DiagnosticsKind::Semantic => StepProgress {
            syntax: p.syntax,
            semantic: StepState {
                expected: p.semantic.expected,
                done: p.semantic.done || p.semantic.expected,
            },
            suggestion: p.suggestion,
        },
        DiagnosticsKind::Suggestion => StepProgress {
            syntax: p.syntax,
            semantic: p.semantic,
            suggestion: StepState {
                expected: p.suggestion.expected,
                done: p.suggestion.done || p.suggestion.expected,
            },
        },
    }
}

proof fn lemma_files_lookup_index(files: Seq<(String, FileDiagnostics)>, uri: Seq<char>)
    requires
        files_lookup(files, uri) is Some,
    ensures
        exists|j: int|
            0 <= j < files.len() && (#[trigger] files[j]).0@ == uri && files[j].1 == files_lookup(
                files,
                uri,
            )->0,
    decreases files.len(),
{
    if files.len() > 0 {
        if files[0].0@ == uri {
            assert(files[0].0@ == uri && files[0].1 == files_lookup(files, uri)->0);
        } else {
            lemma_files_lookup_index(files.drop_first(), uri);
            let j0 = choose|j: int|
                0 <= j < files.drop_first().len() && (#[trigger] files.drop_first()[j]).0@ == uri
                    && files.drop_first()[j].1 == files_lookup(files.drop_first(), uri)->0;
            assert(files.drop_first()[j0] == files[j0 + 1]);
            assert((#[trigger] files[j0 + 1]).0@ == uri && files[j0 + 1].1 == files_lookup(
                files,
                uri,
            )->0);
        }
    }
}

impl DiagnosticsState {
    /// The FIFO of outstanding sequence numbers for one child, oldest first.
    pub closed spec fn order_list(self, server: ServerKind) -> Seq<u64> {
        if server == ServerKind::Syntax {
            self.order_syntax@
        } else {
            self.order_semantic@
        }
    }

    /// Which `geterr` a report belongs to: the sequence number it carries, or
    /// the oldest outstanding one for that child.
    pub open spec fn report_target(self, server: ServerKind, request_seq: Option<u64>) -> Option<
        u64,
    > {
        match request_seq {
            Some(s) => Some(s),
            None => if self.order_list(server).len() > 0 {
                Some(self.order_list(server)[0])
            } else {
                None
            },
        }
    }

    /// The oldest outstanding sequence number for one child.
    fn order_head(&self, server: ServerKind) -> (r: Option<u64>)
        ensures
            self.order_list(server).len() == 0 ==> r is None,
            self.order_list(server).len() > 0 ==> r == Some(self.order_list(server)[0]),
    {
        match server {
            ServerKind::Syntax => {
                if self.order_syntax.len() > 0 {
                    Some(self.order_syntax[0])
                } else {
                    None
                }
            },
            ServerKind::Semantic => {
                if self.order_semantic.len() > 0 {
                    Some(self.order_semantic[0])
                } else {
                    None
                }
            },
        }
    }

    /// Forgets the oldest occurrence of one outstanding sequence number for a
    /// child; everything else is untouched.
    fn remove_order(&mut self, server: ServerKind, seq: u64)
        requires
            old(self).wf(),
        ensures
            final(self).wf(),
            final(self).pending_entries() == old(self).pending_entries(),
            final(self).ready_list() == old(self).ready_list(),
            final(self).latest_entries() == old(self).latest_entries(),
            final(self).workload() == old(self).workload(),
            forall|sk: ServerKind|
                final(self).order_list(sk) == if sk == server {
                    remove_first(old(self).order_list(sk), seq)
                } else {
                    old(self).order_list(sk)
                },
    {
        match server {
            ServerKind::Syntax => {
                let mut i: usize = 0;
                while i < self.order_syntax.len()
                    invariant
                        i <= self.order_syntax@.len(),
                        self.wf(),
                        self.pending_entries() == old(self).pending_entries(),
                        self.ready_list() == old(self).ready_list(),
                        self.latest_entries() == old(self).latest_entries(),
                        self.workload() == old(self).workload(),
                        server == ServerKind::Syntax,
                        self.order_syntax@ == old(self).order_syntax@,
                        self.order_semantic@ == old(self).order_semantic@,
                        forall|j: int| 0 <= j < i ==> self.order_syntax@[j] != seq,
                    decreases self.order_syntax@.len() - i,
                {
                    if self.order_syntax[i] == seq {
                        let ghost before = self.order_syntax@;
                        let _ = self.order_syntax.remove(i);
                        proof {
                            lemma_remove_first_at(before, seq, i as int);
                            assert(self.order_syntax@ =~= before.take(i as int) + before.skip(
                                i as int + 1,
                            ));
                            assert forall|sk: ServerKind|
                                self.order_list(sk) == if sk == server {
                                    remove_first(old(self).order_list(sk), seq)
                                } else {
                                    old(self).order_list(sk)
                                } by {
                                if sk == ServerKind::Syntax {
                                    assert(self.order_list(sk) == self.order_syntax@);
                                } else {
                                    assert(self.order_list(sk) == self.order_semantic@);
                                }
                            }
                        }
                        return ;
                    }
                    i += 1;
                }
                proof {
                    lemma_remove_first_absent(self.order_syntax@, seq);
                }
            },
            ServerKind::Semantic => {
                let mut i: usize = 0;
                while i < self.order_semantic.len()
                    invariant
                        i <= self.order_semantic@.len(),
                        self.wf(),
                        self.pending_entries() == old(self).pending_entries(),
                        self.ready_list() == old(self).ready_list(),
                        self.latest_entries() == old(self).latest_entries(),
                        self.workload() == old(self).workload(),
                        server == ServerKind::Semantic,
                        self.order_syntax@ == old(self).order_syntax@,
                        self.order_semantic@ == old(self).order_semantic@,
                        forall|j: int| 0 <= j < i ==> self.order_semantic@[j] != seq,
                    decreases self.order_semantic@.len() - i,
                {
                    if self.order_semantic[i] == seq {
                        let ghost before = self.order_semantic@;
                        let _ = self.order_semantic.remove(i);
                        proof {
                            lemma_remove_first_at(before, seq, i as int);
                            assert(self.order_semantic@ =~= before.take(i as int) + before.skip(
                                i as int + 1,
                            ));
                            assert forall|sk: ServerKind|
                                self.order_list(sk) == if sk == server {
                                    remove_first(old(self).order_list(sk), seq)
                                } else {
                                    old(self).order_list(sk)
                                } by {
                                if sk == ServerKind::Syntax {
                                    assert(self.order_list(sk) == self.order_syntax@);
                                } else {
                                    assert(self.order_list(sk) == self.order_semantic@);
                                }
                            }
                        }
                        return ;
                    }
                    i += 1;
                }
                proof {
                    lemma_remove_first_absent(self.order_semantic@, seq);
                }
            },
        }
    }

    /// Feeds one parsed diagnostics event into the aggregator.
    ///
    /// A report is charged to the `geterr` it names, or to the oldest
    /// outstanding one for that child: the file's snapshot of that kind is
    /// overwritten and the kind marked arrived; once every awaited kind has
    /// arrived, the record's files are emitted (each merged in the order
    /// syntax, semantic, suggestion) and the record is released. A
    /// `requestCompleted` forces that flush for whatever has arrived. A report
    /// that matches no outstanding record updates the per-file overlay cache
    /// and is emitted on its own.
    #[verifier::rlimit(100)]
    pub fn handle_event(&mut self, server: ServerKind, event: DiagnosticsEvent)
        requires
            old(self).wf(),
        ensures
            final(self).wf(),
            ({
                &&& event matches DiagnosticsEvent::Completed { request_seq } ==> {
                    let key = (server, request_seq);
                    match old(self).pending_entry(key) {
                        Some(entry) => {
                            &&& final(self).pending_entry(key) is None
                            &&& forall|k: (ServerKind, u64)|
                                k != key ==> final(self).pending_entry(k) == old(self).pending_entry(k)
                            &&& forall|sk: ServerKind|
                                final(self).order_list(sk) == if sk == server {
                                    remove_first(old(self).order_list(sk), request_seq)
                                } else {
                                    old(self).order_list(sk)
                                }
                            &&& final(self).ready_list().len() == old(self).ready_list().len()
                                + entry.files@.len()
                            &&& forall|k: int|
                                0 <= k < old(self).ready_list().len() ==> final(self).ready_list()[k] == old(self).ready_list()[k]
                            &&& forall|k: int|
                                0 <= k < entry.files@.len() ==> {
                                    let emitted = final(self).ready_list()[old(self).ready_list().len() + k];
                                    &&& emitted.0@ == (#[trigger] entry.files@[k]).0@
                                    &&& emitted.1@ == spec_emit_merge(
                                        files_lookup(old(self).latest_entries(), entry.files@[k].0@),
                                        entry.progress,
                                        entry.files@[k].1,
                                    )
                                }
                            &&& forall|k: int|
                                0 <= k < entry.files@.len() ==> emit_retained(
                                    files_lookup(
                                        old(self).latest_entries(),
                                        (#[trigger] entry.files@[k]).0@,
                                    ),
                                    entry.progress,
                                    entry.files@[k].1,
                                    files_lookup(final(self).latest_entries(), entry.files@[k].0@),
                                )
                            &&& forall|u: Seq<char>|
                                (forall|k: int|
                                    0 <= k < entry.files@.len() ==> u != (
                                    #[trigger] entry.files@[k]).0@) ==> files_lookup(
                                    final(self).latest_entries(),
                                    u,
                                ) == files_lookup(old(self).latest_entries(), u)
                        },
                        None => {
                            &&& final(self).ready_list() == old(self).ready_list()
                            &&& final(self).pending_entries() == old(self).pending_entries()
                            &&& final(self).latest_entries() == old(self).latest_entries()
                            &&& forall|sk: ServerKind|
                                final(self).order_list(sk) == old(self).order_list(sk)
                        },
                    }
                }
                &&& event matches DiagnosticsEvent::Report { kind, request_seq, uri, diagnostics }
                    ==> {
                    let target = old(self).report_target(server, request_seq);
                    if target is Some && old(self).pending_entry((server, target->0)) is Some {
                        let key = (server, target->0);
                        let entry = old(self).pending_entry(key)->0;
                        let marked = spec_mark(entry.progress, kind);
                        &&& forall|k: (ServerKind, u64)|
                            k != key ==> final(self).pending_entry(k) == old(self).pending_entry(k)
                        &&& !saturated(marked) ==> {
                            let stored = final(self).pending_entry(key);
                            &&& final(self).ready_list() == old(self).ready_list()
                            &&& stored is Some
                            &&& stored->0.progress == marked
                            &&& files_lookup(stored->0.files@, uri@) is Some
                            &&& kind_slice(files_lookup(stored->0.files@, uri@)->0, kind)
                                == diagnostics@
                        }
                        &&& saturated(marked) ==> {
                            &&& final(self).pending_entry(key) is None
                            &&& forall|sk: ServerKind|
                                final(self).order_list(sk) == if sk == server {
                                    remove_first(old(self).order_list(sk), target->0)
                                } else {
                                    old(self).order_list(sk)
                                }
                            &&& forall|k: int|
                                0 <= k < old(self).ready_list().len() ==> final(self).ready_list()[k] == old(self).ready_list()[k]
                            &&& exists|files: Seq<(String, FileDiagnostics)>|
                                {
                                    &&& #[trigger] files_lookup(files, uri@) is Some
                                    &&& kind_slice(files_lookup(files, uri@)->0, kind)
                                        == diagnostics@
                                    &&& (forall|u: Seq<char>|
                                        u != uri@ ==> files_lookup(files, u) == files_lookup(
                                            entry.files@,
                                            u,
                                        ))
                                    &&& final(self).ready_list().len() == old(
                                        self,
                                    ).ready_list().len() + files.len()
                                    &&& (forall|k: int|
                                        0 <= k < files.len() ==> {
                                            let emitted = final(self).ready_list()[old(
                                                self,
                                            ).ready_list().len() + k];
                                            &&& emitted.0@ == (#[trigger] files[k]).0@
                                            &&& emitted.1@ == spec_emit_merge(
                                                files_lookup(
                                                    old(self).latest_entries(),
                                                    files[k].0@,
                                                ),
                                                marked,
                                                files[k].1,
                                            )
                                        })
                                    &&& (forall|k: int|
                                        0 <= k < files.len() ==> emit_retained(
                                            files_lookup(
                                                old(self).latest_entries(),
                                                (#[trigger] files[k]).0@,
                                            ),
                                            marked,
                                            files[k].1,
                                            files_lookup(
                                                final(self).latest_entries(),
                                                files[k].0@,
                                            ),
                                        ))
                                    &&& (forall|u: Seq<char>|
                                        (forall|k: int|
                                            0 <= k < files.len() ==> u != (
                                            #[trigger] files[k]).0@) ==> files_lookup(
                                            final(self).latest_entries(),
                                            u,
                                        ) == files_lookup(old(self).latest_entries(), u))
                                }
                        }
                    } else {
                        &&& final(self).pending_entries() == old(self).pending_entries()
                        &&& final(self).ready_list().len() == old(self).ready_list().len() + 1
                        &&& forall|k: int|
                            0 <= k < old(self).ready_list().len() ==> final(self).ready_list()[k]
                                == old(self).ready_list()[k]
                        &&& ({
                            let emitted = final(self).ready_list()[old(self).ready_list().len() as int];
                            let before = files_lookup(old(self).latest_entries(), uri@);
                            &&& emitted.0@ == uri@
                            &&& emitted.1@ == spec_overlay_collect(before, kind, diagnostics@)
                        })
                    }
                }
            }),
    {
        match event {
            DiagnosticsEvent::Completed { request_seq } => {
                let taken = self.take_pending(server, request_seq);
                match taken {
                    Some(mut entry) => {
                        let ghost entry0 = old(self).pending_entry((server, request_seq))->0;
                        proof {
                            assert(self.order_list(ServerKind::Syntax) == old(self).order_list(
                                ServerKind::Syntax,
                            ));
                            assert(self.order_list(ServerKind::Semantic) == old(self).order_list(
                                ServerKind::Semantic,
                            ));
                        }
                        let ghost sy_pre = self.order_list(ServerKind::Syntax);
                        let ghost sm_pre = self.order_list(ServerKind::Semantic);
                        self.remove_order(server, request_seq);
                        proof {
                            assert(self.order_list(ServerKind::Syntax) == if ServerKind::Syntax
                                == server {
                                remove_first(sy_pre, request_seq)
                            } else {
                                sy_pre
                            });
                            assert(self.order_list(ServerKind::Semantic) == if ServerKind::Semantic
                                == server {
                                remove_first(sm_pre, request_seq)
                            } else {
                                sm_pre
                            });
                        }
                        let forced = entry.progress.finish_outstanding();
                        self.workload.add_completed(forced);
                        let ghost ready0 = self.ready_list();
                        let ghost pending0 = self.pending_entries();
                        let ghost latest0c = self.latest_entries();
                        let ghost orders0c = (self.order_list(ServerKind::Syntax), self.order_list(ServerKind::Semantic));
                        proof {
                            assert(entry.files@ == entry0.files@);
                            assert(entry.progress.syntax.expected == entry0.progress.syntax.expected);
                            assert(entry.progress.semantic.expected
                                == entry0.progress.semantic.expected);
                            assert(entry.progress.suggestion.expected
                                == entry0.progress.suggestion.expected);
                            assert(ready0 == old(self).ready_list());
                            assert(self.latest_entries() == old(self).latest_entries());
                        }
                        self.emit_entry(entry);
                        proof {
                            let key = (server, request_seq);
                            assert(self.pending_entries() == pending0);
                            assert(diag_lookup(pending0, key) is None);
                            assert(self.pending_entry(key) is None);
                            assert forall|k: (ServerKind, u64)| k != key implies self.pending_entry(
                                k,
                            ) == old(self).pending_entry(k) by {
                                assert(diag_lookup(self.pending_entries(), k) == diag_lookup(
                                    pending0,
                                    k,
                                ));
                            }
                            assert(self.ready_list().len() == old(self).ready_list().len()
                                + entry0.files@.len());
                            assert forall|k: int|
                                0 <= k < entry0.files@.len() implies {
                                let emitted = self.ready_list()[old(self).ready_list().len() + k];
                                emitted.0@ == (#[trigger] entry0.files@[k]).0@ && emitted.1@
                                    == spec_emit_merge(
                                    files_lookup(old(self).latest_entries(), entry0.files@[k].0@),
                                    entry0.progress,
                                    entry0.files@[k].1,
                                )
                            } by {
                                assert(self.ready_list()[ready0.len() + k].0@
                                    == entry0.files@[k].0@);
                                assert(spec_emit_merge(
                                    files_lookup(old(self).latest_entries(), entry0.files@[k].0@),
                                    entry0.progress,
                                    entry0.files@[k].1,
                                ) == spec_emit_merge(
                                    files_lookup(old(self).latest_entries(), entry0.files@[k].0@),
                                    entry.progress,
                                    entry0.files@[k].1,
                                ));
                            }
                            assert forall|k: int|
                                0 <= k < entry0.files@.len() implies emit_retained(
                                files_lookup(
                                    old(self).latest_entries(),
                                    (#[trigger] entry0.files@[k]).0@,
                                ),
                                entry0.progress,
                                entry0.files@[k].1,
                                files_lookup(self.latest_entries(), entry0.files@[k].0@),
                            ) by {
                                assert(emit_retained(
                                    files_lookup(
                                        old(self).latest_entries(),
                                        entry0.files@[k].0@,
                                    ),
                                    entry.progress,
                                    entry0.files@[k].1,
                                    files_lookup(self.latest_entries(), entry0.files@[k].0@),
                                ));
                                assert(spec_emit_merge(
                                    files_lookup(old(self).latest_entries(), entry0.files@[k].0@),
                                    entry0.progress,
                                    entry0.files@[k].1,
                                ) == spec_emit_merge(
                                    files_lookup(old(self).latest_entries(), entry0.files@[k].0@),
                                    entry.progress,
                                    entry0.files@[k].1,
                                ));
                                assert(spec_emit_slice(
                                    files_lookup(old(self).latest_entries(), entry0.files@[k].0@),
                                    entry0.progress,
                                    entry0.files@[k].1,
                                    DiagnosticsKind::Syntax,
                                ) == spec_emit_slice(
                                    files_lookup(old(self).latest_entries(), entry0.files@[k].0@),
                                    entry.progress,
                                    entry0.files@[k].1,
                                    DiagnosticsKind::Syntax,
                                ));
                                assert(spec_emit_slice(
                                    files_lookup(old(self).latest_entries(), entry0.files@[k].0@),
                                    entry0.progress,
                                    entry0.files@[k].1,
                                    DiagnosticsKind::Semantic,
                                ) == spec_emit_slice(
                                    files_lookup(old(self).latest_entries(), entry0.files@[k].0@),
                                    entry.progress,
                                    entry0.files@[k].1,
                                    DiagnosticsKind::Semantic,
                                ));
                                assert(spec_emit_slice(
                                    files_lookup(old(self).latest_entries(), entry0.files@[k].0@),
                                    entry0.progress,
                                    entry0.files@[k].1,
                                    DiagnosticsKind::Suggestion,
                                ) == spec_emit_slice(
                                    files_lookup(old(self).latest_entries(), entry0.files@[k].0@),
                                    entry.progress,
                                    entry0.files@[k].1,
                                    DiagnosticsKind::Suggestion,
                                ));
                            }
                            assert forall|u: Seq<char>|
                                (forall|k: int|
                                    0 <= k < entry0.files@.len() ==> u != (
                                    #[trigger] entry0.files@[k]).0@) implies files_lookup(
                                self.latest_entries(),
                                u,
                            ) == files_lookup(old(self).latest_entries(), u) by {
                                assert(files_lookup(self.latest_entries(), u) == files_lookup(
                                    latest0c,
                                    u,
                                ));
                            }
                            assert forall|sk: ServerKind|
                                self.order_list(sk) == if sk == server {
                                    remove_first(old(self).order_list(sk), request_seq)
                                } else {
                                    old(self).order_list(sk)
                                } by {
                                if sk == ServerKind::Syntax {
                                    assert(self.order_list(sk) == orders0c.0);
                                } else {
                                    assert(self.order_list(sk) == orders0c.1);
                                }
                            }
                        }
                    },
                    None => {},
                }
            },
            DiagnosticsEvent::Report { kind, request_seq, uri, diagnostics } => {
                let target = match request_seq {
                    Some(s) => Some(s),
                    None => self.order_head(server),
                };
                match target {
                    Some(s) => {
                        let taken = self.take_pending(server, s);
                        match taken {
                            Some(mut entry) => {
                                let ghost entry0 = entry;
                                entry.update_file(uri.as_str(), kind, diagnostics);
                                let newly = entry.progress.mark(kind);
                                proof {
                                    assert(entry.progress == spec_mark(entry0.progress, kind));
                                }
                                if newly {
                                    self.workload.add_completed(1);
                                }
                                if entry.progress.syntax.done && entry.progress.semantic.done
                                    && entry.progress.suggestion.done {
                                    let ghost updated_files = entry.files@;
                                    let ghost marked = entry.progress;
                                    proof {
                                        lemma_files_lookup_index(entry.files@, uri@);
                                    }
                                    self.remove_order(server, s);
                                    let ghost latest_before = self.latest_entries();
                                    let ghost ready_before = self.ready_list();
                                    self.emit_entry(entry);
                                    proof {
                                        assert(files_lookup(updated_files, uri@) is Some);
                                        assert(kind_slice(
                                            files_lookup(updated_files, uri@)->0,
                                            kind,
                                        ) == diagnostics@);
                                        assert(self.ready_list().len() == ready_before.len()
                                            + updated_files.len());
                                    }
                                } else {
                                    self.put_pending(server, s, entry);
                                }
                            },
                            None => {
                                self.stray_report(uri, kind, diagnostics);
                            },
                        }
                    },
                    None => {
                        self.stray_report(uri, kind, diagnostics);
                    },
                }
            },
        }
    }

    /// Handles a report that matches no outstanding `geterr`: overlays the
    /// per-file cache and emits the merged list on its own.
    fn stray_report(&mut self, uri: String, kind: DiagnosticsKind, diagnostics: Vec<Diagnostic>)
        requires
            old(self).wf(),
        ensures
            final(self).wf(),
            final(self).pending_entries() == old(self).pending_entries(),
            final(self).workload() == old(self).workload(),
            final(self).ready_list().len() == old(self).ready_list().len() + 1,
            forall|k: int|
                0 <= k < old(self).ready_list().len() ==> final(self).ready_list()[k] == old(self).ready_list()[k],
            ({
                let emitted = final(self).ready_list()[old(self).ready_list().len() as int];
                let before = files_lookup(old(self).latest_entries(), uri@);
                &&& emitted.0@ == uri@
                &&& emitted.1@ == spec_overlay_collect(before, kind, diagnostics@)
            }),
    {
        let before = find_file(&self.latest, uri.as_str());
        let mut record = match before {
            Some(i) => {
                proof {
                    lemma_files_found(self.latest@, uri@, i as int);
                }
                let ghost lat = self.latest@;
                let entry = self.latest.remove(i);
                proof {
                    assert(self.latest@ =~= lat.take(i as int) + lat.skip(i as int + 1));
                    lemma_file_unique_remove(lat, i as int);
                }
                entry.1
            },
            None => {
                proof {
                    lemma_files_none(self.latest@, uri@);
                }
                FileDiagnostics::new()
            },
        };
        record.update_kind(kind, diagnostics);
        let combined = record.collect();
        if combined.len() > 0 {
            let still = find_file(&self.latest, uri.as_str());
            if still.is_none() {
                let ghost mid = self.latest@;
                self.latest.push((uri.clone(), record));
                proof {
                    let n = self.latest@.len() - 1;
                    assert forall|a: int, b: int|
                        0 <= a < b < self.latest@.len() implies (#[trigger] self.latest@[a]).0@
                        != (#[trigger] self.latest@[b]).0@ by {
                        if b < n {
                            assert(self.latest@[a] == mid[a]);
                            assert(self.latest@[b] == mid[b]);
                        } else {
                            assert(self.latest@[a] == mid[a]);
                        }
                    }
                }
            }
        }
        let ghost ready_before = self.ready@;
        self.ready.push((uri, combined));
        proof {
            assert forall|k: int|
                0 <= k < old(self).ready_list().len() implies final(self).ready_list()[k] == old(self).ready_list()[k] by {
                assert(self.ready@[k] == ready_before[k]);
            }
        }
    }

    /// Stores a pending record back under its key.
    fn put_pending(&mut self, server: ServerKind, seq: u64, entry: PendingDiagnosticsEntry)
        requires
            old(self).wf(),
            entry.wf(),
            old(self).pending_entry((server, seq)) is None,
        ensures
            final(self).wf(),
            final(self).ready_list() == old(self).ready_list(),
            final(self).latest_entries() == old(self).latest_entries(),
            final(self).workload() == old(self).workload(),
            final(self).pending_entry((server, seq)) == Some(entry),
            forall|k: (ServerKind, u64)|
                k != (server, seq) ==> final(self).pending_entry(k) == old(self).pending_entry(k),
    {
        let ghost before = self.pending@;
        proof {
            lemma_diag_none_converse(before, (server, seq));
        }
        self.pending.push(((server, seq), entry));
        proof {
            let n = self.pending@.len() - 1;
            lemma_diag_found(self.pending@, (server, seq), n);
            assert forall|k: (ServerKind, u64)| k != (server, seq) implies diag_lookup(
                self.pending@,
                k,
            ) == diag_lookup(before, k) by {
                assert(self.pending@ =~= before.push(self.pending@[n]));
                lemma_diag_push(before, self.pending@[n], k);
            }
            assert forall|a: int, b: int|
                0 <= a < b < self.pending@.len() implies (#[trigger] self.pending@[a]).0 != (
            #[trigger] self.pending@[b]).0 by {
                if b < n {
                    assert(self.pending@[a] == before[a]);
                    assert(self.pending@[b] == before[b]);
                } else {
                    assert(self.pending@[a] == before[a]);
                }
            }
            assert forall|k: int| 0 <= k < self.pending@.len() implies (
            #[trigger] self.pending@[k]).1.wf() by {
                if k < n {
                    assert(self.pending@[k] == before[k]);
                }
            }
        }
    }
}

/// The snapshot one kind holds in a file record.
pub open spec fn kind_slice(fd: FileDiagnostics, kind: DiagnosticsKind) -> Seq<Diagnostic> {
    match kind {
        DiagnosticsKind::Syntax => fd.syntax@,
        DiagnosticsKind::Semantic => fd.semantic@,
        DiagnosticsKind::Suggestion => fd.suggestion@,
    }
}

/// One kind of the list an entry's file publishes: the dispatch's fresh
/// snapshot when the kind was awaited, else whatever the retained record (or
/// an empty one) holds.
pub open spec fn spec_emit_slice(
    before: Option<FileDiagnostics>,
    progress: StepProgress,
    rec: FileDiagnostics,
    kind: DiagnosticsKind,
) -> Seq<Diagnostic> {
    let awaited = match kind {
        DiagnosticsKind::Syntax => progress.syntax.expected,
        DiagnosticsKind::Semantic => progress.semantic.expected,
        DiagnosticsKind::Suggestion => progress.suggestion.expected,
    };
    if awaited {
        kind_slice(rec, kind)
    } else {
        match before {
            Some(fd) => kind_slice(fd, kind),
            None => Seq::<Diagnostic>::empty(),
        }
    }
}

/// The merged list an entry's file publishes: the kinds the entry's dispatch
/// awaited overlay the retained record for the file (or an empty one), and
/// the result is collected in the order syntax, semantic, suggestion.
pub open spec fn spec_emit_merge(
    before: Option<FileDiagnostics>,
    progress: StepProgress,
    rec: FileDiagnostics,
) -> Seq<Diagnostic> {
    spec_emit_slice(before, progress, rec, DiagnosticsKind::Syntax) + spec_emit_slice(
        before,
        progress,
        rec,
        DiagnosticsKind::Semantic,
    ) + spec_emit_slice(before, progress, rec, DiagnosticsKind::Suggestion)
}

/// What the overlay cache holds for a file after its record is emitted: the
/// merged record when the merge is non-empty, nothing otherwise.
pub open spec fn emit_retained(
    before: Option<FileDiagnostics>,
    progress: StepProgress,
    rec: FileDiagnostics,
    stored: Option<FileDiagnostics>,
) -> bool {
    if spec_emit_merge(before, progress, rec).len() == 0 {
        stored is None
    } else {
        &&& stored is Some
        &&& stored->0.syntax@ == spec_emit_slice(before, progress, rec, DiagnosticsKind::Syntax)
        &&& stored->0.semantic@ == spec_emit_slice(before, progress, rec, DiagnosticsKind::Semantic)
        &&& stored->0.suggestion@ == spec_emit_slice(
            before,
            progress,
            rec,
            DiagnosticsKind::Suggestion,
        )
    }
}

/// The merged list a stray report publishes: the previous record for the file
/// (or an empty one) with `kind` overwritten, collected in the order syntax,
/// semantic, suggestion.
pub open spec fn spec_overlay_collect(
    before: Option<FileDiagnostics>,
    kind: DiagnosticsKind,
    diagnostics: Seq<Diagnostic>,
) -> Seq<Diagnostic> {
    let syn = if kind == DiagnosticsKind::Syntax {
        diagnostics
    } else {
        match before {
            Some(fd) => fd.syntax@,
            None => Seq::<Diagnostic>::empty(),
        }
    };
    let sem = if kind == DiagnosticsKind::Semantic {
        diagnostics
    } else {
        match before {
            Some(fd) => fd.semantic@,
            None => Seq::<Diagnostic>::empty(),
        }
    };
    let sug = if kind == DiagnosticsKind::Suggestion {
        diagnostics
    } else {
        match before {
            Some(fd) => fd.suggestion@,
            None => Seq::<Diagnostic>::empty(),
        }
    };
    syn + sem + sug
}

} // verus!

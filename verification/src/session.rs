//! Session-level decision logic: restart choreography, the vendor control
//! notification, and inlay-hint preference synchronisation.

use vstd::prelude::*;

use crate::config::Config;
use crate::diagnostics::{DiagnosticsState, Workload};
use crate::documents::{DocumentStore, OpenDocumentSnapshot};
use crate::hints::InlayHintCache;
use crate::pending::{covered, id_matches, AdapterKind, LspId, PendingRequests};
use crate::utils::str_eq;

verus! {

/// Which children a restart request targets.
#[derive(Debug, Clone, Copy, PartialEq, Eq, Structural)]
pub enum RestartKind {
    Syntax,
    Semantic,
    Both,
}

/// The restart kind a request string names, if any.
pub open spec fn spec_restart_kind(value: Seq<char>) -> Option<RestartKind> {
    if value == "syntax"@ {
        Some(RestartKind::Syntax)
    } else if value == "semantic"@ {
        Some(RestartKind::Semantic)
    } else if value == "both"@ {
        Some(RestartKind::Both)
    } else {
        None
    }
}

/// The label each restart kind reports.
pub open spec fn spec_restart_label(kind: RestartKind) -> Seq<char> {
    match kind {
        RestartKind::Syntax => "syntax"@,
        RestartKind::Semantic => "semantic"@,
        RestartKind::Both => "both"@,
    }
}

impl RestartKind {
    /// Parses a restart kind name.
    pub fn from_str(value: &str) -> (r: Option<RestartKind>)
        ensures
            r == spec_restart_kind(value@),
    {
        if str_eq(value, "syntax") {
            Some(RestartKind::Syntax)
        } else if str_eq(value, "semantic") {
            Some(RestartKind::Semantic)
        } else if str_eq(value, "both") {
            Some(RestartKind::Both)
        } else {
            None
        }
    }

    /// Which children to restart: `(syntax, semantic)`.
    pub fn as_flags(self) -> (r: (bool, bool))
        ensures
            self == RestartKind::Syntax ==> r == (true, false),
            self == RestartKind::Semantic ==> r == (false, true),
            self == RestartKind::Both ==> r == (true, true),
    {
        match self {
            RestartKind::Syntax => (true, false),
            RestartKind::Semantic => (false, true),
            RestartKind::Both => (true, true),
        }
    }

    /// The kind's name, for progress messages.
    pub fn label(self) -> (r: &'static str)
        ensures
            r@ == spec_restart_label(self),
    {
        match self {
            RestartKind::Syntax => "syntax",
            RestartKind::Semantic => "semantic",
            RestartKind::Both => "both",
        }
    }
}

/// What a `ts-bridge/control` notification decides: restart the named
/// children, or ignore the notification.
pub open spec fn spec_control_decision(
    action: Seq<char>,
    kind: Option<Seq<char>>,
    root_matches: Option<bool>,
) -> Option<RestartKind> {
    if action != "restart"@ {
        None
    } else if root_matches == Some(false) {
        None
    } else {
        match kind {
            Some(k) => spec_restart_kind(k),
            None => Some(RestartKind::Both),
        }
    }
}

/// Validates a control notification: only a `restart` action whose optional
/// kind parses and whose optional root URI matched this session's workspace
/// leads to a restart; everything else is ignored.
pub fn control_restart_decision(action: &str, kind: Option<&str>, root_matches: Option<bool>) -> (r:
    Option<RestartKind>)
    ensures
        r == spec_control_decision(action@, match kind {
            Some(k) => Some(k@),
            None => None,
        }, root_matches),
{
    if !str_eq(action, "restart") {
        return None;
    }
    if let Some(matched) = root_matches {
        if !matched {
            return None;
        }
    }
    match kind {
        Some(k) => RestartKind::from_str(k),
        None => Some(RestartKind::Both),
    }
}

/// What the session does with an incoming request method: answer it locally,
/// run the named special handler, route it to tsserver under the given
/// adapter, or report it unknown.
#[derive(Debug, Clone, Copy, PartialEq, Eq, Structural)]
pub enum MethodDecision {
    Shutdown,
    InitializeAgain,
    InlayHintRefresh,
    ExecuteCommand,
    InlayHint,
    Route(AdapterKind),
    Unknown,
}

/// The decision each request method maps to.
pub open spec fn spec_classify_method(method: Seq<char>) -> MethodDecision {
    if method == "shutdown"@ {
        MethodDecision::Shutdown
    } else if method == "initialize"@ {
        MethodDecision::InitializeAgain
    } else if method == "workspace/inlayHint/refresh"@ {
        MethodDecision::InlayHintRefresh
    } else if method == "workspace/executeCommand"@ {
        MethodDecision::ExecuteCommand
    } else if method == "textDocument/inlayHint"@ {
        MethodDecision::InlayHint
    } else if method == "textDocument/hover"@ {
        MethodDecision::Route(AdapterKind::Quickinfo)
    } else if method == "textDocument/completion"@ {
        MethodDecision::Route(AdapterKind::Completion)
    } else if method == "completionItem/resolve"@ {
        MethodDecision::Route(AdapterKind::CompletionResolve)
    } else if method == "textDocument/definition"@ {
        MethodDecision::Route(AdapterKind::Definition)
    } else if method == "textDocument/signatureHelp"@ {
        MethodDecision::Route(AdapterKind::SignatureHelp)
    } else if method == "textDocument/references"@ {
        MethodDecision::Route(AdapterKind::References)
    } else if method == "textDocument/typeDefinition"@ {
        MethodDecision::Route(AdapterKind::TypeDefinition)
    } else if method == "textDocument/implementation"@ {
        MethodDecision::Route(AdapterKind::Implementation)
    } else if method == "textDocument/codeAction"@ {
        MethodDecision::Route(AdapterKind::CodeAction)
    } else if method == "codeAction/resolve"@ {
        MethodDecision::Route(AdapterKind::CodeActionResolve)
    } else if method == "textDocument/documentHighlight"@ {
        MethodDecision::Route(AdapterKind::DocumentHighlight)
    } else if method == "textDocument/documentSymbol"@ {
        MethodDecision::Route(AdapterKind::DocumentSymbol)
    } else if method == "textDocument/formatting"@ {
        MethodDecision::Route(AdapterKind::Formatting)
    } else if method == "textDocument/prepareRename"@ {
        MethodDecision::Route(AdapterKind::PrepareRename)
    } else if method == "textDocument/rename"@ {
        MethodDecision::Route(AdapterKind::Rename)
    } else if method == "textDocument/semanticTokens/full"@ {
        MethodDecision::Route(AdapterKind::SemanticTokens)
    } else if method == "textDocument/semanticTokens/range"@ {
        MethodDecision::Route(AdapterKind::SemanticTokens)
    } else if method == "workspace/symbol"@ {
        MethodDecision::Route(AdapterKind::WorkspaceSymbol)
    } else {
        MethodDecision::Unknown
    }
}

/// Classifies an incoming request method, exactly as the routing table above
/// prescribes; anything outside it is answered with a method-not-found error.
pub fn classify_method(method: &str) -> (r: MethodDecision)
    ensures
        r == spec_classify_method(method@),
{
    if str_eq(method, "shutdown") {
        MethodDecision::Shutdown
    } else if str_eq(method, "initialize") {
        MethodDecision::InitializeAgain
    } else if str_eq(method, "workspace/inlayHint/refresh") {
        MethodDecision::InlayHintRefresh
    } else if str_eq(method, "workspace/executeCommand") {
        MethodDecision::ExecuteCommand
    } else if str_eq(method, "textDocument/inlayHint") {
        MethodDecision::InlayHint
    } else if str_eq(method, "textDocument/hover") {
        MethodDecision::Route(AdapterKind::Quickinfo)
    } else if str_eq(method, "textDocument/completion") {
        MethodDecision::Route(AdapterKind::Completion)
    } else if str_eq(method, "completionItem/resolve") {
        MethodDecision::Route(AdapterKind::CompletionResolve)
    } else if str_eq(method, "textDocument/definition") {
        MethodDecision::Route(AdapterKind::Definition)
    } else if str_eq(method, "textDocument/signatureHelp") {
        MethodDecision::Route(AdapterKind::SignatureHelp)
    } else if str_eq(method, "textDocument/references") {
        MethodDecision::Route(AdapterKind::References)
    } else if str_eq(method, "textDocument/typeDefinition") {
        MethodDecision::Route(AdapterKind::TypeDefinition)
    } else if str_eq(method, "textDocument/implementation") {
        MethodDecision::Route(AdapterKind::Implementation)
    } else if str_eq(method, "textDocument/codeAction") {
        MethodDecision::Route(AdapterKind::CodeAction)
    } else if str_eq(method, "codeAction/resolve") {
        MethodDecision::Route(AdapterKind::CodeActionResolve)
    } else if str_eq(method, "textDocument/documentHighlight") {
        MethodDecision::Route(AdapterKind::DocumentHighlight)
    } else if str_eq(method, "textDocument/documentSymbol") {
        MethodDecision::Route(AdapterKind::DocumentSymbol)
    } else if str_eq(method, "textDocument/formatting") {
        MethodDecision::Route(AdapterKind::Formatting)
    } else if str_eq(method, "textDocument/prepareRename") {
        MethodDecision::Route(AdapterKind::PrepareRename)
    } else if str_eq(method, "textDocument/rename") {
        MethodDecision::Route(AdapterKind::Rename)
    } else if str_eq(method, "textDocument/semanticTokens/full") {
        MethodDecision::Route(AdapterKind::SemanticTokens)
    } else if str_eq(method, "textDocument/semanticTokens/range") {
        MethodDecision::Route(AdapterKind::SemanticTokens)
    } else if str_eq(method, "workspace/symbol") {
        MethodDecision::Route(AdapterKind::WorkspaceSymbol)
    } else {
        MethodDecision::Unknown
    }
}

/// Tracks whether tsserver has been configured for the current inlay-hint
/// mode; nothing is known until the first `configure` is sent.
#[derive(Debug)]
pub struct InlayPreferenceState {
    pub configured_for: Option<bool>,
}

impl InlayPreferenceState {
    /// Nothing configured yet.
    pub fn new() -> (r: InlayPreferenceState)
        ensures
            r.configured_for is None,
    {
        InlayPreferenceState { configured_for: None }
    }

    /// True when a `configure` command must be dispatched before the next
    /// inlay-hint request: the last configured mode differs from the desired
    /// one, or none was sent yet.
    pub fn needs_configure(&self, enabled: bool) -> (r: bool)
        ensures
            r == (self.configured_for != Some(enabled)),
    {
        match self.configured_for {
            Some(mode) => mode != enabled,
            None => true,
        }
    }

    /// Records that tsserver has been configured for `enabled`.
    pub fn mark_configured(&mut self, enabled: bool)
        ensures
            final(self).configured_for == Some(enabled),
    {
        self.configured_for = Some(enabled);
    }

    /// Forgets the configured mode, forcing the next inlay-hint request to
    /// reconfigure.
    pub fn invalidate(&mut self)
        ensures
            final(self).configured_for is None,
    {
        self.configured_for = None;
    }
}

/// The session-local state the verified core owns: configuration, documents,
/// the pending table, the diagnostics aggregator and the inlay caches.
#[derive(Debug)]
pub struct SessionCore {
    pub config: Config,
    pub workspace_root: String,
    pub documents: DocumentStore,
    pub pending: PendingRequests,
    pub diag_state: DiagnosticsState,
    pub inlay_cache: InlayHintCache,
    pub inlay_preferences: InlayPreferenceState,
}

impl SessionCore {
    /// Session invariant: every owned component is well formed.
    pub open spec fn wf(self) -> bool {
        &&& self.documents.wf()
        &&& self.pending.wf()
        &&& self.diag_state.wf()
        &&& self.inlay_cache.wf()
    }

    /// A fresh session around the given configuration and workspace root.
    pub fn new(config: Config, workspace_root: String) -> (r: SessionCore)
        ensures
            r.wf(),
            r.config == config,
            r.workspace_root == workspace_root,
            r.documents.entries().len() == 0,
            r.pending.entries().len() == 0,
            r.inlay_preferences.configured_for is None,
    {
        SessionCore {
            config,
            workspace_root,
            documents: DocumentStore::new(),
            pending: PendingRequests::new(),
            diag_state: DiagnosticsState::new(),
            inlay_cache: InlayHintCache::new(),
            inlay_preferences: InlayPreferenceState::new(),
        }
    }

    /// Restart begins: every outstanding request is failed once per LSP id
    /// (the returned ids), the diagnostics aggregator and inlay caches are
    /// cleared, and the preference state is invalidated. The configuration
    /// and the document store are left untouched, so replaying `didOpen`
    /// afterwards reproduces exactly the state a fresh session against the
    /// same documents would reach.
    pub fn on_restarting(&mut self) -> (r: Vec<LspId>)
        requires
            old(self).wf(),
        ensures
            final(self).wf(),
            final(self).config == old(self).config,
            final(self).workspace_root == old(self).workspace_root,
            final(self).documents == old(self).documents,
            final(self).pending.entries().len() == 0,
            forall|k: int|
                0 <= k < old(self).pending.entries().len() ==> covered(
                    r@,
                    (#[trigger] old(self).pending.entries()[k]).1.id,
                ),
            forall|i: int, j: int| 0 <= i < j < r@.len() ==> !id_matches(r@[i], r@[j]),
            final(self).diag_state.pending_entries().len() == 0,
            final(self).diag_state.ready_list().len() == 0,
            final(self).diag_state.workload() == (Workload { expected: 0u32, completed: 0u32 }),
            forall|k: (Seq<char>, crate::hints::RangeFingerprint)|
                final(self).inlay_cache.cached(k) is None,
            final(self).inlay_preferences.configured_for is None,
    {
        let failed = self.pending.fail_all();
        self.diag_state.clear();
        self.inlay_cache.clear();
        self.inlay_preferences.invalidate();
        failed
    }

    /// Restart finished: the documents to replay are exactly the open
    /// documents, with their current text, version and language; the session
    /// state itself is unchanged.
    pub fn on_restarted(&self) -> (r: Vec<OpenDocumentSnapshot>)
        requires
            self.wf(),
        ensures
            r@.len() == self.documents.entries().len(),
            forall|k: int|
                0 <= k < r@.len() ==> {
                    &&& (#[trigger] r@[k]).uri@ == self.documents.entries()[k].0@
                    &&& r@[k].text@ == self.documents.entries()[k].1.text@
                    &&& r@[k].version == self.documents.entries()[k].1.version
                    &&& r@[k].language_id == self.documents.entries()[k].1.language_id
                },
    {
        self.documents.open_documents()
    }

    /// A configuration broadcast arrived: adopt it, drop the cached hints and
    /// force the next inlay-hint request to reconfigure tsserver.
    pub fn on_config_updated(&mut self, config: Config)
        requires
            old(self).wf(),
        ensures
            final(self).wf(),
            final(self).config == config,
            final(self).documents == old(self).documents,
            final(self).pending == old(self).pending,
            forall|k: (Seq<char>, crate::hints::RangeFingerprint)|
                final(self).inlay_cache.cached(k) is None,
            final(self).inlay_preferences.configured_for is None,
    {
        self.config = config;
        self.inlay_cache.clear();
        self.inlay_preferences.invalidate();
    }
}

} // verus!

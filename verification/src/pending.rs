//! Pending-request table: correlates tsserver replies with LSP requests.
//!
//! Each dispatched request is tracked under `(server, seq)` together with the
//! originating LSP request id, the response adapter to run, the adapter's
//! context, and an optional post-processing step. A reply resolves its entry
//! at most once: taking an entry removes it, so a duplicate response finds
//! nothing and is dropped. When an adapter continues a chain, the follow-up
//! entries carry the original LSP id, so the eventual client reply does too.

use vstd::prelude::*;

use crate::hints::HintCacheKey;
use crate::json::{json_as_bool, json_as_str, json_as_u64, json_field, json_get, json_view, spec_field_text, spec_field_uint, JsonData};
use crate::rpc::{DispatchReceipt, ServerKind};
use crate::utils::{str_eq, str_to_string};

verus! {

/// JSON-RPC error code for an internal error.
pub const INTERNAL_ERROR: i64 = -32603;

/// JSON-RPC error code for an unknown method.
pub const METHOD_NOT_FOUND: i64 = -32601;

/// JSON-RPC error code for an invalid request.
pub const INVALID_REQUEST: i64 = -32600;

/// JSON-RPC error code for invalid parameters.
pub const INVALID_PARAMS: i64 = -32602;

/// An LSP request id: a number or a string.
#[derive(Debug)]
pub enum LspId {
    Number(i32),
    Text(String),
}

/// Two ids denote the same request: equal numbers, or strings with the same
/// text.
pub open spec fn id_matches(a: LspId, b: LspId) -> bool {
    match (a, b) {
        (LspId::Number(x), LspId::Number(y)) => x == y,
        (LspId::Text(s), LspId::Text(t)) => s@ == t@,
        _ => false,
    }
}

impl LspId {
    /// A copy of this id.
    pub fn duplicate(&self) -> (r: LspId)
        ensures
            r == *self,
            id_matches(r, *self),
    {
        match self {
            LspId::Number(n) => LspId::Number(*n),
            LspId::Text(s) => LspId::Text(s.clone()),
        }
    }

    /// Executable counterpart of [`id_matches`].
    pub fn matches(&self, other: &LspId) -> (r: bool)
        ensures
            r == id_matches(*self, *other),
    {
        match (self, other) {
            (LspId::Number(x), LspId::Number(y)) => x == y,
            (LspId::Text(s), LspId::Text(t)) => crate::utils::str_eq(s.as_str(), t.as_str()),
            _ => false,
        }
    }
}

/// The response adapter registered for a request; the session runs the named
/// adapter when the reply arrives.
#[derive(Debug, Clone, Copy, PartialEq, Eq, Structural)]
pub enum AdapterKind {
    Quickinfo,
    Completion,
    CompletionResolve,
    Definition,
    SignatureHelp,
    References,
    TypeDefinition,
    CodeAction,
    CodeActionResolve,
    DocumentHighlight,
    DocumentSymbol,
    Formatting,
    Implementation,
    InlayHint,
    PrepareRename,
    Rename,
    RenameChain,
    SemanticTokens,
    WorkspaceSymbol,
    FileCodeEdits,
    CombinedCodeFix,
    FileReferences,
    FixAllChain,
    OrganizeImports,
}

/// A step run after a `Ready` adapter result, before the reply leaves.
#[derive(Debug)]
pub enum PostProcess {
    /// Store the reply in the inlay-hint cache under this key.
    InlayHints { key: HintCacheKey },
}

impl PostProcess {
    /// A copy of this step.
    pub fn duplicate(&self) -> (r: PostProcess)
        ensures
            r == *self,
    {
        match self {
            PostProcess::InlayHints { key } => PostProcess::InlayHints { key: key.duplicate() },
        }
    }
}

/// The frame is a response: its `type` field reads as the text `response`.
pub open spec fn spec_is_response(d: JsonData) -> bool {
    spec_field_text(d, "type"@) == Some("response"@)
}

/// The request sequence number a response frame names, if any.
pub open spec fn spec_response_seq(d: JsonData) -> Option<u64> {
    spec_field_uint(d, "request_seq"@)
}

/// The frame reports success: its `success` field reads as `true`.
pub open spec fn spec_response_success(d: JsonData) -> bool {
    match json_field(d, "success"@) {
        Some(JsonData::Bool(flag)) => flag,
        _ => false,
    }
}

/// The message a failed response is answered with: the frame's `message`
/// text, or the default notice when it carries none.
pub open spec fn spec_failure_message(d: JsonData) -> Seq<char> {
    match spec_field_text(d, "message"@) {
        Some(text) => text,
        None => "tsserver request failed"@,
    }
}

/// What resolving one tsserver frame against the table decides.
#[derive(Debug)]
pub enum Resolution {
    /// The frame is not a response (an event, say): nothing to resolve.
    NotAResponse,
    /// A response whose key is not tracked here: dropped silently.
    Unknown,
    /// tsserver reported failure: the request is answered with its message.
    Failed { id: LspId, message: String },
    /// tsserver succeeded: the entry's adapter runs on the payload.
    Succeeded { entry: PendingEntry },
}

/// What the table remembers about one dispatched request.
#[derive(Debug)]
pub struct PendingEntry {
    pub id: LspId,
    pub adapter: AdapterKind,
    pub context: Option<serde_json::Value>,
    pub postprocess: Option<PostProcess>,
}

/// First entry stored under `key`, scanning from the front.
pub open spec fn table_lookup(
    items: Seq<((ServerKind, u64), PendingEntry)>,
    key: (ServerKind, u64),
) -> Option<PendingEntry>
    decreases items.len(),
{
    if items.len() == 0 {
        None
    } else if items[0].0 == key {
        Some(items[0].1)
    } else {
        table_lookup(items.drop_first(), key)
    }
}

proof fn lemma_table_found(
    items: Seq<((ServerKind, u64), PendingEntry)>,
    key: (ServerKind, u64),
    i: int,
)
    requires
        0 <= i < items.len(),
        items[i].0 == key,
        forall|j: int| 0 <= j < i ==> (#[trigger] items[j]).0 != key,
    ensures
        table_lookup(items, key) == Some(items[i].1),
    decreases items.len(),
{
    if i > 0 {
        assert forall|j: int| 0 <= j < i - 1 implies (#[trigger] items.drop_first()[j]).0
            != key by {
            assert(items.drop_first()[j] == items[j + 1]);
        }
        assert(items.drop_first()[i - 1] == items[i]);
        lemma_table_found(items.drop_first(), key, i - 1);
    }
}

proof fn lemma_table_none(items: Seq<((ServerKind, u64), PendingEntry)>, key: (ServerKind, u64))
    requires
        forall|j: int| 0 <= j < items.len() ==> (#[trigger] items[j]).0 != key,
    ensures
        table_lookup(items, key) is None,
    decreases items.len(),
{
    if items.len() > 0 {
        assert forall|j: int| 0 <= j < items.drop_first().len() implies (#[trigger] items.drop_first()[j]).0
            != key by {
            assert(items.drop_first()[j] == items[j + 1]);
        }
        lemma_table_none(items.drop_first(), key);
    }
}

proof fn lemma_table_remove(
    items: Seq<((ServerKind, u64), PendingEntry)>,
    i: int,
    key: (ServerKind, u64),
)
    requires
        0 <= i < items.len(),
        key != items[i].0,
    ensures
        table_lookup(items.take(i) + items.skip(i + 1), key) == table_lookup(items, key),
    decreases items.len(),
{
    let rest = items.take(i) + items.skip(i + 1);
    if i == 0 {
        assert(rest =~= items.drop_first());
    } else {
        assert(rest[0] == items[0]);
        if items[0].0 == key {
        } else {
            assert(items.drop_first()[i - 1] == items[i]);
            lemma_table_remove(items.drop_first(), i - 1, key);
            assert(rest.drop_first() =~= items.drop_first().take(i - 1) + items.drop_first().skip(
                i,
            ));
        }
    }
}

proof fn lemma_table_push(
    items: Seq<((ServerKind, u64), PendingEntry)>,
    entry: ((ServerKind, u64), PendingEntry),
    key: (ServerKind, u64),
)
    requires
        key != entry.0,
    ensures
        table_lookup(items.push(entry), key) == table_lookup(items, key),
    decreases items.len(),
{
    if items.len() == 0 {
        assert(items.push(entry)[0] == entry);
        assert(items.push(entry).drop_first() =~= items);
        assert(table_lookup(items, key) is None);
    } else {
        assert(items.push(entry)[0] == items[0]);
        assert(items.push(entry).drop_first() =~= items.drop_first().push(entry));
        lemma_table_push(items.drop_first(), entry, key);
    }
}

/// Table of requests awaiting their tsserver replies.
#[derive(Debug)]
pub struct PendingRequests {
    items: Vec<((ServerKind, u64), PendingEntry)>,
}

impl PendingRequests {
    /// The tracked entries.
    pub closed spec fn entries(self) -> Seq<((ServerKind, u64), PendingEntry)> {
        self.items@
    }

    /// The entry tracked under `key`, if any.
    pub open spec fn tracked_entry(self, key: (ServerKind, u64)) -> Option<PendingEntry> {
        table_lookup(self.entries(), key)
    }

    /// Table invariant: keys are unique.
    pub open spec fn wf(self) -> bool {
        forall|a: int, b: int|
            0 <= a < b < self.entries().len() ==> (#[trigger] self.entries()[a]).0 != (
            #[trigger] self.entries()[b]).0
    }

    /// An empty table.
    pub fn new() -> (r: PendingRequests)
        ensures
            r.wf(),
            r.entries().len() == 0,
            forall|k: (ServerKind, u64)| r.tracked_entry(k) is None,
    {
        PendingRequests { items: Vec::new() }
    }

    /// Index of the entry under `key`, scanning from the front.
    fn find(&self, server: ServerKind, seq: u64) -> (r: Option<usize>)
        ensures
            match r {
                Some(i) => {
                    &&& i < self.entries().len()
                    &&& self.entries()[i as int].0 == (server, seq)
                    &&& forall|j: int|
                        0 <= j < i ==> (#[trigger] self.entries()[j]).0 != (server, seq)
                },
                None => forall|j: int|
                    0 <= j < self.entries().len() ==> (#[trigger] self.entries()[j]).0 != (
                    server,
                    seq,
                ),
            },
    {
        let mut i: usize = 0;
        while i < self.items.len()
            invariant
                i <= self.items@.len(),
                forall|j: int| 0 <= j < i ==> (#[trigger] self.items@[j]).0 != (server, seq),
            decreases self.items@.len() - i,
        {
            if self.items[i].0.0 == server && self.items[i].0.1 == seq {
                return Some(i);
            }
            i += 1;
        }
        None
    }

    /// Removes the entry under `key`, if present; lookups of other keys are
    /// unchanged.
    fn remove_key(&mut self, server: ServerKind, seq: u64)
        requires
            old(self).wf(),
        ensures
            final(self).wf(),
            forall|j: int|
                0 <= j < final(self).entries().len() ==> (#[trigger] final(self).entries()[j]).0
                    != (server, seq),
            forall|k: (ServerKind, u64)|
                k != (server, seq) ==> final(self).tracked_entry(k) == old(self).tracked_entry(k),
    {
        let found = self.find(server, seq);
        match found {
            Some(i) => {
                let ghost before = self.items@;
                let _ = self.items.remove(i);
                proof {
                    assert(self.items@ =~= before.take(i as int) + before.skip(i as int + 1));
                    assert forall|k: (ServerKind, u64)| k != (server, seq) implies table_lookup(
                        self.items@,
                        k,
                    ) == table_lookup(before, k) by {
                        lemma_table_remove(before, i as int, k);
                    }
                    assert forall|j: int|
                        0 <= j < self.items@.len() implies (#[trigger] self.items@[j]).0 != (
                    server, seq) by {
                        if j < i as int {
                            assert(self.items@[j] == before[j]);
                        } else {
                            assert(self.items@[j] == before[j + 1]);
                        }
                    }
                    assert forall|a: int, b: int|
                        0 <= a < b < self.items@.len() implies (#[trigger] self.items@[a]).0 != (
                    #[trigger] self.items@[b]).0 by {
                        let a0 = if a < i as int { a } else { a + 1 };
                        let b0 = if b < i as int { b } else { b + 1 };
                        assert(self.items@[a] == before[a0]);
                        assert(self.items@[b] == before[b0]);
                    }
                }
            },
            None => {
                proof {
                    assert(self.items@ =~= old(self).items@);
                }
            },
        }
    }

    /// Tracks one dispatched request under `(server, seq)`, replacing any
    /// stale entry for that key. The stored entry carries exactly the given
    /// LSP id, adapter, context and post-process step.
    pub fn track_one(
        &mut self,
        receipt: DispatchReceipt,
        id: &LspId,
        adapter: AdapterKind,
        context: Option<serde_json::Value>,
        postprocess: Option<PostProcess>,
    )
        requires
            old(self).wf(),
        ensures
            final(self).wf(),
            ({
                let stored = final(self).tracked_entry((receipt.server, receipt.seq));
                &&& stored is Some
                &&& stored->0.id == *id
                &&& id_matches(stored->0.id, *id)
                &&& stored->0.adapter == adapter
                &&& stored->0.context == context
                &&& stored->0.postprocess == postprocess
            }),
            forall|k: (ServerKind, u64)|
                k != (receipt.server, receipt.seq) ==> final(self).tracked_entry(k) == old(
                    self,
                ).tracked_entry(k),
    {
        self.remove_key(receipt.server, receipt.seq);
        let ghost before = self.items@;
        let entry = PendingEntry { id: id.duplicate(), adapter, context, postprocess };
        self.items.push(((receipt.server, receipt.seq), entry));
        proof {
            let n = self.items@.len() - 1;
            lemma_table_found(self.items@, (receipt.server, receipt.seq), n);
            assert forall|k: (ServerKind, u64)|
                k != (receipt.server, receipt.seq) implies table_lookup(self.items@, k)
                == table_lookup(before, k) by {
                assert(self.items@ =~= before.push(self.items@[n]));
                lemma_table_push(before, self.items@[n], k);
            }
        }
    }

    /// At-most-one resolution: removes and returns the entry for
    /// `(server, seq)`. Afterwards the key maps to nothing, so a duplicate
    /// response for the same key is dropped; every other key is untouched.
    pub fn take(&mut self, server: ServerKind, seq: u64) -> (r: Option<PendingEntry>)
        requires
            old(self).wf(),
        ensures
            final(self).wf(),
            r == old(self).tracked_entry((server, seq)),
            r is None ==> final(self).entries() == old(self).entries(),
            final(self).tracked_entry((server, seq)) is None,
            forall|k: (ServerKind, u64)|
                k != (server, seq) ==> final(self).tracked_entry(k) == old(self).tracked_entry(k),
    {
        let found = self.find(server, seq);
        match found {
            Some(i) => {
                proof {
                    lemma_table_found(self.items@, (server, seq), i as int);
                }
                let ghost before = self.items@;
                let removed = self.items.remove(i);
                proof {
                    assert(self.items@ =~= before.take(i as int) + before.skip(i as int + 1));
                    assert forall|k: (ServerKind, u64)| k != (server, seq) implies table_lookup(
                        self.items@,
                        k,
                    ) == table_lookup(before, k) by {
                        lemma_table_remove(before, i as int, k);
                    }
                    assert forall|j: int|
                        0 <= j < self.items@.len() implies (#[trigger] self.items@[j]).0 != (
                    server, seq) by {
                        if j < i as int {
                            assert(self.items@[j] == before[j]);
                        } else {
                            assert(self.items@[j] == before[j + 1]);
                        }
                    }
                    lemma_table_none(self.items@, (server, seq));
                    assert forall|a: int, b: int|
                        0 <= a < b < self.items@.len() implies (#[trigger] self.items@[a]).0 != (
                    #[trigger] self.items@[b]).0 by {
                        let a0 = if a < i as int { a } else { a + 1 };
                        let b0 = if b < i as int { b } else { b + 1 };
                        assert(self.items@[a] == before[a0]);
                        assert(self.items@[b] == before[b0]);
                    }
                }
                Some(removed.1)
            },
            None => {
                proof {
                    lemma_table_none(self.items@, (server, seq));
                    assert(self.items@ =~= old(self).items@);
                }
                None
            },
        }
    }

    /// Resolves one tsserver frame against the table, as the response
    /// pipeline prescribes: frames that are not responses are ignored, a
    /// response without a tracked entry is dropped silently (it may belong to
    /// a sibling session), a failed response yields a reply carrying
    /// tsserver's message, and a successful one hands the removed entry to
    /// its adapter. Whatever entry leaves the table leaves it exactly once.
    pub fn resolve(&mut self, server: ServerKind, payload: &serde_json::Value) -> (r: Resolution)
        requires
            old(self).wf(),
        ensures
            final(self).wf(),
            ({
                let d = json_view(*payload);
                &&& (r is NotAResponse <==> !(spec_is_response(d) && spec_response_seq(d) is Some))
                &&& r is NotAResponse ==> final(self).entries() == old(self).entries()
                &&& spec_is_response(d) && spec_response_seq(d) is Some ==> {
                    let key = (server, spec_response_seq(d)->0);
                    match old(self).tracked_entry(key) {
                        None => r is Unknown && final(self).entries() == old(self).entries(),
                        Some(entry) => {
                            &&& final(self).tracked_entry(key) is None
                            &&& forall|k: (ServerKind, u64)|
                                k != key ==> final(self).tracked_entry(k) == old(
                                    self,
                                ).tracked_entry(k)
                            &&& spec_response_success(d) ==> r == (Resolution::Succeeded { entry })
                            &&& !spec_response_success(d) ==> (r matches Resolution::Failed {
                                id,
                                message,
                            } && id == entry.id && message@ == spec_failure_message(d))
                        },
                    }
                }
            }),
    {
        let is_response = match json_get(payload, "type") {
            Some(type_value) => match json_as_str(type_value) {
                Some(text) => str_eq(text.as_str(), "response"),
                None => false,
            },
            None => false,
        };
        if !is_response {
            return Resolution::NotAResponse;
        }
        let seq = match json_get(payload, "request_seq") {
            Some(seq_value) => match json_as_u64(seq_value) {
                Some(seq) => seq,
                None => {
                    return Resolution::NotAResponse;
                },
            },
            None => {
                return Resolution::NotAResponse;
            },
        };
        let entry = match self.take(server, seq) {
            Some(entry) => entry,
            None => {
                return Resolution::Unknown;
            },
        };
        let success = match json_get(payload, "success") {
            Some(success_value) => match json_as_bool(success_value) {
                Some(flag) => flag,
                None => false,
            },
            None => false,
        };
        if success {
            Resolution::Succeeded { entry }
        } else {
            let message = match json_get(payload, "message") {
                Some(message_value) => match json_as_str(message_value) {
                    Some(text) => text,
                    None => str_to_string("tsserver request failed"),
                },
                None => str_to_string("tsserver request failed"),
            };
            Resolution::Failed { id: entry.id, message }
        }
    }

    /// True when some request is still awaiting its reply.
    pub fn is_empty(&self) -> (r: bool)
        ensures
            r == (self.entries().len() == 0),
    {
        self.items.len() == 0
    }

    /// Empties the table and returns the distinct LSP ids that were awaiting
    /// replies, one per client request, so each can be failed exactly once.
    pub fn fail_all(&mut self) -> (r: Vec<LspId>)
        requires
            old(self).wf(),
        ensures
            final(self).wf(),
            final(self).entries().len() == 0,
            forall|k: int|
                0 <= k < old(self).entries().len() ==> covered(
                    r@,
                    (#[trigger] old(self).entries()[k]).1.id,
                ),
            forall|i: int, j: int| 0 <= i < j < r@.len() ==> !id_matches(r@[i], r@[j]),
    {
        let ghost orig = self.items@;
        let mut out: Vec<LspId> = Vec::new();
        loop
            invariant
                self.items@ == orig.take(self.items@.len() as int),
                self.items@.len() <= orig.len(),
                forall|kk: int|
                    self.items@.len() <= kk < orig.len() ==> covered(
                        out@,
                        (#[trigger] orig[kk]).1.id,
                    ),
                forall|i: int, j: int| 0 <= i < j < out@.len() ==> !id_matches(out@[i], out@[j]),
            ensures
                self.items@.len() == 0,
                forall|kk: int|
                    0 <= kk < orig.len() ==> covered(out@, (#[trigger] orig[kk]).1.id),
                forall|i: int, j: int| 0 <= i < j < out@.len() ==> !id_matches(out@[i], out@[j]),
            decreases self.items@.len(),
        {
            let ghost out_before = out@;
            let ghost len_before = self.items@.len() as int;
            let popped = self.items.pop();
            let item = match popped {
                Some(item) => item,
                None => { break; },
            };
            proof {
                assert(self.items@ =~= orig.take(len_before - 1));
                assert(item == orig[len_before - 1]);
            }
            let already = contains_id(&out, &item.1.id);
            if !already {
                out.push(item.1.id.duplicate());
            }
            proof {
                assert forall|kk: int|
                    self.items@.len() <= kk < orig.len() implies covered(
                    out@,
                    (#[trigger] orig[kk]).1.id,
                ) by {
                    if kk >= len_before {
                        lemma_covered_extend(out_before, out@, orig[kk].1.id);
                    } else if already {
                        lemma_covered_extend(out_before, out@, item.1.id);
                    } else {
                        let n = out@.len() - 1;
                        assert(id_matches(out@[n], orig[kk].1.id));
                        assert(covered(out@, orig[kk].1.id));
                    }
                }
            }
        }
        proof {
            assert(orig =~= old(self).entries());
        }
        out
    }
}

/// Matching ids are transitive: a chain of entries in which each follow-up
/// carries an id matching its predecessor's ends with an id matching the one
/// the chain started with.
pub proof fn lemma_id_matches_transitive(a: LspId, b: LspId, c: LspId)
    requires
        id_matches(a, b),
        id_matches(b, c),
    ensures
        id_matches(a, c),
{
}

/// Chained-adapter law: `track_one` stores exactly the id it is given and
/// `take` returns the stored entry, so each chain step's follow-up entries
/// match the id of the entry it resolved. Along any chain, where every
/// neighbouring pair of ids matches, the last id matches the first: the one
/// eventual client reply carries the LSP id the chain started with, at any
/// depth.
pub proof fn lemma_chain_keeps_original_id(ids: Seq<LspId>)
    requires
        ids.len() > 0,
        forall|k: int| 0 <= k < ids.len() - 1 ==> id_matches(#[trigger] ids[k], ids[k + 1]),
    ensures
        id_matches(ids[0], ids.last()),
    decreases ids.len(),
{
    if ids.len() > 1 {
        let rest = ids.drop_first();
        assert forall|k: int| 0 <= k < rest.len() - 1 implies id_matches(
            #[trigger] rest[k],
            rest[k + 1],
        ) by {
            assert(rest[k] == ids[k + 1]);
            assert(rest[k + 1] == ids[k + 2]);
        }
        lemma_chain_keeps_original_id(rest);
        assert(rest[0] == ids[1]);
        lemma_id_matches_transitive(ids[0], ids[1], ids.last());
    }
}

/// True when some id in `ids` denotes the same request as `id`.
pub open spec fn covered(ids: Seq<LspId>, id: LspId) -> bool {
    exists|j: int| 0 <= j < ids.len() && id_matches(#[trigger] ids[j], id)
}

/// Coverage is kept when the id list only grows at the end.
proof fn lemma_covered_extend(before: Seq<LspId>, after: Seq<LspId>, id: LspId)
    requires
        covered(before, id),
        before.len() <= after.len(),
        forall|j: int| 0 <= j < before.len() ==> #[trigger] after[j] == before[j],
    ensures
        covered(after, id),
{
    let j0 = choose|j: int| 0 <= j < before.len() && id_matches(#[trigger] before[j], id);
    assert(after[j0] == before[j0]);
    assert(id_matches(after[j0], id));
}

/// True when some element of `v` denotes the same request as `id`.
fn contains_id(v: &Vec<LspId>, id: &LspId) -> (r: bool)
    ensures
        r == covered(v@, *id),
{
    let mut i: usize = 0;
    while i < v.len()
        invariant
            i <= v@.len(),
            forall|j: int| 0 <= j < i ==> !id_matches(v@[j], *id),
        decreases v@.len() - i,
    {
        if v[i].matches(id) {
            proof {
                assert(id_matches(v@[i as int], *id));
            }
            return true;
        }
        i += 1;
    }
    false
}

} // verus!

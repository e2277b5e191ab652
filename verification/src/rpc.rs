//! Routing between the two tsserver children.
//!
//! A dispatcher owns one request queue per child. Dispatching enqueues a
//! payload on the queues a route selects and reports one receipt per side
//! actually reached; draining hands the queued requests back in priority
//! order so the process layer can write them to the child.

use vstd::prelude::*;

use crate::json::{json_view, JsonData};
use crate::queue::{insertion_index, ordered, spec_with_seq, Priority, Request, RequestQueue};

verus! {

/// Which tsserver child a message belongs to.
#[derive(Debug, Clone, Copy, PartialEq, Eq, Hash, Structural)]
pub enum ServerKind {
    Syntax,
    Semantic,
}

/// Target selector for a dispatch: one child or both.
#[derive(Debug, Clone, Copy, PartialEq, Eq, Structural)]
pub enum Route {
    Syntax,
    Semantic,
    Both,
}

/// Handle for correlating a reply: which child got the request and under
/// which sequence number.
#[derive(Debug, Clone, Copy, PartialEq, Eq, Structural)]
pub struct DispatchReceipt {
    pub server: ServerKind,
    pub seq: u64,
}

/// A frame read from one child, tagged with its origin.
#[derive(Debug)]
pub struct ServerEvent {
    pub server: ServerKind,
    pub payload: serde_json::Value,
}

/// Failures the dispatch layer reports to its callers.
#[derive(Debug)]
pub enum ServiceError {
    /// The tsserver binary could not be resolved; carries a description.
    Provider(String),
    /// A child process interaction failed; carries a description.
    Process(String),
    /// The syntax process has not been started yet.
    ProcessNotStarted,
}

impl ServiceError {
    /// Human-readable description of the failure.
    pub fn message(&self) -> (r: String)
        ensures
            self is Provider ==> r@ == self->Provider_0@,
            self is Process ==> r@ == self->Process_0@,
    {
        match self {
            ServiceError::Provider(m) => m.clone(),
            ServiceError::Process(m) => m.clone(),
            ServiceError::ProcessNotStarted => crate::utils::str_to_string(
                "syntax process not started yet",
            ),
        }
    }
}

/// One enqueue happened: `after` is `before` with a request of the given
/// payload and priority inserted at its band's position, stamped with
/// `before`'s next sequence number.
pub open spec fn queue_inserted(
    before: RequestQueue,
    after: RequestQueue,
    payload: JsonData,
    priority: Priority,
) -> bool {
    let k = insertion_index(before.entries(), priority);
    &&& after.next_seq() == before.next_seq() + 1
    &&& after.entries().len() == before.entries().len() + 1
    &&& after.entries()[k].seq == before.next_seq()
    &&& after.entries()[k].priority == priority
    &&& json_view(after.entries()[k].payload) == spec_with_seq(payload, before.next_seq())
    &&& forall|i: int| 0 <= i < k ==> after.entries()[i] == before.entries()[i]
    &&& forall|i: int|
        k < i < after.entries().len() ==> after.entries()[i] == before.entries()[i - 1]
}

/// Queues for both children plus the flag that says whether a separate
/// semantic child is running.
#[derive(Debug)]
pub struct Dispatcher {
    pub syntax_queue: RequestQueue,
    pub semantic_queue: RequestQueue,
    pub semantic_enabled: bool,
}

impl Dispatcher {
    /// Dispatcher invariant: both queues are well formed.
    pub open spec fn wf(self) -> bool {
        &&& self.syntax_queue.well_formed()
        &&& self.semantic_queue.well_formed()
    }

    /// Fresh dispatcher; the semantic queue is used only when `semantic_enabled`.
    pub fn new(semantic_enabled: bool) -> (r: Dispatcher)
        ensures
            r.wf(),
            r.semantic_enabled == semantic_enabled,
            r.syntax_queue.entries().len() == 0,
            r.semantic_queue.entries().len() == 0,
    {
        Dispatcher {
            syntax_queue: RequestQueue::new(),
            semantic_queue: RequestQueue::new(),
            semantic_enabled,
        }
    }

    /// Enqueues the payload on every child the route selects and returns one
    /// receipt per side actually dispatched: `Both` yields two receipts, or
    /// one when the semantic child is disabled; `Semantic` yields none when
    /// the semantic child is disabled.
    pub fn dispatch(&mut self, route: Route, payload: serde_json::Value, priority: Priority) -> (r:
        Vec<DispatchReceipt>)
        requires
            old(self).wf(),
            old(self).syntax_queue.next_seq() < u64::MAX,
            old(self).semantic_queue.next_seq() < u64::MAX,
        ensures
            final(self).wf(),
            final(self).semantic_enabled == old(self).semantic_enabled,
            route == Route::Syntax ==> r@ =~= seq![
                DispatchReceipt { server: ServerKind::Syntax, seq: old(self).syntax_queue.next_seq() },
            ],
            route == Route::Semantic && old(self).semantic_enabled ==> r@ =~= seq![
                DispatchReceipt {
                    server: ServerKind::Semantic,
                    seq: old(self).semantic_queue.next_seq(),
                },
            ],
            route == Route::Semantic && !old(self).semantic_enabled ==> r@ =~= Seq::<
                DispatchReceipt,
            >::empty(),
            route == Route::Both && old(self).semantic_enabled ==> r@ =~= seq![
                DispatchReceipt { server: ServerKind::Syntax, seq: old(self).syntax_queue.next_seq() },
                DispatchReceipt {
                    server: ServerKind::Semantic,
                    seq: old(self).semantic_queue.next_seq(),
                },
            ],
            route == Route::Both && !old(self).semantic_enabled ==> r@ =~= seq![
                DispatchReceipt { server: ServerKind::Syntax, seq: old(self).syntax_queue.next_seq() },
            ],
            route == Route::Syntax || route == Route::Both ==> queue_inserted(
                old(self).syntax_queue,
                final(self).syntax_queue,
                json_view(payload),
                priority,
            ),
            route == Route::Semantic ==> final(self).syntax_queue == old(self).syntax_queue,
            (route == Route::Semantic || route == Route::Both) && old(self).semantic_enabled
                ==> queue_inserted(
                old(self).semantic_queue,
                final(self).semantic_queue,
                json_view(payload),
                priority,
            ),
            route == Route::Syntax || !old(self).semantic_enabled ==> final(self).semantic_queue
                == old(self).semantic_queue,
    {
        let mut receipts: Vec<DispatchReceipt> = Vec::new();
        match route {
            Route::Syntax => {
                let seq = self.syntax_queue.enqueue(payload, priority);
                receipts.push(DispatchReceipt { server: ServerKind::Syntax, seq });
            },
            Route::Semantic => {
                if self.semantic_enabled {
                    let seq = self.semantic_queue.enqueue(payload, priority);
                    receipts.push(DispatchReceipt { server: ServerKind::Semantic, seq });
                }
            },
            Route::Both => {
                let copy = payload.clone();
                let seq = self.syntax_queue.enqueue(payload, priority);
                receipts.push(DispatchReceipt { server: ServerKind::Syntax, seq });
                if self.semantic_enabled {
                    let semantic_seq = self.semantic_queue.enqueue(copy, priority);
                    receipts.push(
                        DispatchReceipt { server: ServerKind::Semantic, seq: semantic_seq },
                    );
                }
            },
        }
        receipts
    }

    /// Empties one child's queue and returns its requests in drain order, for
    /// the process layer to write to the child one by one.
    pub fn drain(&mut self, kind: ServerKind) -> (r: Vec<Request>)
        requires
            old(self).wf(),
        ensures
            final(self).wf(),
            final(self).semantic_enabled == old(self).semantic_enabled,
            ordered(r@),
            kind == ServerKind::Syntax ==> {
                &&& r@ == old(self).syntax_queue.entries()
                &&& final(self).syntax_queue.entries().len() == 0
                &&& final(self).semantic_queue == old(self).semantic_queue
            },
            kind == ServerKind::Semantic ==> {
                &&& r@ == old(self).semantic_queue.entries()
                &&& final(self).semantic_queue.entries().len() == 0
                &&& final(self).syntax_queue == old(self).syntax_queue
            },
    {
        match kind {
            ServerKind::Syntax => drain_queue(&mut self.syntax_queue),
            ServerKind::Semantic => drain_queue(&mut self.semantic_queue),
        }
    }
}

/// Pops every request off the queue, front first.
fn drain_queue(q: &mut RequestQueue) -> (r: Vec<Request>)
    requires
        old(q).well_formed(),
    ensures
        final(q).well_formed(),
        final(q).entries().len() == 0,
        final(q).next_seq() == old(q).next_seq(),
        r@ == old(q).entries(),
        ordered(r@),
{
    proof {
        old(q).lemma_well_formed_ordered();
    }
    let mut out: Vec<Request> = Vec::new();
    proof {
        assert(out@ + q.entries() =~= q.entries());
    }
    loop
        invariant
            q.well_formed(),
            q.next_seq() == old(q).next_seq(),
            out@ + q.entries() == old(q).entries(),
        ensures
            q.well_formed(),
            q.next_seq() == old(q).next_seq(),
            q.entries().len() == 0,
            out@ == old(q).entries(),
        decreases q.entries().len(),
    {
        let ghost prev = q.entries();
        let next = q.dequeue();
        match next {
            Some(request) => {
                proof {
                    assert(prev =~= seq![prev[0]] + prev.drop_first());
                    assert(out@.push(request) + q.entries() =~= out@ + (seq![request]
                        + q.entries()));
                    assert(seq![request] + q.entries() =~= prev);
                }
                out.push(request);
            },
            None => {
                proof {
                    assert(out@ + q.entries() =~= out@);
                }
                break;
            },
        }
    }
    out
}

} // verus!

//! Priority-ordered request queue for one tsserver child.
//!
//! Every request gets a monotonically increasing `seq` number, carries it in
//! its payload, and is inserted behind all entries whose priority is at least
//! its own. The queue therefore drains `Const` entries first, then `Normal`,
//! then `Low`, and entries of equal priority in insertion order.

use vstd::prelude::*;

use crate::json::{json_insert, json_u64, json_view, JsonData};

verus! {

/// Scheduling band of a queued request. `Const` covers lifecycle commands that
/// must precede in-flight work, `Normal` user-visible requests, and `Low`
/// background work such as diagnostics.
#[derive(Debug, Clone, Copy, PartialEq, Eq, Structural)]
pub enum Priority {
    Low,
    Normal,
    Const,
}

/// The payload after its sequence number is stamped in: an object gains (or
/// replaces) a `seq` field carrying the number; anything else is unchanged.
pub open spec fn spec_with_seq(d: JsonData, seq: u64) -> JsonData {
    match d {
        JsonData::Object(map) => JsonData::Object(
            map.insert(
                "seq"@,
                JsonData::Number {
                    as_int: if seq <= i64::MAX as u64 {
                        Some(seq as i64)
                    } else {
                        None
                    },
                    as_uint: Some(seq),
                },
            ),
        ),
        _ => d,
    }
}

/// Rank of a priority band: higher ranks drain earlier.
pub open spec fn priority_rank(p: Priority) -> int {
    match p {
        Priority::Low => 0,
        Priority::Normal => 1,
        Priority::Const => 2,
    }
}

/// Executable counterpart of [`priority_rank`].
pub fn rank_of(p: Priority) -> (r: u8)
    ensures
        r as int == priority_rank(p),
{
    match p {
        Priority::Low => 0,
        Priority::Normal => 1,
        Priority::Const => 2,
    }
}

/// A queued tsserver request: its assigned sequence number, its JSON payload
/// (already carrying that number in its `seq` field), and its priority band.
#[derive(Debug)]
pub struct Request {
    pub seq: u64,
    pub payload: serde_json::Value,
    pub priority: Priority,
}

/// True when the entries drain in priority order and, within one priority
/// band, in the order of their sequence numbers.
pub open spec fn ordered(q: Seq<Request>) -> bool {
    forall|i: int, j: int|
        0 <= i < j < q.len() ==> priority_rank(#[trigger] q[i].priority) >= priority_rank(
            #[trigger] q[j].priority,
        ) && (q[i].priority == q[j].priority ==> q[i].seq < q[j].seq)
}

/// True when every queued sequence number lies below `bound`.
pub open spec fn seqs_below(q: Seq<Request>, bound: u64) -> bool {
    forall|i: int| 0 <= i < q.len() ==> #[trigger] q[i].seq < bound
}

/// Index at which a request of priority `p` is inserted: after every entry
/// whose priority rank is at least `priority_rank(p)`.
pub open spec fn insertion_index(q: Seq<Request>, p: Priority) -> int
    decreases q.len(),
{
    if q.len() == 0 {
        0
    } else if priority_rank(q[0].priority) >= priority_rank(p) {
        1 + insertion_index(q.drop_first(), p)
    } else {
        0
    }
}

/// Per-child FIFO with three priority bands and monotonic `seq` assignment.
#[derive(Debug)]
pub struct RequestQueue {
    seq: u64,
    queue: Vec<Request>,
}

impl RequestQueue {
    /// The queued entries, front (next to drain) first.
    pub closed spec fn entries(self) -> Seq<Request> {
        self.queue@
    }

    /// The sequence number the next enqueued request will receive.
    pub closed spec fn next_seq(self) -> u64 {
        self.seq
    }

    /// Queue invariant: entries drain in priority order, FIFO within a band,
    /// and all assigned numbers lie below the next one.
    pub closed spec fn well_formed(self) -> bool {
        &&& ordered(self.entries())
        &&& seqs_below(self.entries(), self.seq)
    }

    /// A well-formed queue's entries satisfy [`ordered`], so every drain obeys
    /// the queue ordering law.
    pub proof fn lemma_well_formed_ordered(self)
        requires
            self.well_formed(),
        ensures
            ordered(self.entries()),
    {
    }

    /// The sequence number the next request will receive, for callers that
    /// must test headroom before enqueueing.
    pub fn next_seq_value(&self) -> (r: u64)
        ensures
            r == self.next_seq(),
    {
        self.seq
    }

    /// An empty queue whose first request will get sequence number zero.
    pub fn new() -> (r: RequestQueue)
        ensures
            r.well_formed(),
            r.entries().len() == 0,
            r.next_seq() == 0,
    {
        RequestQueue { seq: 0, queue: Vec::new() }
    }

    /// Assigns the next sequence number, stamps it into the payload's `seq`
    /// field, and inserts the request behind every entry of equal or higher
    /// priority.
    pub fn enqueue(&mut self, payload: serde_json::Value, priority: Priority) -> (seq: u64)
        requires
            old(self).well_formed(),
            old(self).next_seq() < u64::MAX,
        ensures
            final(self).well_formed(),
            seq == old(self).next_seq(),
            final(self).next_seq() == old(self).next_seq() + 1,
            final(self).entries().len() == old(self).entries().len() + 1,
            ({
                let k = insertion_index(old(self).entries(), priority);
                &&& final(self).entries()[k].seq == seq
                &&& final(self).entries()[k].priority == priority
                &&& json_view(final(self).entries()[k].payload) == spec_with_seq(
                    json_view(payload),
                    seq,
                )
                &&& forall|i: int| 0 <= i < k ==> final(self).entries()[i] == old(self).entries()[i]
                &&& forall|i: int|
                    k < i < final(self).entries().len() ==> final(self).entries()[i] == old(
                        self,
                    ).entries()[i - 1]
            }),
    {
        let seq = self.seq;
        self.seq = self.seq + 1;
        let mut payload = payload;
        json_insert(&mut payload, "seq", json_u64(seq));
        let request = Request { seq, payload, priority };

        let ghost old_entries = self.queue@;
        let target_rank = rank_of(priority);
        let mut idx: usize = 0;
        while idx < self.queue.len() && rank_of(self.queue[idx].priority) >= target_rank
            invariant
                0 <= idx <= self.queue@.len(),
                self.queue@ == old_entries,
                target_rank as int == priority_rank(priority),
                forall|i: int|
                    0 <= i < idx ==> priority_rank(#[trigger] self.queue@[i].priority)
                        >= priority_rank(priority),
            decreases self.queue@.len() - idx,
        {
            idx += 1;
        }
        proof {
            lemma_insertion_index_spot(old_entries, priority, idx as int);
        }
        self.queue.insert(idx, request);
        proof {
            let k = idx as int;
            assert forall|i: int, j: int| 0 <= i < j < self.queue@.len() implies priority_rank(
                #[trigger] self.queue@[i].priority,
            ) >= priority_rank(#[trigger] self.queue@[j].priority) && (self.queue@[i].priority
                == self.queue@[j].priority ==> self.queue@[i].seq < self.queue@[j].seq) by {
                if i < k && j < k {
                    assert(self.queue@[i] == old_entries[i]);
                    assert(self.queue@[j] == old_entries[j]);
                } else if i < k && j == k {
                    assert(self.queue@[i] == old_entries[i]);
                } else if i < k && j > k {
                    assert(self.queue@[i] == old_entries[i]);
                    assert(self.queue@[j] == old_entries[j - 1]);
                } else if i == k && j > k {
                    assert(self.queue@[j] == old_entries[j - 1]);
                } else if i > k && j > k {
                    assert(self.queue@[i] == old_entries[i - 1]);
                    assert(self.queue@[j] == old_entries[j - 1]);
                }
            }
        }
        seq
    }

    /// Pops the front request, or returns nothing when the queue is empty.
    pub fn dequeue(&mut self) -> (r: Option<Request>)
        requires
            old(self).well_formed(),
        ensures
            final(self).well_formed(),
            final(self).next_seq() == old(self).next_seq(),
            old(self).entries().len() == 0 ==> r is None && final(self).entries() == old(
                self,
            ).entries(),
            old(self).entries().len() > 0 ==> {
                &&& r is Some
                &&& r->0 == old(self).entries()[0]
                &&& final(self).entries() == old(self).entries().drop_first()
            },
    {
        if self.queue.len() == 0 {
            None
        } else {
            let request = self.queue.remove(0);
            proof {
                assert(self.queue@ =~= old(self).queue@.drop_first());
            }
            Some(request)
        }
    }

    /// True when nothing is queued.
    pub fn is_empty(&self) -> (r: bool)
        ensures
            r == (self.entries().len() == 0),
    {
        self.queue.len() == 0
    }
}

proof fn lemma_insertion_index_spot(q: Seq<Request>, p: Priority, k: int)
    requires
        0 <= k <= q.len(),
        forall|i: int| 0 <= i < k ==> priority_rank(#[trigger] q[i].priority) >= priority_rank(p),
        k < q.len() ==> priority_rank(q[k].priority) < priority_rank(p),
    ensures
        insertion_index(q, p) == k,
    decreases q.len(),
{
    if q.len() == 0 {
    } else if k == 0 {
    } else {
        assert(priority_rank(q[0].priority) >= priority_rank(p));
        assert forall|i: int| 0 <= i < k - 1 implies priority_rank(
            #[trigger] q.drop_first()[i].priority,
        ) >= priority_rank(p) by {
            assert(q.drop_first()[i] == q[i + 1]);
        }
        if k - 1 < q.drop_first().len() {
            assert(q.drop_first()[k - 1] == q[k]);
        }
        lemma_insertion_index_spot(q.drop_first(), p, k - 1);
    }
}

/// Queue ordering law: in a well-ordered queue, the drain order (front to
/// back, as `dequeue` pops) emits every `Const` entry before any non-`Const`
/// entry, every `Normal` entry before any `Low` entry, and entries of equal
/// priority in the order of their assigned sequence numbers, which is the
/// insertion order.
pub proof fn lemma_queue_ordering(q: Seq<Request>, i: int, j: int)
    requires
        ordered(q),
        0 <= i < j < q.len(),
    ensures
        q[j].priority == Priority::Const ==> q[i].priority == Priority::Const,
        q[j].priority == Priority::Normal ==> q[i].priority != Priority::Low,
        q[i].priority == q[j].priority ==> q[i].seq < q[j].seq,
{
}

} // verus!

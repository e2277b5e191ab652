//! Session-local cache for inlay-hint replies.
//!
//! A cache entry is keyed by the document URI together with the exact range
//! requested; a repeated identical request is answered from the cache without
//! another tsserver round-trip, and any edit to a document drops every entry
//! for that document.

use vstd::prelude::*;

use crate::types::Range;

verus! {

/// The four coordinates of a requested range, used as part of a cache key.
#[derive(Debug, Clone, Copy, PartialEq, Eq, Structural)]
pub struct RangeFingerprint {
    pub start_line: u32,
    pub start_character: u32,
    pub end_line: u32,
    pub end_character: u32,
}

/// Fingerprint a range reduces to.
pub open spec fn spec_fingerprint(range: Range) -> RangeFingerprint {
    RangeFingerprint {
        start_line: range.start.line,
        start_character: range.start.character,
        end_line: range.end.line,
        end_character: range.end.character,
    }
}

impl RangeFingerprint {
    /// Records the four coordinates of a range.
    pub fn from_range(range: &Range) -> (r: RangeFingerprint)
        ensures
            r == spec_fingerprint(*range),
    {
        RangeFingerprint {
            start_line: range.start.line,
            start_character: range.start.character,
            end_line: range.end.line,
            end_character: range.end.character,
        }
    }
}

/// Cache key: a document URI plus the fingerprint of the requested range.
#[derive(Debug)]
pub struct HintCacheKey {
    pub uri: String,
    pub range: RangeFingerprint,
}

/// Abstract value of a cache key.
pub open spec fn key_view(k: HintCacheKey) -> (Seq<char>, RangeFingerprint) {
    (k.uri@, k.range)
}

impl HintCacheKey {
    /// Builds the key for a request on `uri` covering `range`.
    pub fn new(uri: &str, range: &Range) -> (r: HintCacheKey)
        ensures
            key_view(r) == (uri@, spec_fingerprint(*range)),
    {
        HintCacheKey { uri: crate::utils::str_to_string(uri), range: RangeFingerprint::from_range(range) }
    }

    /// A copy of this key.
    pub fn duplicate(&self) -> (r: HintCacheKey)
        ensures
            r == *self,
    {
        HintCacheKey { uri: self.uri.clone(), range: self.range }
    }
}

/// Key equality, by URI text and range fingerprint.
fn key_eq(a: &HintCacheKey, b: &HintCacheKey) -> (r: bool)
    ensures
        r == (key_view(*a) == key_view(*b)),
{
    let same = crate::utils::str_eq(a.uri.as_str(), b.uri.as_str()) && a.range == b.range;
    proof {
        if key_view(*a) == key_view(*b) {
            assert(a.uri@ == b.uri@);
        }
    }
    same
}

/// First cached value stored under key `k`, scanning from the front.
pub open spec fn cache_lookup(
    entries: Seq<(HintCacheKey, serde_json::Value)>,
    k: (Seq<char>, RangeFingerprint),
) -> Option<serde_json::Value>
    decreases entries.len(),
{
    if entries.len() == 0 {
        None
    } else if key_view(entries[0].0) == k {
        Some(entries[0].1)
    } else {
        cache_lookup(entries.drop_first(), k)
    }
}

proof fn lemma_cache_found(
    entries: Seq<(HintCacheKey, serde_json::Value)>,
    k: (Seq<char>, RangeFingerprint),
    i: int,
)
    requires
        0 <= i < entries.len(),
        key_view(entries[i].0) == k,
        forall|j: int| 0 <= j < i ==> key_view((#[trigger] entries[j]).0) != k,
    ensures
        cache_lookup(entries, k) == Some(entries[i].1),
    decreases entries.len(),
{
    if i > 0 {
        assert forall|j: int| 0 <= j < i - 1 implies key_view(
            (#[trigger] entries.drop_first()[j]).0,
        ) != k by {
            assert(entries.drop_first()[j] == entries[j + 1]);
        }
        assert(entries.drop_first()[i - 1] == entries[i]);
        lemma_cache_found(entries.drop_first(), k, i - 1);
    }
}

proof fn lemma_cache_none(
    entries: Seq<(HintCacheKey, serde_json::Value)>,
    k: (Seq<char>, RangeFingerprint),
)
    requires
        forall|j: int| 0 <= j < entries.len() ==> key_view((#[trigger] entries[j]).0) != k,
    ensures
        cache_lookup(entries, k) is None,
    decreases entries.len(),
{
    if entries.len() > 0 {
        assert forall|j: int| 0 <= j < entries.drop_first().len() implies key_view(
            (#[trigger] entries.drop_first()[j]).0,
        ) != k by {
            assert(entries.drop_first()[j] == entries[j + 1]);
        }
        lemma_cache_none(entries.drop_first(), k);
    }
}

proof fn lemma_cache_remove(
    entries: Seq<(HintCacheKey, serde_json::Value)>,
    i: int,
    k: (Seq<char>, RangeFingerprint),
)
    requires
        0 <= i < entries.len(),
        k != key_view(entries[i].0),
    ensures
        cache_lookup(entries.take(i) + entries.skip(i + 1), k) == cache_lookup(entries, k),
    decreases entries.len(),
{
    let rest = entries.take(i) + entries.skip(i + 1);
    if i == 0 {
        assert(rest =~= entries.drop_first());
    } else {
        assert(rest[0] == entries[0]);
        if key_view(entries[0].0) == k {
        } else {
            assert(entries.drop_first()[i - 1] == entries[i]);
            lemma_cache_remove(entries.drop_first(), i - 1, k);
            assert(rest.drop_first() =~= entries.drop_first().take(i - 1) + entries.drop_first().skip(
                i,
            ));
        }
    }
}

proof fn lemma_cache_push(
    entries: Seq<(HintCacheKey, serde_json::Value)>,
    entry: (HintCacheKey, serde_json::Value),
    k: (Seq<char>, RangeFingerprint),
)
    requires
        k != key_view(entry.0),
    ensures
        cache_lookup(entries.push(entry), k) == cache_lookup(entries, k),
    decreases entries.len(),
{
    if entries.len() == 0 {
        assert(entries.push(entry)[0] == entry);
        assert(entries.push(entry).drop_first() =~= entries);
        assert(cache_lookup(entries, k) is None);
    } else {
        assert(entries.push(entry)[0] == entries[0]);
        assert(entries.push(entry).drop_first() =~= entries.drop_first().push(entry));
        lemma_cache_push(entries.drop_first(), entry, k);
    }
}

/// Cached inlay-hint replies for this session.
#[derive(Debug)]
pub struct InlayHintCache {
    entries: Vec<(HintCacheKey, serde_json::Value)>,
}

impl InlayHintCache {
    /// The stored entries.
    pub closed spec fn entries(self) -> Seq<(HintCacheKey, serde_json::Value)> {
        self.entries@
    }

    /// The reply cached for an abstract key, if any.
    pub open spec fn cached(self, k: (Seq<char>, RangeFingerprint)) -> Option<serde_json::Value> {
        cache_lookup(self.entries(), k)
    }

    /// Cache invariant: keys are unique.
    pub open spec fn wf(self) -> bool {
        forall|a: int, b: int|
            0 <= a < b < self.entries().len() ==> key_view((#[trigger] self.entries()[a]).0)
                != key_view((#[trigger] self.entries()[b]).0)
    }

    /// An empty cache.
    pub fn new() -> (r: InlayHintCache)
        ensures
            r.wf(),
            forall|k: (Seq<char>, RangeFingerprint)| r.cached(k) is None,
    {
        InlayHintCache { entries: Vec::new() }
    }

    /// Index of the entry for `key`, scanning from the front.
    fn find(&self, key: &HintCacheKey) -> (r: Option<usize>)
        ensures
            match r {
                Some(i) => {
                    &&& i < self.entries().len()
                    &&& key_view(self.entries()[i as int].0) == key_view(*key)
                    &&& forall|j: int|
                        0 <= j < i ==> key_view((#[trigger] self.entries()[j]).0) != key_view(*key)
                },
                None => forall|j: int|
                    0 <= j < self.entries().len() ==> key_view((#[trigger] self.entries()[j]).0)
                        != key_view(*key),
            },
    {
        let mut i: usize = 0;
        while i < self.entries.len()
            invariant
                i <= self.entries@.len(),
                forall|j: int|
                    0 <= j < i ==> key_view((#[trigger] self.entries@[j]).0) != key_view(*key),
            decreases self.entries@.len() - i,
        {
            if key_eq(&self.entries[i].0, key) {
                return Some(i);
            }
            i += 1;
        }
        None
    }

    /// The cached reply for `key`, if the identical request was answered
    /// before and no edit has invalidated it since.
    pub fn lookup(&self, key: &HintCacheKey) -> (r: Option<serde_json::Value>)
        ensures
            r == self.cached(key_view(*key)),
    {
        let found = self.find(key);
        proof {
            match found {
                Some(i) => lemma_cache_found(self.entries(), key_view(*key), i as int),
                None => lemma_cache_none(self.entries(), key_view(*key)),
            }
        }
        match found {
            Some(i) => Some(self.entries[i].1.clone()),
            None => None,
        }
    }

    /// Caches a reply under `key`, replacing any previous entry for that key.
    /// Afterwards a lookup of the same key returns exactly this reply and
    /// every other key is unaffected.
    pub fn store(&mut self, key: HintCacheKey, value: serde_json::Value)
        requires
            old(self).wf(),
        ensures
            final(self).wf(),
            final(self).cached(key_view(key)) == Some(value),
            forall|k: (Seq<char>, RangeFingerprint)|
                k != key_view(key) ==> final(self).cached(k) == old(self).cached(k),
    {
        self.remove_key(&key);
        let ghost before = self.entries@;
        self.entries.push((key, value));
        proof {
            let n = self.entries@.len() - 1;
            lemma_cache_found(self.entries@, key_view(key), n);
            assert forall|k: (Seq<char>, RangeFingerprint)| k != key_view(key) implies cache_lookup(
                self.entries@,
                k,
            ) == cache_lookup(before, k) by {
                assert(self.entries@ =~= before.push(self.entries@[n]));
                lemma_cache_push(before, self.entries@[n], k);
            }
        }
    }

    /// Removes the entry whose key matches, if any.
    fn remove_key(&mut self, key: &HintCacheKey)
        requires
            old(self).wf(),
        ensures
            final(self).wf(),
            forall|j: int|
                0 <= j < final(self).entries().len() ==> key_view(
                    (#[trigger] final(self).entries()[j]).0,
                ) != key_view(*key),
            forall|k: (Seq<char>, RangeFingerprint)|
                k != key_view(*key) ==> final(self).cached(k) == old(self).cached(k),
    {
        let found = self.find(key);
        match found {
            Some(i) => {
                let ghost before = self.entries@;
                let _ = self.entries.remove(i);
                proof {
                    assert(self.entries@ =~= before.take(i as int) + before.skip(i as int + 1));
                    assert forall|k: (Seq<char>, RangeFingerprint)|
                        k != key_view(*key) implies cache_lookup(self.entries@, k) == cache_lookup(
                        before,
                        k,
                    ) by {
                        lemma_cache_remove(before, i as int, k);
                    }
                    assert forall|j: int|
                        0 <= j < self.entries@.len() implies key_view(
                        (#[trigger] self.entries@[j]).0,
                    ) != key_view(*key) by {
                        if j < i as int {
                            assert(self.entries@[j] == before[j]);
                        } else {
                            assert(self.entries@[j] == before[j + 1]);
                        }
                    }
                }
            },
            None => {
                proof {
                    assert(self.entries@ =~= old(self).entries@);
                }
            },
        }
    }

    /// Drops every cached reply for `uri`; entries for other documents are
    /// untouched.
    pub fn invalidate(&mut self, uri: &str)
        requires
            old(self).wf(),
        ensures
            final(self).wf(),
            forall|k: (Seq<char>, RangeFingerprint)|
                #![trigger final(self).cached(k)]
                if k.0 == uri@ {
                    final(self).cached(k) is None
                } else {
                    final(self).cached(k) == old(self).cached(k)
                },
    {
        let mut i: usize = 0;
        while i < self.entries.len()
            invariant
                old(self).wf(),
                self.wf(),
                i <= self.entries@.len(),
                forall|j: int|
                    0 <= j < i ==> (#[trigger] self.entries@[j]).0.uri@ != uri@,
                forall|k: (Seq<char>, RangeFingerprint)|
                    k.0 != uri@ ==> cache_lookup(self.entries@, k) == old(self).cached(k),
            decreases self.entries@.len() - i,
        {
            let ghost before = self.entries@;
            proof {
                assert forall|a: int, b: int|
                    0 <= a < b < before.len() implies key_view((#[trigger] before[a]).0)
                    != key_view((#[trigger] before[b]).0) by {
                    assert(key_view((self.entries()[a]).0) != key_view((self.entries()[b]).0));
                }
            }
            if crate::utils::str_eq(self.entries[i].0.uri.as_str(), uri) {
                let _ = self.entries.remove(i);
                proof {
                    assert(self.entries@ =~= before.take(i as int) + before.skip(i as int + 1));
                    assert forall|k: (Seq<char>, RangeFingerprint)|
                        k.0 != uri@ implies cache_lookup(self.entries@, k) == cache_lookup(
                        before,
                        k,
                    ) by {
                        lemma_cache_remove(before, i as int, k);
                    }
                    assert forall|j: int|
                        0 <= j < i implies (#[trigger] self.entries@[j]).0.uri@ != uri@ by {
                        assert(self.entries@[j] == before[j]);
                    }
                    assert forall|a: int, b: int|
                        0 <= a < b < self.entries@.len() implies key_view(
                        (#[trigger] self.entries@[a]).0,
                    ) != key_view((#[trigger] self.entries@[b]).0) by {
                        let a0 = if a < i as int { a } else { a + 1 };
                        let b0 = if b < i as int { b } else { b + 1 };
                        assert(0 <= a0 < b0 < before.len());
                        assert(self.entries@[a] == before[a0]);
                        assert(self.entries@[b] == before[b0]);
                        assert(key_view(before[a0].0) != key_view(before[b0].0));
                    }
                }
            } else {
                i += 1;
            }
        }
        proof {
            assert forall|k: (Seq<char>, RangeFingerprint)|
                k.0 == uri@ implies cache_lookup(self.entries@, k) is None by {
                assert forall|j: int|
                    0 <= j < self.entries@.len() implies key_view((#[trigger] self.entries@[j]).0)
                    != k by {
                    assert(self.entries@[j].0.uri@ != uri@);
                }
                lemma_cache_none(self.entries@, k);
            }
        }
    }

    /// Drops every cached reply.
    pub fn clear(&mut self)
        ensures
            final(self).wf(),
            forall|k: (Seq<char>, RangeFingerprint)| final(self).cached(k) is None,
    {
        self.entries.clear();
    }
}

} // verus!

//! Open-document store with UTF-16 line metrics.
//!
//! Tracks the current text of every open buffer so that features that need
//! absolute offsets (inlay hints) can translate LSP ranges into tsserver's
//! one-dimensional UTF-16 spans without asking the process. Text is held as a
//! vector of characters; each line's metrics record where the line starts and
//! how long its content is, both in characters and in UTF-16 code units.

use vstd::prelude::*;

use crate::types::{Position, Range, TextDocumentContentChangeEvent};
use crate::utils::str_to_chars;

verus! {

/// Largest document size, in characters, that the store accepts. Keeps every
/// UTF-16 offset comfortably inside `u32` and `usize`.
pub const MAX_TEXT_LEN: usize = 0x4000_0000;

/// Number of UTF-16 code units a character occupies: one for the basic
/// multilingual plane, two for supplementary-plane characters.
pub open spec fn utf16_units(c: char) -> nat {
    if (c as u32) < 0x10000 {
        1nat
    } else {
        2nat
    }
}

/// UTF-16 length of a character sequence: the sum of its characters' units.
pub open spec fn utf16_len(s: Seq<char>) -> nat
    decreases s.len(),
{
    if s.len() == 0 {
        0nat
    } else {
        utf16_units(s[0]) + utf16_len(s.drop_first())
    }
}

/// Line terminators recognised by the metrics scan.
pub open spec fn is_newline(c: char) -> bool {
    c == '\n' || c == '\r'
}

pub proof fn lemma_utf16_len_push(s: Seq<char>, c: char)
    ensures
        utf16_len(s.push(c)) == utf16_len(s) + utf16_units(c),
    decreases s.len(),
{
    if s.len() == 0 {
        assert(s.push(c).drop_first() =~= s);
    } else {
        assert(s.push(c).drop_first() =~= s.drop_first().push(c));
        lemma_utf16_len_push(s.drop_first(), c);
    }
}

pub proof fn lemma_utf16_len_concat(a: Seq<char>, b: Seq<char>)
    ensures
        utf16_len(a + b) == utf16_len(a) + utf16_len(b),
    decreases a.len(),
{
    if a.len() == 0 {
        assert(a + b =~= b);
    } else {
        assert((a + b).drop_first() =~= a.drop_first() + b);
        lemma_utf16_len_concat(a.drop_first(), b);
    }
}

/// The UTF-16 length of a sequence is at most twice its character count.
pub proof fn lemma_utf16_len_bound(s: Seq<char>)
    ensures
        utf16_len(s) <= 2 * s.len(),
    decreases s.len(),
{
    if s.len() > 0 {
        lemma_utf16_len_bound(s.drop_first());
    }
}

/// Executable counterpart of [`utf16_units`].
pub fn utf16_units_of(c: char) -> (r: usize)
    ensures
        r == utf16_units(c),
{
    if (c as u32) < 0x10000 {
        1
    } else {
        2
    }
}

/// Per-line bookkeeping: where the line starts in the document (characters and
/// UTF-16 code units from the start of the text) and how long its content is
/// before the line terminator, in both measures.
#[derive(Debug, Clone, Copy, PartialEq, Eq, Structural)]
pub struct LineMetrics {
    pub start_char: usize,
    pub start_utf16: usize,
    pub content_chars: usize,
    pub content_utf16: usize,
}

impl LineMetrics {
    /// Metrics of the single line of an empty document.
    pub fn empty() -> (r: LineMetrics)
        ensures
            r == (LineMetrics { start_char: 0, start_utf16: 0, content_chars: 0, content_utf16: 0 }),
    {
        LineMetrics { start_char: 0, start_utf16: 0, content_chars: 0, content_utf16: 0 }
    }
}

/// Index one past the line's content: the position of its terminator, or the
/// end of the text for the last line.
pub open spec fn line_end(m: LineMetrics) -> int {
    m.start_char + m.content_chars
}

/// Where the next cursor position is after the terminator at `e`: two
/// characters ahead for CRLF, one for a lone CR or LF.
pub open spec fn next_start_at(text: Seq<char>, e: int) -> int {
    if e < text.len() && text[e] == '\r' && e + 1 < text.len() && text[e + 1] == '\n' {
        e + 2
    } else {
        e + 1
    }
}

/// Where the next line starts, given this line's terminator.
pub open spec fn next_line_start(text: Seq<char>, m: LineMetrics) -> int {
    next_start_at(text, line_end(m))
}

/// One line's metrics agree with a reference UTF-16 scan of the text: the line
/// lies within the text, holds no terminator, and its offsets are the UTF-16
/// lengths of the text before it and of its content.
pub open spec fn line_wf(text: Seq<char>, m: LineMetrics) -> bool {
    &&& m.start_char + m.content_chars <= text.len()
    &&& m.start_utf16 == utf16_len(text.take(m.start_char as int))
    &&& m.content_utf16 == utf16_len(text.subrange(m.start_char as int, line_end(m)))
    &&& forall|j: int| m.start_char <= j < line_end(m) ==> !is_newline(#[trigger] text[j])
}

/// The metrics tile the whole text: the first line starts at zero, each line
/// is terminated and followed directly by its successor, and the last line
/// runs to the end of the text.
pub open spec fn metrics_wf(text: Seq<char>, ms: Seq<LineMetrics>) -> bool {
    &&& ms.len() >= 1
    &&& ms[0].start_char == 0
    &&& forall|k: int| 0 <= k < ms.len() ==> line_wf(text, #[trigger] ms[k])
    &&& forall|k: int|
        0 <= k < ms.len() - 1 ==> {
            &&& line_end(#[trigger] ms[k]) < text.len()
            &&& is_newline(text[line_end(ms[k])])
            &&& ms[k + 1].start_char == next_line_start(text, ms[k])
        }
    &&& line_end(ms[ms.len() - 1]) == text.len()
}

pub proof fn lemma_utf16_len_singleton(c: char)
    ensures
        utf16_len(seq![c]) == utf16_units(c),
{
    assert(seq![c].drop_first() =~= Seq::<char>::empty());
    assert(utf16_len(Seq::<char>::empty()) == 0);
    assert(seq![c][0] == c);
}

/// A recognised terminator character is a single UTF-16 unit.
pub proof fn lemma_newline_unit(c: char)
    requires
        is_newline(c),
    ensures
        utf16_units(c) == 1,
{
}

/// Scans one line's content from `start`: returns where the content ends and
/// its UTF-16 length.
fn scan_line_content(text: &Vec<char>, start: usize) -> (r: (usize, usize))
    requires
        start <= text@.len(),
        text@.len() <= MAX_TEXT_LEN,
    ensures
        start <= r.0 <= text@.len(),
        r.1 == utf16_len(text@.subrange(start as int, r.0 as int)),
        r.1 <= 2 * (r.0 - start),
        forall|j: int| start <= j < r.0 ==> !is_newline(#[trigger] text@[j]),
        r.0 < text@.len() ==> is_newline(text@[r.0 as int]),
{
    let n = text.len();
    let mut cursor = start;
    let mut content_utf16: usize = 0;
    proof {
        assert(text@.subrange(start as int, start as int) =~= Seq::<char>::empty());
    }
    while cursor < n && text[cursor] != '\n' && text[cursor] != '\r'
        invariant
            start <= cursor <= n,
            n == text@.len(),
            n <= MAX_TEXT_LEN,
            content_utf16 == utf16_len(text@.subrange(start as int, cursor as int)),
            content_utf16 <= 2 * (cursor - start),
            forall|j: int| start <= j < cursor ==> !is_newline(#[trigger] text@[j]),
        decreases n - cursor,
    {
        let units = utf16_units_of(text[cursor]);
        proof {
            assert(text@.subrange(start as int, cursor as int + 1) =~= text@.subrange(
                start as int,
                cursor as int,
            ).push(text@[cursor as int]));
            lemma_utf16_len_push(
                text@.subrange(start as int, cursor as int),
                text@[cursor as int],
            );
        }
        content_utf16 = content_utf16 + units;
        cursor = cursor + 1;
    }
    (cursor, content_utf16)
}

/// Steps the cursor over the terminator at `e`, if any: returns the next
/// cursor position and the terminator's UTF-16 length.
fn consume_terminator(text: &Vec<char>, e: usize) -> (r: (usize, usize))
    requires
        e <= text@.len(),
        e < text@.len() ==> is_newline(text@[e as int]),
    ensures
        e <= r.0 <= text@.len(),
        e == text@.len() ==> r.0 == e && r.1 == 0,
        e < text@.len() ==> r.0 == next_start_at(text@, e as int),
        r.1 == r.0 - e,
        utf16_len(text@.subrange(e as int, r.0 as int)) == r.1,
{
    let n = text.len();
    if e >= n {
        proof {
            assert(text@.subrange(e as int, e as int) =~= Seq::<char>::empty());
        }
        return (e, 0);
    }
    let mut cursor = e + 1;
    let mut units: usize = 1;
    if text[e] == '\r' && cursor < n && text[cursor] == '\n' {
        cursor = cursor + 1;
        units = 2;
    }
    proof {
        let tail = text@.subrange(e as int, cursor as int);
        let first = text@[e as int];
        lemma_newline_unit(first);
        lemma_utf16_len_singleton(first);
        if cursor == e + 1 {
            assert(tail =~= seq![first]);
            assert(utf16_len(tail) == 1);
        } else {
            let second = text@[e as int + 1];
            lemma_newline_unit(second);
            assert(tail =~= seq![first].push(second));
            lemma_utf16_len_push(seq![first], second);
            assert(utf16_len(tail) == 2);
        }
    }
    (cursor, units)
}

/// Snapshot of one open document.
#[derive(Debug)]
pub struct DocumentState {
    pub text: Vec<char>,
    pub line_metrics: Vec<LineMetrics>,
    pub total_utf16: usize,
    pub version: Option<i32>,
    pub language_id: Option<String>,
}

impl DocumentState {
    /// Snapshot invariant: the text is within bounds, the line metrics agree
    /// with a reference scan of the text, and the total is the text's UTF-16
    /// length.
    pub open spec fn wf(self) -> bool {
        &&& self.text@.len() <= MAX_TEXT_LEN
        &&& metrics_wf(self.text@, self.line_metrics@)
        &&& self.total_utf16 == utf16_len(self.text@)
    }

    /// Builds a snapshot for newly opened text and computes its line metrics.
    pub fn new(text: &str, version: Option<i32>) -> (r: DocumentState)
        requires
            text@.len() <= MAX_TEXT_LEN,
        ensures
            r.wf(),
            r.text@ == text@,
            r.version == version,
            r.language_id is None,
    {
        let chars = str_to_chars(text);
        let mut state = DocumentState {
            text: chars,
            line_metrics: Vec::new(),
            total_utf16: 0,
            version,
            language_id: None,
        };
        state.recompute_metrics();
        state
    }

    /// Rebuilds the line metrics from the current text. A line ends at `\n`,
    /// `\r`, or `\r\n`; when the text ends with a terminator an empty trailing
    /// line keeps the final cursor position addressable.
    #[verifier::rlimit(50)]
    pub fn recompute_metrics(&mut self)
        requires
            old(self).text@.len() <= MAX_TEXT_LEN,
        ensures
            final(self).text == old(self).text,
            final(self).version == old(self).version,
            final(self).language_id == old(self).language_id,
            metrics_wf(final(self).text@, final(self).line_metrics@),
            final(self).total_utf16 == utf16_len(final(self).text@),
    {
        let ghost text = self.text@;
        let n = self.text.len();
        let mut metrics: Vec<LineMetrics> = Vec::new();
        let mut cursor: usize = 0;
        let mut utf16_offset: usize = 0;

        proof {
            assert(text.take(0) =~= Seq::<char>::empty());
        }

        while cursor < n
            invariant
                self.text@ == text,
                n == text.len(),
                n <= MAX_TEXT_LEN,
                cursor <= n,
                utf16_offset == utf16_len(text.take(cursor as int)),
                metrics@.len() == 0 ==> cursor == 0,
                metrics@.len() > 0 ==> metrics@[0].start_char == 0,
                forall|k: int| 0 <= k < metrics@.len() ==> line_wf(text, #[trigger] metrics@[k]),
                forall|k: int|
                    0 <= k < metrics@.len() - 1 ==> {
                        &&& line_end(#[trigger] metrics@[k]) < text.len()
                        &&& is_newline(text[line_end(metrics@[k])])
                        &&& metrics@[k + 1].start_char == next_line_start(text, metrics@[k])
                    },
                metrics@.len() > 0 ==> {
                    let last = metrics@[metrics@.len() - 1];
                    ||| (line_end(last) == cursor == text.len())
                    ||| (line_end(last) < text.len() && is_newline(text[line_end(last)])
                        && cursor == next_line_start(text, last))
                },
            decreases n - cursor,
        {
            let line_start = cursor;
            let scanned = scan_line_content(&self.text, line_start);
            let content_end = scanned.0;
            let content_utf16 = scanned.1;
            let stepped = consume_terminator(&self.text, content_end);
            let next_cursor = stepped.0;
            let newline_utf16 = stepped.1;

            let m = LineMetrics {
                start_char: line_start,
                start_utf16: utf16_offset,
                content_chars: content_end - line_start,
                content_utf16,
            };
            proof {
                lemma_utf16_len_bound(text.take(line_start as int));
                assert(text.take(content_end as int) =~= text.take(line_start as int)
                    + text.subrange(line_start as int, content_end as int));
                lemma_utf16_len_concat(
                    text.take(line_start as int),
                    text.subrange(line_start as int, content_end as int),
                );
                assert(text.take(next_cursor as int) =~= text.take(content_end as int)
                    + text.subrange(content_end as int, next_cursor as int));
                lemma_utf16_len_concat(
                    text.take(content_end as int),
                    text.subrange(content_end as int, next_cursor as int),
                );
                assert(line_wf(text, m));
            }
            let ghost metrics_before = metrics@;
            metrics.push(m);
            cursor = next_cursor;
            utf16_offset = utf16_offset + content_utf16 + newline_utf16;
            proof {
                assert forall|k: int| 0 <= k < metrics@.len() implies line_wf(
                    text,
                    #[trigger] metrics@[k],
                ) by {
                    if k < metrics_before.len() {
                        assert(metrics@[k] == metrics_before[k]);
                    }
                }
            }
        }

        if metrics.len() == 0 {
            metrics.push(LineMetrics::empty());
            proof {
                assert(text.take(0) =~= Seq::<char>::empty());
                assert(text.subrange(0, 0) =~= Seq::<char>::empty());
            }
        } else {
            let last = metrics[metrics.len() - 1];
            if last.start_char + last.content_chars < n {
                let trailing = LineMetrics {
                    start_char: cursor,
                    start_utf16: utf16_offset,
                    content_chars: 0,
                    content_utf16: 0,
                };
                let ghost metrics_before = metrics@;
                metrics.push(trailing);
                proof {
                    assert(text.subrange(cursor as int, cursor as int) =~= Seq::<char>::empty());
                    assert(line_wf(text, trailing));
                    assert forall|k: int| 0 <= k < metrics@.len() implies line_wf(
                        text,
                        #[trigger] metrics@[k],
                    ) by {
                        if k < metrics_before.len() {
                            assert(metrics@[k] == metrics_before[k]);
                        }
                    }
                }
            }
        }

        proof {
            assert(text.take(n as int) =~= text);
        }
        self.line_metrics = metrics;
        self.total_utf16 = utf16_offset;
    }
}


/// Prefix and suffix UTF-16 lengths add up to the whole sequence's length.
pub proof fn lemma_utf16_len_split(s: Seq<char>, e: int)
    requires
        0 <= e <= s.len(),
    ensures
        utf16_len(s.take(e)) + utf16_len(s.skip(e)) == utf16_len(s),
{
    assert(s =~= s.take(e) + s.skip(e));
    lemma_utf16_len_concat(s.take(e), s.skip(e));
}

/// A well-formed line lies within the text's UTF-16 extent.
pub proof fn lemma_line_within(text: Seq<char>, m: LineMetrics)
    requires
        line_wf(text, m),
    ensures
        m.start_utf16 + m.content_utf16 <= utf16_len(text),
{
    assert(text.take(line_end(m)) =~= text.take(m.start_char as int) + text.subrange(
        m.start_char as int,
        line_end(m),
    ));
    lemma_utf16_len_concat(
        text.take(m.start_char as int),
        text.subrange(m.start_char as int, line_end(m)),
    );
    lemma_utf16_len_split(text, line_end(m));
}

/// Line index used for a position: the position's line, clamped to the last
/// line of the document.
pub open spec fn clamped_line(ms: Seq<LineMetrics>, line: u32) -> int {
    if (line as int) < ms.len() {
        line as int
    } else {
        ms.len() - 1
    }
}

/// UTF-16 offset of a position: the clamped line's start offset plus the
/// position's character, capped at the line's UTF-16 content length.
pub open spec fn spec_utf16_offset(doc: DocumentState, p: Position) -> int {
    let m = doc.line_metrics@[clamped_line(doc.line_metrics@, p.line)];
    m.start_utf16 + if (p.character as int) < m.content_utf16 as int {
        p.character as int
    } else {
        m.content_utf16 as int
    }
}

/// Number of characters of `s` that fit within `budget` UTF-16 code units,
/// scanning from the front and stopping before a character that would
/// overrun the budget.
pub open spec fn chars_within_utf16(s: Seq<char>, budget: int) -> int
    decreases s.len(),
{
    if s.len() == 0 {
        0
    } else if utf16_units(s[0]) <= budget {
        1 + chars_within_utf16(s.drop_first(), budget - utf16_units(s[0]))
    } else {
        0
    }
}

pub proof fn lemma_chars_within_utf16_bound(s: Seq<char>, budget: int)
    ensures
        0 <= chars_within_utf16(s, budget) <= s.len(),
    decreases s.len(),
{
    if s.len() > 0 && utf16_units(s[0]) <= budget {
        lemma_chars_within_utf16_bound(s.drop_first(), budget - utf16_units(s[0]));
    }
}

/// Character index addressed by a position: the clamped line's start plus as
/// many of its content characters as the capped character offset covers.
pub open spec fn spec_char_index(doc: DocumentState, p: Position) -> int {
    let m = doc.line_metrics@[clamped_line(doc.line_metrics@, p.line)];
    let budget = if (p.character as int) < m.content_utf16 as int {
        p.character as int
    } else {
        m.content_utf16 as int
    };
    m.start_char + chars_within_utf16(
        doc.text@.subrange(m.start_char as int, line_end(m)),
        budget,
    )
}

/// The text that applying one change event leaves behind: a range edit whose
/// bounds resolve in order splices the new text in; a rangeless edit replaces
/// the document; anything else (a reversed range, or a result beyond the size
/// bound) leaves the text unchanged.
pub open spec fn spec_applied_text(doc: DocumentState, change: TextDocumentContentChangeEvent) -> Seq<
    char,
> {
    match change.range {
        Some(range) => {
            let s = spec_char_index(doc, range.start);
            let e = spec_char_index(doc, range.end);
            if s <= e && doc.text@.len() - (e - s) + change.text@.len() <= MAX_TEXT_LEN {
                doc.text@.take(s) + change.text@ + doc.text@.skip(e)
            } else {
                doc.text@
            }
        },
        None => {
            if change.text@.len() <= MAX_TEXT_LEN {
                change.text@
            } else {
                doc.text@
            }
        },
    }
}

/// Replaces `text[s..e]` with `insert`.
fn splice_chars(text: &Vec<char>, s: usize, e: usize, insert: &Vec<char>) -> (r: Vec<char>)
    requires
        s <= e <= text@.len(),
    ensures
        r@ == text@.take(s as int) + insert@ + text@.skip(e as int),
{
    let mut out: Vec<char> = Vec::new();
    let mut i: usize = 0;
    proof {
        assert(out@ =~= text@.take(0));
    }
    while i < s
        invariant
            i <= s <= e <= text@.len(),
            out@ == text@.take(i as int),
        decreases s - i,
    {
        out.push(text[i]);
        proof {
            assert(text@.take(i as int + 1) =~= text@.take(i as int).push(text@[i as int]));
        }
        i += 1;
    }
    let mut j: usize = 0;
    proof {
        assert(out@ =~= text@.take(s as int) + insert@.take(0));
    }
    while j < insert.len()
        invariant
            j <= insert@.len(),
            s <= e <= text@.len(),
            out@ == text@.take(s as int) + insert@.take(j as int),
        decreases insert@.len() - j,
    {
        out.push(insert[j]);
        proof {
            assert(insert@.take(j as int + 1) =~= insert@.take(j as int).push(insert@[j as int]));
            assert(text@.take(s as int) + insert@.take(j as int + 1) =~= (text@.take(s as int)
                + insert@.take(j as int)).push(insert@[j as int]));
        }
        j += 1;
    }
    proof {
        assert(insert@.take(insert@.len() as int) =~= insert@);
        assert(text@.subrange(e as int, e as int) =~= Seq::<char>::empty());
        assert(out@ =~= text@.take(s as int) + insert@ + text@.subrange(e as int, e as int));
    }
    let mut k: usize = e;
    while k < text.len()
        invariant
            e <= k <= text@.len(),
            s <= e,
            out@ == text@.take(s as int) + insert@ + text@.subrange(e as int, k as int),
        decreases text@.len() - k,
    {
        out.push(text[k]);
        proof {
            assert(text@.subrange(e as int, k as int + 1) =~= text@.subrange(
                e as int,
                k as int,
            ).push(text@[k as int]));
            assert(text@.take(s as int) + insert@ + text@.subrange(e as int, k as int + 1) =~= (
            text@.take(s as int) + insert@ + text@.subrange(e as int, k as int)).push(
                text@[k as int],
            ));
        }
        k += 1;
    }
    proof {
        assert(text@.subrange(e as int, text@.len() as int) =~= text@.skip(e as int));
    }
    out
}

impl DocumentState {
    /// Clamps a zero-based line number onto a valid index into the line
    /// metrics.
    pub fn clamp_line_idx(&self, line: u32) -> (r: usize)
        requires
            self.line_metrics@.len() >= 1,
        ensures
            r as int == clamped_line(self.line_metrics@, line),
            r < self.line_metrics@.len(),
    {
        if (line as usize) < self.line_metrics.len() {
            line as usize
        } else {
            self.line_metrics.len() - 1
        }
    }

    /// UTF-16 offset of a position, measured from the start of the document:
    /// the clamped line's start offset plus the capped character offset.
    pub fn utf16_offset(&self, position: &Position) -> (r: usize)
        requires
            self.wf(),
        ensures
            r == spec_utf16_offset(*self, *position),
            r <= utf16_len(self.text@),
    {
        let l = self.clamp_line_idx(position.line);
        let m = self.line_metrics[l];
        let column = if (position.character as usize) < m.content_utf16 {
            position.character as usize
        } else {
            m.content_utf16
        };
        proof {
            lemma_line_within(self.text@, self.line_metrics@[l as int]);
        }
        m.start_utf16 + column
    }

    /// Character index addressed by a position: walks the clamped line's
    /// characters until the capped UTF-16 budget is spent.
    pub fn char_index(&self, position: &Position) -> (r: usize)
        requires
            self.wf(),
        ensures
            r == spec_char_index(*self, *position),
            r <= self.text@.len(),
    {
        let l = self.clamp_line_idx(position.line);
        let m = self.line_metrics[l];
        let ghost content = self.text@.subrange(m.start_char as int, line_end(m));
        let mut remaining = if (position.character as usize) < m.content_utf16 {
            position.character as usize
        } else {
            m.content_utf16
        };
        let ghost budget0 = remaining as int;
        let mut idx = m.start_char;
        let end = m.start_char + m.content_chars;
        proof {
            assert(content.skip(0) =~= content);
            lemma_chars_within_utf16_bound(content, budget0);
        }
        while idx < end
            invariant
                self.wf(),
                m == self.line_metrics@[l as int],
                0 <= l < self.line_metrics@.len(),
                l as int == clamped_line(self.line_metrics@, position.line),
                end == line_end(m),
                m.start_char <= idx <= end <= self.text@.len(),
                content == self.text@.subrange(m.start_char as int, line_end(m)),
                budget0 == if (position.character as int) < m.content_utf16 as int {
                    position.character as int
                } else {
                    m.content_utf16 as int
                },
                remaining <= budget0,
                chars_within_utf16(content, budget0) == (idx - m.start_char)
                    + chars_within_utf16(
                    content.skip(idx - m.start_char),
                    remaining as int,
                ),
            ensures
                idx - m.start_char == chars_within_utf16(content, budget0),
            decreases end - idx,
        {
            let ghost k = idx - m.start_char;
            let units = utf16_units_of(self.text[idx]);
            proof {
                assert(content.skip(k)[0] == content[k]);
                assert(content[k] == self.text@[idx as int]);
            }
            if units > remaining {
                proof {
                    assert(chars_within_utf16(content.skip(k), remaining as int) == 0);
                }
                break;
            }
            proof {
                assert(content.skip(k).drop_first() =~= content.skip(k + 1));
                assert(chars_within_utf16(content.skip(k), remaining as int) == 1
                    + chars_within_utf16(
                    content.skip(k + 1),
                    remaining - utf16_units(content.skip(k)[0]),
                ));
            }
            remaining = remaining - units;
            idx = idx + 1;
        }
        idx
    }

    /// Applies one LSP change event: resolves the range (when present) to
    /// character bounds, splices or replaces the text, and recomputes the
    /// line metrics. Reversed ranges and oversized results leave the snapshot
    /// unchanged.
    pub fn apply_change(&mut self, change: &TextDocumentContentChangeEvent)
        requires
            old(self).wf(),
        ensures
            final(self).wf(),
            final(self).text@ == spec_applied_text(*old(self), *change),
            final(self).version == old(self).version,
            final(self).language_id == old(self).language_id,
    {
        match &change.range {
            Some(range) => {
                let s = self.char_index(&range.start);
                let e = self.char_index(&range.end);
                if s > e {
                    return ;
                }
                let insert = str_to_chars(change.text.as_str());
                let base = self.text.len() - (e - s);
                if insert.len() > MAX_TEXT_LEN - base {
                    return ;
                }
                let new_text = splice_chars(&self.text, s, e, &insert);
                self.text = new_text;
                self.recompute_metrics();
            },
            None => {
                let replacement = str_to_chars(change.text.as_str());
                if replacement.len() > MAX_TEXT_LEN {
                    return ;
                }
                self.text = replacement;
                self.recompute_metrics();
            },
        }
    }
}

/// UTF-16 accuracy law: in a well-formed snapshot the offset computed for any
/// position agrees with a reference UTF-16 scan of the text, namely the UTF-16
/// length of the text before the clamped line plus the position's character
/// offset capped at the UTF-16 length of that line's content.
pub proof fn lemma_utf16_offset_reference(doc: DocumentState, p: Position)
    requires
        doc.wf(),
    ensures
        ({
            let m = doc.line_metrics@[clamped_line(doc.line_metrics@, p.line)];
            let line_units = utf16_len(doc.text@.subrange(m.start_char as int, line_end(m)));
            spec_utf16_offset(doc, p) == utf16_len(doc.text@.take(m.start_char as int)) + (
            if (p.character as int) < line_units { p.character as int } else { line_units as int })
        }),
{
}


/// A tsserver text span: a start offset and a length, both in UTF-16 code
/// units from the start of the document.
#[derive(Debug, Clone, Copy, PartialEq, Eq, Structural)]
pub struct TextSpan {
    pub start: u32,
    pub length: u32,
}

impl TextSpan {
    /// Span that covers a document from its start for `len` code units.
    pub fn covering_length(len: u32) -> (r: TextSpan)
        ensures
            r == (TextSpan { start: 0u32, length: len }),
    {
        TextSpan { start: 0, length: len }
    }
}

/// The span a range denotes: from the smaller of the two endpoint offsets,
/// for the distance between them.
pub open spec fn spec_text_span(doc: DocumentState, range: Range) -> TextSpan {
    let a = spec_utf16_offset(doc, range.start);
    let b = spec_utf16_offset(doc, range.end);
    if b >= a {
        TextSpan { start: a as u32, length: (b - a) as u32 }
    } else {
        TextSpan { start: b as u32, length: (a - b) as u32 }
    }
}

impl DocumentState {
    /// Converts an LSP range into a UTF-16 text span of this document.
    pub fn text_span(&self, range: &Range) -> (r: TextSpan)
        requires
            self.wf(),
        ensures
            r == spec_text_span(*self, *range),
    {
        let start = self.utf16_offset(&range.start);
        let end = self.utf16_offset(&range.end);
        proof {
            lemma_utf16_len_bound(self.text@);
        }
        if end >= start {
            TextSpan { start: start as u32, length: (end - start) as u32 }
        } else {
            TextSpan { start: end as u32, length: (start - end) as u32 }
        }
    }
}

/// First snapshot stored under `uri`, scanning from the front. The store keeps
/// its keys unique, so this is the snapshot for `uri` if any.
pub open spec fn lookup(docs: Seq<(String, DocumentState)>, uri: Seq<char>) -> Option<
    DocumentState,
>
    decreases docs.len(),
{
    if docs.len() == 0 {
        None
    } else if docs[0].0@ == uri {
        Some(docs[0].1)
    } else {
        lookup(docs.drop_first(), uri)
    }
}

proof fn lemma_lookup_found(docs: Seq<(String, DocumentState)>, uri: Seq<char>, i: int)
    requires
        0 <= i < docs.len(),
        docs[i].0@ == uri,
        forall|j: int| 0 <= j < i ==> (#[trigger] docs[j].0)@ != uri,
    ensures
        lookup(docs, uri) == Some(docs[i].1),
    decreases docs.len(),
{
    if i > 0 {
        assert forall|j: int| 0 <= j < i - 1 implies (#[trigger] docs.drop_first()[j].0)@
            != uri by {
            assert(docs.drop_first()[j] == docs[j + 1]);
        }
        assert(docs.drop_first()[i - 1] == docs[i]);
        lemma_lookup_found(docs.drop_first(), uri, i - 1);
    }
}

proof fn lemma_lookup_none(docs: Seq<(String, DocumentState)>, uri: Seq<char>)
    requires
        forall|j: int| 0 <= j < docs.len() ==> (#[trigger] docs[j].0)@ != uri,
    ensures
        lookup(docs, uri) is None,
    decreases docs.len(),
{
    if docs.len() > 0 {
        assert forall|j: int| 0 <= j < docs.drop_first().len() implies (#[trigger] docs.drop_first(
        )[j].0)@ != uri by {
            assert(docs.drop_first()[j] == docs[j + 1]);
        }
        lemma_lookup_none(docs.drop_first(), uri);
    }
}

/// Removing the entry at `i` leaves the lookup of every other key unchanged,
/// provided keys are unique.
proof fn lemma_lookup_remove(docs: Seq<(String, DocumentState)>, i: int, u: Seq<char>)
    requires
        0 <= i < docs.len(),
        forall|a: int, b: int|
            0 <= a < b < docs.len() ==> (#[trigger] docs[a].0)@ != (#[trigger] docs[b].0)@,
        u != docs[i].0@,
    ensures
        lookup(docs.take(i) + docs.skip(i + 1), u) == lookup(docs, u),
    decreases docs.len(),
{
    let rest = docs.take(i) + docs.skip(i + 1);
    if i == 0 {
        assert(rest =~= docs.drop_first());
    } else {
        assert(rest[0] == docs[0]);
        if docs[0].0@ == u {
        } else {
            assert forall|a: int, b: int|
                0 <= a < b < docs.drop_first().len() implies (#[trigger] docs.drop_first()[a].0)@
                != (#[trigger] docs.drop_first()[b].0)@ by {
                assert(docs.drop_first()[a] == docs[a + 1]);
                assert(docs.drop_first()[b] == docs[b + 1]);
            }
            assert(docs.drop_first()[i - 1] == docs[i]);
            lemma_lookup_remove(docs.drop_first(), i - 1, u);
            assert(rest.drop_first() =~= docs.drop_first().take(i - 1) + docs.drop_first().skip(i));
        }
    }
}

/// Appending an entry leaves the lookup of every other key unchanged.
proof fn lemma_lookup_push(
    docs: Seq<(String, DocumentState)>,
    entry: (String, DocumentState),
    u: Seq<char>,
)
    requires
        u != entry.0@,
    ensures
        lookup(docs.push(entry), u) == lookup(docs, u),
    decreases docs.len(),
{
    if docs.len() == 0 {
        assert(docs.push(entry)[0] == entry);
        assert(docs.push(entry).drop_first() =~= docs);
        assert(lookup(docs, u) is None);
    } else {
        assert(docs.push(entry)[0] == docs[0]);
        assert(docs.push(entry).drop_first() =~= docs.drop_first().push(entry));
        lemma_lookup_push(docs.drop_first(), entry, u);
    }
}

/// A copy of one open document, used to replay `didOpen` after a restart.
#[derive(Debug)]
pub struct OpenDocumentSnapshot {
    pub uri: String,
    pub text: Vec<char>,
    pub version: Option<i32>,
    pub language_id: Option<String>,
}

/// Captures the current snapshot of every open text document, keyed by URI.
#[derive(Debug)]
pub struct DocumentStore {
    docs: Vec<(String, DocumentState)>,
}

impl DocumentStore {
    /// The stored entries, in insertion order.
    pub closed spec fn entries(self) -> Seq<(String, DocumentState)> {
        self.docs@
    }

    /// The snapshot stored for `uri`, if any.
    pub open spec fn doc(self, uri: Seq<char>) -> Option<DocumentState> {
        lookup(self.entries(), uri)
    }

    /// Store invariant: every snapshot is well-formed and URIs are unique.
    pub open spec fn wf(self) -> bool {
        &&& forall|k: int|
            0 <= k < self.entries().len() ==> (#[trigger] self.entries()[k].1).wf()
        &&& forall|a: int, b: int|
            0 <= a < b < self.entries().len() ==> (#[trigger] self.entries()[a].0)@ != (
            #[trigger] self.entries()[b].0)@
    }

    /// An empty store.
    pub fn new() -> (r: DocumentStore)
        ensures
            r.wf(),
            r.entries().len() == 0,
    {
        DocumentStore { docs: Vec::new() }
    }

    /// Index of the entry for `uri`, scanning from the front.
    fn find(&self, uri: &str) -> (r: Option<usize>)
        ensures
            match r {
                Some(i) => {
                    &&& i < self.entries().len()
                    &&& self.entries()[i as int].0@ == uri@
                    &&& forall|j: int|
                        0 <= j < i ==> (#[trigger] self.entries()[j].0)@ != uri@
                },
                None => forall|j: int|
                    0 <= j < self.entries().len() ==> (#[trigger] self.entries()[j].0)@ != uri@,
            },
    {
        let mut i: usize = 0;
        while i < self.docs.len()
            invariant
                i <= self.docs@.len(),
                forall|j: int| 0 <= j < i ==> (#[trigger] self.docs@[j].0)@ != uri@,
            decreases self.docs@.len() - i,
        {
            if crate::utils::str_eq(self.docs[i].0.as_str(), uri) {
                return Some(i);
            }
            i += 1;
        }
        None
    }

    /// True when a snapshot for `uri` is open.
    pub fn is_open(&self, uri: &str) -> (r: bool)
        ensures
            r == (self.doc(uri@) is Some),
    {
        let found = self.find(uri);
        proof {
            match found {
                Some(i) => lemma_lookup_found(self.entries(), uri@, i as int),
                None => lemma_lookup_none(self.entries(), uri@),
            }
        }
        found.is_some()
    }

    /// Inserts or replaces the snapshot for `uri` with freshly computed line
    /// metrics.
    pub fn open(&mut self, uri: &str, text: &str, version: Option<i32>, language_id: Option<
        String,
    >)
        requires
            old(self).wf(),
            text@.len() <= MAX_TEXT_LEN,
        ensures
            final(self).wf(),
            ({
                let stored = final(self).doc(uri@);
                &&& stored is Some
                &&& stored->0.wf()
                &&& stored->0.text@ == text@
                &&& stored->0.version == version
                &&& stored->0.language_id == language_id
            }),
            forall|u: Seq<char>| u != uri@ ==> final(self).doc(u) == old(self).doc(u),
    {
        let mut state = DocumentState::new(text, version);
        state.language_id = language_id;
        self.remove_entry(uri);
        let ghost before = self.docs@;
        let entry = (crate::utils::str_to_string(uri), state);
        self.docs.push(entry);
        proof {
            let n = self.docs@.len() - 1;
            lemma_lookup_found(self.docs@, uri@, n);
            assert forall|u: Seq<char>| u != uri@ implies lookup(self.docs@, u) == lookup(
                before,
                u,
            ) by {
                assert(self.docs@ =~= before.push(self.docs@[n]));
                lemma_lookup_push(before, self.docs@[n], u);
            }
            assert forall|a: int, b: int|
                0 <= a < b < self.docs@.len() implies (#[trigger] self.docs@[a].0)@ != (
            #[trigger] self.docs@[b].0)@ by {
                if b == n {
                    assert(lookup(before, self.docs@[a].0@) is Some ==> self.docs@[a].0@ != uri@)
                        by {
                        if self.docs@[a].0@ == uri@ {
                        }
                    }
                }
            }
        }
    }

    /// Drops the snapshot for `uri`, if present.
    pub fn close(&mut self, uri: &str)
        requires
            old(self).wf(),
        ensures
            final(self).wf(),
            final(self).doc(uri@) is None,
            forall|u: Seq<char>| u != uri@ ==> final(self).doc(u) == old(self).doc(u),
    {
        self.remove_entry(uri);
        proof {
            lemma_lookup_none(self.docs@, uri@);
        }
    }

    /// Removes the entry for `uri`, if present; afterwards no entry carries
    /// that key and lookups of other keys are unchanged.
    fn remove_entry(&mut self, uri: &str)
        requires
            old(self).wf(),
        ensures
            final(self).wf(),
            forall|j: int|
                0 <= j < final(self).entries().len() ==> (#[trigger] final(self).entries()[j].0)@
                    != uri@,
            forall|u: Seq<char>|
                u != uri@ ==> lookup(final(self).entries(), u) == lookup(old(self).entries(), u),
    {
        let found = self.find(uri);
        match found {
            Some(i) => {
                let ghost before = self.docs@;
                let _ = self.docs.remove(i);
                proof {
                    assert(self.docs@ =~= before.take(i as int) + before.skip(i as int + 1));
                    assert forall|u: Seq<char>| u != uri@ implies lookup(self.docs@, u) == lookup(
                        before,
                        u,
                    ) by {
                        lemma_lookup_remove(before, i as int, u);
                    }
                    assert forall|j: int|
                        0 <= j < self.docs@.len() implies (#[trigger] self.docs@[j].0)@
                        != uri@ by {
                        if j < i as int {
                            assert(self.docs@[j] == before[j]);
                        } else {
                            assert(self.docs@[j] == before[j + 1]);
                        }
                    }
                }
            },
            None => {
                proof {
                    assert(self.docs@ =~= old(self).docs@);
                }
            },
        }
    }

    /// Applies the change events for `uri` to its snapshot, one at a time and
    /// in the order received, then updates the stored version: some chain of
    /// snapshots links the old text to the new one, each step applying the
    /// next change as [`spec_applied_text`] prescribes. A URI that was never
    /// opened is ignored.
    pub fn apply_changes(&mut self, uri: &str, changes: &Vec<TextDocumentContentChangeEvent>, version: Option<i32>)
        requires
            old(self).wf(),
        ensures
            final(self).wf(),
            old(self).doc(uri@) is None ==> final(self).doc(uri@) is None,
            old(self).doc(uri@) is Some ==> {
                let stored = final(self).doc(uri@);
                &&& stored is Some
                &&& stored->0.wf()
                &&& stored->0.version == version
                &&& exists|trace: Seq<DocumentState>|
                    {
                        &&& trace.len() == changes@.len() + 1
                        &&& trace[0] == old(self).doc(uri@)->0
                        &&& (forall|k: int|
                            0 <= k < changes@.len() ==> (#[trigger] trace[k + 1]).wf() && trace[k
                                + 1].text@ == spec_applied_text(trace[k], changes@[k]))
                        &&& stored->0.text@ == trace[changes@.len() as int].text@
                    }
            },
            forall|u: Seq<char>| u != uri@ ==> final(self).doc(u) == old(self).doc(u),
    {
        let found = self.find(uri);
        let Some(i) = found else {
            proof {
                lemma_lookup_none(self.docs@, uri@);
                assert(self.docs@ =~= old(self).docs@);
            }
            return ;
        };
        let ghost before = self.docs@;
        let mut entry = self.docs.remove(i);
        let ghost entry0 = entry.1;
        proof {
            lemma_lookup_found(before, uri@, i as int);
            assert(self.docs@ =~= before.take(i as int) + before.skip(i as int + 1));
            assert forall|j: int|
                0 <= j < self.docs@.len() implies (#[trigger] self.docs@[j].0)@ != uri@ by {
                if j < i as int {
                    assert(self.docs@[j] == before[j]);
                } else {
                    assert(self.docs@[j] == before[j + 1]);
                }
            }
        }
        let ghost mut trace: Seq<DocumentState> = seq![entry.1];
        let mut c: usize = 0;
        while c < changes.len()
            invariant
                entry.1.wf(),
                entry.0@ == uri@,
                c <= changes@.len(),
                trace.len() == c + 1,
                trace[0] == entry0,
                forall|k: int|
                    0 <= k < c ==> (#[trigger] trace[k + 1]).wf() && trace[k + 1].text@
                        == spec_applied_text(trace[k], changes@[k]),
                trace[c as int] == entry.1,
            decreases changes@.len() - c,
        {
            entry.1.apply_change(&changes[c]);
            proof {
                trace = trace.push(entry.1);
            }
            c += 1;
        }
        entry.1.version = version;
        proof {
            assert forall|k: int|
                0 <= k < changes@.len() implies (#[trigger] trace[k + 1]).wf() && trace[k
                    + 1].text@ == spec_applied_text(trace[k], changes@[k]) by {}
            assert(entry.1.text@ == trace[changes@.len() as int].text@);
        }
        let ghost mid = self.docs@;
        let ghost final_trace = trace;
        self.docs.push(entry);
        proof {
            let n = self.docs@.len() - 1;
            lemma_lookup_found(self.docs@, uri@, n);
            assert forall|u: Seq<char>| u != uri@ implies lookup(self.docs@, u) == lookup(
                before,
                u,
            ) by {
                assert(self.docs@ =~= mid.push(self.docs@[n]));
                lemma_lookup_push(mid, self.docs@[n], u);
                lemma_lookup_remove(before, i as int, u);
            }
            assert forall|a: int, b: int|
                0 <= a < b < self.docs@.len() implies (#[trigger] self.docs@[a].0)@ != (
            #[trigger] self.docs@[b].0)@ by {}
            assert(lookup(self.docs@, uri@)->0.text@ == final_trace[changes@.len() as int].text@);
        }
    }

    /// Converts an LSP range for `uri` into a tsserver UTF-16 span; nothing is
    /// returned when the document has not been opened.
    pub fn span_for_range(&self, uri: &str, range: &Range) -> (r: Option<TextSpan>)
        requires
            self.wf(),
        ensures
            match self.doc(uri@) {
                Some(doc) => r == Some(spec_text_span(doc, *range)),
                None => r is None,
            },
    {
        let found = self.find(uri);
        proof {
            match found {
                Some(i) => lemma_lookup_found(self.entries(), uri@, i as int),
                None => lemma_lookup_none(self.entries(), uri@),
            }
        }
        match found {
            Some(i) => Some(self.docs[i].1.text_span(range)),
            None => None,
        }
    }

    /// Copies of every open document, for replaying `didOpen` after a restart.
    pub fn open_documents(&self) -> (r: Vec<OpenDocumentSnapshot>)
        requires
            self.wf(),
        ensures
            r@.len() == self.entries().len(),
            forall|k: int|
                0 <= k < r@.len() ==> {
                    &&& (#[trigger] r@[k]).uri@ == self.entries()[k].0@
                    &&& r@[k].text@ == self.entries()[k].1.text@
                    &&& r@[k].version == self.entries()[k].1.version
                    &&& r@[k].language_id == self.entries()[k].1.language_id
                },
    {
        let mut out: Vec<OpenDocumentSnapshot> = Vec::new();
        let mut i: usize = 0;
        while i < self.docs.len()
            invariant
                i <= self.docs@.len(),
                out@.len() == i,
                forall|k: int|
                    0 <= k < i ==> {
                        &&& (#[trigger] out@[k]).uri@ == self.docs@[k].0@
                        &&& out@[k].text@ == self.docs@[k].1.text@
                        &&& out@[k].version == self.docs@[k].1.version
                        &&& out@[k].language_id == self.docs@[k].1.language_id
                    },
            decreases self.docs@.len() - i,
        {
            let entry = &self.docs[i];
            out.push(OpenDocumentSnapshot {
                uri: crate::utils::str_to_string(entry.0.as_str()),
                text: crate::utils::copy_chars(&entry.1.text),
                version: entry.1.version,
                language_id: crate::utils::clone_opt_string(&entry.1.language_id),
            });
            i += 1;
        }
        out
    }
}

} // verus!

//! Project-registry policy: idle eviction and the daemon settings parsers.
//!
//! The registry maps workspace roots to running brokers. The decisions made
//! here are pure: which entries an idle sweep removes, how often the sweep
//! runs, and how the daemon's environment settings parse.

use vstd::prelude::*;

use vstd::string::StrSliceExecFns;

use crate::utils::str_to_chars;

verus! {

/// What the registry remembers about one project broker.
#[derive(Debug, Clone, Copy, PartialEq, Eq, Structural)]
pub struct RegistryEntry {
    pub last_used: u64,
    pub active_sessions: u64,
}

/// An entry is evicted when no session uses it and it has been idle for at
/// least the configured time-to-live. The idle time saturates at zero when
/// the clock moved backwards.
pub open spec fn spec_should_evict(entry: RegistryEntry, now: u64, idle_ttl: u64) -> bool {
    &&& entry.active_sessions == 0
    &&& (if now >= entry.last_used {
        now - entry.last_used
    } else {
        0int
    }) >= idle_ttl
}

/// Decides whether one entry is due for eviction.
pub fn should_evict(entry: &RegistryEntry, now: u64, idle_ttl: u64) -> (r: bool)
    ensures
        r == spec_should_evict(*entry, now, idle_ttl),
{
    let idle = if now >= entry.last_used {
        now - entry.last_used
    } else {
        0
    };
    entry.active_sessions == 0 && idle >= idle_ttl
}

/// Idle-eviction law: with a positive time-to-live, an entry with no active
/// sessions last used at `t0` is due for eviction at every instant from
/// `t0 + idle_ttl` on, and never before. A sweep that runs at least once in
/// every interval of the sweep length therefore removes the entry between
/// `t0 + idle_ttl` and `t0 + idle_ttl` plus one sweep interval.
pub proof fn lemma_idle_eviction_window(entry: RegistryEntry, now: u64, idle_ttl: u64)
    requires
        idle_ttl > 0,
        entry.active_sessions == 0,
    ensures
        now >= entry.last_used + idle_ttl ==> spec_should_evict(entry, now, idle_ttl),
        now < entry.last_used + idle_ttl ==> !spec_should_evict(entry, now, idle_ttl),
{
}

/// How often the eviction sweep wakes: half the time-to-live, clamped to the
/// range from five seconds to one minute.
pub open spec fn spec_sweep_interval(idle_ttl_secs: u64) -> int {
    let half = idle_ttl_secs / 2;
    if half < 5 {
        5int
    } else if half > 60 {
        60int
    } else {
        half as int
    }
}

/// Seconds between two idle sweeps for the given time-to-live.
pub fn idle_sweep_interval(idle_ttl_secs: u64) -> (r: u64)
    ensures
        r == spec_sweep_interval(idle_ttl_secs),
        5 <= r <= 60,
{
    let half = idle_ttl_secs / 2;
    if half < 5 {
        5
    } else if half > 60 {
        60
    } else {
        half
    }
}

/// Splits the registry's entries into those a sweep at `now` keeps and those
/// it evicts, each side in its original order.
pub fn idle_sweep(entries: Vec<RegistryEntry>, now: u64, idle_ttl: u64) -> (r: (
    Vec<RegistryEntry>,
    Vec<RegistryEntry>,
))
    ensures
        r.0@.len() + r.1@.len() == entries@.len(),
        forall|j: int| 0 <= j < r.0@.len() ==> !spec_should_evict(#[trigger] r.0@[j], now, idle_ttl),
        forall|j: int| 0 <= j < r.1@.len() ==> spec_should_evict(#[trigger] r.1@[j], now, idle_ttl),
        forall|k: int|
            0 <= k < entries@.len() ==> {
                if spec_should_evict(#[trigger] entries@[k], now, idle_ttl) {
                    r.1@.contains(entries@[k])
                } else {
                    r.0@.contains(entries@[k])
                }
            },
{
    let mut kept: Vec<RegistryEntry> = Vec::new();
    let mut evicted: Vec<RegistryEntry> = Vec::new();
    let mut i: usize = 0;
    while i < entries.len()
        invariant
            i <= entries@.len(),
            kept@.len() + evicted@.len() == i,
            forall|j: int|
                0 <= j < kept@.len() ==> !spec_should_evict(#[trigger] kept@[j], now, idle_ttl),
            forall|j: int|
                0 <= j < evicted@.len() ==> spec_should_evict(#[trigger] evicted@[j], now, idle_ttl),
            forall|k: int|
                0 <= k < i ==> {
                    if spec_should_evict(#[trigger] entries@[k], now, idle_ttl) {
                        evicted@.contains(entries@[k])
                    } else {
                        kept@.contains(entries@[k])
                    }
                },
        decreases entries@.len() - i,
    {
        let entry = entries[i];
        let ghost kept_before = kept@;
        let ghost evicted_before = evicted@;
        if should_evict(&entry, now, idle_ttl) {
            evicted.push(entry);
        } else {
            kept.push(entry);
        }
        proof {
            assert forall|k: int| 0 <= k < i + 1 implies {
                if spec_should_evict(#[trigger] entries@[k], now, idle_ttl) {
                    evicted@.contains(entries@[k])
                } else {
                    kept@.contains(entries@[k])
                }
            } by {
                if k < i {
                    if spec_should_evict(entries@[k], now, idle_ttl) {
                        let j0 = choose|j: int|
                            0 <= j < evicted_before.len() && evicted_before[j] == entries@[k];
                        assert(evicted@[j0] == entries@[k]);
                    } else {
                        let j0 = choose|j: int|
                            0 <= j < kept_before.len() && kept_before[j] == entries@[k];
                        assert(kept@[j0] == entries@[k]);
                    }
                } else {
                    if spec_should_evict(entries@[k], now, idle_ttl) {
                        assert(evicted@[evicted@.len() - 1] == entries@[k]);
                    } else {
                        assert(kept@[kept@.len() - 1] == entries@[k]);
                    }
                }
            }
        }
        i += 1;
    }
    (kept, evicted)
}

/// Splits the registry's entries into those kept under the entry cap and
/// those the overflow sweep evicts: when more than `max_entries` are held, the
/// oldest by last use are evicted, down to the cap. Every evicted entry is at
/// least as old as every kept one.
pub fn overflow_sweep(entries: Vec<RegistryEntry>, max_entries: usize) -> (r: (
    Vec<RegistryEntry>,
    Vec<RegistryEntry>,
))
    ensures
        r.0@.len() + r.1@.len() == entries@.len(),
        entries@.len() <= max_entries ==> r.0@ == entries@ && r.1@.len() == 0,
        entries@.len() > max_entries ==> r.0@.len() == max_entries,
        forall|i: int, j: int|
            0 <= i < r.1@.len() && 0 <= j < r.0@.len() ==> (#[trigger] r.1@[i]).last_used <= (
            #[trigger] r.0@[j]).last_used,
{
    let mut kept = entries;
    let mut evicted: Vec<RegistryEntry> = Vec::new();
    if kept.len() <= max_entries {
        return (kept, evicted);
    }
    while kept.len() > max_entries
        invariant
            kept@.len() + evicted@.len() == entries@.len(),
            kept@.len() >= max_entries,
            forall|i: int, j: int|
                0 <= i < evicted@.len() && 0 <= j < kept@.len() ==> (
                #[trigger] evicted@[i]).last_used <= (#[trigger] kept@[j]).last_used,
        decreases kept@.len(),
    {
        let mut oldest: usize = 0;
        let mut i: usize = 1;
        while i < kept.len()
            invariant
                oldest < i <= kept@.len(),
                kept@.len() > 0,
                forall|j: int|
                    0 <= j < i ==> kept@[oldest as int].last_used <= (#[trigger] kept@[j]).last_used,
            decreases kept@.len() - i,
        {
            if kept[i].last_used < kept[oldest].last_used {
                oldest = i;
            }
            i += 1;
        }
        let ghost kept_before = kept@;
        let ghost evicted_before = evicted@;
        let removed = kept.remove(oldest);
        evicted.push(removed);
        proof {
            assert(kept@ =~= kept_before.take(oldest as int) + kept_before.skip(oldest as int + 1));
            assert forall|i: int, j: int|
                0 <= i < evicted@.len() && 0 <= j < kept@.len() implies (
            #[trigger] evicted@[i]).last_used <= (#[trigger] kept@[j]).last_used by {
                let j0 = if j < oldest as int {
                    j
                } else {
                    j + 1
                };
                assert(kept@[j] == kept_before[j0]);
                if i < evicted_before.len() {
                    assert(evicted@[i] == evicted_before[i]);
                } else {
                    assert(evicted@[i] == removed);
                    assert(removed.last_used <= kept_before[j0].last_used);
                }
            }
        }
    }
    (kept, evicted)
}

/// Whitespace recognised when trimming a setting string.
pub open spec fn is_space(c: char) -> bool {
    c == ' ' || c == '\t' || c == '\n' || c == '\r'
}

/// A decimal digit.
pub open spec fn is_digit(c: char) -> bool {
    '0' <= c && c <= '9'
}

/// The numeric value of a digit character.
pub open spec fn digit_val(c: char) -> int {
    (c as u32) - ('0' as u32)
}

/// Every character is a decimal digit.
pub open spec fn all_digits(s: Seq<char>) -> bool {
    forall|j: int| 0 <= j < s.len() ==> is_digit(#[trigger] s[j])
}

/// The value of a digit string, most significant digit first.
pub open spec fn digits_value(s: Seq<char>) -> int
    decreases s.len(),
{
    if s.len() == 0 {
        0
    } else {
        digits_value(s.drop_last()) * 10 + digit_val(s.last())
    }
}

/// A digit string's value only grows as digits are appended.
proof fn lemma_digits_value_monotonic(s: Seq<char>, i: int)
    requires
        0 <= i <= s.len(),
        forall|j: int| 0 <= j < s.len() ==> is_digit(#[trigger] s[j]),
    ensures
        digits_value(s) >= digits_value(s.take(i)),
        digits_value(s) >= 0,
    decreases s.len() - i,
{
    if i == s.len() {
        assert(s.take(i) =~= s);
        lemma_digits_value_nonneg(s);
    } else {
        lemma_digits_value_monotonic(s, i + 1);
        assert(s.take(i + 1).drop_last() =~= s.take(i));
        assert(s.take(i + 1).last() == s[i]);
        lemma_digits_value_nonneg(s.take(i));
    }
}

proof fn lemma_digits_value_nonneg(s: Seq<char>)
    requires
        forall|j: int| 0 <= j < s.len() ==> is_digit(#[trigger] s[j]),
    ensures
        digits_value(s) >= 0,
    decreases s.len(),
{
    if s.len() > 0 {
        assert forall|j: int| 0 <= j < s.drop_last().len() implies is_digit(
            #[trigger] s.drop_last()[j],
        ) by {
            assert(s.drop_last()[j] == s[j]);
        }
        lemma_digits_value_nonneg(s.drop_last());
    }
}

/// Parses the decimal digits of `chars` between `start` and `end`. Succeeds
/// exactly on a non-empty all-digit range whose value fits in the result
/// type, and then returns that value.
pub fn parse_u64_range(chars: &Vec<char>, start: usize, end: usize) -> (r: Option<u64>)
    requires
        start <= end <= chars@.len(),
    ensures
        ({
            let digits = chars@.subrange(start as int, end as int);
            &&& r is Some <==> (start < end && all_digits(digits) && digits_value(digits)
                <= u64::MAX)
            &&& r is Some ==> r->0 == digits_value(digits)
        }),
{
    let ghost digits = chars@.subrange(start as int, end as int);
    if start >= end {
        return None;
    }
    let mut value: u64 = 0;
    let mut i = start;
    proof {
        assert(digits.take(0) =~= Seq::<char>::empty());
    }
    while i < end
        invariant
            start <= i <= end <= chars@.len(),
            digits == chars@.subrange(start as int, end as int),
            forall|j: int| 0 <= j < i - start ==> is_digit(#[trigger] digits[j]),
            value == digits_value(digits.take(i - start)),
        decreases end - i,
    {
        let c = chars[i];
        if c < '0' || c > '9' {
            proof {
                assert(digits[i - start] == chars@[i as int]);
            }
            return None;
        }
        let d: u64 = (c as u32 - '0' as u32) as u64;
        proof {
            assert(digits[i - start] == chars@[i as int]);
            assert(digits.take(i - start + 1).drop_last() =~= digits.take(i - start));
            assert(digits.take(i - start + 1).last() == digits[i - start]);
        }
        if value > (u64::MAX - d) / 10 {
            proof {
                assert(value * 10 + d > u64::MAX) by (nonlinear_arith)
                    requires
                        value > (u64::MAX - d) / 10,
                        d <= 9,
                        value >= 0,
                ;
                if all_digits(digits) {
                    lemma_digits_value_monotonic(digits, i - start + 1);
                }
            }
            return None;
        }
        proof {
            assert(value * 10 + d <= u64::MAX) by (nonlinear_arith)
                requires
                    value <= (u64::MAX - d) / 10,
                    d <= 9,
                    value >= 0,
            ;
        }
        value = value * 10 + d;
        i += 1;
    }
    proof {
        assert(digits.take(end - start) =~= digits);
    }
    Some(value)
}

/// A character matches a lower-case letter when it is that letter or its
/// ASCII upper-case form.
pub open spec fn ascii_lower_matches(c: char, lower: char) -> bool {
    c == lower || (('A' <= c && c <= 'Z') && (c as u32) + 32 == (lower as u32))
}

/// Case-insensitive match of one character against a lower-case letter.
fn char_matches_lower(c: char, lower: char) -> (r: bool)
    ensures
        r == ascii_lower_matches(c, lower),
{
    if c == lower {
        true
    } else if c >= 'A' && c <= 'Z' {
        (c as u32) + 32 == lower as u32
    } else {
        false
    }
}

/// The characters match a lower-case word, ignoring ASCII case.
pub open spec fn matches_lower(s: Seq<char>, word: Seq<char>) -> bool {
    s.len() == word.len() && forall|j: int|
        0 <= j < s.len() ==> ascii_lower_matches(#[trigger] s[j], word[j])
}

/// Case-insensitive comparison of a character range against a lower-case
/// literal.
fn range_matches_lower(chars: &Vec<char>, start: usize, end: usize, word: &str) -> (r: bool)
    requires
        start <= end <= chars@.len(),
    ensures
        r == matches_lower(chars@.subrange(start as int, end as int), word@),
{
    let n = word.unicode_len();
    if end - start != n {
        return false;
    }
    let mut i: usize = 0;
    while i < n
        invariant
            i <= n,
            n == word@.len(),
            start <= end <= chars@.len(),
            end - start == n,
            forall|j: int|
                0 <= j < i ==> ascii_lower_matches(
                    #[trigger] chars@.subrange(start as int, end as int)[j],
                    word@[j],
                ),
        decreases n - i,
    {
        if !char_matches_lower(chars[start + i], word.get_char(i)) {
            proof {
                assert(chars@.subrange(start as int, end as int)[i as int] == chars@[start + i]);
            }
            return false;
        }
        proof {
            assert(chars@.subrange(start as int, end as int)[i as int] == chars@[start + i]);
        }
        i += 1;
    }
    true
}

/// Index of the first non-whitespace character at or after `i`.
pub open spec fn ltrim_idx(s: Seq<char>, i: int) -> int
    decreases s.len() - i,
{
    if 0 <= i && i < s.len() && is_space(s[i]) {
        ltrim_idx(s, i + 1)
    } else {
        i
    }
}

/// Index one past the last non-whitespace character in `s[floor..j]`.
pub open spec fn rtrim_idx(s: Seq<char>, j: int, floor: int) -> int
    decreases j,
{
    if floor < j && j <= s.len() && 0 < j && is_space(s[j - 1]) {
        rtrim_idx(s, j - 1, floor)
    } else {
        j
    }
}

/// The characters of `s` with leading and trailing whitespace removed.
pub open spec fn spec_trimmed(s: Seq<char>) -> Seq<char> {
    let a = ltrim_idx(s, 0);
    let b = rtrim_idx(s, s.len() as int, a);
    s.subrange(a, b)
}

proof fn lemma_ltrim_bounds(s: Seq<char>, i: int)
    requires
        0 <= i <= s.len(),
    ensures
        i <= ltrim_idx(s, i) <= s.len(),
    decreases s.len() - i,
{
    if i < s.len() && is_space(s[i]) {
        lemma_ltrim_bounds(s, i + 1);
    }
}

proof fn lemma_rtrim_bounds(s: Seq<char>, j: int, floor: int)
    requires
        0 <= floor <= j <= s.len(),
    ensures
        floor <= rtrim_idx(s, j, floor) <= j,
    decreases j,
{
    if floor < j && 0 < j && is_space(s[j - 1]) {
        lemma_rtrim_bounds(s, j - 1, floor);
    }
}

/// The recognised boolean spellings of an environment flag: after trimming
/// and ignoring ASCII case, `1`, `true`, `yes`, `on` enable and `0`, `false`,
/// `no`, `off` disable; anything else is an error.
pub open spec fn spec_env_bool(s: Seq<char>) -> Option<bool> {
    let t = spec_trimmed(s);
    if matches_lower(t, "1"@) || matches_lower(t, "true"@) || matches_lower(t, "yes"@)
        || matches_lower(t, "on"@) {
        Some(true)
    } else if matches_lower(t, "0"@) || matches_lower(t, "false"@) || matches_lower(t, "no"@)
        || matches_lower(t, "off"@) {
        Some(false)
    } else {
        None
    }
}

/// Parses an environment flag.
pub fn parse_env_bool(value: &str) -> (r: Option<bool>)
    ensures
        r == spec_env_bool(value@),
{
    let chars = str_to_chars(value);
    let (start, end) = trim_range(&chars);
    if range_matches_lower(&chars, start, end, "1") || range_matches_lower(&chars, start, end, "true")
        || range_matches_lower(&chars, start, end, "yes") || range_matches_lower(
        &chars,
        start,
        end,
        "on",
    ) {
        Some(true)
    } else if range_matches_lower(&chars, start, end, "0") || range_matches_lower(
        &chars,
        start,
        end,
        "false",
    ) || range_matches_lower(&chars, start, end, "no") || range_matches_lower(
        &chars,
        start,
        end,
        "off",
    ) {
        Some(false)
    } else {
        None
    }
}

/// The daemon idle time-to-live a setting string selects: `off` or `0`
/// disable eviction; a number with an optional `s`, `m` or `h` suffix gives
/// seconds, saturating at the counter's maximum; anything else is an error.
pub open spec fn spec_idle_ttl(s: Seq<char>) -> Option<Option<u64>> {
    let t = spec_trimmed(s);
    if matches_lower(t, "off"@) || matches_lower(t, "0"@) {
        Some(None)
    } else if t.len() == 0 {
        None
    } else {
        let last = t[t.len() - 1];
        let suffixed = last == 's' || last == 'm' || last == 'h';
        let unit: int = if last == 'm' {
            60
        } else if last == 'h' {
            3600
        } else {
            1
        };
        let num = if suffixed {
            t.drop_last()
        } else {
            t
        };
        if num.len() == 0 || !all_digits(num) || digits_value(num) > u64::MAX {
            None
        } else {
            let amount = digits_value(num);
            Some(Some(if amount * unit <= u64::MAX {
                (amount * unit) as u64
            } else {
                u64::MAX
            }))
        }
    }
}

/// Parses the daemon idle time-to-live setting.
pub fn parse_idle_ttl(value: &str) -> (r: Option<Option<u64>>)
    ensures
        r == spec_idle_ttl(value@),
{
    let chars = str_to_chars(value);
    let (start, end) = trim_range(&chars);
    let ghost t = chars@.subrange(start as int, end as int);
    if range_matches_lower(&chars, start, end, "off") || range_matches_lower(
        &chars,
        start,
        end,
        "0",
    ) {
        return Some(None);
    }
    if start >= end {
        return None;
    }
    let last = chars[end - 1];
    proof {
        assert(t[t.len() - 1] == chars@[end - 1]);
    }
    let suffixed = last == 's' || last == 'm' || last == 'h';
    let unit: u64 = if last == 'm' {
        60
    } else if last == 'h' {
        3600
    } else {
        1
    };
    let num_end = if suffixed {
        end - 1
    } else {
        end
    };
    proof {
        if suffixed {
            assert(t.drop_last() =~= chars@.subrange(start as int, num_end as int));
        }
    }
    let amount = match parse_u64_range(&chars, start, num_end) {
        Some(amount) => amount,
        None => {
            return None;
        },
    };
    let seconds = if unit == 1 {
        amount
    } else if amount <= u64::MAX / unit {
        proof {
            assert(amount * unit <= u64::MAX) by (nonlinear_arith)
                requires
                    unit > 0,
                    amount <= u64::MAX / unit,
            ;
        }
        amount * unit
    } else {
        proof {
            assert(amount * unit > u64::MAX) by (nonlinear_arith)
                requires
                    unit > 0,
                    amount > u64::MAX / unit,
            ;
        }
        u64::MAX
    };
    Some(Some(seconds))
}

/// Indices of the first and one-past-last non-whitespace characters.
fn trim_range(chars: &Vec<char>) -> (r: (usize, usize))
    ensures
        r.0 <= r.1 <= chars@.len(),
        r.0 == ltrim_idx(chars@, 0),
        r.1 == rtrim_idx(chars@, chars@.len() as int, r.0 as int),
        chars@.subrange(r.0 as int, r.1 as int) == spec_trimmed(chars@),
{
    let n = chars.len();
    let mut start: usize = 0;
    proof {
        lemma_ltrim_bounds(chars@, 0);
    }
    while start < n && (chars[start] == ' ' || chars[start] == '\t' || chars[start] == '\n'
        || chars[start] == '\r')
        invariant
            start <= n,
            n == chars@.len(),
            ltrim_idx(chars@, 0) == ltrim_idx(chars@, start as int),
        decreases n - start,
    {
        start += 1;
    }
    proof {
        assert(ltrim_idx(chars@, start as int) == start);
    }
    let mut end: usize = n;
    while end > start && (chars[end - 1] == ' ' || chars[end - 1] == '\t' || chars[end - 1] == '\n'
        || chars[end - 1] == '\r')
        invariant
            start <= end <= n,
            n == chars@.len(),
            start == ltrim_idx(chars@, 0),
            rtrim_idx(chars@, n as int, start as int) == rtrim_idx(
                chars@,
                end as int,
                start as int,
            ),
        decreases end,
    {
        end -= 1;
    }
    proof {
        assert(rtrim_idx(chars@, end as int, start as int) == end);
    }
    (start, end)
}

} // verus!
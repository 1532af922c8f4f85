//! Transcription history analytics: totals, today's counts, per-day
//! statistics (the last 30 calendar days, newest first), the streak of
//! consecutive active days ending today or yesterday, and the newest
//! entries (at most 200).

use vstd::prelude::*;
use crate::text;
use crate::dates;
use crate::order;
use crate::config;

verus! {

/// A single transcription record. `extra` carries what the library does not
/// read (the recording and transcription durations) through unchanged.
pub struct Entry<X> {
    /// ISO-8601 timestamp.
    pub timestamp: String,
    /// The transcribed (post-processed) text.
    pub text: String,
    /// Number of words.
    pub word_count: usize,
    /// Measurements carried along with the record.
    pub extra: X,
}

/// Words and transcriptions of one day.
pub struct DayStat {
    pub date: String,
    pub words: usize,
    pub entries: usize,
}

/// Aggregate analytics computed from history.
pub struct Analytics {
    pub total_words: usize,
    pub total_entries: usize,
    pub streak_days: usize,
    pub today_words: usize,
    pub today_entries: usize,
    /// Per-day word counts (last 30 days), newest first.
    pub daily: Vec<DayStat>,
}

/// Full payload for the dashboard.
pub struct DashboardData<X> {
    pub analytics: Analytics,
    pub entries: Vec<Entry<X>>,
}

/// The history log: `history.jsonl` in the application's directory.
pub fn history_path() -> (r: Result<String, config::ConfigError>) {
    proof { reveal_strlit("history.jsonl"); }
    assert(config::component("history.jsonl"@)) by {
        assert('a' <= "history.jsonl"@[0] <= 'z');
    }
    config::app_file("history.jsonl")
}

// ---------------------------------------------------------------------------
// Word counting (`str::split_whitespace().count()`)
// ---------------------------------------------------------------------------

/// Whether a word starts at `i` in `s`: a character that is not whitespace
/// and is first or follows whitespace.
pub open spec fn word_start(s: Seq<char>, i: int) -> bool {
    !text::is_space(s[i]) && (i == 0 || text::is_space(s[i - 1]))
}

/// Number of maximal runs of non-whitespace characters in `s`.
pub open spec fn words_in(s: Seq<char>) -> nat
    decreases s.len(),
{
    if s.len() == 0 {
        0
    } else {
        words_in(s.drop_last()) + if word_start(s, s.len() - 1) {
            1nat
        } else {
            0nat
        }
    }
}

/// A single character is one word unless it is whitespace.
pub proof fn lemma_words_single(c: char)
    ensures
        words_in(seq![c]) == (if text::is_space(c) {
            0nat
        } else {
            1nat
        }),
{
    assert(seq![c].drop_last() =~= Seq::<char>::empty());
    assert(words_in(Seq::<char>::empty()) == 0);
    assert(word_start(seq![c], 0) == !text::is_space(c));
}

/// A non-empty run of characters none of which is whitespace is one word.
pub proof fn lemma_words_one_run(s: Seq<char>)
    requires
        s.len() > 0,
        forall|i: int| 0 <= i < s.len() ==> !text::is_space(#[trigger] s[i]),
    ensures
        words_in(s) == 1,
    decreases s.len(),
{
    if s.len() > 1 {
        let p = s.drop_last();
        assert forall|i: int| 0 <= i < p.len() implies !text::is_space(#[trigger] p[i]) by {
            assert(p[i] == s[i]);
        }
        lemma_words_one_run(p);
        assert(!text::is_space(s[s.len() - 2]));
    } else {
        assert(s.drop_last() =~= Seq::<char>::empty());
        assert(words_in(Seq::<char>::empty()) == 0);
        assert(word_start(s, 0));
    }
}

/// Words on either side of a whitespace character are counted separately
/// and add up.
pub proof fn lemma_words_split(a: Seq<char>, w: char, b: Seq<char>)
    requires
        text::is_space(w),
    ensures
        words_in(a + seq![w] + b) == words_in(a) + words_in(b),
    decreases b.len(),
{
    let s = a + seq![w] + b;
    if b.len() == 0 {
        assert(s =~= a.push(w));
        assert(s.drop_last() =~= a);
    } else {
        lemma_words_split(a, w, b.drop_last());
        assert(s.drop_last() =~= a + seq![w] + b.drop_last());
        let i = s.len() - 1;
        assert(s[i] == b[b.len() - 1]);
        if b.len() >= 2 {
            assert(s[i - 1] == b[b.len() - 2]);
        } else {
            assert(s[i - 1] == w);
        }
    }
}

/// Number of whitespace-separated words of `text`.
pub fn count_words(text: &str) -> (r: usize)
    ensures
        r == words_in(text@),
{
    let chars = text::chars_of(text);
    let mut n: usize = 0;
    let mut i: usize = 0;
    while i < chars.len()
        invariant
            i <= chars.len(),
            n == words_in(chars@.take(i as int)),
            n <= i,
        decreases chars.len() - i,
    {
        let ghost p = chars@.take(i + 1);
        assert(p.drop_last() =~= chars@.take(i as int));
        let sp = text::char_is_whitespace(chars[i]);
        let prev_sp = if i == 0 {
            true
        } else {
            text::char_is_whitespace(chars[i - 1])
        };
        assert(p[i as int] == chars@[i as int]);
        if i > 0 {
            assert(p[i - 1] == chars@[i - 1]);
        }
        if !sp && prev_sp {
            n = n + 1;
        }
        i = i + 1;
    }
    assert(chars@.take(chars.len() as int) =~= chars@);
    n
}

impl<X> Entry<X> {
    /// A record of `text` at `timestamp`, with its word count.
    pub fn new(timestamp: String, text: &str, extra: X) -> (r: Entry<X>)
        ensures
            r.timestamp@ == timestamp@,
            r.text@ == text@,
            r.word_count == words_in(text@),
            r.extra == extra,
    {
        let word_count = count_words(text);
        Entry { timestamp, text: String::from_str(text), word_count, extra }
    }
}

// ---------------------------------------------------------------------------
// Day keys: the first 10 bytes of a timestamp
// ---------------------------------------------------------------------------

/// The number of leading characters of `s` that take exactly `n` bytes of
/// UTF-8, if some prefix does.
pub open spec fn chars_for_bytes(s: Seq<char>, n: int) -> Option<nat>
    decreases s.len(),
{
    if n == 0 {
        Some(0)
    } else if n < 0 || s.len() == 0 || text::char_width(s[0]) > n {
        None
    } else {
        match chars_for_bytes(s.drop_first(), n - text::char_width(s[0])) {
            Some(k) => Some(k + 1),
            None => None,
        }
    }
}

/// The day an entry counts for: the first 10 bytes of its timestamp, when it
/// has that many.
pub open spec fn day_key(ts: Seq<char>) -> Option<Seq<char>> {
    if text::utf8_len(ts) >= 10 {
        match chars_for_bytes(ts, 10) {
            Some(k) => Some(ts.take(k as int)),
            None => None,
        }
    } else {
        None
    }
}

/// Every timestamp of 10 bytes or more has a character boundary at byte 10
/// (otherwise taking its first 10 bytes panics).
pub open spec fn day_keys_cut<X>(es: Seq<Entry<X>>) -> bool {
    forall|i: int|
        0 <= i < es.len() && text::utf8_len(#[trigger] es[i].timestamp@) >= 10 ==> chars_for_bytes(
            es[i].timestamp@,
            10,
        ) is Some
}

proof fn lemma_chars_for_bytes(s: Seq<char>, n: int)
    ensures
        chars_for_bytes(s, n) matches Some(k) ==> k <= s.len() && text::utf8_len(s.take(k as int))
            == n,
    decreases s.len(),
{
    if n != 0 && !(n < 0 || s.len() == 0 || text::char_width(s[0]) > n) {
        lemma_chars_for_bytes(s.drop_first(), n - text::char_width(s[0]));
        if let Some(k) = chars_for_bytes(s, n) {
            let t = s.take(k as int);
            assert(t.drop_first() =~= s.drop_first().take(k - 1));
        }
    } else if n == 0 {
        assert(s.take(0).len() == 0);
    }
}

/// The first 10 bytes of `ts`, if it has at least 10 bytes.
fn day_key_of(ts: &Vec<char>) -> (r: Option<Vec<char>>)
    requires
        text::utf8_len(ts@) >= 10 ==> chars_for_bytes(ts@, 10) is Some,
    ensures
        r matches Some(k) ==> day_key(ts@) == Some(k@),
        r is None ==> day_key(ts@) is None,
{
    let mut bytes: usize = 0;
    let mut i: usize = 0;
    assert(ts@.skip(0) =~= ts@);
    while i < ts.len() && bytes < 10
        invariant
            i <= ts.len(),
            bytes <= 10,
            text::utf8_len(ts@.take(i as int)) == bytes,
            text::utf8_len(ts@) == bytes + text::utf8_len(ts@.skip(i as int)),
            chars_for_bytes(ts@, 10) == (match chars_for_bytes(ts@.skip(i as int), 10 - bytes) {
                Some(k) => Some((k + i) as nat),
                None => None,
            }),
        decreases ts.len() - i,
    {
        let w = text::width_of(ts[i]);
        proof {
            let rest = ts@.skip(i as int);
            assert(rest[0] == ts@[i as int]);
            assert(rest.drop_first() =~= ts@.skip(i + 1));
            assert(ts@.take(i + 1) =~= ts@.take(i as int).push(ts@[i as int]));
            text::lemma_utf8_len_push(ts@.take(i as int), ts@[i as int]);
        }
        if bytes + w > 10 {
            // no character boundary at byte 10
            proof {
                assert(chars_for_bytes(ts@.skip(i as int), 10 - bytes) is None);
            }
            return None;
        }
        bytes = bytes + w;
        i = i + 1;
    }
    if bytes < 10 {
        assert(ts@.skip(i as int).len() == 0);
        return None;
    }
    proof {
        assert(chars_for_bytes(ts@.skip(i as int), 0) == Some(0nat));
    }
    Some(text::slice_chars(ts, 0, i))
}

// ---------------------------------------------------------------------------
// Aggregates
// ---------------------------------------------------------------------------

/// Sum of the word counts of `es`.
pub open spec fn total_words<X>(es: Seq<Entry<X>>) -> nat
    decreases es.len(),
{
    if es.len() == 0 {
        0
    } else {
        total_words(es.drop_last()) + es.last().word_count as nat
    }
}

/// `ts` starts with `p`.
pub open spec fn starts_with(ts: Seq<char>, p: Seq<char>) -> bool {
    p.len() <= ts.len() && ts.take(p.len() as int) == p
}

/// Sum of the word counts of the entries whose timestamp starts with `day`.
pub open spec fn day_words<X>(es: Seq<Entry<X>>, day: Seq<char>) -> nat
    decreases es.len(),
{
    if es.len() == 0 {
        0
    } else {
        day_words(es.drop_last(), day) + if starts_with(es.last().timestamp@, day) {
            es.last().word_count as nat
        } else {
            0nat
        }
    }
}

/// Number of entries whose timestamp starts with `day`.
pub open spec fn day_entries<X>(es: Seq<Entry<X>>, day: Seq<char>) -> nat
    decreases es.len(),
{
    if es.len() == 0 {
        0
    } else {
        day_entries(es.drop_last(), day) + if starts_with(es.last().timestamp@, day) {
            1nat
        } else {
            0nat
        }
    }
}

/// A day never has more words or transcriptions than the whole history.
pub proof fn lemma_day_within_total<X>(es: Seq<Entry<X>>, day: Seq<char>)
    ensures
        day_words(es, day) <= total_words(es),
        day_entries(es, day) <= es.len(),
    decreases es.len(),
{
    if es.len() > 0 {
        lemma_day_within_total(es.drop_last(), day);
    }
}

/// Per day key: (words, entries) over the entries that have that key.
pub open spec fn day_stats<X>(es: Seq<Entry<X>>) -> Map<Seq<char>, (nat, nat)>
    decreases es.len(),
{
    if es.len() == 0 {
        Map::empty()
    } else {
        let m = day_stats(es.drop_last());
        let e = es.last();
        match day_key(e.timestamp@) {
            Some(k) => {
                let old = if m.dom().contains(k) {
                    m[k]
                } else {
                    (0nat, 0nat)
                };
                m.insert(k, (old.0 + e.word_count as nat, old.1 + 1))
            },
            None => m,
        }
    }
}

proof fn lemma_total_words_push<X>(es: Seq<Entry<X>>, n: int)
    requires
        0 <= n < es.len(),
    ensures
        total_words(es.take(n + 1)) == total_words(es.take(n)) + es[n].word_count,
        day_words(es.take(n + 1), es[n].timestamp@) >= day_words(es.take(n), es[n].timestamp@),
{
    assert(es.take(n + 1).drop_last() =~= es.take(n));
}

proof fn lemma_total_words_prefix<X>(es: Seq<Entry<X>>, n: int)
    requires
        0 <= n <= es.len(),
    ensures
        total_words(es.take(n)) <= total_words(es),
    decreases es.len() - n,
{
    if n < es.len() {
        lemma_total_words_prefix(es, n + 1);
        lemma_total_words_push(es, n);
    } else {
        assert(es.take(n) =~= es);
    }
}

proof fn lemma_day_words_bounded<X>(es: Seq<Entry<X>>, day: Seq<char>)
    ensures
        day_words(es, day) <= total_words(es),
        day_entries(es, day) <= es.len(),
    decreases es.len(),
{
    if es.len() > 0 {
        lemma_day_words_bounded(es.drop_last(), day);
    }
}

proof fn lemma_day_stats_bounded<X>(es: Seq<Entry<X>>, k: Seq<char>)
    ensures
        day_stats(es).dom().contains(k) ==> day_stats(es)[k].0 <= total_words(es)
            && day_stats(es)[k].1 <= es.len(),
    decreases es.len(),
{
    if es.len() > 0 {
        lemma_day_stats_bounded(es.drop_last(), k);
    }
}

// ---------------------------------------------------------------------------
// The sorted table of days
// ---------------------------------------------------------------------------

/// The view of the day table.
pub open spec fn table_view(v: Seq<(Vec<char>, usize, usize)>) -> Seq<(Seq<char>, nat, nat)> {
    v.map_values(|t: (Vec<char>, usize, usize)| (t.0@, t.1 as nat, t.2 as nat))
}

/// `t` holds the keys of `m` in increasing order, each with its statistics.
pub open spec fn table_of(t: Seq<(Seq<char>, nat, nat)>, m: Map<Seq<char>, (nat, nat)>) -> bool {
    &&& forall|i: int, j: int| 0 <= i < j < t.len() ==> order::chars_lt(t[i].0, t[j].0)
    &&& forall|i: int|
        0 <= i < t.len() ==> m.dom().contains(#[trigger] t[i].0) && m[t[i].0] == (t[i].1, t[i].2)
    &&& forall|k: Seq<char>| m.dom().contains(k) ==> exists|i: int| 0 <= i < t.len() && #[trigger] t[i].0 == k
}

/// Adds one entry with day key `key` and `words` words to the table.
fn add_to_table(
    table: &mut Vec<(Vec<char>, usize, usize)>,
    key: Vec<char>,
    words: usize,
    Ghost(m): Ghost<Map<Seq<char>, (nat, nat)>>,
    Ghost(bound): Ghost<nat>,
)
    requires
        table_of(table_view(old(table)@), m),
        bound <= usize::MAX,
        m.dom().contains(key@) ==> m[key@].0 + words <= bound && m[key@].1 + 1 <= bound,
        words <= bound,
    ensures
        table_of(
            table_view(final(table)@),
            m.insert(
                key@,
                (
                    (if m.dom().contains(key@) {
                        m[key@].0
                    } else {
                        0nat
                    }) + words as nat,
                    (if m.dom().contains(key@) {
                        m[key@].1
                    } else {
                        0nat
                    }) + 1,
                ),
            ),
        ),
{
    let ghost t0 = table_view(table@);
    let mut j: usize = 0;
    loop
        invariant
            j <= table.len(),
            t0 == table_view(table@),
            forall|i: int| 0 <= i < j ==> order::chars_lt(#[trigger] t0[i].0, key@),
        ensures
            j <= table.len(),
            t0 == table_view(table@),
            forall|i: int| 0 <= i < j ==> order::chars_lt(#[trigger] t0[i].0, key@),
            j < table.len() ==> !order::chars_lt(t0[j as int].0, key@),
        decreases table.len() - j,
    {
        if j == table.len() {
            break;
        }
        assert(t0[j as int] == (table@[j as int].0@, table@[j as int].1 as nat, table@[j as int].2 as nat));
        if !order::chars_less(&table[j].0, &key) {
            break;
        }
        j = j + 1;
    }
    let ghost m2 = m.insert(
        key@,
        (
            (if m.dom().contains(key@) {
                m[key@].0
            } else {
                0nat
            }) + words as nat,
            (if m.dom().contains(key@) {
                m[key@].1
            } else {
                0nat
            }) + 1,
        ),
    );
    let same = j < table.len() && order::chars_equal(&table[j].0, &key);
    if same {
        assert(t0[j as int] == (table@[j as int].0@, table@[j as int].1 as nat, table@[j as int].2 as nat));
        assert(m.dom().contains(key@));
        let w = table[j].1 + words;
        let c = table[j].2 + 1;
        let k2 = text::slice_chars(&table[j].0, 0, table[j].0.len());
        assert(k2@ =~= key@);
        let ghost before = table@;
        table[j] = (k2, w, c);
        proof {
            let t1 = table_view(table@);
            assert(table@ == before.update(j as int, (k2, w, c)));
            assert forall|i: int| 0 <= i < t1.len() implies t1[i] == t0.update(
                j as int,
                (key@, w as nat, c as nat),
            )[i] by {
                if i != j {
                    assert(t1[i] == (before[i].0@, before[i].1 as nat, before[i].2 as nat));
                }
            }
            assert(t1 =~= t0.update(j as int, (key@, w as nat, c as nat)));
            assert forall|k: Seq<char>| m2.dom().contains(k) implies exists|i: int|
                0 <= i < t1.len() && #[trigger] t1[i].0 == k by {
                if k == key@ {
                    assert(t1[j as int].0 == k);
                } else {
                    let i = choose|i: int| 0 <= i < t0.len() && #[trigger] t0[i].0 == k;
                    assert(t1[i].0 == k);
                }
            }
            assert forall|i: int| 0 <= i < t1.len() implies m2.dom().contains(#[trigger] t1[i].0)
                && m2[t1[i].0] == (t1[i].1, t1[i].2) by {
                if i != j {
                    assert(t1[i] == t0[i]);
                    if t0[i].0 == key@ {
                        if i < j {
                            order::lemma_lt_irreflexive(key@);
                        } else {
                            order::lemma_lt_asymmetric(t0[j as int].0, t0[i].0);
                            order::lemma_lt_irreflexive(key@);
                        }
                    }
                }
            }
            assert forall|a: int, b: int| 0 <= a < b < t1.len() implies order::chars_lt(
                t1[a].0,
                t1[b].0,
            ) by {
                assert(t1[a].0 == t0[a].0);
                assert(t1[b].0 == t0[b].0);
            }
        }
    } else {
        proof {
            if j < table.len() {
                order::lemma_lt_total(t0[j as int].0, key@);
            }
            if m.dom().contains(key@) {
                let i = choose|i: int| 0 <= i < t0.len() && #[trigger] t0[i].0 == key@;
                if i < j {
                    order::lemma_lt_irreflexive(key@);
                } else if i > j {
                    order::lemma_lt_transitive(key@, t0[j as int].0, t0[i].0);
                    order::lemma_lt_irreflexive(key@);
                }
                assert(false);
            }
        }
        let ghost kv = key@;
        table.insert(j, (key, words, 1));
        proof {
            let t1 = table_view(table@);
            assert(t1 =~= t0.insert(j as int, (kv, words as nat, 1nat)));
            assert forall|k: Seq<char>| m2.dom().contains(k) implies exists|i: int|
                0 <= i < t1.len() && #[trigger] t1[i].0 == k by {
                if k == kv {
                    assert(t1[j as int].0 == k);
                } else {
                    let i = choose|i: int| 0 <= i < t0.len() && #[trigger] t0[i].0 == k;
                    if i < j {
                        assert(t1[i].0 == k);
                    } else {
                        assert(t1[i + 1].0 == k);
                    }
                }
            }
            assert forall|i: int| 0 <= i < t1.len() implies m2.dom().contains(#[trigger] t1[i].0)
                && m2[t1[i].0] == (t1[i].1, t1[i].2) by {
                if i < j {
                    assert(t1[i] == t0[i]);
                    order::lemma_lt_irreflexive(kv);
                } else if i > j {
                    assert(t1[i] == t0[i - 1]);
                    if t0[i - 1].0 == kv {
                        assert(false);
                    }
                }
            }
            assert forall|a: int, b: int| 0 <= a < b < t1.len() implies order::chars_lt(
                t1[a].0,
                t1[b].0,
            ) by {
                if b == j {
                    assert(t1[a] == t0[a]);
                } else if a == j {
                    assert(t1[b] == t0[b - 1]);
                    if b - 1 > j {
                        order::lemma_lt_transitive(kv, t0[j as int].0, t0[b - 1].0);
                    }
                } else if b < j {
                    assert(t1[a] == t0[a] && t1[b] == t0[b]);
                } else if a > j {
                    assert(t1[a] == t0[a - 1] && t1[b] == t0[b - 1]);
                } else {
                    assert(t1[a] == t0[a] && t1[b] == t0[b - 1]);
                }
            }
        }
    }
}


// ---------------------------------------------------------------------------
// Streak
// ---------------------------------------------------------------------------

/// The date `i` days before `start`.
pub open spec fn back(start: dates::DateTuple, i: nat) -> dates::DateTuple
    decreases i,
{
    if i == 0 {
        start
    } else {
        dates::prev_day_spec(back(start, (i - 1) as nat))
    }
}

/// The day the streak is counted back from: today when it is active, else
/// yesterday when that is active, else none.
pub open spec fn streak_start(days: Set<Seq<char>>, today: Seq<char>) -> Option<dates::DateTuple> {
    if days.contains(today) {
        Some(dates::parse_date_spec(today))
    } else if days.contains(dates::yesterday_spec(today)) {
        Some(dates::parse_date_spec(dates::yesterday_spec(today)))
    } else {
        None
    }
}

/// `r` is the streak of `days` as of `today`: zero unless today or
/// yesterday is active; otherwise the number of consecutive active days
/// counted backwards from today, or from yesterday when today is not active.
pub open spec fn is_streak(days: Set<Seq<char>>, today: Seq<char>, r: nat) -> bool {
    match streak_start(days, today) {
        None => r == 0,
        Some(start) => {
            &&& forall|i: nat| i < r ==> days.contains(dates::format_date_spec(#[trigger] back(start, i)))
            &&& !days.contains(dates::format_date_spec(back(start, r)))
        },
    }
}

/// The statistics of the day `key` in the table, if it is there.
fn table_get(table: &Vec<(Vec<char>, usize, usize)>, key: &Vec<char>, Ghost(m): Ghost<Map<Seq<char>, (nat, nat)>>) -> (r: Option<(usize, usize)>)
    requires
        table_of(table_view(table@), m),
    ensures
        r matches Some(v) ==> m.dom().contains(key@) && m[key@] == (v.0 as nat, v.1 as nat),
        r is None ==> !m.dom().contains(key@),
{
    let ghost t = table_view(table@);
    let mut i: usize = 0;
    while i < table.len()
        invariant
            i <= table.len(),
            t == table_view(table@),
            table_of(t, m),
            forall|j: int| 0 <= j < i ==> t[j].0 != key@,
        decreases table.len() - i,
    {
        assert(t[i as int] == (table@[i as int].0@, table@[i as int].1 as nat, table@[i as int].2 as nat));
        if order::chars_equal(&table[i].0, key) {
            assert(m.dom().contains(t[i as int].0));
            return Some((table[i].1, table[i].2));
        }
        i = i + 1;
    }
    proof {
        if m.dom().contains(key@) {
            let j = choose|j: int| 0 <= j < t.len() && #[trigger] t[j].0 == key@;
            assert(t[j].0 != key@);
        }
    }
    None
}

/// Whether the date text `key` is a day of the table.
fn table_contains(table: &Vec<(Vec<char>, usize, usize)>, key: &Vec<char>, Ghost(m): Ghost<Map<Seq<char>, (nat, nat)>>) -> (r: bool)
    requires
        table_of(table_view(table@), m),
    ensures
        r == m.dom().contains(key@),
{
    let ghost t = table_view(table@);
    let mut i: usize = 0;
    while i < table.len()
        invariant
            i <= table.len(),
            t == table_view(table@),
            table_of(t, m),
            forall|j: int| 0 <= j < i ==> t[j].0 != key@,
        decreases table.len() - i,
    {
        assert(t[i as int] == (table@[i as int].0@, table@[i as int].1 as nat, table@[i as int].2 as nat));
        if order::chars_equal(&table[i].0, key) {
            assert(m.dom().contains(t[i as int].0));
            return true;
        }
        i = i + 1;
    }
    proof {
        if m.dom().contains(key@) {
            let j = choose|j: int| 0 <= j < t.len() && #[trigger] t[j].0 == key@;
            assert(t[j].0 != key@);
        }
    }
    false
}

/// A measure that falls with every step back from a date whose text has
/// ten characters.
spec fn streak_measure(d: dates::DateTuple) -> int {
    if -999 <= d.0 <= 9999 && d.1 <= 99 && d.2 <= 99 {
        dates::date_index(d) + 10_000_000
    } else {
        0
    }
}

/// Streak: consecutive days ending today (or yesterday) with activity.
fn compute_streak(table: &Vec<(Vec<char>, usize, usize)>, today: &str, Ghost(m): Ghost<Map<Seq<char>, (nat, nat)>>) -> (r: usize)
    requires
        table_of(table_view(table@), m),
        forall|k: Seq<char>| m.dom().contains(k) ==> text::utf8_len(k) == 10,
        dates::has_date_fields(today@),
        dates::can_step_back(dates::parse_date_spec(today@)),
    ensures
        is_streak(m.dom(), today@, r as nat),
{
    let ghost days = m.dom();
    let today_c = text::chars_of(today);
    let yesterday = dates::yesterday_date_str(today);
    let y_c = text::chars_of(yesterday.as_str());
    let today_active = table_contains(table, &today_c, Ghost(m));
    let start = if today_active {
        dates::parse_date(today)
    } else {
        if !table_contains(table, &y_c, Ghost(m)) {
            return 0;
        }
        proof {
            dates::lemma_format_date_shape(dates::prev_day_spec(dates::parse_date_spec(today@)));
        }
        dates::parse_date(yesterday.as_str())
    };
    let mut current = start;
    let mut streak: usize = 0;
    loop
        invariant
            table_of(table_view(table@), m),
            days == m.dom(),
            forall|k: Seq<char>| m.dom().contains(k) ==> text::utf8_len(k) == 10,
            current == back(start, streak as nat),
            forall|i: nat| i < streak ==> days.contains(dates::format_date_spec(#[trigger] back(start, i))),
            streak + streak_measure(current) <= 110_000_000,
        ensures
            current == back(start, streak as nat),
            forall|i: nat| i < streak ==> days.contains(dates::format_date_spec(#[trigger] back(start, i))),
            !days.contains(dates::format_date_spec(back(start, streak as nat))),
        decreases streak_measure(current),
    {
        let key_s = dates::format_date(current);
        let key = text::chars_of(key_s.as_str());
        if !table_contains(table, &key, Ghost(m)) {
            break;
        }
        proof {
            dates::lemma_format_date_shape(current);
            dates::lemma_utf8_len_at_least(key@);
            assert(key@.len() == 10);
            dates::lemma_prev_day_index(current);
        }
        current = dates::prev_day(current);
        streak = streak + 1;
        proof {
            assert forall|i: nat| i < streak implies days.contains(
                dates::format_date_spec(#[trigger] back(start, i)),
            ) by {
                if i == streak - 1 {
                    assert(back(start, i) == back(start, (streak - 1) as nat));
                }
            }
        }
    }
    streak
}


// ---------------------------------------------------------------------------
// The dashboard
// ---------------------------------------------------------------------------

/// The view of the per-day statistics.
pub open spec fn daily_view(v: Seq<DayStat>) -> Seq<(Seq<char>, nat, nat)> {
    v.map_values(|d: DayStat| (d.date@, d.words as nat, d.entries as nat))
}

/// The dates of the `n` calendar days ending at `d`, newest first (the
/// list stops early at the first day whose predecessor has no `i32` year).
pub open spec fn window(d: dates::DateTuple, n: nat) -> Seq<dates::DateTuple>
    decreases n,
{
    if n == 0 {
        Seq::empty()
    } else if !dates::can_step_back(d) {
        seq![d]
    } else {
        seq![d] + window(dates::prev_day_spec(d), (n - 1) as nat)
    }
}

/// The dates of `ws` that are days of `m`, in the same order, each with its
/// statistics.
pub open spec fn active_days(ws: Seq<dates::DateTuple>, m: Map<Seq<char>, (nat, nat)>) -> Seq<(Seq<char>, nat, nat)>
    decreases ws.len(),
{
    if ws.len() == 0 {
        Seq::empty()
    } else {
        let k = dates::format_date_spec(ws[0]);
        let rest = active_days(ws.drop_first(), m);
        if m.dom().contains(k) {
            seq![(k, m[k].0, m[k].1)] + rest
        } else {
            rest
        }
    }
}

/// The window holds at most `n` days, the `i`-th being `i` days back.
pub proof fn lemma_window(d: dates::DateTuple, n: nat)
    ensures
        window(d, n).len() <= n,
        forall|i: int| 0 <= i < window(d, n).len() ==> #[trigger] window(d, n)[i] == back(d, i as nat),
    decreases n,
{
    if n > 0 && dates::can_step_back(d) {
        let p = dates::prev_day_spec(d);
        lemma_window(p, (n - 1) as nat);
        assert forall|i: int| 0 <= i < window(d, n).len() implies #[trigger] window(d, n)[i] == back(
            d,
            i as nat,
        ) by {
            if i > 0 {
                assert(window(d, n)[i] == window(p, (n - 1) as nat)[i - 1]);
                lemma_back_shift(d, (i - 1) as nat);
            }
        }
    }
}

/// Stepping back `i + 1` days is stepping back one day, then `i` days.
proof fn lemma_back_shift(d: dates::DateTuple, i: nat)
    ensures
        back(d, i + 1) == back(dates::prev_day_spec(d), i),
    decreases i,
{
    if i > 0 {
        lemma_back_shift(d, (i - 1) as nat);
        assert(back(d, i + 1) == dates::prev_day_spec(back(d, i)));
        assert(back(dates::prev_day_spec(d), i) == dates::prev_day_spec(
            back(dates::prev_day_spec(d), (i - 1) as nat),
        ));
    } else {
        assert(back(d, 1) == dates::prev_day_spec(back(d, 0)));
    }
}

/// Every listed day is one of the dates `ws`, and active.
pub proof fn lemma_active_days_listed(ws: Seq<dates::DateTuple>, m: Map<Seq<char>, (nat, nat)>)
    ensures
        active_days(ws, m).len() <= ws.len(),
        forall|q: int|
            0 <= q < active_days(ws, m).len() ==> m.dom().contains(#[trigger] active_days(ws, m)[q].0)
                && exists|i: int| 0 <= i < ws.len() && active_days(ws, m)[q].0 == dates::format_date_spec(ws[i]),
    decreases ws.len(),
{
    if ws.len() > 0 {
        let rest = ws.drop_first();
        lemma_active_days_listed(rest, m);
        let a = active_days(ws, m);
        let k = dates::format_date_spec(ws[0]);
        assert forall|q: int| 0 <= q < a.len() implies m.dom().contains(#[trigger] a[q].0) && exists|i: int|
            0 <= i < ws.len() && a[q].0 == dates::format_date_spec(ws[i]) by {
            if m.dom().contains(k) && q == 0 {
                assert(a[0].0 == dates::format_date_spec(ws[0]));
            } else {
                let q2 = if m.dom().contains(k) { q - 1 } else { q };
                assert(a[q] == active_days(rest, m)[q2]);
                let i = choose|i: int| 0 <= i < rest.len() && active_days(rest, m)[q2].0 == dates::format_date_spec(rest[i]);
                assert(rest[i] == ws[i + 1]);
            }
        }
    }
}

/// Every day the dashboard lists is active and lies within the 30 calendar
/// days ending `today`: it is `i` days back from today for some `i < 30`.
pub proof fn lemma_daily_within_last_30_days(m: Map<Seq<char>, (nat, nat)>, today: Seq<char>)
    ensures
        last_30_days(m, today).len() <= 30,
        forall|q: int|
            0 <= q < last_30_days(m, today).len() ==> m.dom().contains(#[trigger] last_30_days(m, today)[q].0)
                && exists|i: nat| i < 30 && last_30_days(m, today)[q].0 == dates::format_date_spec(
                    back(dates::parse_date_spec(today), i),
                ),
{
    let d = dates::parse_date_spec(today);
    let ws = window(d, 30);
    lemma_window(d, 30);
    lemma_active_days_listed(ws, m);
    assert forall|q: int| 0 <= q < last_30_days(m, today).len() implies m.dom().contains(
        #[trigger] last_30_days(m, today)[q].0,
    ) && exists|i: nat| i < 30 && last_30_days(m, today)[q].0 == dates::format_date_spec(back(d, i)) by {
        let i = choose|i: int| 0 <= i < ws.len() && active_days(ws, m)[q].0 == dates::format_date_spec(ws[i]);
        assert(ws[i] == back(d, i as nat));
        assert(last_30_days(m, today)[q].0 == dates::format_date_spec(back(d, i as nat)));
    }
}

/// The per-day statistics of the last 30 calendar days ending `today`,
/// newest first, leaving out the days without transcriptions.
pub open spec fn last_30_days(m: Map<Seq<char>, (nat, nat)>, today: Seq<char>) -> Seq<(Seq<char>, nat, nat)> {
    active_days(window(dates::parse_date_spec(today), 30), m)
}

/// The newest `min(200, len)` entries, newest first.
pub open spec fn recent<X>(es: Seq<Entry<X>>) -> Seq<Entry<X>> {
    es.reverse().take(if es.len() < 200 {
        es.len() as int
    } else {
        200
    })
}

/// Whether the first 10 bytes of `ts` end on a character boundary, when it
/// has 10 bytes or more.
fn cut_at_ten(ts: &Vec<char>) -> (r: bool)
    ensures
        r == (text::utf8_len(ts@) >= 10 ==> chars_for_bytes(ts@, 10) is Some),
{
    let mut bytes: usize = 0;
    let mut i: usize = 0;
    assert(ts@.skip(0) =~= ts@);
    while i < ts.len() && bytes < 10
        invariant
            i <= ts.len(),
            bytes <= 10,
            text::utf8_len(ts@.take(i as int)) == bytes,
            text::utf8_len(ts@) == bytes + text::utf8_len(ts@.skip(i as int)),
            chars_for_bytes(ts@, 10) == (match chars_for_bytes(ts@.skip(i as int), 10 - bytes) {
                Some(k) => Some((k + i) as nat),
                None => None,
            }),
        decreases ts.len() - i,
    {
        let w = text::width_of(ts[i]);
        proof {
            let rest = ts@.skip(i as int);
            assert(rest[0] == ts@[i as int]);
            assert(rest.drop_first() =~= ts@.skip(i + 1));
            assert(ts@.take(i + 1) =~= ts@.take(i as int).push(ts@[i as int]));
            text::lemma_utf8_len_push(ts@.take(i as int), ts@[i as int]);
        }
        if bytes + w > 10 {
            proof {
                assert(chars_for_bytes(ts@.skip(i as int), 10 - bytes) is None);
            }
            return false;
        }
        bytes = bytes + w;
        i = i + 1;
    }
    if bytes < 10 {
        assert(ts@.skip(i as int).len() == 0);
        return true;
    }
    proof {
        assert(chars_for_bytes(ts@.skip(i as int), 0) == Some(0nat));
    }
    true
}

/// What the analytics need of their input: word counts that add up within
/// `usize`, timestamps that can be cut at byte 10, and a `today` that reads
/// as a date with a day before it.
pub open spec fn dashboard_input_ok<X>(es: Seq<Entry<X>>, today: Seq<char>) -> bool {
    &&& total_words(es) <= usize::MAX
    &&& day_keys_cut(es)
    &&& dates::has_date_fields(today)
    &&& dates::can_step_back(dates::parse_date_spec(today))
}

/// Whether `get_dashboard_data` can run on `entries` as of `today`.
pub fn dashboard_input_checked<X>(entries: &Vec<Entry<X>>, today: &str) -> (r: bool)
    ensures
        r == dashboard_input_ok(entries@, today@),
{
    let ghost es = entries@;
    let mut total: usize = 0;
    let mut i: usize = 0;
    while i < entries.len()
        invariant
            es == entries@,
            i <= es.len(),
            total == total_words(es.take(i as int)),
            forall|j: int|
                0 <= j < i && text::utf8_len(#[trigger] es[j].timestamp@) >= 10 ==> chars_for_bytes(
                    es[j].timestamp@,
                    10,
                ) is Some,
        decreases es.len() - i,
    {
        assert(es.take(i + 1).drop_last() =~= es.take(i as int));
        let wc = entries[i].word_count;
        match total.checked_add(wc) {
            Some(t) => {
                total = t;
            },
            None => {
                proof {
                    lemma_total_words_prefix(es, i + 1);
                }
                return false;
            },
        }
        let ts = text::chars_of(entries[i].timestamp.as_str());
        if !cut_at_ten(&ts) {
            assert(!day_keys_cut(es));
            return false;
        }
        i = i + 1;
    }
    assert(es.take(es.len() as int) =~= es);
    if !dates::date_fields_present(today) {
        return false;
    }
    let d = dates::parse_date(today);
    !(d.2 <= 1 && d.1 <= 1 && d.0 == i32::MIN)
}

/// Compute analytics from the full history, as of the date `today`
/// (`YYYY-MM-DD`), and the newest 200 entries, newest first.
pub fn get_dashboard_data<X>(entries: Vec<Entry<X>>, today: &str) -> (r: DashboardData<X>)
    requires
        dashboard_input_ok(entries@, today@),
    ensures
        r.analytics.total_entries == entries@.len(),
        r.analytics.total_words == total_words(entries@),
        r.analytics.today_words == day_words(entries@, today@),
        r.analytics.today_entries == day_entries(entries@, today@),
        daily_view(r.analytics.daily@) == last_30_days(day_stats(entries@), today@),
        is_streak(day_stats(entries@).dom(), today@, r.analytics.streak_days as nat),
        r.entries@ == recent(entries@),
{
    let ghost es = entries@;
    let total_entries = entries.len();
    let today_c = text::chars_of(today);
    let mut total_w: usize = 0;
    let mut today_w: usize = 0;
    let mut today_n: usize = 0;
    let mut table: Vec<(Vec<char>, usize, usize)> = Vec::new();
    let mut i: usize = 0;
    while i < entries.len()
        invariant
            es == entries@,
            i <= entries.len(),
            dashboard_input_ok(es, today@),
            today_c@ == today@,
            total_w == total_words(es.take(i as int)),
            today_w == day_words(es.take(i as int), today@),
            today_n == day_entries(es.take(i as int), today@),
            table_of(table_view(table@), day_stats(es.take(i as int))),
            forall|k: Seq<char>| day_stats(es.take(i as int)).dom().contains(k) ==> text::utf8_len(k) == 10,
        decreases entries.len() - i,
    {
        let e = &entries[i];
        let ghost p = es.take(i + 1);
        proof {
            assert(p.drop_last() =~= es.take(i as int));
            assert(p.last() == es[i as int]);
            lemma_total_words_push(es, i as int);
            lemma_total_words_prefix(es, i + 1);
            lemma_day_words_bounded(p, today@);
        }
        total_w = total_w + e.word_count;
        let ts = text::chars_of(e.timestamp.as_str());
        let mut hit = ts.len() >= today_c.len();
        if hit {
            let head = text::slice_chars(&ts, 0, today_c.len());
            hit = order::chars_equal(&head, &today_c);
        }
        if hit {
            today_w = today_w + e.word_count;
            today_n = today_n + 1;
        }
        proof {
            assert(dashboard_input_ok(es, today@));
            assert(text::utf8_len(es[i as int].timestamp@) >= 10 ==> chars_for_bytes(es[i as int].timestamp@, 10) is Some);
        }
        let key = day_key_of(&ts);
        match key {
            Some(k) => {
                proof {
                    lemma_day_stats_bounded(p, k@);
                    lemma_chars_for_bytes(ts@, 10);
                }
                add_to_table(&mut table, k, e.word_count, Ghost(day_stats(es.take(i as int))), Ghost(usize::MAX as nat));
            },
            None => {},
        }
        i = i + 1;
    }
    assert(es.take(entries.len() as int) =~= es);
    let ghost m = day_stats(es);
    let streak = compute_streak(&table, today, Ghost(m));
    // the last 30 calendar days, newest first
    let start = dates::parse_date(today);
    let mut current = start;
    let mut rem: usize = 30;
    let mut daily: Vec<DayStat> = Vec::new();
    while rem > 0
        invariant
            rem <= 30,
            table_of(table_view(table@), m),
            daily_view(daily@) + active_days(window(current, rem as nat), m) == active_days(
                window(start, 30),
                m,
            ),
        decreases rem,
    {
        let ghost ws = window(current, rem as nat);
        let ghost before = daily_view(daily@);
        assert(ws[0] == current);
        let key_s = dates::format_date(current);
        let key = text::chars_of(key_s.as_str());
        match table_get(&table, &key, Ghost(m)) {
            Some(v) => {
                daily.push(DayStat { date: key_s, words: v.0, entries: v.1 });
                assert(daily_view(daily@) =~= before + seq![(key@, v.0 as nat, v.1 as nat)]);
            },
            None => {
                assert(daily_view(daily@) =~= before);
            },
        }
        if !(current.2 <= 1 && current.1 <= 1 && current.0 == i32::MIN) {
            assert(ws.drop_first() =~= window(dates::prev_day_spec(current), (rem - 1) as nat));
            current = dates::prev_day(current);
            rem = rem - 1;
        } else {
            assert(ws.drop_first() =~= Seq::<dates::DateTuple>::empty());
            rem = 0;
        }
    }
    // newest first, at most 200 entries
    let mut rest = entries;
    let mut newest: Vec<Entry<X>> = Vec::new();
    while newest.len() < 200 && rest.len() > 0
        invariant
            newest.len() <= 200,
            rest@.len() + newest@.len() == es.len(),
            rest@ == es.take(rest@.len() as int),
            newest@ == es.reverse().take(newest@.len() as int),
        decreases rest.len(),
    {
        let ghost before_rest = rest@;
        let ghost before_new = newest@;
        let e = rest.pop().unwrap();
        newest.push(e);
        proof {
            assert(rest@ =~= es.take(rest@.len() as int));
            assert(e == es[rest@.len() as int]);
            assert(newest@ =~= es.reverse().take(newest@.len() as int));
        }
    }
    let analytics = Analytics {
        total_words: total_w,
        total_entries,
        streak_days: streak,
        today_words: today_w,
        today_entries: today_n,
        daily,
    };
    DashboardData { analytics, entries: newest }
}

} // verus!

//! Snippet library: say a trigger phrase, get a full phrase. A transcript
//! that is exactly a trigger (trimmed, case-insensitive) becomes its
//! replacement; otherwise the first occurrence of each trigger is replaced
//! inline, longest triggers first.

use vstd::prelude::*;
use crate::text;
use crate::replace;
use crate::replace::Pair;

verus! {

/// One snippet as written in the snippet file.
#[derive(Debug)]
pub struct SnippetEntry {
    pub trigger: String,
    pub replacement: String,
}

/// The contents of the snippet file.
#[derive(Debug)]
pub struct SnippetFile {
    pub snippet: Vec<SnippetEntry>,
}

impl SnippetFile {
    /// The file written when none exists yet.
    pub fn template() -> (r: SnippetFile)
        ensures
            r.snippet@.len() == 2,
            r.snippet@[0].trigger@ == "my email"@,
            r.snippet@[0].replacement@ == "you@example.com"@,
            r.snippet@[1].trigger@ == "my address"@,
            r.snippet@[1].replacement@ == "123 Main Street, Anytown, USA"@,
    {
        let mut snippet: Vec<SnippetEntry> = Vec::new();
        snippet.push(
            SnippetEntry {
                trigger: String::from_str("my email"),
                replacement: String::from_str("you@example.com"),
            },
        );
        snippet.push(
            SnippetEntry {
                trigger: String::from_str("my address"),
                replacement: String::from_str("123 Main Street, Anytown, USA"),
            },
        );
        SnippetFile { snippet }
    }
}

/// The lookup table that the file's entries make: each lowercased trigger
/// maps to its replacement; a later entry with the same lowercased trigger
/// overrides an earlier one.
pub open spec fn snippet_map(es: Seq<SnippetEntry>) -> Map<Seq<char>, Seq<char>>
    decreases es.len(),
{
    if es.len() == 0 {
        Map::empty()
    } else {
        snippet_map(es.drop_last()).insert(text::lower_of(es.last().trigger@), es.last().replacement@)
    }
}

/// The replacement paired with `k` in `s` (the first such pair).
pub open spec fn lookup(s: Seq<Pair>, k: Seq<char>) -> Option<Seq<char>>
    decreases s.len(),
{
    if s.len() == 0 {
        None
    } else if s[0].0 == k {
        Some(s[0].1)
    } else {
        lookup(s.drop_first(), k)
    }
}

/// No two pairs of `s` have the same trigger.
pub open spec fn distinct_keys(s: Seq<Pair>) -> bool {
    forall|i: int, j: int| 0 <= i < j < s.len() ==> s[i].0 != s[j].0
}

/// `lookup` agrees with the map `m` on every key.
pub open spec fn represents(s: Seq<Pair>, m: Map<Seq<char>, Seq<char>>) -> bool {
    forall|k: Seq<char>|
        #[trigger] lookup(s, k) == (if m.dom().contains(k) {
            Some(m[k])
        } else {
            None
        })
}

/// One inline replacement: every case-insensitive occurrence of the
/// trigger is replaced, left to right without overlaps, and the text around
/// it is kept. When lowercasing keeps each character's UTF-8 width, the
/// occurrences are found in the lowercased text and cut out of `t` at the
/// same places; otherwise an occurrence is a run of whole characters whose
/// lowercase forms spell the trigger. An empty trigger inserts the
/// replacement once at the start.
pub open spec fn expand_step(t: Seq<char>, e: Pair) -> Seq<char> {
    let lower = text::lower_of(t);
    if e.0.len() == 0 {
        e.1 + t
    } else if text::same_widths(t, lower) {
        replace::replace_from(t, lower, e.0, e.1, 0)
    } else {
        replace::replace_chars(t, e.0, e.1, 0)
    }
}

/// The inline replacements `es` applied to `t` one after the other.
pub open spec fn expanded_inline(t: Seq<char>, es: Seq<Pair>) -> Seq<char>
    decreases es.len(),
{
    if es.len() == 0 {
        t
    } else {
        expand_step(expanded_inline(t, es.drop_last()), es.last())
    }
}

/// What `expand` makes of `t` with the pairs `s`.
pub open spec fn expanded(t: Seq<char>, s: Seq<Pair>) -> Seq<char> {
    match lookup(s, text::lower_of(text::trim(t))) {
        Some(v) => v,
        None => expanded_inline(t, replace::longest_first(s)),
    }
}

/// A library without snippets leaves every text unchanged.
pub proof fn lemma_empty_library_keeps_text(t: Seq<char>)
    ensures
        expanded(t, Seq::<Pair>::empty()) == t,
{
}

/// When the whole text, trimmed and lowercased, is a trigger of the table
/// `m` that `s` represents (as a loaded library's pairs represent its file's
/// table), the text becomes that trigger's replacement.
pub proof fn lemma_whole_text_trigger(s: Seq<Pair>, m: Map<Seq<char>, Seq<char>>, t: Seq<char>)
    requires
        represents(s, m),
        m.dom().contains(text::lower_of(text::trim(t))),
    ensures
        expanded(t, s) == m[text::lower_of(text::trim(t))],
{
    assert(lookup(s, text::lower_of(text::trim(t))) == Some(m[text::lower_of(text::trim(t))]));
}

proof fn lemma_lookup_index(s: Seq<Pair>, i: int)
    requires
        0 <= i < s.len(),
        forall|j: int| 0 <= j < i ==> s[j].0 != s[i].0,
    ensures
        lookup(s, s[i].0) == Some(s[i].1),
    decreases i,
{
    if i > 0 {
        lemma_lookup_index(s.drop_first(), i - 1);
    }
}

proof fn lemma_lookup_absent(s: Seq<Pair>, k: Seq<char>)
    requires
        forall|j: int| 0 <= j < s.len() ==> s[j].0 != k,
    ensures
        lookup(s, k) is None,
    decreases s.len(),
{
    if s.len() > 0 {
        lemma_lookup_absent(s.drop_first(), k);
    }
}

proof fn lemma_lookup_update(s: Seq<Pair>, i: int, v: Seq<char>, k: Seq<char>)
    requires
        0 <= i < s.len(),
        distinct_keys(s),
    ensures
        lookup(s.update(i, (s[i].0, v)), k) == (if k == s[i].0 {
            Some(v)
        } else {
            lookup(s, k)
        }),
    decreases s.len(),
{
    let t = s.update(i, (s[i].0, v));
    if i == 0 {
        assert(t.drop_first() =~= s.drop_first());
    } else {
        assert(t.drop_first() =~= s.drop_first().update(i - 1, (s[i].0, v)));
        lemma_lookup_update(s.drop_first(), i - 1, v, k);
    }
}

proof fn lemma_lookup_push(s: Seq<Pair>, p: Pair, k: Seq<char>)
    requires
        forall|j: int| 0 <= j < s.len() ==> s[j].0 != p.0,
    ensures
        lookup(s.push(p), k) == (if k == p.0 {
            Some(p.1)
        } else {
            lookup(s, k)
        }),
    decreases s.len(),
{
    if s.len() == 0 {
        assert(s.push(p).drop_first() =~= Seq::<Pair>::empty());
    } else {
        assert(s.push(p).drop_first() =~= s.drop_first().push(p));
        lemma_lookup_push(s.drop_first(), p, k);
    }
}

/// In-memory snippet lookup (case-insensitive), with the file it came from.
pub struct SnippetLibrary {
    map: Vec<(String, String)>,
    path: String,
}

impl SnippetLibrary {
    /// The (lowercased trigger, replacement) pairs.
    pub closed spec fn pairs(&self) -> Seq<Pair> {
        self.map@.map_values(|p: (String, String)| (p.0@, p.1@))
    }

    /// The path of the snippet file.
    pub closed spec fn file_path(&self) -> Seq<char> {
        self.path@
    }

    fn table_of(file: &SnippetFile) -> (r: Vec<(String, String)>)
        ensures
            distinct_keys(r@.map_values(|p: (String, String)| (p.0@, p.1@))),
            represents(r@.map_values(|p: (String, String)| (p.0@, p.1@)), snippet_map(file.snippet@)),
    {
        let mut map: Vec<(String, String)> = Vec::new();
        let mut i: usize = 0;
        while i < file.snippet.len()
            invariant
                i <= file.snippet.len(),
                distinct_keys(map@.map_values(|p: (String, String)| (p.0@, p.1@))),
                represents(
                    map@.map_values(|p: (String, String)| (p.0@, p.1@)),
                    snippet_map(file.snippet@.take(i as int)),
                ),
            decreases file.snippet.len() - i,
        {
            let ghost view0 = map@.map_values(|p: (String, String)| (p.0@, p.1@));
            let e = &file.snippet[i];
            let key = text::str_to_lowercase(e.trigger.as_str());
            let val = e.replacement.clone();
            let ghost m1 = snippet_map(file.snippet@.take(i + 1));
            proof {
                assert(file.snippet@.take(i + 1).drop_last() =~= file.snippet@.take(i as int));
                assert(m1 == snippet_map(file.snippet@.take(i as int)).insert(key@, val@));
            }
            let mut j: usize = 0;
            let mut found = false;
            while j < map.len()
                invariant_except_break
                    !found,
                invariant
                    j <= map.len(),
                    map@.map_values(|p: (String, String)| (p.0@, p.1@)) == view0,
                    forall|q: int| 0 <= q < j ==> view0[q].0 != key@,
                ensures
                    map@.map_values(|p: (String, String)| (p.0@, p.1@)) == view0,
                    found ==> j < map.len() && view0[j as int].0 == key@,
                    !found ==> forall|q: int| 0 <= q < view0.len() ==> view0[q].0 != key@,
                decreases map.len() - j,
            {
                assert(view0[j as int] == (map@[j as int].0@, map@[j as int].1@));
                if map[j].0 == key {
                    found = true;
                    break;
                }
                j = j + 1;
            }
            if found {
                let k2 = map[j].0.clone();
                map[j] = (k2, val);
                proof {
                    let nv = map@.map_values(|p: (String, String)| (p.0@, p.1@));
                    assert(nv =~= view0.update(j as int, (view0[j as int].0, val@)));
                    assert forall|k: Seq<char>| #[trigger] lookup(nv, k) == (if m1.dom().contains(k) {
                        Some(m1[k])
                    } else {
                        None
                    }) by {
                        lemma_lookup_update(view0, j as int, val@, k);
                    }
                    assert forall|a: int, b: int| 0 <= a < b < nv.len() implies nv[a].0 != nv[b].0 by {
                        assert(nv[a].0 == view0[a].0);
                        assert(nv[b].0 == view0[b].0);
                    }
                }
            } else {
                map.push((key, val));
                proof {
                    let nv = map@.map_values(|p: (String, String)| (p.0@, p.1@));
                    assert(nv =~= view0.push((key@, val@)));
                    assert forall|k: Seq<char>| #[trigger] lookup(nv, k) == (if m1.dom().contains(k) {
                        Some(m1[k])
                    } else {
                        None
                    }) by {
                        lemma_lookup_push(view0, (key@, val@), k);
                    }
                }
            }
            i = i + 1;
        }
        assert(file.snippet@.take(file.snippet.len() as int) =~= file.snippet@);
        map
    }

    /// Builds the library from the parsed file at `path`; triggers are
    /// lowercased, and a later entry with the same lowercased trigger
    /// overrides an earlier one.
    pub fn load(file: &SnippetFile, path: &str) -> (r: SnippetLibrary)
        ensures
            distinct_keys(r.pairs()),
            represents(r.pairs(), snippet_map(file.snippet@)),
            r.file_path() == path@,
    {
        SnippetLibrary { map: Self::table_of(file), path: String::from_str(path) }
    }

    /// The path of the snippet file.
    pub fn path(&self) -> (r: &str)
        ensures
            r@ == self.file_path(),
    {
        self.path.as_str()
    }

    /// Expand any snippet triggers found in `text`.
    ///
    /// If the *entire* transcription (trimmed, case-insensitive) matches a
    /// trigger, the whole text is replaced.  Otherwise, individual trigger
    /// phrases are substituted inline.
    pub fn expand(&self, text: &str) -> (r: String)
        ensures
            r@ == expanded(text@, self.pairs()),
            lookup(self.pairs(), text::lower_of(text::trim(text@))) matches Some(v) ==> r@ == v,
    {
        let chars = text::chars_of(text);
        let trimmed_v = text::trim_chars(&chars);
        let trimmed = text::string_from_chars(&trimmed_v);
        let lower = text::str_to_lowercase(trimmed.as_str());
        let ghost s = self.pairs();
        let mut j: usize = 0;
        assert(s.skip(0) =~= s);
        while j < self.map.len()
            invariant
                j <= self.map.len(),
                s == self.pairs(),
                lower@ == text::lower_of(text::trim(text@)),
                lookup(s, lower@) == lookup(s.skip(j as int), lower@),
            decreases self.map.len() - j,
        {
            assert(s.skip(j as int)[0] == (self.map@[j as int].0@, self.map@[j as int].1@));
            assert(s.skip(j as int).drop_first() =~= s.skip(j + 1));
            if self.map[j].0 == lower {
                assert(lookup(s.skip(j as int), lower@) == Some(s.skip(j as int)[0].1));
                let r = self.map[j].1.clone();
                assert(r@ == s.skip(j as int)[0].1);
                assert(lower@ == text::lower_of(text::trim(text@)));
                assert(lookup(s, text::lower_of(text::trim(text@))) == Some(r@));
                return r;
            }
            j = j + 1;
        }
        assert(s.skip(j as int).len() == 0);
        let mut pairs: Vec<(Vec<char>, Vec<char>)> = Vec::new();
        let mut i: usize = 0;
        while i < self.map.len()
            invariant
                i <= self.map.len(),
                s == self.pairs(),
                replace::pairs_view(pairs@) == s.take(i as int),
            decreases self.map.len() - i,
        {
            let a = text::chars_of(self.map[i].0.as_str());
            let b = text::chars_of(self.map[i].1.as_str());
            let ghost before = pairs@;
            pairs.push((a, b));
            proof {
                let m = replace::pairs_view(pairs@);
                let d = s.take(i + 1);
                assert(replace::pairs_view(before).len() == before.len());
                assert(s.take(i as int).len() == i);
                assert(s.len() == self.map@.len());
                assert(m.len() == d.len());
                assert forall|q: int| 0 <= q < m.len() implies m[q] == d[q] by {
                    if q < i {
                        assert(m[q] == replace::pairs_view(before)[q]);
                    } else {
                        assert(m[q] == (a@, b@));
                        assert(d[q] == (self.map@[q].0@, self.map@[q].1@));
                    }
                }
                assert(m =~= d);
            }
            i = i + 1;
        }
        assert(s.take(self.map.len() as int) =~= s);
        let sorted = replace::sort_longest_first(&pairs);
        let ghost es = replace::pairs_view(sorted@);
        let mut result = chars;
        let mut k: usize = 0;
        while k < sorted.len()
            invariant
                k <= sorted.len(),
                es == replace::pairs_view(sorted@),
                result@ == expanded_inline(text@, es.take(k as int)),
            decreases sorted.len() - k,
        {
            let cur = text::string_from_chars(&result);
            let lower_s = text::str_to_lowercase(cur.as_str());
            let lower_c = text::chars_of(lower_s.as_str());
            assert(es[k as int] == (sorted@[k as int].0@, sorted@[k as int].1@));
            if sorted[k].0.len() == 0 {
                let mut r2 = text::slice_chars(&sorted[k].1, 0, sorted[k].1.len());
                text::push_all(&mut r2, &result);
                result = r2;
            } else if text::widths_match(&result, &lower_c) {
                result = replace::replace_all_ci(&result, &lower_c, &sorted[k].0, &sorted[k].1);
            } else {
                let lows = replace::lowercase_each(&result);
                result = replace::replace_all_chars(&result, &lows, &sorted[k].0, &sorted[k].1);
            }
            assert(es.take(k + 1).drop_last() =~= es.take(k as int));
            k = k + 1;
        }
        assert(es.take(sorted.len() as int) =~= es);
        text::string_from_chars(&result)
    }

    /// Replaces the table with the one of the freshly read file; the path stays.
    pub fn reload(&mut self, file: &SnippetFile)
        ensures
            distinct_keys(final(self).pairs()),
            represents(final(self).pairs(), snippet_map(file.snippet@)),
            final(self).file_path() == old(self).file_path(),
    {
        self.map = Self::table_of(file);
    }
}

} // verus!

//! Personal dictionary: corrections for names and terms that the speech
//! model consistently mishears (`wrong` → `correct`, matched
//! case-insensitively anywhere in the text).

use vstd::prelude::*;
use crate::text;
use crate::replace;
use crate::replace::Pair;

verus! {

/// One correction as written in the dictionary file.
#[derive(Debug)]
pub struct DictEntry {
    pub wrong: String,
    pub correct: String,
}

/// The contents of the dictionary file.
#[derive(Debug)]
pub struct DictFile {
    pub entry: Vec<DictEntry>,
}

impl DictFile {
    /// The file written when none exists yet.
    pub fn template() -> (r: DictFile)
        ensures
            r.entry@.len() == 1,
            r.entry@[0].wrong@ == "whisperfree"@,
            r.entry@[0].correct@ == "WisprFree"@,
    {
        let mut entry: Vec<DictEntry> = Vec::new();
        entry.push(
            DictEntry {
                wrong: String::from_str("whisperfree"),
                correct: String::from_str("WisprFree"),
            },
        );
        DictFile { entry }
    }
}

/// The (lowercased pattern, correction) pairs made from the file's entries,
/// in file order.
pub open spec fn dict_pairs(es: Seq<DictEntry>) -> Seq<Pair> {
    es.map_values(|e: DictEntry| (text::lower_of(e.wrong@), e.correct@))
}

/// One correction applied to `t`. Every case-insensitive occurrence of the
/// pattern is replaced, left to right without overlaps, and the text around
/// it is kept. When lowercasing keeps each character's UTF-8 width, the
/// occurrences are found in the lowercased text and cut out of `t` at the
/// same places; otherwise an occurrence is a run of whole characters whose
/// lowercase forms spell the pattern. A pair with an empty pattern is left
/// out.
pub open spec fn correct_step(t: Seq<char>, e: Pair) -> Seq<char> {
    let lower = text::lower_of(t);
    if e.0.len() == 0 {
        t
    } else if text::same_widths(t, lower) {
        replace::replace_from(t, lower, e.0, e.1, 0)
    } else {
        replace::replace_chars(t, e.0, e.1, 0)
    }
}

/// The corrections `es` applied to `t` one after the other.
pub open spec fn corrected(t: Seq<char>, es: Seq<Pair>) -> Seq<char>
    decreases es.len(),
{
    if es.len() == 0 {
        t
    } else {
        correct_step(corrected(t, es.drop_last()), es.last())
    }
}

/// A correction whose pattern does not occur in the text, compared
/// case-insensitively either way, leaves the text unchanged.
pub proof fn lemma_absent_pattern_keeps_text(t: Seq<char>, e: Pair)
    requires
        text::find_from(text::lower_of(t), e.0, 0) is None,
        forall|i: int| 0 <= i < t.len() ==> #[trigger] replace::match_from(t, e.0, i, 0) is None,
    ensures
        correct_step(t, e) == t,
{
    assert(t.subrange(0, t.len() as int) =~= t);
    if e.0.len() > 0 {
        replace::lemma_replace_chars_absent(t, e.0, e.1, 0);
    }
}

/// A dictionary without entries leaves every text unchanged.
pub proof fn lemma_empty_dictionary_keeps_text(t: Seq<char>)
    ensures
        corrected(t, replace::longest_first(Seq::<Pair>::empty())) == t,
{
}

/// The loaded dictionary: lowercased patterns with their corrections, and the
/// file they came from.
pub struct PersonalDictionary {
    entries: Vec<(String, String)>,
    path: String,
}

impl PersonalDictionary {
    /// The (lowercased pattern, correction) pairs, in file order.
    pub closed spec fn pairs(&self) -> Seq<Pair> {
        self.entries@.map_values(|p: (String, String)| (p.0@, p.1@))
    }

    /// The path of the dictionary file.
    pub closed spec fn file_path(&self) -> Seq<char> {
        self.path@
    }

    fn pairs_of(file: &DictFile) -> (r: Vec<(String, String)>)
        ensures
            r@.map_values(|p: (String, String)| (p.0@, p.1@)) == dict_pairs(file.entry@),
    {
        let mut entries: Vec<(String, String)> = Vec::new();
        let mut i: usize = 0;
        while i < file.entry.len()
            invariant
                i <= file.entry.len(),
                entries@.map_values(|p: (String, String)| (p.0@, p.1@)) == dict_pairs(
                    file.entry@.take(i as int),
                ),
            decreases file.entry.len() - i,
        {
            let e = &file.entry[i];
            let w = text::str_to_lowercase(e.wrong.as_str());
            let c = e.correct.clone();
            let ghost before = entries@;
            entries.push((w, c));
            proof {
                let m = entries@.map_values(|p: (String, String)| (p.0@, p.1@));
                let d = dict_pairs(file.entry@.take(i + 1));
                let d0 = dict_pairs(file.entry@.take(i as int));
                let m0 = before.map_values(|p: (String, String)| (p.0@, p.1@));
                assert(m0.len() == before.len());
                assert(d0.len() == i);
                assert(entries@.len() == before.len() + 1);
                assert(m.len() == d.len());
                assert forall|j: int| 0 <= j < m.len() implies m[j] == d[j] by {
                    if j < i {
                        assert(m[j] == m0[j]);
                        assert(d[j] == d0[j]);
                    } else {
                        assert(m[j] == (w@, c@));
                    }
                }
                assert(m =~= d);
            }
            i = i + 1;
        }
        assert(file.entry@.take(file.entry.len() as int) =~= file.entry@);
        entries
    }

    /// Builds the dictionary from the parsed file at `path`; patterns are
    /// lowercased.
    pub fn load(file: &DictFile, path: &str) -> (r: PersonalDictionary)
        ensures
            r.pairs() == dict_pairs(file.entry@),
            r.file_path() == path@,
    {
        PersonalDictionary { entries: Self::pairs_of(file), path: String::from_str(path) }
    }

    /// The path of the dictionary file.
    pub fn path(&self) -> (r: &str)
        ensures
            r@ == self.file_path(),
    {
        self.path.as_str()
    }

    /// Apply corrections to transcribed text (case-insensitive match,
    /// preserving surrounding text). Longer patterns are applied first.
    pub fn correct(&self, text: &str) -> (r: String)
        ensures
            r@ == corrected(text@, replace::longest_first(self.pairs())),
    {
        let mut pairs: Vec<(Vec<char>, Vec<char>)> = Vec::new();
        let mut i: usize = 0;
        while i < self.entries.len()
            invariant
                i <= self.entries.len(),
                replace::pairs_view(pairs@) == self.pairs().take(i as int),
            decreases self.entries.len() - i,
        {
            let a = text::chars_of(self.entries[i].0.as_str());
            let b = text::chars_of(self.entries[i].1.as_str());
            let ghost before = pairs@;
            pairs.push((a, b));
            proof {
                let m = replace::pairs_view(pairs@);
                let d = self.pairs().take(i + 1);
                assert(replace::pairs_view(before).len() == before.len());
                assert(self.pairs().take(i as int).len() == i);
                assert(self.pairs().len() == self.entries@.len());
                assert(m.len() == d.len());
                assert forall|j: int| 0 <= j < m.len() implies m[j] == d[j] by {
                    if j < i {
                        assert(m[j] == replace::pairs_view(before)[j]);
                    } else {
                        assert(m[j] == (a@, b@));
                        assert(d[j] == (self.entries@[j].0@, self.entries@[j].1@));
                    }
                }
                assert(m =~= d);
            }
            i = i + 1;
        }
        assert(self.pairs().take(self.entries.len() as int) =~= self.pairs());
        let sorted = replace::sort_longest_first(&pairs);
        let ghost es = replace::pairs_view(sorted@);
        let mut result = text::chars_of(text);
        let mut k: usize = 0;
        while k < sorted.len()
            invariant
                k <= sorted.len(),
                es == replace::pairs_view(sorted@),
                result@ == corrected(text@, es.take(k as int)),
            decreases sorted.len() - k,
        {
            let ghost before = result@;
            let cur = text::string_from_chars(&result);
            let lower_s = text::str_to_lowercase(cur.as_str());
            let lower = text::chars_of(lower_s.as_str());
            let pat = &sorted[k].0;
            let rep = &sorted[k].1;
            assert(es[k as int] == (pat@, rep@));
            if pat.len() > 0 {
                if text::widths_match(&result, &lower) {
                    result = replace::replace_all_ci(&result, &lower, pat, rep);
                } else {
                    let lows = replace::lowercase_each(&result);
                    result = replace::replace_all_chars(&result, &lows, pat, rep);
                }
            }
            assert(es.take(k + 1).drop_last() =~= es.take(k as int));
            k = k + 1;
        }
        assert(es.take(sorted.len() as int) =~= es);
        text::string_from_chars(&result)
    }

    /// Replaces the entries with those of the freshly read file; the path stays.
    pub fn reload(&mut self, file: &DictFile)
        ensures
            final(self).pairs() == dict_pairs(file.entry@),
            final(self).file_path() == old(self).file_path(),
    {
        self.entries = Self::pairs_of(file);
    }
}

} // verus!

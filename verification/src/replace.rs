//! Case-insensitive replacement of phrases, shared by the personal dictionary
//! and the snippet library: pairs ordered longest-first (by UTF-8 length,
//! stable), search in the lowercased text, splice into the original text.

use vstd::prelude::*;
use crate::text;

verus! {

/// A (pattern, replacement) pair, as characters.
pub type Pair = (Seq<char>, Seq<char>);

/// Where `x` goes when inserted into `s` so that longer patterns stay first
/// and, among patterns of equal length, the earlier stays first.
pub open spec fn insert_pos(s: Seq<Pair>, x: Pair) -> nat
    decreases s.len(),
{
    if s.len() == 0 {
        0
    } else if text::utf8_len(s.last().0) >= text::utf8_len(x.0) {
        s.len()
    } else {
        insert_pos(s.drop_last(), x)
    }
}

/// `s` with `x` inserted at `insert_pos(s, x)`.
pub open spec fn insert_by_len(s: Seq<Pair>, x: Pair) -> Seq<Pair> {
    s.take(insert_pos(s, x) as int).push(x) + s.skip(insert_pos(s, x) as int)
}

/// The pairs of `s` ordered by decreasing UTF-8 length of the pattern; pairs
/// with patterns of equal length keep their order (a stable sort).
pub open spec fn longest_first(s: Seq<Pair>) -> Seq<Pair>
    decreases s.len(),
{
    if s.len() == 0 {
        s
    } else {
        insert_by_len(longest_first(s.drop_last()), s.last())
    }
}

/// Where `x` goes in a list ordered by decreasing byte length: after every
/// pair at least as long, before every shorter one.
pub proof fn lemma_insert_pos(s: Seq<Pair>, x: Pair)
    ensures
        insert_pos(s, x) <= s.len(),
        forall|i: int|
            insert_pos(s, x) <= i < s.len() ==> text::utf8_len(#[trigger] s[i].0) < text::utf8_len(x.0),
        insert_pos(s, x) > 0 ==> text::utf8_len(s[insert_pos(s, x) - 1].0) >= text::utf8_len(x.0),
    decreases s.len(),
{
    if s.len() > 0 && text::utf8_len(s.last().0) < text::utf8_len(x.0) {
        lemma_insert_pos(s.drop_last(), x);
        assert forall|i: int| insert_pos(s, x) <= i < s.len() implies text::utf8_len(
            #[trigger] s[i].0,
        ) < text::utf8_len(x.0) by {
            if i < s.len() - 1 {
                assert(s[i] == s.drop_last()[i]);
            }
        }
        if insert_pos(s, x) > 0 {
            assert(s[insert_pos(s, x) - 1] == s.drop_last()[insert_pos(s, x) - 1]);
        }
    }
}

/// Pairs shorter than `x` at the end of the list do not move its place.
pub proof fn lemma_insert_pos_prefix(s: Seq<Pair>, x: Pair, j: int)
    requires
        0 <= j <= s.len(),
        forall|i: int| j <= i < s.len() ==> text::utf8_len(#[trigger] s[i].0) < text::utf8_len(x.0),
    ensures
        insert_pos(s, x) == insert_pos(s.take(j), x),
    decreases s.len(),
{
    if s.len() > j {
        assert(s.drop_last().take(j) =~= s.take(j));
        assert(text::utf8_len(s[s.len() - 1].0) < text::utf8_len(x.0));
        lemma_insert_pos_prefix(s.drop_last(), x, j);
    } else {
        assert(s.take(j) =~= s);
    }
}

/// Number of UTF-8 bytes of `s` (what `str::len` reports).
pub fn byte_len(s: &Vec<char>) -> (r: u128)
    ensures
        r == text::utf8_len(s@),
{
    let mut n: u128 = 0;
    let mut i: usize = 0;
    assert(s@.take(0) =~= Seq::<char>::empty());
    while i < s.len()
        invariant
            i <= s.len(),
            n == text::utf8_len(s@.take(i as int)),
            n <= 4 * i,
        decreases s.len() - i,
    {
        proof {
            text::lemma_utf8_len_push(s@.take(i as int), s@[i as int]);
            assert(s@.take(i + 1) =~= s@.take(i as int).push(s@[i as int]));
        }
        n = n + text::width_of(s[i]) as u128;
        i = i + 1;
    }
    assert(s@.take(s.len() as int) =~= s@);
    n
}

/// The view of a vector of pairs.
pub open spec fn pairs_view(v: Seq<(Vec<char>, Vec<char>)>) -> Seq<Pair> {
    v.map_values(|p: (Vec<char>, Vec<char>)| (p.0@, p.1@))
}

/// Orders the pairs by decreasing UTF-8 length of the pattern, stably.
pub fn sort_longest_first(v: &Vec<(Vec<char>, Vec<char>)>) -> (r: Vec<(Vec<char>, Vec<char>)>)
    ensures
        pairs_view(r@) == longest_first(pairs_view(v@)),
{
    let ghost orig = pairs_view(v@);
    let mut res: Vec<(Vec<char>, Vec<char>)> = Vec::new();
    let mut k: usize = 0;
    while k < v.len()
        invariant
            k <= v.len(),
            orig == pairs_view(v@),
            pairs_view(res@) == longest_first(orig.take(k as int)),
        decreases v.len() - k,
    {
        let a = text::slice_chars(&v[k].0, 0, v[k].0.len());
        let b = text::slice_chars(&v[k].1, 0, v[k].1.len());
        let ghost xv = (a@, b@);
        assert(a@ =~= v@[k as int].0@);
        assert(b@ =~= v@[k as int].1@);
        assert(orig[k as int] == xv);
        let xl = byte_len(&a);
        let mut j = res.len();
        loop
            invariant
                j <= res.len(),
                xl == text::utf8_len(xv.0),
                forall|i: int|
                    j <= i < res.len() ==> text::utf8_len(#[trigger] pairs_view(res@)[i].0)
                        < text::utf8_len(xv.0),
            ensures
                j <= res.len(),
                forall|i: int|
                    j <= i < res.len() ==> text::utf8_len(#[trigger] pairs_view(res@)[i].0)
                        < text::utf8_len(xv.0),
                j == 0 || text::utf8_len(pairs_view(res@)[j - 1].0) >= text::utf8_len(xv.0),
            decreases j,
        {
            if j == 0 {
                break;
            }
            assert(pairs_view(res@)[j - 1] == (res@[j - 1].0@, res@[j - 1].1@));
            if byte_len(&res[j - 1].0) >= xl {
                break;
            }
            j = j - 1;
        }
        proof {
            let s = pairs_view(res@);
            lemma_insert_pos_prefix(s, xv, j as int);
            if j > 0 {
                assert(s.take(j as int).last() == s[j - 1]);
                assert(s[j - 1] == (res@[j - 1].0@, res@[j - 1].1@));
            }
            assert(insert_pos(s.take(j as int), xv) == j);
            assert(orig.take(k + 1).drop_last() =~= orig.take(k as int));
            assert(orig.take(k + 1).last() == xv);
        }
        let ghost before_res = pairs_view(res@);
        res.insert(j, (a, b));
        proof {
            assert(pairs_view(res@) =~= before_res.take(j as int).push(xv) + before_res.skip(j as int));
        }
        k = k + 1;
    }
    assert(orig.take(v.len() as int) =~= orig);
    res
}

// ---------------------------------------------------------------------------
// Splicing
// ---------------------------------------------------------------------------

/// `text` with every occurrence of `pat` in `lower`, from `start` on and
/// found left to right without overlaps, replaced by `rep`; positions found
/// in `lower` are cut out of `text`.
pub open spec fn replace_from(text: Seq<char>, lower: Seq<char>, pat: Seq<char>, rep: Seq<char>, start: int) -> Seq<char>
    decreases lower.len() + 1 - start,
{
    if pat.len() == 0 || start < 0 || start > text.len() {
        text.subrange(start, text.len() as int)
    } else {
        match text::find_from(lower, pat, start) {
            Some(p) => {
                proof {
                    text::lemma_find_from(lower, pat, start);
                }
                text.subrange(start, p) + rep + replace_from(text, lower, pat, rep, p + pat.len())
            },
            None => text.subrange(start, text.len() as int),
        }
    }
}

/// Replaces every occurrence of `pat` found in `lower` (the lowercased
/// `text`, of the same length) by `rep` in `text`.
pub fn replace_all_ci(text: &Vec<char>, lower: &Vec<char>, pat: &Vec<char>, rep: &Vec<char>) -> (r: Vec<char>)
    requires
        text@.len() == lower@.len(),
        pat@.len() > 0,
    ensures
        r@ == replace_from(text@, lower@, pat@, rep@, 0),
{
    let mut out: Vec<char> = Vec::new();
    let mut start: usize = 0;
    loop
        invariant
            text@.len() == lower@.len(),
            pat@.len() > 0,
            start <= text.len(),
            out@ + replace_from(text@, lower@, pat@, rep@, start as int) == replace_from(
                text@,
                lower@,
                pat@,
                rep@,
                0,
            ),
        decreases text.len() - start,
    {
        proof { text::lemma_find_from(lower@, pat@, start as int); }
        match text::find_chars(lower, pat, start) {
            Some(p) => {
                let piece = text::slice_chars(text, start, p);
                let ghost before = out@;
                text::push_all(&mut out, &piece);
                text::push_all(&mut out, rep);
                proof {
                    assert(out@ + replace_from(text@, lower@, pat@, rep@, p + pat@.len()) =~= before
                        + replace_from(text@, lower@, pat@, rep@, start as int));
                }
                start = p + pat.len();
            },
            None => {
                let piece = text::slice_chars(text, start, text.len());
                text::push_all(&mut out, &piece);
                return out;
            },
        }
    }
}

// ---------------------------------------------------------------------------
// Matching character by character
// ---------------------------------------------------------------------------

/// Where a match of `pat[k..]` that starts at character `j` of `t` ends: the
/// lowercase forms of `t[j]`, `t[j + 1]`, ... (as `char::to_lowercase`
/// yields them) spell `pat[k..]` exactly, ending before character `e`.
pub open spec fn match_from(t: Seq<char>, pat: Seq<char>, j: int, k: int) -> Option<int>
    decreases t.len() - j,
{
    if k < 0 || k > pat.len() || j < 0 {
        None
    } else if k == pat.len() {
        Some(j)
    } else if j >= t.len() {
        None
    } else {
        let l = text::lower_char(t[j]);
        if k + l.len() <= pat.len() && pat.subrange(k, k + l.len()) == l {
            match_from(t, pat, j + 1, k + l.len())
        } else {
            None
        }
    }
}

/// A match ends at or after where it starts, and after it when there is
/// something left to match.
pub proof fn lemma_match_from(t: Seq<char>, pat: Seq<char>, j: int, k: int)
    ensures
        match_from(t, pat, j, k) matches Some(e) ==> j <= e <= t.len() || (e == j && k == pat.len()),
        match_from(t, pat, j, k) matches Some(e) ==> (k < pat.len() ==> j < e <= t.len()),
    decreases t.len() - j,
{
    if 0 <= k < pat.len() && 0 <= j < t.len() {
        let l = text::lower_char(t[j]);
        if k + l.len() <= pat.len() && pat.subrange(k, k + l.len()) == l {
            lemma_match_from(t, pat, j + 1, k + l.len());
        }
    }
}

/// `t[start..]` with every case-insensitive occurrence of the non-empty
/// `pat` replaced by `rep`, left to right without overlaps, where an
/// occurrence is a run of whole characters whose lowercase forms spell
/// `pat`; everything else is kept as it is.
pub open spec fn replace_chars(t: Seq<char>, pat: Seq<char>, rep: Seq<char>, start: int) -> Seq<char>
    decreases t.len() - start,
{
    if start < 0 || start >= t.len() || pat.len() == 0 {
        Seq::empty()
    } else {
        match match_from(t, pat, start, 0) {
            Some(e) => {
                proof {
                    lemma_match_from(t, pat, start, 0);
                }
                rep + replace_chars(t, pat, rep, e)
            },
            None => seq![t[start]] + replace_chars(t, pat, rep, start + 1),
        }
    }
}

/// Where `pat` matches nowhere from `start` on, nothing is replaced.
pub proof fn lemma_replace_chars_absent(t: Seq<char>, pat: Seq<char>, rep: Seq<char>, start: int)
    requires
        0 <= start <= t.len(),
        pat.len() > 0,
        forall|i: int| start <= i < t.len() ==> #[trigger] match_from(t, pat, i, 0) is None,
    ensures
        replace_chars(t, pat, rep, start) == t.subrange(start, t.len() as int),
    decreases t.len() - start,
{
    if start < t.len() {
        assert(match_from(t, pat, start, 0) is None);
        lemma_replace_chars_absent(t, pat, rep, start + 1);
        assert(seq![t[start]] + t.subrange(start + 1, t.len() as int) =~= t.subrange(start, t.len() as int));
    } else {
        assert(t.subrange(start, t.len() as int) =~= Seq::<char>::empty());
    }
}

/// The lowercase forms of the characters of `t`, one per character.
pub open spec fn lowers_of(t: Seq<char>, lows: Seq<Vec<char>>) -> bool {
    lows.len() == t.len() && forall|i: int| 0 <= i < t.len() ==> #[trigger] lows[i]@ == text::lower_char(t[i])
}

/// The lowercase form of each character of `t`.
pub fn lowercase_each(t: &Vec<char>) -> (r: Vec<Vec<char>>)
    ensures
        lowers_of(t@, r@),
{
    let mut r: Vec<Vec<char>> = Vec::new();
    let mut i: usize = 0;
    while i < t.len()
        invariant
            i <= t.len(),
            r@.len() == i,
            forall|q: int| 0 <= q < i ==> #[trigger] r@[q]@ == text::lower_char(t@[q]),
        decreases t.len() - i,
    {
        r.push(text::char_to_lowercase(t[i]));
        i = i + 1;
    }
    r
}

/// Where a case-insensitive match of `pat` starting at character `start`
/// of `t` ends, if there is one.
fn match_end(t: &Vec<char>, lows: &Vec<Vec<char>>, pat: &Vec<char>, start: usize) -> (r: Option<usize>)
    requires
        lowers_of(t@, lows@),
        start <= t.len(),
    ensures
        r matches Some(e) ==> match_from(t@, pat@, start as int, 0) == Some(e as int),
        r is None ==> match_from(t@, pat@, start as int, 0) is None,
{
    let mut j = start;
    let mut k: usize = 0;
    loop
        invariant
            lowers_of(t@, lows@),
            start <= j <= t.len(),
            k <= pat.len(),
            match_from(t@, pat@, start as int, 0) == match_from(t@, pat@, j as int, k as int),
        decreases t.len() - j,
    {
        if k == pat.len() {
            return Some(j);
        }
        if j == t.len() {
            return None;
        }
        let l = &lows[j];
        assert(l@ == text::lower_char(t@[j as int]));
        if l.len() > pat.len() - k {
            return None;
        }
        let mut q: usize = 0;
        while q < l.len()
            invariant
                lowers_of(t@, lows@),
                start <= j < t.len(),
                k < pat.len(),
                l@ == text::lower_char(t@[j as int]),
                match_from(t@, pat@, start as int, 0) == match_from(t@, pat@, j as int, k as int),
                k + l.len() <= pat.len(),
                q <= l.len(),
                forall|x: int| 0 <= x < q ==> pat@[k + x] == l@[x],
            decreases l.len() - q,
        {
            if pat[k + q] != l[q] {
                assert(pat@.subrange(k as int, k + l.len())[q as int] != l@[q as int]);
                assert(pat@.subrange(k as int, k + l.len()) != l@);
                assert(match_from(t@, pat@, j as int, k as int) is None);
                return None;
            }
            q = q + 1;
        }
        assert(pat@.subrange(k as int, k + l.len()) =~= l@);
        k = k + l.len();
        j = j + 1;
    }
}

/// Replaces every case-insensitive occurrence of the non-empty `pat` in
/// `text` by `rep`, matching the lowercase forms `lows` of its characters.
pub fn replace_all_chars(text: &Vec<char>, lows: &Vec<Vec<char>>, pat: &Vec<char>, rep: &Vec<char>) -> (r: Vec<char>)
    requires
        lowers_of(text@, lows@),
        pat@.len() > 0,
    ensures
        r@ == replace_chars(text@, pat@, rep@, 0),
{
    let mut out: Vec<char> = Vec::new();
    let mut start: usize = 0;
    while start < text.len()
        invariant
            lowers_of(text@, lows@),
            pat@.len() > 0,
            start <= text.len(),
            out@ + replace_chars(text@, pat@, rep@, start as int) == replace_chars(text@, pat@, rep@, 0),
        decreases text.len() - start,
    {
        let ghost before = out@;
        proof { lemma_match_from(text@, pat@, start as int, 0); }
        match match_end(text, lows, pat, start) {
            Some(e) => {
                text::push_all(&mut out, rep);
                assert(out@ + replace_chars(text@, pat@, rep@, e as int) =~= before + replace_chars(
                    text@,
                    pat@,
                    rep@,
                    start as int,
                ));
                start = e;
            },
            None => {
                out.push(text[start]);
                assert(out@ + replace_chars(text@, pat@, rep@, start + 1) =~= before + replace_chars(
                    text@,
                    pat@,
                    rep@,
                    start as int,
                ));
                start = start + 1;
            },
        }
    }
    assert(replace_chars(text@, pat@, rep@, start as int) =~= Seq::<char>::empty());
    assert(out@ =~= out@ + Seq::<char>::empty());
    out
}

} // verus!

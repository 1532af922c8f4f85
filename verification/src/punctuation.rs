//! Lightweight auto-punctuation of a raw transcript: whitespace clean-up,
//! capitalisation of the first letter and of the first letter after `.`,
//! `!` or `?` and whitespace,
//! and a terminal period when the text ends without terminal punctuation.

use vstd::prelude::*;
use crate::text;

verus! {

/// Punctuation that may end a sentence.
pub open spec fn terminal_punct(c: char) -> bool {
    c == '.' || c == '!' || c == '?' || c == '\u{2026}' || c == '"' || c == '\'' || c == ')' || c
        == ']'
}

/// Punctuation that attaches to the word on its left (no space before it).
pub open spec fn left_attaching(c: char) -> bool {
    c == '.' || c == ',' || c == '!' || c == '?' || c == ':' || c == ';' || c == ')' || c == ']'
        || c == '\'' || c == '"' || c == '\u{2026}'
}

/// Characters after which the next letter starts a sentence.
pub open spec fn sentence_end(c: char) -> bool {
    c == '.' || c == '!' || c == '?'
}

// ---------------------------------------------------------------------------
// Whitespace normalisation
// ---------------------------------------------------------------------------

/// One character of the whitespace pass. The state is the text produced so
/// far and whether a separating space is pending.
pub open spec fn norm_step(st: (Seq<char>, bool), ch: char) -> (Seq<char>, bool) {
    let (out, pending) = st;
    if text::is_space(ch) {
        (out, pending || out.len() > 0)
    } else {
        let pending2 = pending && !left_attaching(ch);
        let out2 = if pending2 {
            out.push(' ')
        } else {
            out
        };
        (out2.push(ch), false)
    }
}

/// The state of the whitespace pass after reading all of `s`.
pub open spec fn norm_state(s: Seq<char>) -> (Seq<char>, bool)
    decreases s.len(),
{
    if s.len() == 0 {
        (Seq::empty(), false)
    } else {
        norm_step(norm_state(s.drop_last()), s.last())
    }
}

/// `s` with runs of whitespace collapsed to one space, leading and trailing
/// whitespace dropped, and no space before left-attaching punctuation.
pub open spec fn normalized(s: Seq<char>) -> Seq<char> {
    norm_state(s).0
}

/// The shape that the whitespace pass guarantees: every character is a
/// space or not whitespace, the text neither starts nor ends with a space,
/// and every space is followed by a character that is neither whitespace
/// nor left-attaching punctuation.
pub open spec fn well_spaced(out: Seq<char>) -> bool {
    &&& forall|i: int| 0 <= i < out.len() ==> #[trigger] out[i] == ' ' || !text::is_space(out[i])
    &&& out.len() > 0 ==> out[0] != ' ' && !text::is_space(out.last())
    &&& forall|i: int|
        0 <= i < out.len() && #[trigger] out[i] == ' ' ==> i + 1 < out.len() && !text::is_space(out[i + 1])
            && !left_attaching(out[i + 1])
}

/// The whitespace pass yields a well-spaced text, which is empty exactly
/// when the input is all whitespace.
pub proof fn lemma_norm_state(s: Seq<char>)
    requires
        text::is_space(' '),
    ensures
        well_spaced(norm_state(s).0),
        norm_state(s).1 ==> norm_state(s).0.len() > 0,
        norm_state(s).0.len() == 0 <==> forall|i: int| 0 <= i < s.len() ==> text::is_space(#[trigger] s[i]),
    decreases s.len(),
{
    if s.len() > 0 {
        let p = s.drop_last();
        lemma_norm_state(p);
        let (out, pending) = norm_state(p);
        let ch = s.last();
        if text::is_space(ch) {
            assert forall|i: int| 0 <= i < s.len() && !text::is_space(#[trigger] s[i]) implies out.len() > 0 by {
                assert(i < p.len());
                assert(p[i] == s[i]);
            }
        } else {
            let pending2 = pending && !left_attaching(ch);
            let out2 = if pending2 {
                out.push(' ')
            } else {
                out
            };
            let r = out2.push(ch);
            assert(r[r.len() - 1] == ch);
            assert forall|i: int| 0 <= i < r.len() implies #[trigger] r[i] == ' ' || !text::is_space(r[i]) by {
                if i < out.len() {
                    assert(r[i] == out[i]);
                }
            }
            assert(r[0] != ' ') by {
                if out.len() > 0 {
                    assert(r[0] == out[0]);
                } else {
                    assert(!pending2);
                }
            }
            assert forall|i: int| 0 <= i < r.len() && #[trigger] r[i] == ' ' implies i + 1 < r.len()
                && !text::is_space(r[i + 1]) && !left_attaching(r[i + 1]) by {
                if i + 1 < out.len() {
                    assert(r[i] == out[i]);
                    assert(r[i + 1] == out[i + 1]);
                } else if i + 1 == out.len() {
                    assert(r[i] == out[i]);
                    assert(!text::is_space(out.last()));
                } else if pending2 && i == out.len() {
                } else {
                    assert(i == r.len() - 1);
                }
            }
            assert(r.len() > 0);
            assert(exists|i: int| 0 <= i < s.len() && !text::is_space(s[i])) by {
                assert(!text::is_space(s[s.len() - 1]));
            }
        }
    }
}

/// Collapse whitespace runs, drop leading and trailing whitespace, and remove
/// a space before punctuation that attaches to the word on its left.
fn normalize_whitespace(text: &Vec<char>) -> (r: Vec<char>)
    ensures
        r@ == normalized(text@),
        well_spaced(r@),
        r@.len() == 0 <==> forall|i: int| 0 <= i < text@.len() ==> text::is_space(#[trigger] text@[i]),
{
    let mut result: Vec<char> = Vec::new();
    let mut prev_space = false;
    let mut i: usize = 0;
    while i < text.len()
        invariant
            i <= text.len(),
            (result@, prev_space) == norm_state(text@.take(i as int)),
        decreases text.len() - i,
    {
        let ch = text[i];
        assert(text@.take(i + 1).drop_last() =~= text@.take(i as int));
        if text::char_is_whitespace(ch) {
            if !prev_space && result.len() > 0 {
                prev_space = true;
            }
        } else {
            if is_left_attaching(ch) && prev_space {
                prev_space = false;
            }
            if prev_space {
                result.push(' ');
                prev_space = false;
            }
            result.push(ch);
        }
        i = i + 1;
    }
    assert(text@.take(text.len() as int) =~= text@);
    proof { lemma_norm_state(text@); }
    result
}

// ---------------------------------------------------------------------------
// Capitalisation
// ---------------------------------------------------------------------------

/// The position of the first alphabetic character of `s` at or after `k`.
pub open spec fn first_alpha_from(s: Seq<char>, k: int) -> Option<int>
    decreases s.len() - k,
{
    if k < 0 || k >= s.len() {
        None
    } else if text::is_alpha(s[k]) {
        Some(k)
    } else {
        first_alpha_from(s, k + 1)
    }
}

/// `s` with its first alphabetic character replaced by its uppercase
/// mapping.
pub open spec fn cap_first(s: Seq<char>) -> Seq<char> {
    match first_alpha_from(s, 0) {
        Some(i) => s.take(i) + text::upper_of(s[i]) + s.skip(i + 1),
        None => s,
    }
}

/// Capitalize the first alphabetic character.
fn capitalize_first(text: &Vec<char>) -> (r: Vec<char>)
    ensures
        r@ == cap_first(text@),
{
    let mut i: usize = 0;
    while i < text.len() && !text::char_is_alphabetic(text[i])
        invariant
            i <= text.len(),
            first_alpha_from(text@, 0) == first_alpha_from(text@, i as int),
        decreases text.len() - i,
    {
        i = i + 1;
    }
    if i == text.len() {
        return text::slice_chars(text, 0, text.len());
    }
    let mut r = text::slice_chars(text, 0, i);
    let u = text::char_to_uppercase(text[i]);
    text::push_all(&mut r, &u);
    let rest = text::slice_chars(text, i + 1, text.len());
    text::push_all(&mut r, &rest);
    assert(text@.subrange(0, i as int) =~= text@.take(i as int));
    assert(text@.subrange(i + 1, text.len() as int) =~= text@.skip(i + 1));
    r
}

/// One character of the sentence-start pass. The state is the text produced
/// so far and how far a sentence end has been seen: 0 for none, 1 for a
/// `.`, `!` or `?` just read, 2 for such a mark followed by whitespace, after
/// which the next letter is capitalised.
pub open spec fn cap_step(st: (Seq<char>, int), ch: char) -> (Seq<char>, int) {
    let (out, mode) = st;
    if mode == 2 && text::is_alpha(ch) {
        (out + text::upper_of(ch), 0)
    } else {
        let mode2 = if sentence_end(ch) {
            1
        } else if text::is_space(ch) {
            if mode >= 1 {
                2
            } else {
                0
            }
        } else {
            0
        };
        (out.push(ch), mode2)
    }
}

/// The state of the sentence-start pass after reading all of `s`.
pub open spec fn cap_state(s: Seq<char>) -> (Seq<char>, int)
    decreases s.len(),
{
    if s.len() == 0 {
        (Seq::empty(), 0)
    } else {
        cap_step(cap_state(s.drop_last()), s.last())
    }
}

/// `s` with each letter that follows `.`, `!` or `?` and then one or more
/// whitespace characters replaced by its uppercase mapping.
pub open spec fn cap_sentences(s: Seq<char>) -> Seq<char> {
    cap_state(s).0
}

/// The capitalisation pass keeps an empty text empty.
pub proof fn lemma_cap_state_empty(s: Seq<char>)
    requires
        s.len() == 0,
    ensures
        cap_sentences(s).len() == 0,
{
}

/// Capitalize the first letter after `.` `!` `?` followed by whitespace.
fn capitalize_after_sentence_end(text: &Vec<char>) -> (r: Vec<char>)
    ensures
        r@ == cap_sentences(text@),
{
    let mut result: Vec<char> = Vec::new();
    let mut mode: u8 = 0;
    let mut i: usize = 0;
    while i < text.len()
        invariant
            i <= text.len(),
            mode <= 2,
            (result@, mode as int) == cap_state(text@.take(i as int)),
        decreases text.len() - i,
    {
        let ch = text[i];
        assert(text@.take(i + 1).drop_last() =~= text@.take(i as int));
        if mode == 2 && text::char_is_alphabetic(ch) {
            let u = text::char_to_uppercase(ch);
            text::push_all(&mut result, &u);
            mode = 0;
        } else {
            result.push(ch);
            if ch == '.' || ch == '!' || ch == '?' {
                mode = 1;
            } else if text::char_is_whitespace(ch) {
                if mode >= 1 {
                    mode = 2;
                }
            } else {
                mode = 0;
            }
        }
        i = i + 1;
    }
    assert(text@.take(text.len() as int) =~= text@);
    result
}

// ---------------------------------------------------------------------------
// Terminal punctuation
// ---------------------------------------------------------------------------

/// `s` without trailing whitespace, with a period appended unless it is empty
/// or already ends with terminal punctuation.
pub open spec fn with_terminal(s: Seq<char>) -> Seq<char> {
    let t = text::trim_end(s);
    if t.len() == 0 {
        t
    } else if terminal_punct(t.last()) {
        t
    } else {
        t.push('.')
    }
}

/// If the text doesn't end with terminal punctuation, append a period.
fn ensure_terminal_punctuation(text: &Vec<char>) -> (r: Vec<char>)
    ensures
        r@ == with_terminal(text@),
        r@.len() == 0 || terminal_punct(r@.last()),
{
    let trail = text::count_trailing_spaces(text);
    proof { text::lemma_trail_spaces(text@); }
    let mut trimmed = text::slice_chars(text, 0, text.len() - trail);
    assert(trimmed@ =~= text::trim_end(text@));
    if trimmed.len() == 0 {
        return Vec::new();
    }
    let last = trimmed[trimmed.len() - 1];
    if is_terminal_punctuation(last) {
        trimmed
    } else {
        trimmed.push('.');
        trimmed
    }
}

fn is_terminal_punctuation(ch: char) -> (r: bool)
    ensures
        r == terminal_punct(ch),
{
    ch == '.' || ch == '!' || ch == '?' || ch == '\u{2026}' || ch == '"' || ch == '\'' || ch == ')'
        || ch == ']'
}

fn is_left_attaching(ch: char) -> (r: bool)
    ensures
        r == left_attaching(ch),
{
    ch == '.' || ch == ',' || ch == '!' || ch == '?' || ch == ':' || ch == ';' || ch == ')' || ch
        == ']' || ch == '\'' || ch == '"' || ch == '\u{2026}'
}

// ---------------------------------------------------------------------------
// The whole pass
// ---------------------------------------------------------------------------

/// What `auto_punctuate` makes of `s`.
pub open spec fn punctuated(s: Seq<char>) -> Seq<char> {
    if s.len() == 0 {
        s
    } else {
        with_terminal(cap_sentences(cap_first(normalized(s))))
    }
}

/// Capitalise, normalise whitespace and terminate the transcript.
///
/// The result is empty when the input holds only whitespace; otherwise, when
/// it is not empty, it ends with terminal punctuation.
pub fn auto_punctuate(text: &str) -> (r: String)
    ensures
        r@ == punctuated(text@),
        r@.len() == 0 || terminal_punct(r@.last()),
        (forall|i: int| 0 <= i < text@.len() ==> text::is_space(#[trigger] text@[i])) ==> r@.len() == 0,
{
    let chars = text::chars_of(text);
    if chars.len() == 0 {
        return text::string_from_chars(&chars);
    }
    let t1 = normalize_whitespace(&chars);
    let t2 = capitalize_first(&t1);
    let t3 = capitalize_after_sentence_end(&t2);
    let t4 = ensure_terminal_punctuation(&t3);
    proof {
        if t1@.len() == 0 {
            assert(t2@.len() == 0);
            lemma_cap_state_empty(t2@);
            assert(text::trim_end(t3@) =~= t3@);
        }
    }
    text::string_from_chars(&t4)
}

// ---------------------------------------------------------------------------
// Spacing laws
// ---------------------------------------------------------------------------

/// One of `.` `,` `!` `?` `:` `;` `)` `]` `'` `"` `…`.
pub open spec fn closing_mark(c: char) -> bool {
    c == '.' || c == ',' || c == '!' || c == '?' || c == ':' || c == ';' || c == ')' || c == ']'
        || c == '\'' || c == '"' || c == '\u{2026}'
}

/// No space in `t` is directly followed by a closing mark.
pub open spec fn no_space_before_mark(t: Seq<char>) -> bool {
    forall|i: int| 0 <= i < t.len() - 1 && #[trigger] t[i] == ' ' ==> !closing_mark(t[i + 1])
}

/// After the whitespace pass no space comes directly before `.` `,` `!` `?`
/// `:` `;` `)` `]` `'` `"` or `…`, and no space starts or ends the text.
pub proof fn lemma_no_space_before_mark_normalized(s: Seq<char>)
    ensures
        no_space_before_mark(normalized(s)),
        normalized(s).len() > 0 ==> normalized(s)[0] != ' ' && normalized(s).last() != ' ',
{
    assert(text::is_space(' '));
    lemma_norm_state(s);
}

/// What the auto-punctuation needs of std's uppercase mapping for the
/// spacing law: a space is not a letter, and a letter uppercases to one or
/// more characters none of which is a space or a closing mark.
pub open spec fn uppercase_keeps_spacing() -> bool {
    &&& !text::is_alpha(' ')
    &&& forall|c: char|
        #[trigger] text::is_alpha(c) ==> text::upper_of(c).len() >= 1 && forall|k: int|
            0 <= k < text::upper_of(c).len() ==> text::upper_of(c)[k] != ' ' && !closing_mark(
                #[trigger] text::upper_of(c)[k],
            )
}

proof fn lemma_cap_first_spacing(n: Seq<char>)
    requires
        uppercase_keeps_spacing(),
        no_space_before_mark(n),
        n.len() > 0 ==> n.last() != ' ',
    ensures
        no_space_before_mark(cap_first(n)),
        cap_first(n).len() > 0 ==> cap_first(n).last() != ' ',
        n.len() > 0 ==> cap_first(n).len() > 0,
{
    match first_alpha_from(n, 0) {
        Some(i) => {
            lemma_first_alpha(n, 0);
            let u = text::upper_of(n[i]);
            assert(text::is_alpha(n[i]));
            let a = n.take(i);
            let b = n.skip(i + 1);
            let t = a + u + b;
            assert(t == cap_first(n));
            assert forall|j: int| 0 <= j < t.len() - 1 && #[trigger] t[j] == ' ' implies !closing_mark(t[j + 1]) by {
                if j < i {
                    assert(t[j] == n[j]);
                    if j + 1 < i {
                        assert(t[j + 1] == n[j + 1]);
                    } else {
                        assert(t[j + 1] == u[0]);
                    }
                } else if j < i + u.len() {
                    assert(t[j] == u[j - i]);
                } else {
                    assert(t[j] == n[j - u.len() + 1]);
                    assert(t[j + 1] == n[j - u.len() + 2]);
                }
            }
            if b.len() > 0 {
                assert(t.last() == n.last());
            } else {
                assert(t.last() == u[u.len() - 1]);
            }
        },
        None => {},
    }
}

proof fn lemma_first_alpha(s: Seq<char>, k: int)
    requires
        0 <= k,
    ensures
        first_alpha_from(s, k) matches Some(i) ==> k <= i < s.len() && text::is_alpha(s[i]),
    decreases s.len() - k,
{
    if k < s.len() && !text::is_alpha(s[k]) {
        lemma_first_alpha(s, k + 1);
    }
}

proof fn lemma_cap_state_spacing(s: Seq<char>)
    requires
        uppercase_keeps_spacing(),
        no_space_before_mark(s),
    ensures
        no_space_before_mark(cap_state(s).0),
        cap_state(s).0.len() > 0 && cap_state(s).0.last() == ' ' ==> s.len() > 0 && s.last() == ' ',
        s.len() > 0 ==> cap_state(s).0.len() > 0,
    decreases s.len(),
{
    if s.len() > 0 {
        let p = s.drop_last();
        assert forall|i: int| 0 <= i < p.len() - 1 && #[trigger] p[i] == ' ' implies !closing_mark(p[i + 1]) by {
            assert(p[i] == s[i] && p[i + 1] == s[i + 1]);
        }
        lemma_cap_state_spacing(p);
        let (out, mode) = cap_state(p);
        let ch = s.last();
        let t = cap_state(s).0;
        let piece = if mode == 2 && text::is_alpha(ch) {
            text::upper_of(ch)
        } else {
            seq![ch]
        };
        assert(t == out + piece);
        assert(piece.len() >= 1);
        if out.len() > 0 && out.last() == ' ' {
            assert(p[p.len() - 1] == ' ');
            assert(s[p.len() - 1] == ' ');
            assert(!closing_mark(s[p.len() as int]));
            assert(!closing_mark(piece[0]));
        }
        assert forall|j: int| 0 <= j < t.len() - 1 && #[trigger] t[j] == ' ' implies !closing_mark(t[j + 1]) by {
            if j < out.len() - 1 {
                assert(t[j] == out[j] && t[j + 1] == out[j + 1]);
            } else if j == out.len() - 1 {
                assert(t[j] == out.last());
                assert(t[j + 1] == piece[0]);
            } else {
                assert(t[j] == piece[j - out.len()]);
            }
        }
        assert(t.last() == piece[piece.len() - 1]);
    }
}

/// When std's uppercase mapping keeps letters apart from spaces and closing
/// marks (see `uppercase_keeps_spacing`), no space in the punctuated text
/// comes directly before `.` `,` `!` `?` `:` `;` `)` `]` `'` `"` or `…`.
pub proof fn lemma_no_space_before_mark(s: Seq<char>)
    requires
        uppercase_keeps_spacing(),
    ensures
        no_space_before_mark(punctuated(s)),
{
    if s.len() > 0 {
        let n = normalized(s);
        lemma_no_space_before_mark_normalized(s);
        lemma_cap_first_spacing(n);
        let c1 = cap_first(n);
        lemma_cap_state_spacing(c1);
        let c2 = cap_sentences(c1);
        let t = text::trim_end(c2);
        text::lemma_trail_spaces(c2);
        assert forall|j: int| 0 <= j < t.len() - 1 && #[trigger] t[j] == ' ' implies !closing_mark(t[j + 1]) by {
            assert(t[j] == c2[j] && t[j + 1] == c2[j + 1]);
        }
        if t.len() > 0 && !terminal_punct(t.last()) {
            let r = t.push('.');
            assert(!text::is_space(t.last()));
            assert(t.last() != ' ');
            assert forall|j: int| 0 <= j < r.len() - 1 && #[trigger] r[j] == ' ' implies !closing_mark(r[j + 1]) by {
                assert(r[j] == t[j]);
                if j + 1 < t.len() {
                    assert(r[j + 1] == t[j + 1]);
                }
            }
        }
    }
}

} // verus!

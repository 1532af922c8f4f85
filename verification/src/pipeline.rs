//! The post-processing pipeline of a raw transcript: punctuation, then the
//! personal dictionary, then snippets.

use vstd::prelude::*;
use crate::punctuation;
use crate::dictionary;
use crate::snippets;
use crate::replace;

verus! {

/// What the pipeline makes of the raw transcript `raw`.
pub open spec fn processed(
    raw: Seq<char>,
    dict: Seq<replace::Pair>,
    snips: Seq<replace::Pair>,
) -> Seq<char> {
    snippets::expanded(
        dictionary::corrected(punctuation::punctuated(raw), replace::longest_first(dict)),
        snips,
    )
}

/// Punctuate, correct with the personal dictionary, expand snippets.
pub fn post_process(
    raw: &str,
    dict: &dictionary::PersonalDictionary,
    snips: &snippets::SnippetLibrary,
) -> (r: String)
    ensures
        r@ == processed(raw@, dict.pairs(), snips.pairs()),
        r@ == snippets::expanded(
            dictionary::corrected(punctuation::punctuated(raw@), replace::longest_first(dict.pairs())),
            snips.pairs(),
        ),
{
    let text = punctuation::auto_punctuate(raw);
    let text = dict.correct(text.as_str());
    snips.expand(text.as_str())
}

/// The pipeline's order: punctuation first, then the dictionary on the
/// punctuated text, then snippets on the corrected text. So a correction
/// is never re-capitalised or re-punctuated, and a snippet sees the
/// corrected text.
pub proof fn lemma_pipeline_order(raw: Seq<char>, dict: Seq<replace::Pair>, snips: Seq<replace::Pair>)
    ensures
        processed(raw, dict, snips) == snippets::expanded(
            dictionary::corrected(punctuation::punctuated(raw), replace::longest_first(dict)),
            snips,
        ),
{
}

} // verus!

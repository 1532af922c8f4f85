use wisprfree::dictionary::{DictEntry, DictFile, PersonalDictionary};

fn dict(pairs: &[(&str, &str)]) -> PersonalDictionary {
    let file = DictFile {
        entry: pairs
            .iter()
            .map(|(w, c)| DictEntry { wrong: w.to_string(), correct: c.to_string() })
            .collect(),
    };
    PersonalDictionary::load(&file, "dictionary.toml")
}

#[test]
fn corrects_case_insensitively() {
    let d = dict(&[("whisperfree", "WisprFree")]);
    assert_eq!(d.correct("I love WhisperFree a lot"), "I love WisprFree a lot");
}

#[test]
fn patterns_from_the_file_are_lowercased() {
    let d = dict(&[("John Doe", "Jon Doe")]);
    assert_eq!(d.correct("Call JOHN DOE now."), "Call Jon Doe now.");
}

#[test]
fn every_occurrence_is_replaced() {
    let d = dict(&[("teh", "the")]);
    assert_eq!(d.correct("teh cat and teh dog"), "the cat and the dog");
}

#[test]
fn longer_patterns_go_first() {
    let d = dict(&[("doe", "X"), ("john doe", "Jon Doe")]);
    assert_eq!(d.correct("john doe met jane doe"), "Jon X met jane X");
}

#[test]
fn empty_dictionary_keeps_text() {
    let d = dict(&[]);
    assert_eq!(d.correct("Nothing Changes."), "Nothing Changes.");
}

#[test]
fn absent_pattern_keeps_text() {
    let d = dict(&[("zebra", "Zebra")]);
    assert_eq!(d.correct("A horse."), "A horse.");
}

#[test]
fn empty_pattern_is_skipped() {
    let d = dict(&[("", "X"), ("a", "b")]);
    assert_eq!(d.correct("a a"), "b b");
}

#[test]
fn replacement_text_is_not_searched_again() {
    let d = dict(&[("ab", "abab")]);
    assert_eq!(d.correct("ab"), "abab");
}

#[test]
fn template_holds_one_entry() {
    let t = DictFile::template();
    assert_eq!(t.entry.len(), 1);
    assert_eq!(t.entry[0].wrong, "whisperfree");
    assert_eq!(t.entry[0].correct, "WisprFree");
}

#[test]
fn reload_replaces_entries_and_keeps_path() {
    let mut d = dict(&[("one", "1")]);
    let file = DictFile { entry: vec![DictEntry { wrong: "two".into(), correct: "2".into() }] };
    d.reload(&file);
    assert_eq!(d.correct("one two"), "one 2");
    assert_eq!(d.path(), "dictionary.toml");
}

#[test]
fn a_character_whose_lowercase_is_longer_does_not_stop_corrections() {
    let d = dict(&[("whisperfree", "WisprFree")]);
    assert_eq!(d.correct("\u{130} whisperfree"), "\u{130} WisprFree");
    assert_eq!(d.correct("WHISPERFREE \u{130} WhisperFree"), "WisprFree \u{130} WisprFree");
}

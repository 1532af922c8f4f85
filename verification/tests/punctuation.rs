use wisprfree::punctuation::auto_punctuate;

#[test]
fn test_basic_punctuation() {
    assert_eq!(auto_punctuate("hello world"), "Hello world.");
    assert_eq!(auto_punctuate("hello world."), "Hello world.");
    assert_eq!(auto_punctuate("hello. world"), "Hello. World.");
}

#[test]
fn test_whitespace_cleanup() {
    assert_eq!(auto_punctuate("hello  ,  world"), "Hello, world.");
}

#[test]
fn test_empty() {
    assert_eq!(auto_punctuate(""), "");
}

#[test]
fn whitespace_only_input_gives_empty_output() {
    assert_eq!(auto_punctuate("   \t\n  "), "");
}

#[test]
fn existing_terminal_punctuation_is_kept() {
    assert_eq!(auto_punctuate("is it done?"), "Is it done?");
    assert_eq!(auto_punctuate("wow!"), "Wow!");
    assert_eq!(auto_punctuate("he said \"hi\""), "He said\"hi\"");
}

#[test]
fn sentences_after_question_and_exclamation_are_capitalised() {
    assert_eq!(auto_punctuate("what? yes! ok"), "What? Yes! Ok.");
}

#[test]
fn leading_and_trailing_whitespace_is_dropped() {
    assert_eq!(auto_punctuate("   one   two   "), "One two.");
}

#[test]
fn space_before_left_attaching_punctuation_is_removed() {
    assert_eq!(auto_punctuate("a ; b : c ."), "A; b: c.");
}

#[test]
fn letters_after_a_digit_following_a_period_stay_lowercase() {
    assert_eq!(auto_punctuate("v1. 2x"), "V1. 2x.");
}

#[test]
fn uppercase_mapping_may_expand_a_character() {
    assert_eq!(auto_punctuate("ßtraße"), "SStraße.");
}

#[test]
fn the_first_letter_is_capitalised_after_leading_marks() {
    assert_eq!(auto_punctuate("(hello)"), "(Hello)");
    assert_eq!(auto_punctuate("42 apples"), "42 Apples.");
}

#[test]
fn a_letter_right_after_a_period_is_not_a_sentence_start() {
    assert_eq!(auto_punctuate("see example.com"), "See example.com.");
    assert_eq!(auto_punctuate("hi. there! ok? yes"), "Hi. There! Ok? Yes.");
}

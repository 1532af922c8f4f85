use wisprfree::snippets::{SnippetEntry, SnippetFile, SnippetLibrary};

fn lib(pairs: &[(&str, &str)]) -> SnippetLibrary {
    let file = SnippetFile {
        snippet: pairs
            .iter()
            .map(|(t, r)| SnippetEntry { trigger: t.to_string(), replacement: r.to_string() })
            .collect(),
    };
    SnippetLibrary::load(&file, "snippets.toml")
}

#[test]
fn whole_text_trigger_is_replaced() {
    let l = lib(&[("my email", "alice@example.com")]);
    assert_eq!(l.expand("  My Email  "), "alice@example.com");
}

#[test]
fn whole_text_match_ignores_trailing_punctuation_only_if_trigger_has_it() {
    let l = lib(&[("my email", "alice@example.com")]);
    assert_eq!(l.expand("My email."), "alice@example.com.");
}

#[test]
fn every_inline_trigger_is_replaced() {
    let l = lib(&[("my address", "123 Main Street")]);
    assert_eq!(
        l.expand("Send it to my address and my address."),
        "Send it to 123 Main Street and 123 Main Street."
    );
    let b = lib(&[("brb", "be right back")]);
    assert_eq!(b.expand("brb and brb"), "be right back and be right back");
}

#[test]
fn longer_trigger_wins() {
    let l = lib(&[("sig", "S"), ("sig long", "LONG")]);
    assert_eq!(l.expand("end sig long here sig"), "end LONG here S");
}

#[test]
fn later_duplicate_trigger_overrides() {
    let l = lib(&[("hi", "one"), ("HI", "two")]);
    assert_eq!(l.expand("hi"), "two");
}

#[test]
fn empty_library_keeps_text() {
    let l = lib(&[]);
    assert_eq!(l.expand(" Unchanged text. "), " Unchanged text. ");
}

#[test]
fn snippet_template_has_two_entries() {
    let t = SnippetFile::template();
    assert_eq!(t.snippet.len(), 2);
    assert_eq!(t.snippet[0].trigger, "my email");
    assert_eq!(t.snippet[0].replacement, "you@example.com");
    assert_eq!(t.snippet[1].trigger, "my address");
    assert_eq!(t.snippet[1].replacement, "123 Main Street, Anytown, USA");
}

#[test]
fn snippet_reload_keeps_path() {
    let mut l = lib(&[("a", "b")]);
    let file = SnippetFile { snippet: vec![SnippetEntry { trigger: "c".into(), replacement: "d".into() }] };
    l.reload(&file);
    assert_eq!(l.expand("c"), "d");
    assert_eq!(l.expand("a"), "a");
    assert_eq!(l.path(), "snippets.toml");
}

#[test]
fn triggers_are_found_next_to_characters_whose_lowercase_is_longer() {
    let l = lib(&[("brb", "be right back")]);
    assert_eq!(l.expand("\u{130} BRB and brb"), "\u{130} be right back and be right back");
}

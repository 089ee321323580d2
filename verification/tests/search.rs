use cosmic_toplevel::search::{holds_all_words, lower_char, lowercase_chars, matches_query, space_char};

fn chars(s: &str) -> Vec<char> {
    s.chars().collect()
}

#[test]
fn fire_matches_firefox() {
    assert!(matches_query("fire", "firefox", ""));
}

#[test]
fn fire_fox_matches_firefox() {
    assert!(matches_query("fire fox", "firefox", ""));
}

#[test]
fn fire_chrome_matches_nothing() {
    assert!(!matches_query("fire chrome", "firefox", ""));
    assert!(!matches_query("fire chrome", "firefox", "chrome"));
}

#[test]
fn empty_query_matches_everything() {
    assert!(matches_query("", "firefox", "Mozilla"));
    assert!(matches_query("", "", ""));
}

#[test]
fn blank_query_matches_everything() {
    assert!(matches_query("  \t\n", "firefox", "Mozilla"));
}

#[test]
fn title_matches_too() {
    assert!(matches_query("inbox", "thunderbird", "Inbox - Mail"));
    assert!(matches_query("mail inbox", "thunderbird", "Inbox - Mail"));
    assert!(!matches_query("outbox", "thunderbird", "Inbox - Mail"));
}

#[test]
fn all_words_must_be_in_one_field() {
    assert!(!matches_query("thunder inbox", "thunderbird", "Inbox - Mail"));
}

#[test]
fn case_is_ignored() {
    assert!(matches_query("FIRE", "firefox", ""));
    assert!(matches_query("fire", "FireFox", ""));
    assert!(matches_query("FoX", "org.mozilla.FIREFOX", ""));
}

#[test]
fn only_ascii_letters_change_case() {
    assert!(!matches_query("ä", "Ä", ""));
    assert!(matches_query("Ä", "xÄy", ""));
}

#[test]
fn words_are_split_at_ascii_white_space() {
    assert!(matches_query("fire\tfox", "firefox", ""));
    assert!(matches_query("  fox   fire  ", "firefox", ""));
    assert!(matches_query("fire\r\nfox", "firefox", ""));
    assert!(matches_query("fire\x0Cfox", "firefox", ""));
    assert!(!matches_query("fire\u{a0}fox", "firefox", ""));
}

#[test]
fn a_word_longer_than_the_text_does_not_match() {
    assert!(!matches_query("firefoxes", "firefox", "fox"));
}

#[test]
fn a_word_at_the_end_of_the_text_matches() {
    assert!(matches_query("fox", "firefox", ""));
    assert!(matches_query("x", "firefox", ""));
    assert!(!matches_query("xf", "firefox", ""));
}

#[test]
fn lower_case_of_characters() {
    assert_eq!(lower_char('A'), 'a');
    assert_eq!(lower_char('Z'), 'z');
    assert_eq!(lower_char('m'), 'm');
    assert_eq!(lower_char('@'), '@');
    assert_eq!(lower_char('['), '[');
    assert_eq!(lower_char('É'), 'É');
    assert_eq!(lowercase_chars("Fire Fox 9"), chars("fire fox 9"));
}

#[test]
fn white_space_characters() {
    for c in [' ', '\t', '\n', '\x0C', '\r'] {
        assert!(space_char(c));
    }
    for c in ['a', '\x0B', '\u{a0}', '0'] {
        assert!(!space_char(c));
    }
}

#[test]
fn holds_all_words_takes_texts_as_they_stand() {
    assert!(holds_all_words(&chars("firefox"), &chars("fox fire")));
    assert!(!holds_all_words(&chars("firefox"), &chars("Fox")));
    assert!(holds_all_words(&chars(""), &chars("")));
    assert!(holds_all_words(&chars(""), &chars("   ")));
    assert!(!holds_all_words(&chars(""), &chars("a")));
}

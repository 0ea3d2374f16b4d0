use nostr_vanity::generator::{validate_bech32_chars, NostrKeyPair};
use nostr_vanity::matcher::{MatchType, Pattern, PatternMatcher};

fn pair(npub: &str) -> NostrKeyPair {
    NostrKeyPair { npub: npub.to_string(), nsec: "nsec1x".to_string(), hex_pubkey: "00".to_string() }
}

#[test]
fn test_validate_bech32_chars() {
    assert!(validate_bech32_chars("test"));
    assert!(validate_bech32_chars("023"));
    assert!(!validate_bech32_chars("test1"));
    assert!(!validate_bech32_chars("TEST"));
    assert!(!validate_bech32_chars("bio"));
}

#[test]
fn test_pattern_matching() {
    let pattern = Pattern::new("test".to_string(), MatchType::Prefix, false);
    assert!(pattern.matches("npub1test123456"));
    assert!(!pattern.matches("npub1abc123456"));

    let pattern = Pattern::new("end".to_string(), MatchType::Suffix, false);
    assert!(pattern.matches("npub1123456end"));
    assert!(!pattern.matches("npub1123456abc"));

    let pattern = Pattern::new("mid".to_string(), MatchType::Contains, false);
    assert!(pattern.matches("npub1123mid456"));
    assert!(!pattern.matches("npub1123456789"));
}

#[test]
fn validation_accepts_whole_alphabet_and_empty() {
    assert!(validate_bech32_chars("023456789acdefghjklmnpqrstuvwxyz"));
    assert!(validate_bech32_chars(""));
    for c in ['1', 'b', 'i', 'o', 'A', ' ', '\u{e9}'] {
        assert!(!validate_bech32_chars(&format!("ac{}", c)));
    }
}

#[test]
fn prefix_is_checked_after_scheme_tag() {
    let pattern = Pattern::new("npub".to_string(), MatchType::Prefix, false);
    assert!(!pattern.matches("npub1qqqq"));
    let pattern = Pattern::new("q".to_string(), MatchType::Prefix, false);
    assert!(pattern.matches("npub1qqqq"));
    assert!(!pattern.matches("npub1"));
}

#[test]
fn case_insensitive_lowercases_value_and_identifier() {
    let pattern = Pattern::new("AC".to_string(), MatchType::Prefix, false);
    assert_eq!(pattern.value, "ac");
    assert!(pattern.matches("npub1ACdc"));
    assert!(pattern.matches("npub1acdc"));
}

#[test]
fn case_sensitive_keeps_value() {
    let pattern = Pattern::new("AC".to_string(), MatchType::Prefix, true);
    assert_eq!(pattern.value, "AC");
    assert!(pattern.matches("npub1ACdc"));
    assert!(!pattern.matches("npub1acdc"));
}

#[test]
fn normalization_order_does_not_matter() {
    let pattern = Pattern::new("xy".to_string(), MatchType::Suffix, false);
    let id = "NPUB1QQXY";
    let stripped_first = pattern.matches(id);
    let lowered = id.to_lowercase();
    let lowered_first = lowered[5..].ends_with(&pattern.value);
    assert_eq!(stripped_first, lowered_first);
    assert!(stripped_first);
}

#[test]
fn same_input_gives_same_pattern() {
    let a = Pattern::new("Dev".to_string(), MatchType::Contains, false);
    let b = Pattern::new("Dev".to_string(), MatchType::Contains, false);
    assert_eq!(a.value, b.value);
    for id in ["npub1qqdevqq", "npub1DEV", "npub1qq", "npub1dexv"] {
        assert_eq!(a.matches(id), b.matches(id));
    }
    let again = Pattern::new(a.value.clone(), MatchType::Contains, false);
    assert_eq!(again.value, a.value);
}

#[test]
fn find_match_returns_first_pattern_in_order() {
    let m = PatternMatcher::from_strings(
        vec!["zz".to_string(), "ac".to_string(), "a".to_string()],
        MatchType::Prefix,
        false,
    );
    let found = m.find_match(&pair("npub1acq")).unwrap();
    assert_eq!(found.value, "ac");
    let found = m.find_match(&pair("npub1aq")).unwrap();
    assert_eq!(found.value, "a");
    assert!(m.find_match(&pair("npub1qqq")).is_none());
}

#[test]
fn empty_matcher_finds_nothing() {
    let m = PatternMatcher::from_strings(vec![], MatchType::Contains, false);
    assert!(m.find_match(&pair("npub1acq")).is_none());
}

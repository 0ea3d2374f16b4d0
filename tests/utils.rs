use nostr_vanity::generator::NostrKeyPair;
use nostr_vanity::matcher::{MatchType, Pattern};
use nostr_vanity::utils::{
    expected_attempts, parse_patterns_string, pattern_from_line, TimeUnit, VanityResult,
};

fn result(attempts: u64, secs: &str, speed: &str) -> VanityResult {
    VanityResult {
        keypair: NostrKeyPair {
            npub: "npub1acq".to_string(),
            nsec: "nsec1zz".to_string(),
            hex_pubkey: "ab01".to_string(),
        },
        matched_pattern: Pattern::new("ac".to_string(), MatchType::Prefix, false),
        attempts,
        elapsed_seconds: secs.to_string(),
        keys_per_sec: speed.to_string(),
    }
}

#[test]
fn parse_splits_trims_and_drops_empty() {
    assert_eq!(parse_patterns_string(" ac, ,dd,,  q "), vec!["ac", "dd", "q"]);
    assert_eq!(parse_patterns_string(""), Vec::<String>::new());
    assert_eq!(parse_patterns_string(",,"), Vec::<String>::new());
    assert_eq!(parse_patterns_string("single"), vec!["single"]);
    assert_eq!(parse_patterns_string("\tx y ,z"), vec!["x y", "z"]);
}

#[test]
fn csv_row_has_fixed_columns() {
    assert_eq!(result(1234, "2.35", "526").format_csv(), "ac,npub1acq,nsec1zz,ab01,1234,2.35");
}

#[test]
fn output_block_is_exact() {
    assert_eq!(
        result(5000, "2.00", "2500").format_output(),
        "\u{2728} Found vanity address!\nPattern: ac\nnpub: npub1acq\nnsec: nsec1zz\nHex pubkey: ab01\nAttempts: 5000\nTime: 2.00s\nSpeed: 2500 keys/sec\n---"
    );
}

#[test]
fn expected_attempts_is_half_the_space() {
    assert_eq!(expected_attempts(1), Some(16));
    assert_eq!(expected_attempts(3), Some(16384));
    assert_eq!(expected_attempts(25), Some(1u128 << 124));
    assert_eq!(expected_attempts(0), None);
    assert_eq!(expected_attempts(26), None);
}

#[test]
fn estimate_for_three_chars_on_four_cores() {
    let attempts = expected_attempts(3).unwrap();
    let rate: u128 = 400_000;
    let unit = TimeUnit::for_seconds((attempts / rate) as u64);
    assert_eq!(unit, TimeUnit::Seconds);
    assert_eq!(unit.name(), "seconds");
}

#[test]
fn time_unit_thresholds() {
    assert_eq!(TimeUnit::for_seconds(59), TimeUnit::Seconds);
    assert_eq!(TimeUnit::for_seconds(60), TimeUnit::Minutes);
    assert_eq!(TimeUnit::for_seconds(3599), TimeUnit::Minutes);
    assert_eq!(TimeUnit::for_seconds(3600), TimeUnit::Hours);
    assert_eq!(TimeUnit::for_seconds(86399), TimeUnit::Hours);
    assert_eq!(TimeUnit::for_seconds(86400), TimeUnit::Days);
    assert_eq!(TimeUnit::for_seconds(31535999), TimeUnit::Days);
    assert_eq!(TimeUnit::for_seconds(31536000), TimeUnit::Years);
    assert_eq!(TimeUnit::Years.seconds(), 31536000);
    assert_eq!(TimeUnit::Minutes.seconds(), 60);
}

#[test]
fn pattern_lines_skip_blanks_and_comments() {
    assert_eq!(pattern_from_line("  ac  "), Some("ac".to_string()));
    assert_eq!(pattern_from_line("   "), None);
    assert_eq!(pattern_from_line(""), None);
    assert_eq!(pattern_from_line("  # note"), None);
    assert_eq!(pattern_from_line("a#c"), Some("a#c".to_string()));
}

#[test]
fn parse_trims_unicode_whitespace() {
    assert_eq!(parse_patterns_string(" acd, ,xyz ,"), vec!["acd", "xyz"]);
    assert_eq!(parse_patterns_string("\u{3000}ac\u{a0},\r\n"), vec!["ac"]);
}

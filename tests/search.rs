use nostr_vanity::generator::{validate_bech32_chars, GenerationError, NostrKeyPair};
use nostr_vanity::matcher::{MatchType, PatternMatcher};
use nostr_vanity::search::{monitor_continues, scan_candidate, sink_takes_more, SearchState, BATCH_SIZE};
use nostr_vanity::utils::{validate_patterns, PatternError};

fn pair(npub: &str) -> Result<NostrKeyPair, GenerationError> {
    Ok(NostrKeyPair { npub: npub.to_string(), nsec: "nsec1x".to_string(), hex_pubkey: "00".to_string() })
}

fn matcher() -> PatternMatcher {
    PatternMatcher::from_strings(vec!["ac".to_string(), "dd".to_string()], MatchType::Prefix, false)
}

fn batch() -> Vec<Result<NostrKeyPair, GenerationError>> {
    vec![pair("npub1qq"), pair("npub1ddx"), Err(GenerationError), pair("npub1acx"), pair("npub1zz")]
}

#[test]
fn scan_candidate_reports_pattern() {
    let m = matcher();
    let e = scan_candidate(&m, &pair("npub1ddq"), 42).unwrap();
    assert_eq!(e.attempts, 42);
    assert_eq!(e.pattern.value, "dd");
    assert_eq!(e.keypair.npub, "npub1ddq");
    assert!(scan_candidate(&m, &pair("npub1qq"), 1).is_none());
    assert!(scan_candidate(&m, &Err(GenerationError), 1).is_none());
}

#[test]
fn continuous_batch_forwards_every_match() {
    let mut s = SearchState::new(true);
    let out = s.process_batch(&matcher(), &batch());
    assert_eq!(out.len(), 2);
    assert_eq!(out[0].keypair.npub, "npub1ddx");
    assert_eq!(out[1].keypair.npub, "npub1acx");
    assert_eq!(s.attempts, 5);
    assert!(s.found);
    assert!(s.keep_going());
}

#[test]
fn single_shot_batch_forwards_lowest_slot_only() {
    let mut s = SearchState::new(false);
    let out = s.process_batch(&matcher(), &batch());
    assert_eq!(out.len(), 1);
    assert_eq!(out[0].keypair.npub, "npub1ddx");
    assert_eq!(out[0].pattern.value, "dd");
    assert_eq!(out[0].attempts, 5);
    assert_eq!(s.attempts, 5);
    assert!(!s.keep_going());
    let again = s.process_batch(&matcher(), &batch());
    assert!(again.is_empty());
    assert_eq!(s.attempts, 5);
}

#[test]
fn failed_generation_still_counts() {
    let mut s = SearchState::new(false);
    let out = s.process_batch(&matcher(), &vec![Err(GenerationError), Err(GenerationError)]);
    assert!(out.is_empty());
    assert_eq!(s.attempts, 2);
    assert!(!s.found);
}

#[test]
fn continuous_run_emits_every_matching_candidate() {
    let mut s = SearchState::new(true);
    let batches = vec![batch(), vec![pair("npub1acq")], vec![], batch()];
    let out = s.run_batches(&matcher(), &batches);
    assert_eq!(out.len(), 5);
    assert_eq!(s.attempts, 11);
    let counts: Vec<u64> = out.iter().map(|e| e.attempts).collect();
    assert_eq!(counts, vec![5, 5, 6, 11, 11]);
}

#[test]
fn single_shot_run_stops_after_first_match() {
    let mut s = SearchState::new(false);
    let batches = vec![vec![pair("npub1qq")], vec![pair("npub1zz"), pair("npub1acq")], batch()];
    let out = s.run_batches(&matcher(), &batches);
    assert_eq!(out.len(), 1);
    assert_eq!(out[0].keypair.npub, "npub1acq");
    assert_eq!(s.attempts, 3);
}

#[test]
fn single_shot_run_without_match_uses_all_batches() {
    let mut s = SearchState::new(false);
    let batches = vec![vec![pair("npub1qq")], vec![pair("npub1zz")]];
    let out = s.run_batches(&matcher(), &batches);
    assert!(out.is_empty());
    assert_eq!(s.attempts, 2);
    assert!(!s.found);
}

#[test]
fn sink_and_monitor_decisions() {
    assert!(sink_takes_more(false, 0));
    assert!(!sink_takes_more(false, 1));
    assert!(sink_takes_more(true, 7));
    assert!(monitor_continues(false, false, 10_000));
    assert!(!monitor_continues(true, false, 0));
    assert!(monitor_continues(true, true, 3600));
    assert!(!monitor_continues(false, true, 3601));
}

#[test]
fn invalid_pattern_rejected_before_search() {
    match validate_patterns(&vec!["BIO".to_string()]) {
        Err(PatternError::InvalidPattern(p)) => assert_eq!(p, "BIO"),
        other => panic!("unexpected {:?}", other),
    }
    match validate_patterns(&vec!["ac".to_string(), "abc".to_string(), "x1".to_string()]) {
        Err(PatternError::InvalidPattern(p)) => assert_eq!(p, "abc"),
        other => panic!("unexpected {:?}", other),
    }
    assert!(matches!(validate_patterns(&vec![]), Err(PatternError::EmptyPatternSet)));
    assert!(validate_patterns(&vec!["ac".to_string(), "qz".to_string()]).is_ok());
}

#[test]
fn single_shot_search_finds_prefix_end_to_end() {
    let patterns = vec!["ac".to_string()];
    assert!(validate_patterns(&patterns).is_ok());
    let m = PatternMatcher::from_strings(patterns, MatchType::Prefix, false);
    let mut s = SearchState::new(false);
    let mut events = Vec::new();
    while s.keep_going() {
        let b: Vec<_> = (0..BATCH_SIZE / 10).map(|_| NostrKeyPair::generate()).collect();
        events.extend(s.process_batch(&m, &b));
    }
    assert_eq!(events.len(), 1);
    assert!(events[0].keypair.npub[5..].starts_with("ac"));
    assert!(s.attempts >= 1);
    assert!(validate_bech32_chars(&events[0].keypair.npub[5..]));
}

#[test]
fn single_shot_attempts_cover_batches_through_first_match() {
    let mut s = SearchState::new(false);
    let batches = vec![vec![pair("npub1qq"), pair("npub1zz")], vec![pair("npub1zz"), pair("npub1ddq"), pair("npub1acq")], batch()];
    let out = s.run_batches(&matcher(), &batches);
    assert_eq!(out.len(), 1);
    assert_eq!(out[0].pattern.value, "dd");
    assert!(out[0].keypair.npub[5..].starts_with(&out[0].pattern.value));
    assert_eq!(s.attempts, 5);
    assert_eq!(out[0].attempts, 5);
}

//! Pattern lists from text, checks before a search starts, the records of a
//! match, and the arithmetic of the time estimate.
use vstd::prelude::*;
use vstd::string::StrSliceExecFns;
use crate::generator::{all_in_alphabet, validate_bech32_chars, NostrKeyPair};
use crate::matcher::Pattern;
use vstd::string::StringExecFns;
use crate::text::{trim, trim_of};

verus! {

/// The pieces of `s` between commas, as `str::split(',')` yields them: one
/// piece more than there are commas.
pub open spec fn comma_pieces(s: Seq<char>) -> Seq<Seq<char>>
    decreases s.len(),
{
    if s.len() == 0 {
        seq![Seq::empty()]
    } else {
        let p = comma_pieces(s.drop_last());
        if s.last() == ',' {
            p.push(Seq::empty())
        } else {
            p.update(p.len() - 1, p.last().push(s.last()))
        }
    }
}

/// The trimmed pieces that are not empty, in order.
pub open spec fn kept_pieces(pieces: Seq<Seq<char>>) -> Seq<Seq<char>>
    decreases pieces.len(),
{
    if pieces.len() == 0 {
        Seq::empty()
    } else {
        let rest = kept_pieces(pieces.drop_last());
        let t = trim_of(pieces.last());
        if t.len() > 0 {
            rest.push(t)
        } else {
            rest
        }
    }
}

/// The patterns that a comma-separated list names.
pub open spec fn patterns_of(s: Seq<char>) -> Seq<Seq<char>> {
    kept_pieces(comma_pieces(s))
}

pub open spec fn string_views(v: Seq<String>) -> Seq<Seq<char>> {
    v.map_values(|x: String| x@)
}

proof fn lemma_comma_pieces_nonempty(s: Seq<char>)
    ensures
        comma_pieces(s).len() >= 1,
    decreases s.len(),
{
    if s.len() > 0 {
        lemma_comma_pieces_nonempty(s.drop_last());
    }
}

/// Splits a comma-separated list of patterns, trims each, and drops the empty
/// ones.
pub fn parse_patterns_string(input: &str) -> (r: Vec<String>)
    ensures
        string_views(r@) == patterns_of(input@),
{
    let n = input.unicode_len();
    let mut out: Vec<String> = Vec::new();
    let mut start: usize = 0;
    let mut i: usize = 0;
    proof {
        assert(input@.take(0) =~= Seq::<char>::empty());
        assert(comma_pieces(Seq::<char>::empty()) =~= seq![Seq::<char>::empty()]);
        assert(comma_pieces(Seq::<char>::empty()).drop_last() =~= Seq::<Seq<char>>::empty());
    }
    while i < n
        invariant
            n == input@.len(),
            start <= i <= n,
            comma_pieces(input@.take(i as int)).len() >= 1,
            comma_pieces(input@.take(i as int)).last() == input@.subrange(start as int, i as int),
            string_views(out@) == kept_pieces(comma_pieces(input@.take(i as int)).drop_last()),
        decreases n - i,
    {
        let c = input.get_char(i);
        let ghost p = comma_pieces(input@.take(i as int));
        proof {
            assert(input@.take(i + 1).drop_last() =~= input@.take(i as int));
            assert(input@.take(i + 1).last() == c);
        }
        if c == ',' {
            let piece = input.substring_char(start, i);
            let t = trim(piece);
            let ghost done = p.drop_last();
            proof {
                assert(comma_pieces(input@.take(i + 1)).drop_last() =~= p);
                assert(p =~= done.push(p.last()));
                assert(p.drop_last() =~= done);
            }
            if !t.as_str().is_empty() {
                out.push(t);
                proof {
                    assert(string_views(out@) =~= string_views(out@.drop_last()).push(t@));
                }
            }
            start = i + 1;
            proof {
                assert(input@.subrange(start as int, i + 1) =~= Seq::<char>::empty());
            }
        } else {
            proof {
                assert(comma_pieces(input@.take(i + 1)).drop_last() =~= p.drop_last());
                assert(input@.subrange(start as int, i + 1) =~= input@.subrange(start as int, i as int).push(c));
            }
        }
        i = i + 1;
    }
    let piece = input.substring_char(start, n);
    let t = trim(piece);
    let ghost p = comma_pieces(input@.take(n as int));
    proof {
        assert(input@.take(n as int) =~= input@);
        assert(p =~= p.drop_last().push(p.last()));
    }
    if !t.as_str().is_empty() {
        out.push(t);
        proof {
            assert(string_views(out@) =~= string_views(out@.drop_last()).push(t@));
        }
    }
    out
}

/// Why a set of patterns cannot start a search.
#[derive(Debug, Clone)]
pub enum PatternError {
    /// No pattern was given.
    EmptyPatternSet,
    /// This pattern holds a character outside the encoding alphabet.
    InvalidPattern(String),
}

/// The position of the first pattern that holds a character outside the
/// alphabet.
pub open spec fn first_invalid(ps: Seq<Seq<char>>) -> Option<int>
    decreases ps.len(),
{
    if ps.len() == 0 {
        None
    } else if !all_in_alphabet(ps[0]) {
        Some(0)
    } else {
        match first_invalid(ps.drop_first()) {
            Some(i) => Some(i + 1),
            None => None,
        }
    }
}

/// Checks a list of patterns before any search work: it must not be empty,
/// and every pattern must be drawn from the encoding alphabet.
pub fn validate_patterns(patterns: &Vec<String>) -> (r: Result<(), PatternError>)
    ensures
        patterns@.len() == 0 ==> r matches Err(PatternError::EmptyPatternSet),
        patterns@.len() > 0 ==> match first_invalid(string_views(patterns@)) {
            Some(i) => r matches Err(PatternError::InvalidPattern(p)) && p@ == patterns@[i]@,
            None => r is Ok,
        },
{
    if patterns.len() == 0 {
        return Err(PatternError::EmptyPatternSet);
    }
    let ghost all = string_views(patterns@);
    let mut i: usize = 0;
    proof {
        assert(all.skip(0) =~= all);
    }
    while i < patterns.len()
        invariant
            i <= patterns@.len(),
            all == string_views(patterns@),
            first_invalid(all) == match first_invalid(all.skip(i as int)) {
                Some(k) => Some(k + i),
                None => None::<int>,
            },
        decreases patterns@.len() - i,
    {
        proof {
            assert(all.skip(i as int)[0] == patterns@[i as int]@);
            assert(all.skip(i as int).drop_first() =~= all.skip(i + 1));
        }
        if !validate_bech32_chars(patterns[i].as_str()) {
            return Err(PatternError::InvalidPattern(patterns[i].clone()));
        }
        i = i + 1;
    }
    proof {
        assert(all.skip(i as int).len() == 0);
    }
    Ok(())
}

/// The decimal digit of a value below 10.
pub open spec fn digit(d: nat) -> char {
    ((48 + d) as u8) as char
}

/// Decimal text of a natural number, without leading zeros.
pub open spec fn decimal_of(n: nat) -> Seq<char>
    decreases n,
{
    if n < 10 {
        seq![digit(n)]
    } else {
        decimal_of(n / 10).push(digit(n % 10))
    }
}

/// Relies on the `Display` impl of `u128`: decimal digits without leading zeros.
#[verifier::external_body]
fn decimal(n: u128) -> (r: String)
    ensures
        r@ == decimal_of(n as nat),
{
    n.to_string()
}

/// A match together with the count and time at which it was found.
pub struct VanityResult {
    pub keypair: NostrKeyPair,
    pub matched_pattern: Pattern,
    pub attempts: u64,
    /// Seconds since the search started, with two decimals.
    pub elapsed_seconds: String,
    /// Keys per second over that time, as a whole number.
    pub keys_per_sec: String,
}

impl VanityResult {
    /// The human-readable record.
    pub open spec fn output_text(&self) -> Seq<char> {
        "\u{2728} Found vanity address!\nPattern: "@ + self.matched_pattern.value@
            + "\nnpub: "@ + self.keypair.npub@
            + "\nnsec: "@ + self.keypair.nsec@
            + "\nHex pubkey: "@ + self.keypair.hex_pubkey@
            + "\nAttempts: "@ + decimal_of(self.attempts as nat)
            + "\nTime: "@ + self.elapsed_seconds@
            + "s\nSpeed: "@ + self.keys_per_sec@
            + " keys/sec\n---"@
    }

    /// The CSV row: pattern, npub, nsec, hex public key, attempts, seconds.
    pub open spec fn csv_text(&self) -> Seq<char> {
        self.matched_pattern.value@ + ","@ + self.keypair.npub@ + ","@ + self.keypair.nsec@
            + ","@ + self.keypair.hex_pubkey@ + ","@ + decimal_of(self.attempts as nat)
            + ","@ + self.elapsed_seconds@
    }

    pub fn format_output(&self) -> (r: String)
        ensures
            r@ == self.output_text(),
    {
        let mut s = String::from_str("\u{2728} Found vanity address!\nPattern: ");
        s.append(self.matched_pattern.value.as_str());
        s.append("\nnpub: ");
        s.append(self.keypair.npub.as_str());
        s.append("\nnsec: ");
        s.append(self.keypair.nsec.as_str());
        s.append("\nHex pubkey: ");
        s.append(self.keypair.hex_pubkey.as_str());
        s.append("\nAttempts: ");
        s.append(decimal(self.attempts as u128).as_str());
        s.append("\nTime: ");
        s.append(self.elapsed_seconds.as_str());
        s.append("s\nSpeed: ");
        s.append(self.keys_per_sec.as_str());
        s.append(" keys/sec\n---");
        s
    }

    pub fn format_csv(&self) -> (r: String)
        ensures
            r@ == self.csv_text(),
    {
        let mut s = self.matched_pattern.value.clone();
        s.append(",");
        s.append(self.keypair.npub.as_str());
        s.append(",");
        s.append(self.keypair.nsec.as_str());
        s.append(",");
        s.append(self.keypair.hex_pubkey.as_str());
        s.append(",");
        s.append(decimal(self.attempts as u128).as_str());
        s.append(",");
        s.append(self.elapsed_seconds.as_str());
        s
    }
}

/// Size of the encoding alphabet.
pub const ALPHABET_SIZE: u128 = 32;

/// Longest pattern whose expected number of attempts fits in a `u128`.
pub const MAX_EXACT_LENGTH: u32 = 25;

pub open spec fn pow32(n: nat) -> nat
    decreases n,
{
    if n == 0 {
        1
    } else {
        32 * pow32((n - 1) as nat)
    }
}

proof fn lemma_pow32_monotone(a: nat, b: nat)
    requires
        a <= b,
    ensures
        pow32(a) <= pow32(b),
    decreases b,
{
    if a < b {
        lemma_pow32_monotone(a, (b - 1) as nat);
    }
}

/// Expected attempts to find a pattern of the given length: half the number
/// of strings of that length over the alphabet, `32^len / 2`; `None` for the
/// empty pattern and where the count does not fit in a `u128`.
pub fn expected_attempts(pattern_length: u32) -> (r: Option<u128>)
    ensures
        r == if 1 <= pattern_length <= MAX_EXACT_LENGTH {
            Some((pow32(pattern_length as nat) / 2) as u128)
        } else {
            None::<u128>
        },
{
    if pattern_length == 0 || pattern_length > MAX_EXACT_LENGTH {
        return None;
    }
    proof {
        reveal_with_fuel(pow32, 26);
        assert(pow32(24) == 1329227995784915872903807060280344576);
    }
    let mut acc: u128 = 1;
    let mut i: u32 = 0;
    while i < pattern_length
        invariant
            i <= pattern_length <= MAX_EXACT_LENGTH,
            acc == pow32(i as nat),
            pow32(24) == 1329227995784915872903807060280344576,
        decreases pattern_length - i,
    {
        proof {
            lemma_pow32_monotone(i as nat, 24);
        }
        acc = acc * ALPHABET_SIZE;
        i = i + 1;
    }
    Some(acc / 2)
}

/// The unit in which an estimated time is shown.
#[derive(Debug, Clone, Copy, PartialEq, Eq, Structural)]
pub enum TimeUnit {
    Seconds,
    Minutes,
    Hours,
    Days,
    Years,
}

impl TimeUnit {
    /// Under a minute in seconds, under an hour in minutes, under a day in
    /// hours, under a year of 365 days in days, else in years.
    pub open spec fn spec_for_seconds(secs: nat) -> TimeUnit {
        if secs < 60 {
            TimeUnit::Seconds
        } else if secs < 3600 {
            TimeUnit::Minutes
        } else if secs < 86400 {
            TimeUnit::Hours
        } else if secs < 31536000 {
            TimeUnit::Days
        } else {
            TimeUnit::Years
        }
    }

    pub open spec fn spec_seconds(self) -> nat {
        match self {
            TimeUnit::Seconds => 1,
            TimeUnit::Minutes => 60,
            TimeUnit::Hours => 3600,
            TimeUnit::Days => 86400,
            TimeUnit::Years => 31536000,
        }
    }

    /// The unit for a time of `whole_seconds` full seconds and any fraction.
    pub fn for_seconds(whole_seconds: u64) -> (r: TimeUnit)
        ensures
            r == Self::spec_for_seconds(whole_seconds as nat),
    {
        if whole_seconds < 60 {
            TimeUnit::Seconds
        } else if whole_seconds < 3600 {
            TimeUnit::Minutes
        } else if whole_seconds < 86400 {
            TimeUnit::Hours
        } else if whole_seconds < 31536000 {
            TimeUnit::Days
        } else {
            TimeUnit::Years
        }
    }

    /// Seconds in one of this unit.
    pub fn seconds(self) -> (r: u64)
        ensures
            r == self.spec_seconds(),
    {
        match self {
            TimeUnit::Seconds => 1,
            TimeUnit::Minutes => 60,
            TimeUnit::Hours => 3600,
            TimeUnit::Days => 86400,
            TimeUnit::Years => 31536000,
        }
    }

    pub open spec fn spec_name(self) -> Seq<char> {
        match self {
            TimeUnit::Seconds => "seconds"@,
            TimeUnit::Minutes => "minutes"@,
            TimeUnit::Hours => "hours"@,
            TimeUnit::Days => "days"@,
            TimeUnit::Years => "years"@,
        }
    }

    /// The unit's name in the estimate.
    pub fn name(self) -> (r: &'static str)
        ensures
            r@ == self.spec_name(),
    {
        match self {
            TimeUnit::Seconds => "seconds",
            TimeUnit::Minutes => "minutes",
            TimeUnit::Hours => "hours",
            TimeUnit::Days => "days",
            TimeUnit::Years => "years",
        }
    }
}

/// Header row of a CSV results file.
pub const CSV_HEADER: &'static str = "pattern,npub,nsec,hex_pubkey,attempts,time_seconds";

/// The pattern that one line of a patterns file holds: the trimmed line,
/// unless it is empty or a comment starting with `#`.
pub open spec fn line_pattern(line: Seq<char>) -> Option<Seq<char>> {
    let t = trim_of(line);
    if t.len() == 0 || t[0] == '#' {
        None
    } else {
        Some(t)
    }
}

pub fn pattern_from_line(line: &str) -> (r: Option<String>)
    ensures
        match line_pattern(line@) {
            Some(t) => r matches Some(s) && s@ == t,
            None => r is None,
        },
{
    let t = trim(line);
    if t.as_str().is_empty() || t.as_str().get_char(0) == '#' {
        None
    } else {
        Some(t)
    }
}

} // verus!

//! Match rules and the ordered list of rules that a candidate is tested against.
use vstd::prelude::*;
use vstd::string::StrSliceExecFns;
use crate::generator::NostrKeyPair;
use crate::text::{all_ascii, ascii_lower, lowercase, lowered, starts_with, ends_with, contains, occurs_in};

verus! {

/// Length of the scheme tag (`npub1`) that precedes the encoded key.
pub const PREFIX_LEN: usize = 5;

#[derive(Debug, Clone, Copy, PartialEq, Eq, Structural)]
pub enum MatchType {
    Prefix,
    Suffix,
    Contains,
}

#[derive(Debug, Clone)]
pub struct Pattern {
    pub value: String,
    pub match_type: MatchType,
    pub case_sensitive: bool,
}

/// A pattern as a mathematical value.
pub struct PatternView {
    pub value: Seq<char>,
    pub match_type: MatchType,
    pub case_sensitive: bool,
}

impl View for Pattern {
    type V = PatternView;

    open spec fn view(&self) -> PatternView {
        PatternView { value: self.value@, match_type: self.match_type, case_sensitive: self.case_sensitive }
    }
}

/// Whether `value` stands in `text` as the match kind asks.
pub open spec fn rule_holds(kind: MatchType, text: Seq<char>, value: Seq<char>) -> bool {
    match kind {
        MatchType::Prefix => value.is_prefix_of(text),
        MatchType::Suffix => value.is_suffix_of(text),
        MatchType::Contains => occurs_in(value, text),
    }
}

/// The text as it is compared: lowercased unless matching is case-sensitive.
pub open spec fn normalized(case_sensitive: bool, text: Seq<char>) -> Seq<char> {
    if case_sensitive {
        text
    } else {
        lowered(text)
    }
}

/// The pattern built from raw user input.
pub open spec fn pattern_spec(value: Seq<char>, match_type: MatchType, case_sensitive: bool) -> PatternView {
    PatternView { value: normalized(case_sensitive, value), match_type, case_sensitive }
}

impl PatternView {
    /// The identifier `npub` satisfies this pattern: its part after the scheme
    /// tag, normalized, holds the value as the match kind asks.
    pub open spec fn matches(self, npub: Seq<char>) -> bool {
        rule_holds(
            self.match_type,
            normalized(self.case_sensitive, npub.skip(PREFIX_LEN as int)),
            self.value,
        )
    }
}

impl Pattern {
    pub fn new(value: String, match_type: MatchType, case_sensitive: bool) -> (r: Self)
        ensures
            r@ == pattern_spec(value@, match_type, case_sensitive),
    {
        let value = if case_sensitive {
            value
        } else {
            lowercase(value.as_str())
        };
        Pattern { value, match_type, case_sensitive }
    }

    pub fn matches(&self, npub: &str) -> (r: bool)
        requires
            npub@.len() >= PREFIX_LEN,
        ensures
            r == self@.matches(npub@),
    {
        let n = npub.unicode_len();
        let rest = npub.substring_char(PREFIX_LEN, n);
        assert(rest@ == npub@.skip(PREFIX_LEN as int));
        let compare = if self.case_sensitive {
            rest.to_owned()
        } else {
            lowercase(rest)
        };
        match self.match_type {
            MatchType::Prefix => starts_with(compare.as_str(), self.value.as_str()),
            MatchType::Suffix => ends_with(compare.as_str(), self.value.as_str()),
            MatchType::Contains => contains(compare.as_str(), self.value.as_str()),
        }
    }

    /// A copy of this pattern.
    pub fn duplicate(&self) -> (r: Self)
        ensures
            r@ == self@,
    {
        Pattern { value: self.value.clone(), match_type: self.match_type, case_sensitive: self.case_sensitive }
    }
}

pub struct PatternMatcher {
    patterns: Vec<Pattern>,
}

/// The index of the first pattern, in list order, that `npub` satisfies.
pub open spec fn first_match(patterns: Seq<PatternView>, npub: Seq<char>) -> Option<int>
    decreases patterns.len(),
{
    if patterns.len() == 0 {
        None
    } else if patterns[0].matches(npub) {
        Some(0)
    } else {
        match first_match(patterns.drop_first(), npub) {
            Some(i) => Some(i + 1),
            None => None,
        }
    }
}

/// An index found in a tail of a list, as an index of the whole list.
pub open spec fn shifted(found: Option<int>, offset: int) -> Option<int> {
    match found {
        Some(k) => Some(k + offset),
        None => None,
    }
}

pub open spec fn any_match(patterns: Seq<PatternView>, npub: Seq<char>) -> bool {
    exists|i: int| 0 <= i < patterns.len() && #[trigger] patterns[i].matches(npub)
}

impl View for PatternMatcher {
    type V = Seq<PatternView>;

    closed spec fn view(&self) -> Seq<PatternView> {
        self.patterns@.map_values(|p: Pattern| p@)
    }
}

impl PatternMatcher {
    pub fn from_strings(values: Vec<String>, match_type: MatchType, case_sensitive: bool) -> (r: Self)
        ensures
            r@.len() == values@.len(),
            forall|i: int|
                0 <= i < values@.len() ==> r@[i] == pattern_spec(#[trigger] values@[i]@, match_type, case_sensitive),
    {
        let mut patterns: Vec<Pattern> = Vec::new();
        let mut i: usize = 0;
        while i < values.len()
            invariant
                i <= values@.len(),
                patterns@.len() == i,
                forall|j: int|
                    0 <= j < i ==> (#[trigger] patterns@[j])@ == pattern_spec(values@[j]@, match_type, case_sensitive),
            decreases values@.len() - i,
        {
            let v = values[i].clone();
            patterns.push(Pattern::new(v, match_type, case_sensitive));
            i = i + 1;
        }
        PatternMatcher { patterns }
    }

    pub fn find_match(&self, keypair: &NostrKeyPair) -> (r: Option<Pattern>)
        requires
            keypair.npub@.len() >= PREFIX_LEN,
        ensures
            match first_match(self@, keypair.npub@) {
                Some(i) => r is Some && r->0@ == self@[i],
                None => r is None,
            },
    {
        let mut i: usize = 0;
        proof {
            assert(self@.skip(0) =~= self@);
        }
        while i < self.patterns.len()
            invariant
                i <= self.patterns@.len(),
                keypair.npub@.len() >= PREFIX_LEN,
                first_match(self@, keypair.npub@) == shifted(first_match(self@.skip(i as int), keypair.npub@), i as int),
            decreases self.patterns@.len() - i,
        {
            let p = &self.patterns[i];
            proof {
                assert(self@.skip(i as int)[0] == self@[i as int]);
                assert(self@.skip(i as int).drop_first() =~= self@.skip(i + 1));
            }
            if p.matches(keypair.npub.as_str()) {
                return Some(p.duplicate());
            }
            i = i + 1;
        }
        proof {
            assert(self@.skip(i as int).len() == 0);
        }
        None
    }
}

/// `first_match` finds a pattern exactly when some pattern matches, and the
/// one it finds matches.
pub proof fn lemma_first_match(patterns: Seq<PatternView>, npub: Seq<char>)
    ensures
        first_match(patterns, npub) is Some <==> any_match(patterns, npub),
        first_match(patterns, npub) matches Some(i) ==> 0 <= i < patterns.len() && patterns[i].matches(npub)
            && forall|j: int| 0 <= j < i ==> !(#[trigger] patterns[j]).matches(npub),
    decreases patterns.len(),
{
    if patterns.len() > 0 {
        lemma_first_match(patterns.drop_first(), npub);
        if any_match(patterns, npub) && !patterns[0].matches(npub) {
            let i = choose|i: int| 0 <= i < patterns.len() && #[trigger] patterns[i].matches(npub);
            assert(patterns.drop_first()[i - 1] == patterns[i]);
        }
        if first_match(patterns, npub) is Some && !patterns[0].matches(npub) {
            let k = first_match(patterns.drop_first(), npub)->0;
            assert(patterns.drop_first()[k] == patterns[k + 1]);
            assert forall|j: int| 0 <= j < k + 1 implies !(#[trigger] patterns[j]).matches(npub) by {
                if j > 0 {
                    assert(patterns.drop_first()[j - 1] == patterns[j]);
                }
            }
        }
    }
}

/// Matching gives the same answer whether the identifier is normalized after
/// the scheme tag is stripped or before: for every pattern and every ASCII
/// identifier, which is what the encoding produces.
pub proof fn lemma_normalize_commutes_with_strip(p: PatternView, npub: Seq<char>)
    requires
        npub.len() >= PREFIX_LEN,
        all_ascii(npub),
    ensures
        p.matches(npub) == rule_holds(
            p.match_type,
            normalized(p.case_sensitive, npub).skip(PREFIX_LEN as int),
            p.value,
        ),
{
    let rest = npub.skip(PREFIX_LEN as int);
    assert(all_ascii(rest));
    assert(rest.map_values(|c: char| ascii_lower(c)) =~= npub.map_values(|c: char| ascii_lower(c)).skip(
        PREFIX_LEN as int,
    ));
}

/// Building a pattern twice from the same input gives patterns that match
/// exactly the same identifiers; and building one from the value of a
/// case-insensitive pattern gives that pattern back.
pub proof fn lemma_new_is_idempotent(
    value: Seq<char>,
    match_type: MatchType,
    case_sensitive: bool,
    a: PatternView,
    b: PatternView,
    npub: Seq<char>,
)
    requires
        a == pattern_spec(value, match_type, case_sensitive),
        b == pattern_spec(value, match_type, case_sensitive),
    ensures
        a.matches(npub) == b.matches(npub),
        all_ascii(value) ==> pattern_spec(a.value, match_type, case_sensitive) == a,
{
    if all_ascii(value) && !case_sensitive {
        let once = value.map_values(|c: char| ascii_lower(c));
        assert(all_ascii(once));
        assert(once.map_values(|c: char| ascii_lower(c)) =~= once);
    }
}

} // verus!

//! The decisions of the search: when to start a batch, what a batch yields,
//! what is handed to the output, and when the output and the monitor stop.
use vstd::prelude::*;
use crate::generator::{GenerationError, NostrKeyPair};
use crate::matcher::{any_match, first_match, lemma_first_match, Pattern, PatternMatcher, PatternView, PREFIX_LEN};

verus! {

/// Number of candidates generated in one batch.
pub const BATCH_SIZE: usize = 10000;

/// Longest time, in seconds, that the throughput monitor runs in continuous mode.
pub const MONITOR_CEILING_SECS: u64 = 3600;

/// A candidate that satisfied a pattern, with the first pattern it satisfied
/// and the attempt count when its batch was counted.
pub struct SearchMatch {
    pub keypair: NostrKeyPair,
    pub pattern: Pattern,
    pub attempts: u64,
}

/// A match as a mathematical value: the key pair's texts and the pattern.
pub type MatchView = ((Seq<char>, Seq<char>, Seq<char>), PatternView);

impl View for SearchMatch {
    type V = MatchView;

    open spec fn view(&self) -> MatchView {
        (self.keypair.parts(), self.pattern@)
    }
}

/// The match that one generated candidate gives, if any.
pub open spec fn event_of(m: Seq<PatternView>, c: Result<NostrKeyPair, GenerationError>) -> Option<MatchView> {
    match c {
        Ok(kp) => match first_match(m, kp.npub@) {
            Some(i) => Some((kp.parts(), m[i])),
            None => None,
        },
        Err(_) => None,
    }
}

/// The matches of a batch, in the batch's order.
pub open spec fn found_in(m: Seq<PatternView>, b: Seq<Result<NostrKeyPair, GenerationError>>) -> Seq<MatchView>
    decreases b.len(),
{
    if b.len() == 0 {
        Seq::empty()
    } else {
        let rest = found_in(m, b.drop_last());
        match event_of(m, b.last()) {
            Some(e) => rest.push(e),
            None => rest,
        }
    }
}

/// The matches of a run of batches, batch after batch.
pub open spec fn found_in_all(
    m: Seq<PatternView>,
    bs: Seq<Vec<Result<NostrKeyPair, GenerationError>>>,
) -> Seq<MatchView>
    decreases bs.len(),
{
    if bs.len() == 0 {
        Seq::empty()
    } else {
        found_in_all(m, bs.drop_last()) + found_in(m, bs.last()@)
    }
}

/// The candidate was generated and its identifier satisfies at least one pattern.
pub open spec fn satisfies(m: Seq<PatternView>, c: Result<NostrKeyPair, GenerationError>) -> bool {
    c matches Ok(kp) && any_match(m, kp.npub@)
}

/// Number of candidates of a batch that satisfy at least one pattern.
pub open spec fn satisfying_count(m: Seq<PatternView>, b: Seq<Result<NostrKeyPair, GenerationError>>) -> nat
    decreases b.len(),
{
    if b.len() == 0 {
        0
    } else {
        satisfying_count(m, b.drop_last()) + if satisfies(m, b.last()) { 1nat } else { 0nat }
    }
}

/// Number of candidates of a run of batches that satisfy at least one pattern.
pub open spec fn satisfying_count_all(
    m: Seq<PatternView>,
    bs: Seq<Vec<Result<NostrKeyPair, GenerationError>>>,
) -> nat
    decreases bs.len(),
{
    if bs.len() == 0 {
        0
    } else {
        satisfying_count_all(m, bs.drop_last()) + satisfying_count(m, bs.last()@)
    }
}

/// Number of candidates in a run of batches.
pub open spec fn total_len(bs: Seq<Vec<Result<NostrKeyPair, GenerationError>>>) -> nat
    decreases bs.len(),
{
    if bs.len() == 0 {
        0
    } else {
        total_len(bs.drop_last()) + bs.last()@.len()
    }
}

/// Every generated identifier is long enough to hold the scheme tag.
pub open spec fn well_formed_batch(b: Seq<Result<NostrKeyPair, GenerationError>>) -> bool {
    forall|i: int| 0 <= i < b.len() ==> (#[trigger] b[i] matches Ok(kp) ==> kp.npub@.len() >= PREFIX_LEN)
}

pub open spec fn well_formed_batches(bs: Seq<Vec<Result<NostrKeyPair, GenerationError>>>) -> bool {
    forall|i: int| 0 <= i < bs.len() ==> well_formed_batch(#[trigger] bs[i]@)
}

/// What is handed to the output from matches found in one batch: all of them in
/// continuous mode, else the first one only (the lowest position in the batch).
pub open spec fn dispatched(continuous: bool, found: Seq<MatchView>) -> Seq<MatchView> {
    if continuous || found.len() == 0 {
        found
    } else {
        found.take(1)
    }
}

pub open spec fn views(v: Seq<SearchMatch>) -> Seq<MatchView> {
    v.map_values(|e: SearchMatch| e@)
}

/// The state shared by the search: attempts so far, whether a match was found,
/// and the mode.
pub struct SearchState {
    pub attempts: u64,
    pub found: bool,
    pub continuous: bool,
}

impl SearchState {
    /// Whether work goes on: always in continuous mode, else until a match.
    pub open spec fn keeps_going(&self) -> bool {
        self.continuous || !self.found
    }

    pub fn new(continuous: bool) -> (r: Self)
        ensures
            r.attempts == 0,
            !r.found,
            r.continuous == continuous,
    {
        SearchState { attempts: 0, found: false, continuous }
    }

    pub fn keep_going(&self) -> (r: bool)
        ensures
            r == self.keeps_going(),
    {
        self.continuous || !self.found
    }

    /// Counts a batch of generated candidates, tests each against the
    /// matcher, and returns what goes to the output. Nothing is attempted
    /// once a single-shot search has found its match.
    pub fn process_batch(
        &mut self,
        matcher: &PatternMatcher,
        batch: &Vec<Result<NostrKeyPair, GenerationError>>,
    ) -> (r: Vec<SearchMatch>)
        requires
            old(self).attempts + batch@.len() <= u64::MAX,
            well_formed_batch(batch@),
        ensures
            final(self).continuous == old(self).continuous,
            !old(self).keeps_going() ==> *final(self) == *old(self) && r@.len() == 0,
            old(self).keeps_going() ==> {
                &&& final(self).attempts == old(self).attempts + batch@.len()
                &&& final(self).found == (old(self).found || found_in(matcher@, batch@).len() > 0)
                &&& views(r@) == dispatched(old(self).continuous, found_in(matcher@, batch@))
                &&& forall|j: int| 0 <= j < r@.len() ==> (#[trigger] r@[j]).attempts == final(self).attempts
            },
    {
        if !self.keep_going() {
            return Vec::new();
        }
        let count = self.attempts + batch.len() as u64;
        let mut found: Vec<SearchMatch> = Vec::new();
        let mut i: usize = 0;
        while i < batch.len()
            invariant
                i <= batch@.len(),
                well_formed_batch(batch@),
                views(found@) == found_in(matcher@, batch@.take(i as int)),
                forall|j: int| 0 <= j < found@.len() ==> (#[trigger] found@[j]).attempts == count,
            decreases batch@.len() - i,
        {
            proof {
                assert(batch@.take(i + 1).drop_last() =~= batch@.take(i as int));
                assert(batch@.take(i + 1).last() == batch@[i as int]);
            }
            if let Some(e) = scan_candidate(matcher, &batch[i], count) {
                found.push(e);
                proof {
                    assert(views(found@) =~= views(found@.drop_last()).push(e@));
                }
            }
            i = i + 1;
        }
        proof {
            assert(batch@.take(i as int) =~= batch@);
        }
        self.attempts = count;
        if found.len() > 0 {
            self.found = true;
        }
        if !self.continuous && found.len() > 1 {
            found.truncate(1);
            proof {
                assert(views(found@) =~= found_in(matcher@, batch@).take(1));
                assert(found@[0].attempts == count);
            }
        }
        found
    }

    /// Runs batches in order until they are exhausted or a single-shot search
    /// has its match, and returns every match handed to the output.
    pub fn run_batches(
        &mut self,
        matcher: &PatternMatcher,
        batches: &Vec<Vec<Result<NostrKeyPair, GenerationError>>>,
    ) -> (r: Vec<SearchMatch>)
        requires
            old(self).attempts + total_len(batches@) <= u64::MAX,
            well_formed_batches(batches@),
        ensures
            final(self).continuous == old(self).continuous,
            final(self).attempts >= old(self).attempts,
            final(self).attempts <= old(self).attempts + total_len(batches@),
            old(self).found ==> final(self).found,
            forall|j: int| 0 <= j < r@.len() ==> well_matched(matcher@, #[trigger] r@[j]@),
            forall|j: int|
                0 <= j < r@.len() ==> old(self).attempts < (#[trigger] r@[j]).attempts <= final(self).attempts,
            !old(self).continuous && r@.len() == 1 ==> r@[0].attempts == final(self).attempts,
            old(self).continuous ==> {
                &&& views(r@) == found_in_all(matcher@, batches@)
                &&& r@.len() == satisfying_count_all(matcher@, batches@)
                &&& final(self).attempts == old(self).attempts + total_len(batches@)
            },
            !old(self).continuous && !old(self).found ==> {
                &&& views(r@) == dispatched(false, found_in_all(matcher@, batches@))
                &&& final(self).found == (r@.len() == 1)
                &&& r@.len() == 1 ==> final(self).attempts >= old(self).attempts + 1
                &&& r@.len() == 1 ==> exists|j: int|
                    1 <= j <= batches@.len()
                    && found_in_all(matcher@, batches@.take(j - 1)).len() == 0
                    && #[trigger] found_in_all(matcher@, batches@.take(j)).len() > 0
                    && final(self).attempts == old(self).attempts + total_len(batches@.take(j))
                &&& r@.len() == 0 ==> final(self).attempts == old(self).attempts + total_len(batches@)
            },
    {
        let ghost start = *self;
        let mut out: Vec<SearchMatch> = Vec::new();
        let mut k: usize = 0;
        while k < batches.len() && self.keep_going()
            invariant
                k <= batches@.len(),
                well_formed_batches(batches@),
                start.attempts + total_len(batches@) <= u64::MAX,
                self.continuous == start.continuous,
                start.found ==> self.found,
                self.attempts == start.attempts + total_len(batches@.take(k as int)),
                total_len(batches@.take(k as int)) <= total_len(batches@),
                start.continuous ==> views(out@) == found_in_all(matcher@, batches@.take(k as int)),
                forall|j: int| 0 <= j < out@.len() ==> well_matched(matcher@, #[trigger] out@[j]@),
                forall|j: int| 0 <= j < out@.len() ==> start.attempts < (#[trigger] out@[j]).attempts <= self.attempts,
                !start.continuous && out@.len() == 1 ==> out@[0].attempts == self.attempts,
                !start.continuous && !start.found ==> {
                    &&& views(out@) == dispatched(false, found_in_all(matcher@, batches@.take(k as int)))
                    &&& self.found == (out@.len() == 1)
                    &&& out@.len() == 1 ==> self.attempts >= start.attempts + 1
                    &&& self.found ==> k >= 1 && found_in_all(matcher@, batches@.take(k - 1)).len() == 0
                    &&& !self.found ==> found_in_all(matcher@, batches@.take(k as int)).len() == 0
                },
            decreases batches@.len() - k,
        {
            let ghost before = *self;
            let ghost pre = batches@.take(k as int);
            let ghost next = batches@.take(k + 1);
            proof {
                assert(next.drop_last() =~= pre);
                assert(next.last() == batches@[k as int]);
                lemma_total_len_prefix(batches@, k + 1);
                lemma_found_in_len(matcher@, batches@[k as int]@);
            }
            let batch = &batches[k];
            let mut got = self.process_batch(matcher, batch);
            proof {
                assert(views(out@ + got@) =~= views(out@) + views(got@));
                lemma_batch_matches_satisfy(matcher@, batches@[k as int]@);
                assert forall|j: int| 0 <= j < got@.len() implies well_matched(matcher@, #[trigger] got@[j]@) by {
                    assert(got@[j]@ == views(got@)[j]);
                }
            }
            out.append(&mut got);
            k = k + 1;
        }
        proof {
            if k == batches@.len() {
                assert(batches@.take(k as int) =~= batches@);
            } else {
                // a single-shot search stopped at its match
                lemma_found_in_all_extends(matcher@, batches@, k as int);
            }
            lemma_matches_are_satisfying_candidates(matcher@, batches@);
            assert(views(out@).len() == out@.len());
            if !start.continuous && !start.found && out@.len() == 1 {
                assert(found_in_all(matcher@, batches@.take(k as int)).len() > 0);
                assert(self.attempts == start.attempts + total_len(batches@.take(k as int)));
            }
        }
        out
    }
}

/// The match that one generated candidate gives, if any.
pub fn scan_candidate(
    matcher: &PatternMatcher,
    generated: &Result<NostrKeyPair, GenerationError>,
    attempts: u64,
) -> (r: Option<SearchMatch>)
    requires
        generated matches Ok(kp) ==> kp.npub@.len() >= PREFIX_LEN,
    ensures
        match event_of(matcher@, *generated) {
            Some(e) => r matches Some(s) && s@ == e && s.attempts == attempts,
            None => r is None,
        },
{
    match generated {
        Ok(kp) => match matcher.find_match(kp) {
            Some(pattern) => Some(
                SearchMatch {
                    keypair: NostrKeyPair {
                        npub: kp.npub.clone(),
                        nsec: kp.nsec.clone(),
                        hex_pubkey: kp.hex_pubkey.clone(),
                    },
                    pattern,
                    attempts,
                },
            ),
            None => None,
        },
        Err(_) => None,
    }
}

/// Whether the output takes another match after `handled` of them: in
/// continuous mode always, else only the first.
pub fn sink_takes_more(continuous: bool, handled: u64) -> (r: bool)
    ensures
        r == (continuous || handled == 0),
{
    continuous || handled == 0
}

/// Whether the throughput monitor keeps sampling: in continuous mode up to the
/// time ceiling, else until a match is found.
pub fn monitor_continues(found: bool, continuous: bool, elapsed_secs: u64) -> (r: bool)
    ensures
        r == if continuous {
            elapsed_secs <= MONITOR_CEILING_SECS
        } else {
            !found
        },
{
    if continuous {
        elapsed_secs <= MONITOR_CEILING_SECS
    } else {
        !found
    }
}

pub proof fn lemma_found_in_len(m: Seq<PatternView>, b: Seq<Result<NostrKeyPair, GenerationError>>)
    ensures
        found_in(m, b).len() <= b.len(),
    decreases b.len(),
{
    if b.len() > 0 {
        lemma_found_in_len(m, b.drop_last());
    }
}

pub proof fn lemma_total_len_prefix(bs: Seq<Vec<Result<NostrKeyPair, GenerationError>>>, k: int)
    requires
        0 <= k <= bs.len(),
    ensures
        total_len(bs.take(k)) <= total_len(bs),
    decreases bs.len(),
{
    if k < bs.len() {
        assert(bs.drop_last().take(k) =~= bs.take(k));
        lemma_total_len_prefix(bs.drop_last(), k);
    } else {
        assert(bs.take(k) =~= bs);
    }
}

/// Once the matches of a prefix of the batches are not empty, the first match
/// of all batches is the first match of that prefix.
pub proof fn lemma_found_in_all_extends(m: Seq<PatternView>, bs: Seq<Vec<Result<NostrKeyPair, GenerationError>>>, k: int)
    requires
        0 <= k <= bs.len(),
    ensures
        found_in_all(m, bs.take(k)).is_prefix_of(found_in_all(m, bs)),
    decreases bs.len(),
{
    if k < bs.len() {
        assert(bs.drop_last().take(k) =~= bs.take(k));
        lemma_found_in_all_extends(m, bs.drop_last(), k);
    } else {
        assert(bs.take(k) =~= bs);
    }
}

/// Every candidate that satisfies at least one pattern gives exactly one
/// match: over a run of batches, the matches are as many as the candidates
/// whose identifier satisfies a pattern.
pub proof fn lemma_matches_are_satisfying_candidates(
    m: Seq<PatternView>,
    bs: Seq<Vec<Result<NostrKeyPair, GenerationError>>>,
)
    ensures
        found_in_all(m, bs).len() == satisfying_count_all(m, bs),
    decreases bs.len(),
{
    if bs.len() > 0 {
        lemma_matches_are_satisfying_candidates(m, bs.drop_last());
        lemma_batch_matches_are_satisfying(m, bs.last()@);
    }
}

proof fn lemma_batch_matches_are_satisfying(m: Seq<PatternView>, b: Seq<Result<NostrKeyPair, GenerationError>>)
    ensures
        found_in(m, b).len() == satisfying_count(m, b),
    decreases b.len(),
{
    if b.len() > 0 {
        lemma_batch_matches_are_satisfying(m, b.drop_last());
        if let Ok(kp) = b.last() {
            lemma_first_match(m, kp.npub@);
        }
    }
}

/// A match pairs a key pair with a pattern of the matcher that its
/// identifier satisfies.
pub open spec fn well_matched(m: Seq<PatternView>, e: MatchView) -> bool {
    m.contains(e.1) && e.1.matches(e.0.0)
}

/// Every match that a run of batches yields comes with a pattern of the
/// matcher, and the match's identifier satisfies that pattern.
pub proof fn lemma_matches_satisfy_their_pattern(
    m: Seq<PatternView>,
    bs: Seq<Vec<Result<NostrKeyPair, GenerationError>>>,
)
    ensures
        forall|j: int|
            0 <= j < found_in_all(m, bs).len() ==> well_matched(m, #[trigger] found_in_all(m, bs)[j]),
    decreases bs.len(),
{
    if bs.len() > 0 {
        lemma_matches_satisfy_their_pattern(m, bs.drop_last());
        lemma_batch_matches_satisfy(m, bs.last()@);
        let a = found_in_all(m, bs.drop_last());
        let b = found_in(m, bs.last()@);
        assert forall|j: int| 0 <= j < found_in_all(m, bs).len() implies well_matched(
            m,
            #[trigger] found_in_all(m, bs)[j],
        ) by {
            if j < a.len() {
                assert(found_in_all(m, bs)[j] == a[j]);
            } else {
                assert(found_in_all(m, bs)[j] == b[j - a.len()]);
            }
        }
    }
}

proof fn lemma_batch_matches_satisfy(m: Seq<PatternView>, b: Seq<Result<NostrKeyPair, GenerationError>>)
    ensures
        forall|j: int| 0 <= j < found_in(m, b).len() ==> well_matched(m, #[trigger] found_in(m, b)[j]),
    decreases b.len(),
{
    if b.len() > 0 {
        lemma_batch_matches_satisfy(m, b.drop_last());
        let rest = found_in(m, b.drop_last());
        if let Ok(kp) = b.last() {
            lemma_first_match(m, kp.npub@);
            if let Some(i) = first_match(m, kp.npub@) {
                assert(m.contains(m[i]));
                assert forall|j: int| 0 <= j < found_in(m, b).len() implies well_matched(
                    m,
                    #[trigger] found_in(m, b)[j],
                ) by {
                    if j < rest.len() {
                        assert(found_in(m, b)[j] == rest[j]);
                    }
                }
            }
        }
    }
}

/// When every batch holds `n` candidates, the first `j` batches hold `j * n`:
/// a single-shot run whose first match lies in batch `j` has counted `j * n`
/// attempts.
pub proof fn lemma_total_len_uniform(bs: Seq<Vec<Result<NostrKeyPair, GenerationError>>>, n: nat, j: int)
    requires
        0 <= j <= bs.len(),
        forall|i: int| 0 <= i < bs.len() ==> (#[trigger] bs[i])@.len() == n,
    ensures
        total_len(bs.take(j)) == j * n,
    decreases j,
{
    if j > 0 {
        let t = bs.take(j);
        assert(t.drop_last() =~= bs.take(j - 1));
        assert(t.last() == bs[j - 1]);
        lemma_total_len_uniform(bs, n, j - 1);
        assert(j * n == (j - 1) * n + n) by (nonlinear_arith);
    } else {
        assert(bs.take(0).len() == 0);
    }
}

} // verus!

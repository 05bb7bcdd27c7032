//! The matcher: which taught key fits a free-form query best. Every key is
//! scored against the query by the skim algorithm of the `fuzzy-matcher`
//! crate; the key with the highest score wins, and among equal scores the
//! first in the order of the keys.

use crate::store::{keys_of, Entry, KnowledgeBase};
use crate::text::ascii_fold;
use vstd::prelude::*;
use vstd::string::StrSliceExecFns;

verus! {

/// The longest query, in characters, that is scored. It is a limit of the
/// machine: the scorer adds up its points in 32-bit integers and gives at
/// most 32 for each character of the query, so that up to this length no sum
/// can pass the largest of them.
pub const MAX_QUERY_LEN: usize = 67_108_864;

/// The longest key, in characters, that is scored. It is a limit of the
/// machine too: the scorer takes off at most one point for each character of
/// the key that it passes over, twice over at most, and starts from its
/// lowest mark of -32768, so that up to this length no sum can fall below the
/// smallest 32-bit integer.
pub const MAX_KEY_LEN: usize = 536_870_912;

/// Whether a query and a key are short enough to be scored.
pub open spec fn scorable(query: Seq<char>, key: Seq<char>) -> bool {
    query.len() <= MAX_QUERY_LEN && key.len() <= MAX_KEY_LEN
}

/// Whether a character of a key stands for a character of the query: they
/// are the same up to the case of ASCII letters.
pub open spec fn chars_match(a: char, b: char) -> bool {
    ascii_fold(a) == ascii_fold(b)
}

/// Whether `places` says where in `choice` the characters of `pattern` from
/// `p` on are found: one place for each, at or after `c`, each holding a
/// character that stands for the pattern's, and each place behind the one
/// before.
pub open spec fn found_at(
    pattern: Seq<char>,
    choice: Seq<char>,
    p: int,
    c: int,
    places: Seq<int>,
) -> bool {
    &&& places.len() == pattern.len() - p
    &&& forall|i: int|
        0 <= i < places.len() ==> c <= #[trigger] places[i] < choice.len() && chars_match(
            choice[places[i]],
            pattern[p + i],
        )
    &&& forall|i: int, j: int|
        0 <= i < j < places.len() ==> #[trigger] places[i] < #[trigger] places[j]
}

/// Whether the characters of `pattern` occur in `choice` in their order, not
/// necessarily side by side and without regard to the case of ASCII letters:
/// there are places in `choice`, each behind the one before, that hold them.
pub open spec fn occurs_in_order(pattern: Seq<char>, choice: Seq<char>) -> bool {
    exists|places: Seq<int>| found_at(pattern, choice, 0, 0, places)
}

/// Decides by one pass over `choice` whether the characters of `pattern`
/// from `p` on are found in `choice` from `c` on: each is looked for behind
/// the place where the one before was first found.
pub open spec fn occurs_from(pattern: Seq<char>, choice: Seq<char>, p: int, c: int) -> bool
    decreases choice.len() - c,
{
    if p >= pattern.len() {
        true
    } else if c >= choice.len() || c < 0 || p < 0 {
        false
    } else if chars_match(choice[c], pattern[p]) {
        occurs_from(pattern, choice, p + 1, c + 1)
    } else {
        occurs_from(pattern, choice, p, c + 1)
    }
}

/// Where the pattern occurs from `p` and `c` on, there are places at which
/// its characters are found.
pub proof fn lemma_occurs_gives_places(pattern: Seq<char>, choice: Seq<char>, p: int, c: int) -> (places:
    Seq<int>)
    requires
        0 <= p <= pattern.len(),
        0 <= c,
        occurs_from(pattern, choice, p, c),
    ensures
        found_at(pattern, choice, p, c, places),
    decreases choice.len() - c,
{
    if p >= pattern.len() {
        Seq::empty()
    } else if chars_match(choice[c], pattern[p]) {
        let rest = lemma_occurs_gives_places(pattern, choice, p + 1, c + 1);
        seq![c] + rest
    } else {
        lemma_occurs_gives_places(pattern, choice, p, c + 1)
    }
}

/// Where there are places at which the pattern's characters from `p` on are
/// found at or after `c`, the pattern occurs from there on.
pub proof fn lemma_places_give_occurs(
    pattern: Seq<char>,
    choice: Seq<char>,
    p: int,
    c: int,
    places: Seq<int>,
)
    requires
        0 <= p <= pattern.len(),
        0 <= c,
        found_at(pattern, choice, p, c, places),
    ensures
        occurs_from(pattern, choice, p, c),
    decreases choice.len() - c,
{
    if p < pattern.len() {
        assert(c <= places[0] < choice.len());
        if chars_match(choice[c], pattern[p]) {
            lemma_places_give_occurs(pattern, choice, p + 1, c + 1, places.drop_first());
        } else {
            lemma_places_give_occurs(pattern, choice, p, c + 1, places);
        }
    }
}

/// Whether a pattern occurs in a choice in order can be decided by one pass
/// over the choice.
pub proof fn lemma_occurs_in_order(pattern: Seq<char>, choice: Seq<char>)
    ensures
        occurs_in_order(pattern, choice) <==> occurs_from(pattern, choice, 0, 0),
{
    if occurs_from(pattern, choice, 0, 0) {
        lemma_occurs_gives_places(pattern, choice, 0, 0);
    }
    if occurs_in_order(pattern, choice) {
        let places = choose|places: Seq<int>| found_at(pattern, choice, 0, 0, places);
        lemma_places_give_occurs(pattern, choice, 0, 0, places);
    }
}

/// The points that the skim scorer, set to disregard case, gives to `choice`
/// for `pattern` when the pattern occurs in it.
pub uninterp spec fn skim_score(choice: Seq<char>, pattern: Seq<char>) -> i64;

/// The score of a key for a query: none where the query does not occur in
/// the key in order, or where one of them is beyond what the machine can
/// score.
pub open spec fn candidate_score(query: Seq<char>, key: Seq<char>) -> Option<i64> {
    if scorable(query, key) && occurs_in_order(query, key) {
        Some(skim_score(key, query))
    } else {
        None
    }
}

/// Whether the query's characters occur in none of the keys in order, keys
/// and queries beyond what the machine can score set aside.
pub open spec fn no_key_fits(query: Seq<char>, keys: Seq<Seq<char>>) -> bool {
    forall|j: int|
        0 <= j < keys.len() ==> !(scorable(query, #[trigger] keys[j]) && occurs_in_order(
            query,
            keys[j],
        ))
}

/// The scores of all keys for a query, in the order of the keys.
pub open spec fn scores_of(query: Seq<char>, keys: Seq<Seq<char>>) -> Seq<Option<i64>> {
    keys.map_values(|key: Seq<char>| candidate_score(query, key))
}

/// Whether position `i` holds the winning score: it has a score, no score is
/// higher, and every score before it is lower.
pub open spec fn best_at(scores: Seq<Option<i64>>, i: int) -> bool {
    &&& 0 <= i < scores.len()
    &&& scores[i] is Some
    &&& forall|j: int|
        0 <= j < scores.len() && (#[trigger] scores[j]) is Some ==> scores[j]->0 <= scores[i]->0
    &&& forall|j: int| 0 <= j < i && (#[trigger] scores[j]) is Some ==> scores[j]->0 < scores[i]->0
}

/// Whether no position has a score.
pub open spec fn none_scored(scores: Seq<Option<i64>>) -> bool {
    forall|j: int| 0 <= j < scores.len() ==> (#[trigger] scores[j]) is None
}

/// The position of the winning score, where there is one.
pub open spec fn winner(scores: Seq<Option<i64>>) -> Option<int> {
    if exists|i: int| best_at(scores, i) {
        Some(choose|i: int| best_at(scores, i))
    } else {
        None
    }
}

/// The answer to a query: the value of the entry whose key fits the query
/// best, where a key fits.
pub open spec fn recall(query: Seq<char>, entries: Seq<Entry>) -> Option<Seq<char>> {
    match winner(scores_of(query, keys_of(entries))) {
        Some(i) => Some(entries[i].1),
        None => None,
    }
}

/// At most one position holds the winning score.
pub proof fn lemma_best_is_unique(scores: Seq<Option<i64>>, i: int, j: int)
    requires
        best_at(scores, i),
        best_at(scores, j),
    ensures
        i == j,
{
}

/// The winner among the first `n` scores, found by going through them.
proof fn lemma_scan(scores: Seq<Option<i64>>, n: int) -> (best: Option<int>)
    requires
        0 <= n <= scores.len(),
    ensures
        match best {
            Some(i) => best_at(scores.take(n), i),
            None => none_scored(scores.take(n)),
        },
    decreases n,
{
    if n == 0 {
        None
    } else {
        let before = lemma_scan(scores, n - 1);
        match (scores[n - 1], before) {
            (None, _) => before,
            (Some(_), None) => Some(n - 1),
            (Some(points), Some(i)) => if points > scores[i]->0 {
                Some(n - 1)
            } else {
                Some(i)
            },
        }
    }
}

/// There is a winner exactly when some position has a score, and the winner
/// is where `best_at` holds.
pub proof fn lemma_winner(scores: Seq<Option<i64>>)
    ensures
        winner(scores) is None <==> none_scored(scores),
        forall|i: int| best_at(scores, i) <==> winner(scores) == Some(i),
{
    lemma_scan(scores, scores.len() as int);
    assert(scores.take(scores.len() as int) =~= scores);
}

/// No key wins exactly when the query's characters occur in no key in
/// order, keys and queries beyond what the machine can score set aside. So
/// none wins where there are no keys.
pub proof fn lemma_no_winner(query: Seq<char>, keys: Seq<Seq<char>>)
    ensures
        winner(scores_of(query, keys)) is None <==> no_key_fits(query, keys),
        keys.len() == 0 ==> winner(scores_of(query, keys)) is None,
{
    let scores = scores_of(query, keys);
    lemma_winner(scores);
    if none_scored(scores) {
        assert forall|j: int| 0 <= j < keys.len() implies !(scorable(query, #[trigger] keys[j])
            && occurs_in_order(query, keys[j])) by {
            assert(scores[j] is None);
        }
    } else {
        let j = choose|j: int| 0 <= j < scores.len() && (#[trigger] scores[j]) is Some;
        assert(scorable(query, keys[j]) && occurs_in_order(query, keys[j]));
    }
}

/// Calls `fuzzy_match` of a fresh `SkimMatcherV2::default().ignore_case()`
/// from the `fuzzy-matcher` crate. A matcher keeps working storage between
/// calls, so each call gets its own: the score then depends on the two texts
/// alone.
///
/// The contract claims of it: the call yields a score exactly when the
/// pattern's characters are found in the choice in their order, whatever lies
/// between them, compared up to the case of ASCII letters; an empty pattern
/// scores 0; the score itself is only named. The texts must be short enough
/// for the scorer's 32-bit sums: see [`MAX_QUERY_LEN`] and [`MAX_KEY_LEN`].
#[verifier::external_body]
fn skim_fuzzy_match(choice: &str, pattern: &str) -> (score: Option<i64>)
    requires
        pattern@.len() <= MAX_QUERY_LEN,
        choice@.len() <= MAX_KEY_LEN,
    ensures
        score == if occurs_in_order(pattern@, choice@) {
            Some(skim_score(choice@, pattern@))
        } else {
            None::<i64>
        },
        pattern@.len() == 0 ==> score == Some(0i64),
{
    fuzzy_matcher::FuzzyMatcher::fuzzy_match(
        &fuzzy_matcher::skim::SkimMatcherV2::default().ignore_case(),
        choice,
        pattern,
    )
}

/// The score of `candidate` for `query`, if the query's characters occur in
/// it in order, case disregarded, and both are within what the machine can
/// score.
pub fn score(query: &str, candidate: &str) -> (points: Option<i64>)
    ensures
        points == candidate_score(query@, candidate@),
        points is Some <==> scorable(query@, candidate@) && occurs_in_order(query@, candidate@),
        query@.len() == 0 && candidate@.len() <= MAX_KEY_LEN ==> points == Some(0i64),
{
    if query.unicode_len() <= MAX_QUERY_LEN && candidate.unicode_len() <= MAX_KEY_LEN {
        skim_fuzzy_match(candidate, query)
    } else {
        None
    }
}

/// The position of the winning score: the highest, and among equal scores
/// the first. `None` where nothing has a score.
pub fn best_of(scores: &Vec<Option<i64>>) -> (best: Option<usize>)
    ensures
        match best {
            Some(i) => best_at(scores@, i as int) && winner(scores@) == Some(i as int),
            None => none_scored(scores@) && winner(scores@) is None,
        },
{
    proof {
        lemma_winner(scores@);
    }
    let mut best: Option<usize> = None;
    let mut top: i64 = 0;
    let mut i: usize = 0;
    while i < scores.len()
        invariant
            i <= scores.len(),
            match best {
                Some(b) => best_at(scores@.take(i as int), b as int) && scores@[b as int]
                    == Some(top),
                None => none_scored(scores@.take(i as int)),
            },
        decreases scores.len() - i,
    {
        match scores[i] {
            Some(points) => {
                if best.is_none() || points > top {
                    best = Some(i);
                    top = points;
                }
            },
            None => {},
        }
        i += 1;
    }
    assert(scores@.take(scores.len() as int) =~= scores@);
    best
}

/// Scores every key against the query and picks the winner's position among
/// the keys. No key wins exactly when the query's characters occur in none
/// of them in order, case disregarded; so none wins where the keys are
/// empty.
pub fn find_best_index(query: &str, keys: &Vec<String>) -> (best: Option<usize>)
    ensures
        match best {
            Some(i) => best_at(scores_of(query@, keys.deep_view()), i as int) && winner(
                scores_of(query@, keys.deep_view()),
            ) == Some(i as int),
            None => none_scored(scores_of(query@, keys.deep_view())) && winner(
                scores_of(query@, keys.deep_view()),
            ) is None,
        },
        keys.len() == 0 ==> best is None,
        best is None <==> no_key_fits(query@, keys.deep_view()),
{
    let mut scores: Vec<Option<i64>> = Vec::new();
    let mut i: usize = 0;
    let ghost rate = |key: Seq<char>| candidate_score(query@, key);
    while i < keys.len()
        invariant
            i <= keys.len(),
            rate == |key: Seq<char>| candidate_score(query@, key),
            scores@ == keys.deep_view().take(i as int).map_values(rate),
        decreases keys.len() - i,
    {
        scores.push(score(query, keys[i].as_str()));
        i += 1;
    }
    assert(keys.deep_view().take(keys.len() as int) =~= keys.deep_view());
    proof {
        lemma_no_winner(query@, keys.deep_view());
    }
    best_of(&scores)
}

/// The key that fits the query best: see [`find_best_index`].
pub fn find_best(query: &str, keys: &Vec<String>) -> (best: Option<String>)
    ensures
        match best {
            Some(key) => winner(scores_of(query@, keys.deep_view())) is Some && key@
                == keys[winner(scores_of(query@, keys.deep_view()))->0]@,
            None => winner(scores_of(query@, keys.deep_view())) is None,
        },
        keys.len() == 0 ==> best is None,
        best is None <==> no_key_fits(query@, keys.deep_view()),
{
    match find_best_index(query, keys) {
        Some(i) => Some(keys[i].clone()),
        None => None,
    }
}

impl KnowledgeBase {
    /// The answer to a free-form query: the value of the key that fits the
    /// query best, or nothing where no key fits.
    pub fn fuzzy_lookup(&self, query: &str) -> (answer: Option<&String>)
        ensures
            answer.deep_view() == recall(query@, self@.entries),
            self@.entries.len() == 0 ==> answer is None,
            answer is None <==> no_key_fits(query@, keys_of(self@.entries)),
    {
        let keys = self.keys();
        assert forall|j: int| 0 <= j < keys.len() implies (#[trigger] keys[j])@
            == self@.entries[j].0 by {
            assert(keys_of(self@.entries)[j] == self@.entries[j].0);
        }
        match find_best_index(query, &keys) {
            Some(i) => match self.fact(i) {
                Some(fact) => Some(&fact.value),
                None => None,
            },
            None => None,
        }
    }
}

} // verus!

//! Manual teaching: a small state machine that takes a key, then a value, and
//! commits each pair to the knowledge base as soon as it is complete. The
//! caller reads the lines and feeds them in one at a time.

use crate::store::{
    facts_of, lemma_teach_all_keeps, lemma_teach_all_last, teach_all, upsert, well_formed, Entry,
    Fact, KnowledgeBase,
};
use crate::text::{eq_ignore_ascii_case, same_ignoring_case, trim, trimmed};
use vstd::prelude::*;

verus! {

/// Where a teaching session stands.
#[derive(Clone, Debug, PartialEq, Eq)]
pub enum TeachState {
    /// No session is running.
    Idle,
    /// A key is expected.
    AwaitingKey,
    /// A value is expected for the key held here.
    AwaitingValue(String),
}

/// A teaching state as the contracts see it.
pub enum TeachPhase {
    Idle,
    AwaitingKey,
    AwaitingValue(Seq<char>),
}

impl View for TeachState {
    type V = TeachPhase;

    open spec fn view(&self) -> TeachPhase {
        match self {
            TeachState::Idle => TeachPhase::Idle,
            TeachState::AwaitingKey => TeachPhase::AwaitingKey,
            TeachState::AwaitingValue(key) => TeachPhase::AwaitingValue(key@),
        }
    }
}

/// What one line did to the session.
#[derive(Clone, Debug, PartialEq, Eq)]
pub enum TeachEffect {
    /// The line came while no session was running and was not looked at.
    Ignored,
    /// The line was taken as a key.
    KeyTaken,
    /// The pair held here was committed: the knowledge base has changed and
    /// is due to be written out.
    Learned(Fact),
    /// The value came for an empty key: nothing was committed.
    Refused,
    /// The line was the word that ends the session.
    Finished,
}

/// A teaching effect as the contracts see it.
pub enum TeachOutcome {
    Ignored,
    KeyTaken,
    Learned(Entry),
    Refused,
    Finished,
}

impl View for TeachEffect {
    type V = TeachOutcome;

    open spec fn view(&self) -> TeachOutcome {
        match self {
            TeachEffect::Ignored => TeachOutcome::Ignored,
            TeachEffect::KeyTaken => TeachOutcome::KeyTaken,
            TeachEffect::Learned(fact) => TeachOutcome::Learned(fact@),
            TeachEffect::Refused => TeachOutcome::Refused,
            TeachEffect::Finished => TeachOutcome::Finished,
        }
    }
}

/// The word that ends a teaching session.
pub open spec fn sentinel() -> Seq<char> {
    "done"@
}

/// Whether a line, once trimmed, is the word that ends the session, in any
/// mix of upper and lower case.
pub open spec fn ends_session(line: Seq<char>) -> bool {
    same_ignoring_case(trimmed(line), sentinel())
}

/// The state after `line` is read in `phase`.
pub open spec fn next_phase(phase: TeachPhase, line: Seq<char>) -> TeachPhase {
    match phase {
        TeachPhase::Idle => TeachPhase::Idle,
        TeachPhase::AwaitingKey => if ends_session(line) {
            TeachPhase::Idle
        } else {
            TeachPhase::AwaitingValue(trimmed(line))
        },
        TeachPhase::AwaitingValue(_) => if ends_session(line) {
            TeachPhase::Idle
        } else {
            TeachPhase::AwaitingKey
        },
    }
}

/// What reading `line` in `phase` does.
pub open spec fn outcome(phase: TeachPhase, line: Seq<char>) -> TeachOutcome {
    match phase {
        TeachPhase::Idle => TeachOutcome::Ignored,
        TeachPhase::AwaitingKey => if ends_session(line) {
            TeachOutcome::Finished
        } else {
            TeachOutcome::KeyTaken
        },
        TeachPhase::AwaitingValue(key) => if ends_session(line) {
            TeachOutcome::Finished
        } else if key.len() == 0 {
            TeachOutcome::Refused
        } else {
            TeachOutcome::Learned((key, trimmed(line)))
        },
    }
}

/// The entries after `line` is read in `phase`: they change only when a pair
/// is learned.
pub open spec fn next_entries(phase: TeachPhase, line: Seq<char>, entries: Seq<Entry>) -> Seq<
    Entry,
> {
    match outcome(phase, line) {
        TeachOutcome::Learned(pair) => upsert(entries, pair.0, pair.1),
        _ => entries,
    }
}

/// Where a session stands, and what the knowledge base holds, after the
/// lines are read one after the other from `phase` and `entries` on.
pub open spec fn run(phase: TeachPhase, entries: Seq<Entry>, lines: Seq<Seq<char>>) -> (
    TeachPhase,
    Seq<Entry>,
)
    decreases lines.len(),
{
    if lines.len() == 0 {
        (phase, entries)
    } else {
        let before = run(phase, entries, lines.drop_last());
        (next_phase(before.0, lines.last()), next_entries(before.0, lines.last(), before.1))
    }
}

/// The lines of a session in which the pairs are typed one after the other:
/// the key of each, then its value.
pub open spec fn session_lines(pairs: Seq<Entry>) -> Seq<Seq<char>>
    decreases pairs.len(),
{
    if pairs.len() == 0 {
        Seq::empty()
    } else {
        session_lines(pairs.drop_last()).push(pairs.last().0).push(pairs.last().1)
    }
}

/// The pairs as they are taught when typed: both sides trimmed.
pub open spec fn typed(pairs: Seq<Entry>) -> Seq<Entry> {
    pairs.map_values(|pair: Entry| (trimmed(pair.0), trimmed(pair.1)))
}

/// Reading one more line takes the session one step on.
pub proof fn lemma_run_push(
    phase: TeachPhase,
    entries: Seq<Entry>,
    lines: Seq<Seq<char>>,
    line: Seq<char>,
)
    ensures
        run(phase, entries, lines.push(line)) == (
            next_phase(run(phase, entries, lines).0, line),
            next_entries(run(phase, entries, lines).0, line, run(phase, entries, lines).1),
        ),
{
    assert(lines.push(line).drop_last() =~= lines);
}

/// A session in which pairs are typed, none of the lines being the closing
/// word, teaches the pairs in their order, each at once, and expects a key
/// again after each.
pub proof fn lemma_session(entries: Seq<Entry>, pairs: Seq<Entry>)
    requires
        forall|i: int|
            0 <= i < pairs.len() ==> !ends_session((#[trigger] pairs[i]).0) && !ends_session(
                pairs[i].1,
            ),
    ensures
        run(TeachPhase::AwaitingKey, entries, session_lines(pairs)) == (
            TeachPhase::AwaitingKey,
            teach_all(entries, typed(pairs)),
        ),
    decreases pairs.len(),
{
    if pairs.len() > 0 {
        let before = pairs.drop_last();
        let last = pairs.last();
        assert forall|i: int| 0 <= i < before.len() implies !ends_session(
            (#[trigger] before[i]).0,
        ) && !ends_session(before[i].1) by {
            assert(before[i] == pairs[i]);
        }
        lemma_session(entries, before);
        let lines = session_lines(before);
        lemma_run_push(TeachPhase::AwaitingKey, entries, lines, last.0);
        lemma_run_push(TeachPhase::AwaitingKey, entries, lines.push(last.0), last.1);
        assert(pairs[pairs.len() - 1] == last);
        assert(typed(pairs).drop_last() =~= typed(before));
        assert(typed(pairs).last() == (trimmed(last.0), trimmed(last.1)));
    } else {
        assert(typed(pairs) =~= Seq::<Entry>::empty());
    }
}

/// Ending a session of any length while a value is awaited undoes nothing:
/// after pairs were typed, then one more key, then the closing word, the
/// session is over and the knowledge base holds what the pairs taught, the
/// pending key left out. Every key typed has the value typed for it last,
/// and every key that was not typed is as it was before the session.
pub proof fn lemma_session_abort(
    entries: Seq<Entry>,
    pairs: Seq<Entry>,
    key: Seq<char>,
    closing: Seq<char>,
)
    requires
        well_formed(entries),
        forall|i: int|
            0 <= i < pairs.len() ==> !ends_session((#[trigger] pairs[i]).0) && !ends_session(
                pairs[i].1,
            ),
        ends_session(closing),
    ensures
        run(
            TeachPhase::AwaitingKey,
            entries,
            session_lines(pairs).push(key).push(closing),
        ) == (TeachPhase::Idle, teach_all(entries, typed(pairs))),
        forall|i: int|
            0 <= i < pairs.len() && (#[trigger] typed(pairs)[i]).0.len() > 0 && (forall|j: int|
                i < j < pairs.len() ==> (#[trigger] typed(pairs)[j]).0 != typed(pairs)[i].0)
                ==> facts_of(teach_all(entries, typed(pairs))).dom().contains(typed(pairs)[i].0)
                && facts_of(teach_all(entries, typed(pairs)))[typed(pairs)[i].0] == typed(
                pairs,
            )[i].1,
        forall|k: Seq<char>|
            (forall|j: int| 0 <= j < pairs.len() ==> (#[trigger] typed(pairs)[j]).0 != k) ==> (
            #[trigger] facts_of(teach_all(entries, typed(pairs))).dom().contains(k) <==> facts_of(
                entries,
            ).dom().contains(k)) && facts_of(teach_all(entries, typed(pairs)))[k] == facts_of(
                entries,
            )[k],
{
    lemma_session(entries, pairs);
    let lines = session_lines(pairs);
    lemma_run_push(TeachPhase::AwaitingKey, entries, lines, key);
    lemma_run_push(TeachPhase::AwaitingKey, entries, lines.push(key), closing);
    assert forall|i: int|
        0 <= i < pairs.len() && (#[trigger] typed(pairs)[i]).0.len() > 0 && (forall|j: int|
            i < j < pairs.len() ==> (#[trigger] typed(pairs)[j]).0 != typed(
                pairs,
            )[i].0) implies facts_of(teach_all(entries, typed(pairs))).dom().contains(
        typed(pairs)[i].0,
    ) && facts_of(teach_all(entries, typed(pairs)))[typed(pairs)[i].0] == typed(pairs)[i].1 by {
        lemma_teach_all_last(entries, typed(pairs), i);
    }
    assert forall|k: Seq<char>|
        (forall|j: int| 0 <= j < pairs.len() ==> (#[trigger] typed(pairs)[j]).0 != k) implies (
        #[trigger] facts_of(teach_all(entries, typed(pairs))).dom().contains(k) <==> facts_of(
            entries,
        ).dom().contains(k)) && facts_of(teach_all(entries, typed(pairs)))[k] == facts_of(
        entries,
    )[k] by {
        lemma_teach_all_keeps(entries, typed(pairs), k);
    }
}

/// Ending the session while a value is awaited commits nothing: the pending
/// key is dropped, every fact taught before stays as it was, and the session
/// is over.
pub proof fn lemma_abort_commits_nothing(key: Seq<char>, line: Seq<char>, entries: Seq<Entry>)
    requires
        ends_session(line),
    ensures
        next_entries(TeachPhase::AwaitingValue(key), line, entries) == entries,
        next_phase(TeachPhase::AwaitingValue(key), line) == TeachPhase::Idle,
        next_entries(TeachPhase::AwaitingKey, line, entries) == entries,
        next_phase(TeachPhase::AwaitingKey, line) == TeachPhase::Idle,
{
}

/// A key line never changes the facts, whatever it holds.
pub proof fn lemma_key_line_commits_nothing(line: Seq<char>, entries: Seq<Entry>)
    ensures
        next_entries(TeachPhase::AwaitingKey, line, entries) == entries,
{
}

/// Whether `line`, once trimmed, is the word that ends a session.
pub fn is_sentinel(line: &str) -> (yes: bool)
    ensures
        yes == ends_session(line@),
{
    eq_ignore_ascii_case(trim(line), "done")
}

/// Opens a teaching session: a key is expected next.
pub fn begin() -> (state: TeachState)
    ensures
        state@ == TeachPhase::AwaitingKey,
{
    TeachState::AwaitingKey
}

/// Feeds one line to the session. A key line is kept until its value comes;
/// a value line commits the pair at once; the closing word ends the session
/// and drops a pending key.
pub fn step(state: TeachState, line: &str, kb: &mut KnowledgeBase) -> (next: (
    TeachState,
    TeachEffect,
))
    ensures
        next.0@ == next_phase(state@, line@),
        next.1@ == outcome(state@, line@),
        final(kb)@.entries == next_entries(state@, line@, old(kb)@.entries),
        final(kb)@.identity == old(kb)@.identity,
        well_formed(final(kb)@.entries),
        !(next.1@ is Learned) ==> final(kb)@ == old(kb)@,
{
    proof {
        use_type_invariant(&*kb);
    }
    match state {
        TeachState::Idle => (TeachState::Idle, TeachEffect::Ignored),
        TeachState::AwaitingKey => {
            if is_sentinel(line) {
                (TeachState::Idle, TeachEffect::Finished)
            } else {
                (TeachState::AwaitingValue(trim(line).to_owned()), TeachEffect::KeyTaken)
            }
        },
        TeachState::AwaitingValue(key) => {
            if is_sentinel(line) {
                (TeachState::Idle, TeachEffect::Finished)
            } else {
                let value = trim(line).to_owned();
                match kb.insert(key.clone(), value.clone()) {
                    Ok(()) => (TeachState::AwaitingKey, TeachEffect::Learned(Fact { key, value })),
                    Err(_) => (TeachState::AwaitingKey, TeachEffect::Refused),
                }
            }
        },
    }
}

} // verus!

//! The knowledge base: the facts a user has taught, each key once, and the
//! name the user is known by.

use crate::text::{trim, trimmed};
use vstd::pervasive::VecAdditionalExecFns;
use vstd::prelude::*;

verus! {

/// A fact as the contracts see it: its key and its value.
pub type Entry = (Seq<char>, Seq<char>);

/// One taught fact.
#[derive(Clone, Debug, PartialEq, Eq)]
pub struct Fact {
    pub key: String,
    pub value: String,
}

impl View for Fact {
    type V = Entry;

    open spec fn view(&self) -> Entry {
        (self.key@, self.value@)
    }
}

impl DeepView for Fact {
    type V = Entry;

    open spec fn deep_view(&self) -> Entry {
        self@
    }
}

/// Why a fact was not taken.
#[derive(Clone, Copy, Debug, PartialEq, Eq, Structural)]
pub enum StoreError {
    /// The key was empty.
    EmptyKey,
}

/// What was found where the knowledge base is kept between runs.
#[derive(Clone, Debug, PartialEq, Eq)]
pub enum Stored {
    /// Nothing is kept there yet.
    Missing,
    /// Something is kept there that cannot be read as a knowledge base.
    Corrupt,
    /// A knowledge base: the name, and the facts in their order.
    Document(Option<String>, Vec<(String, String)>),
}

/// How a knowledge base came to be at start-up.
#[derive(Clone, Copy, Debug, PartialEq, Eq, Structural)]
pub enum LoadOutcome {
    /// It was read from what was kept.
    Fresh,
    /// Nothing was kept: it starts empty.
    RecoveredFromMissing,
    /// What was kept could not be read: it starts empty.
    RecoveredFromCorrupt,
}

/// The taught facts and the user's name once it is known. The facts are kept
/// in a vector, in the order in which their keys were first taught, so that
/// going through them gives the same order in every run. No key is empty and
/// none occurs twice.
pub struct KnowledgeBase {
    identity: Option<String>,
    facts: Vec<Fact>,
}

/// A knowledge base as the contracts see it.
pub struct KnowledgeView {
    pub identity: Option<Seq<char>>,
    pub entries: Seq<Entry>,
}

impl View for KnowledgeBase {
    type V = KnowledgeView;

    closed spec fn view(&self) -> KnowledgeView {
        KnowledgeView { identity: self.identity.deep_view(), entries: self.facts.deep_view() }
    }
}

/// The position of the first entry at or after `from` whose key is `key`, or
/// the length of `entries` when there is none.
pub open spec fn position_from(entries: Seq<Entry>, key: Seq<char>, from: int) -> int
    decreases entries.len() - from,
{
    if 0 <= from < entries.len() && entries[from].0 != key {
        position_from(entries, key, from + 1)
    } else {
        from
    }
}

/// The position of the entry for `key`, or the length of `entries`.
pub open spec fn position(entries: Seq<Entry>, key: Seq<char>) -> int {
    position_from(entries, key, 0)
}

/// Whether some entry has this key.
pub open spec fn has_key(entries: Seq<Entry>, key: Seq<char>) -> bool {
    exists|i: int| 0 <= i < entries.len() && (#[trigger] entries[i]).0 == key
}

/// No key occurs twice.
pub open spec fn distinct_keys(entries: Seq<Entry>) -> bool {
    forall|i: int, j: int|
        0 <= i < j < entries.len() ==> (#[trigger] entries[i]).0 != (#[trigger] entries[j]).0
}

/// What a knowledge base may hold: every key is non-empty and occurs once.
pub open spec fn well_formed(entries: Seq<Entry>) -> bool {
    &&& distinct_keys(entries)
    &&& forall|i: int| 0 <= i < entries.len() ==> (#[trigger] entries[i]).0.len() > 0
}

/// The entries after `key` is taught as `value`: an entry that has the key
/// keeps its place and takes the new value, a new key goes to the end.
pub open spec fn upsert(entries: Seq<Entry>, key: Seq<char>, value: Seq<char>) -> Seq<Entry> {
    let at = position(entries, key);
    if at < entries.len() {
        entries.update(at, (key, value))
    } else {
        entries.push((key, value))
    }
}

/// The keys of the entries, in their order.
pub open spec fn keys_of(entries: Seq<Entry>) -> Seq<Seq<char>> {
    entries.map_values(|e: Entry| e.0)
}

/// The entries read as a mapping from key to value.
pub open spec fn facts_of(entries: Seq<Entry>) -> Map<Seq<char>, Seq<char>> {
    Map::new(|k: Seq<char>| has_key(entries, k), |k: Seq<char>| entries[position(entries, k)].1)
}

/// The entries after one pair is offered: a pair with an empty key is passed
/// over, any other is taught.
pub open spec fn teach(entries: Seq<Entry>, pair: Entry) -> Seq<Entry> {
    if pair.0.len() > 0 {
        upsert(entries, pair.0, pair.1)
    } else {
        entries
    }
}

/// The entries after the pairs are offered one after the other, first to
/// last.
pub open spec fn teach_all(entries: Seq<Entry>, pairs: Seq<Entry>) -> Seq<Entry>
    decreases pairs.len(),
{
    if pairs.len() == 0 {
        entries
    } else {
        teach(teach_all(entries, pairs.drop_last()), pairs.last())
    }
}

/// How many of the pairs have a key that can be taught.
pub open spec fn accepted(pairs: Seq<Entry>) -> nat
    decreases pairs.len(),
{
    if pairs.len() == 0 {
        0
    } else {
        accepted(pairs.drop_last()) + if pairs.last().0.len() > 0 {
            1nat
        } else {
            0nat
        }
    }
}

/// `position_from` stays inside the entries, passes no entry with the key and
/// stops at one.
pub proof fn lemma_position_from(entries: Seq<Entry>, key: Seq<char>, from: int)
    requires
        0 <= from <= entries.len(),
    ensures
        from <= position_from(entries, key, from) <= entries.len(),
        forall|i: int|
            from <= i < position_from(entries, key, from) ==> (#[trigger] entries[i]).0 != key,
        position_from(entries, key, from) < entries.len() ==> entries[position_from(
            entries,
            key,
            from,
        )].0 == key,
    decreases entries.len() - from,
{
    if from < entries.len() && entries[from].0 != key {
        lemma_position_from(entries, key, from + 1);
    }
}

/// A key is present exactly when its position lies inside the entries.
pub proof fn lemma_position(entries: Seq<Entry>, key: Seq<char>)
    ensures
        0 <= position(entries, key) <= entries.len(),
        has_key(entries, key) <==> position(entries, key) < entries.len(),
        has_key(entries, key) ==> entries[position(entries, key)].0 == key,
        forall|i: int| 0 <= i < position(entries, key) ==> (#[trigger] entries[i]).0 != key,
{
    lemma_position_from(entries, key, 0);
}

/// Teaching a fact keeps the entries well formed and changes the mapping at
/// that key only.
pub proof fn lemma_upsert(entries: Seq<Entry>, key: Seq<char>, value: Seq<char>)
    requires
        well_formed(entries),
        key.len() > 0,
    ensures
        well_formed(upsert(entries, key, value)),
        facts_of(upsert(entries, key, value)) == facts_of(entries).insert(key, value),
        has_key(entries, key) ==> upsert(entries, key, value).len() == entries.len(),
        !has_key(entries, key) ==> upsert(entries, key, value).len() == entries.len() + 1,
{
    let after = upsert(entries, key, value);
    let at = position(entries, key);
    lemma_position(entries, key);
    assert forall|k: Seq<char>| has_key(after, k) <==> (k == key || has_key(entries, k)) by {
        if has_key(entries, k) {
            let i = choose|i: int| 0 <= i < entries.len() && (#[trigger] entries[i]).0 == k;
            assert(after[i].0 == k);
        }
        if k == key {
            assert(after[at].0 == k);
        }
    }
    assert forall|k: Seq<char>| has_key(after, k) implies #[trigger] facts_of(after)[k]
        == facts_of(entries).insert(key, value)[k] by {
        lemma_position(after, k);
        lemma_position(entries, k);
    }
}

/// Offering pairs keeps the entries well formed.
pub proof fn lemma_teach_all_well_formed(entries: Seq<Entry>, pairs: Seq<Entry>)
    requires
        well_formed(entries),
    ensures
        well_formed(teach_all(entries, pairs)),
    decreases pairs.len(),
{
    if pairs.len() > 0 {
        lemma_teach_all_well_formed(entries, pairs.drop_last());
        if pairs.last().0.len() > 0 {
            lemma_upsert(teach_all(entries, pairs.drop_last()), pairs.last().0, pairs.last().1);
        }
    }
}

/// After pairs are offered, a key has the value of the last pair that holds
/// it.
pub proof fn lemma_teach_all_last(entries: Seq<Entry>, pairs: Seq<Entry>, i: int)
    requires
        well_formed(entries),
        0 <= i < pairs.len(),
        pairs[i].0.len() > 0,
        forall|j: int| i < j < pairs.len() ==> (#[trigger] pairs[j]).0 != pairs[i].0,
    ensures
        facts_of(teach_all(entries, pairs)).dom().contains(pairs[i].0),
        facts_of(teach_all(entries, pairs))[pairs[i].0] == pairs[i].1,
    decreases pairs.len(),
{
    let before = pairs.drop_last();
    let last = pairs.last();
    lemma_teach_all_well_formed(entries, before);
    if i < pairs.len() - 1 {
        assert(before[i] == pairs[i]);
        assert forall|j: int| i < j < before.len() implies (#[trigger] before[j]).0
            != before[i].0 by {
            assert(before[j] == pairs[j]);
        }
        lemma_teach_all_last(entries, before, i);
        assert(pairs[pairs.len() - 1].0 != pairs[i].0);
    }
    if last.0.len() > 0 {
        lemma_upsert(teach_all(entries, before), last.0, last.1);
    }
}

/// Offering pairs leaves every key alone that none of them holds: it is
/// there afterwards exactly if it was before, with the value it had.
pub proof fn lemma_teach_all_keeps(entries: Seq<Entry>, pairs: Seq<Entry>, key: Seq<char>)
    requires
        well_formed(entries),
        forall|j: int| 0 <= j < pairs.len() ==> (#[trigger] pairs[j]).0 != key,
    ensures
        facts_of(teach_all(entries, pairs)).dom().contains(key) <==> facts_of(
            entries,
        ).dom().contains(key),
        facts_of(teach_all(entries, pairs))[key] == facts_of(entries)[key],
    decreases pairs.len(),
{
    if pairs.len() > 0 {
        let before = pairs.drop_last();
        let last = pairs.last();
        assert forall|j: int| 0 <= j < before.len() implies (#[trigger] before[j]).0 != key by {
            assert(before[j] == pairs[j]);
        }
        lemma_teach_all_keeps(entries, before, key);
        lemma_teach_all_well_formed(entries, before);
        assert(pairs[pairs.len() - 1].0 != key);
        if last.0.len() > 0 {
            lemma_upsert(teach_all(entries, before), last.0, last.1);
        }
    }
}

/// The pairs of `entries` up to `n`, taught to an empty base one after the
/// other, give those same entries again.
pub proof fn lemma_teach_all_prefix(entries: Seq<Entry>, n: int)
    requires
        well_formed(entries),
        0 <= n <= entries.len(),
    ensures
        teach_all(Seq::empty(), entries.take(n)) == entries.take(n),
    decreases n,
{
    if n > 0 {
        lemma_teach_all_prefix(entries, n - 1);
        let before = entries.take(n - 1);
        let pair = entries[n - 1];
        assert(entries.take(n).drop_last() =~= before);
        lemma_position(before, pair.0);
    }
}

/// The facts of a knowledge base, written out in their order and taught to
/// an empty base again, give the same facts in the same order.
pub proof fn lemma_rebuild_round_trip(entries: Seq<Entry>)
    requires
        well_formed(entries),
    ensures
        teach_all(Seq::empty(), entries) == entries,
        facts_of(teach_all(Seq::empty(), entries)) == facts_of(entries),
{
    lemma_teach_all_prefix(entries, entries.len() as int);
    assert(entries.take(entries.len() as int) =~= entries);
}

/// Teaching the same fact a second time changes nothing.
pub proof fn lemma_insert_idempotent(entries: Seq<Entry>, key: Seq<char>, value: Seq<char>)
    ensures
        upsert(upsert(entries, key, value), key, value) == upsert(entries, key, value),
        teach(teach(entries, (key, value)), (key, value)) == teach(entries, (key, value)),
{
    let once = upsert(entries, key, value);
    lemma_position(entries, key);
    lemma_position(once, key);
    let at = position(entries, key);
    assert(once[at].0 == key);
    assert(position(once, key) == at);
}

/// Teaching a key that is already known overwrites its value and adds no
/// fact: the number of facts stays, the key keeps its place, and every other
/// fact stays as it was.
pub proof fn lemma_insert_overwrites(entries: Seq<Entry>, key: Seq<char>, value: Seq<char>)
    requires
        well_formed(entries),
        has_key(entries, key),
    ensures
        upsert(entries, key, value).len() == entries.len(),
        facts_of(upsert(entries, key, value)).dom() == facts_of(entries).dom(),
        facts_of(upsert(entries, key, value)).dom().len() == facts_of(entries).dom().len(),
        facts_of(upsert(entries, key, value))[key] == value,
        forall|k: Seq<char>|
            k != key && has_key(entries, k) ==> #[trigger] facts_of(upsert(entries, key, value))[k]
                == facts_of(entries)[k],
{
    lemma_position(entries, key);
    lemma_upsert(entries, key, value);
}

/// Where no key occurs twice, there are as many facts in the mapping as
/// there are entries.
pub proof fn lemma_fact_count(entries: Seq<Entry>)
    requires
        distinct_keys(entries),
    ensures
        facts_of(entries).dom().finite(),
        facts_of(entries).dom().len() == entries.len(),
    decreases entries.len(),
{
    if entries.len() == 0 {
        assert(facts_of(entries).dom() =~= Set::<Seq<char>>::empty());
    } else {
        let before = entries.drop_last();
        let last = entries.last();
        lemma_fact_count(before);
        assert forall|k: Seq<char>| has_key(entries, k) <==> (has_key(before, k) || k
            == last.0) by {
            if has_key(entries, k) {
                let i = choose|i: int| 0 <= i < entries.len() && (#[trigger] entries[i]).0 == k;
                if i < before.len() {
                    assert(before[i].0 == k);
                }
            }
        }
        assert(facts_of(entries).dom() =~= facts_of(before).dom().insert(last.0));
    }
}

impl KnowledgeBase {
    /// What holds of every knowledge base: its entries are well formed.
    #[verifier::type_invariant]
    pub open spec fn inv(self) -> bool {
        well_formed(self@.entries)
    }

    /// The mapping from key to value that the entries stand for.
    pub open spec fn facts(&self) -> Map<Seq<char>, Seq<char>> {
        facts_of(self@.entries)
    }

    /// A knowledge base without facts and without a name.
    pub fn new() -> (kb: KnowledgeBase)
        ensures
            kb@.identity is None,
            kb@.entries.len() == 0,
            well_formed(kb@.entries),
    {
        KnowledgeBase { identity: None, facts: Vec::new() }
    }

    /// The number of facts.
    pub fn len(&self) -> (n: usize)
        ensures
            n == self@.entries.len(),
            n == self.facts().dom().len(),
            well_formed(self@.entries),
    {
        proof {
            use_type_invariant(self);
            lemma_fact_count(self@.entries);
        }
        self.facts.len()
    }

    /// The position of `key` among the facts, if it was taught.
    pub fn find(&self, key: &String) -> (found: Option<usize>)
        ensures
            well_formed(self@.entries),
            match found {
                Some(i) => i == position(self@.entries, key@) && i < self@.entries.len(),
                None => position(self@.entries, key@) == self@.entries.len(),
            },
            found is Some <==> has_key(self@.entries, key@),
    {
        proof {
            use_type_invariant(self);
            lemma_position(self@.entries, key@);
        }
        let mut i: usize = 0;
        while i < self.facts.len()
            invariant
                i <= self.facts.len(),
                well_formed(self@.entries),
                position(self@.entries, key@) == position_from(self@.entries, key@, i as int),
                has_key(self@.entries, key@) <==> position(self@.entries, key@)
                    < self@.entries.len(),
            decreases self.facts.len() - i,
        {
            if self.facts[i].key == *key {
                return Some(i);
            }
            i += 1;
        }
        None
    }

    /// Teaches one fact: a new key is added behind the others, a known key
    /// takes the new value. An empty key is refused and nothing changes.
    pub fn insert(&mut self, key: String, value: String) -> (done: Result<(), StoreError>)
        ensures
            well_formed(final(self)@.entries),
            final(self)@.identity == old(self)@.identity,
            key@.len() == 0 ==> done == Err::<(), StoreError>(StoreError::EmptyKey) && final(self)@
                == old(self)@,
            key@.len() > 0 ==> done is Ok && final(self)@.entries == upsert(
                old(self)@.entries,
                key@,
                value@,
            ),
            key@.len() > 0 ==> final(self).facts() == old(self).facts().insert(key@, value@),
    {
        proof {
            use_type_invariant(&*self);
        }
        if key.as_str().is_empty() {
            return Err(StoreError::EmptyKey);
        }
        proof {
            lemma_upsert(self@.entries, key@, value@);
        }
        let found = self.find(&key);
        // The facts leave the base while they change, so that it is whole
        // at every step.
        let mut facts: Vec<Fact> = Vec::new();
        core::mem::swap(&mut self.facts, &mut facts);
        match found {
            Some(i) => {
                facts.set(i, Fact { key, value });
            },
            None => {
                facts.push(Fact { key, value });
            },
        }
        assert(facts.deep_view() =~= upsert(old(self)@.entries, key@, value@));
        core::mem::swap(&mut self.facts, &mut facts);
        Ok(())
    }

    /// Offers the pairs one after the other, first to last, each as `insert`
    /// would take it; pairs with an empty key are passed over. Returns how
    /// many were taught.
    pub fn bulk_insert(&mut self, pairs: &Vec<(String, String)>) -> (count: usize)
        ensures
            well_formed(final(self)@.entries),
            final(self)@.identity == old(self)@.identity,
            final(self)@.entries == teach_all(old(self)@.entries, pairs.deep_view()),
            count == accepted(pairs.deep_view()),
    {
        proof {
            use_type_invariant(&*self);
        }
        let mut count: usize = 0;
        let mut i: usize = 0;
        while i < pairs.len()
            invariant
                i <= pairs.len(),
                count <= i,
                well_formed(self@.entries),
                self@.identity == old(self)@.identity,
                self@.entries == teach_all(old(self)@.entries, pairs.deep_view().take(i as int)),
                count == accepted(pairs.deep_view().take(i as int)),
            decreases pairs.len() - i,
        {
            proof {
                let upto = pairs.deep_view().take(i + 1);
                assert(upto.drop_last() =~= pairs.deep_view().take(i as int));
            }
            let taken = self.insert(pairs[i].0.clone(), pairs[i].1.clone());
            if taken.is_ok() {
                count += 1;
            }
            i += 1;
        }
        assert(pairs.deep_view().take(pairs.len() as int) =~= pairs.deep_view());
        count
    }

    /// Forgets every fact and the name.
    pub fn reset(&mut self)
        ensures
            final(self)@.identity is None,
            final(self)@.entries.len() == 0,
            final(self).facts() == Map::<Seq<char>, Seq<char>>::empty(),
    {
        let mut facts: Vec<Fact> = Vec::new();
        core::mem::swap(&mut self.facts, &mut facts);
        self.identity = None;
    }

    /// The name the user is known by, once it was given.
    pub fn identity(&self) -> (name: Option<&String>)
        ensures
            name.deep_view() == self@.identity,
    {
        self.identity.as_ref()
    }

    /// Takes `name` as the name the user is known by.
    pub fn set_identity(&mut self, name: String)
        ensures
            final(self)@.identity == Some(name@),
            final(self)@.entries == old(self)@.entries,
    {
        proof {
            use_type_invariant(&*self);
        }
        self.identity = Some(name);
    }

    /// Takes a line that the user gave in answer to the question for a name:
    /// the line without the whitespace around it becomes the name.
    pub fn introduce(&mut self, line: &str)
        ensures
            final(self)@.identity == Some(trimmed(line@)),
            final(self)@.entries == old(self)@.entries,
    {
        self.set_identity(trim(line).to_owned());
    }

    /// Whether no fact was taught.
    pub fn is_empty(&self) -> (empty: bool)
        ensures
            empty == (self@.entries.len() == 0),
    {
        self.facts.len() == 0
    }

    /// The fact at position `i`, counted in the order of first teaching.
    pub fn fact(&self, i: usize) -> (fact: Option<&Fact>)
        ensures
            i < self@.entries.len() ==> fact is Some && fact->0@ == self@.entries[i as int],
            i >= self@.entries.len() ==> fact is None,
    {
        if i < self.facts.len() {
            Some(&self.facts[i])
        } else {
            None
        }
    }

    /// The value taught for exactly this key, if there is one.
    pub fn get(&self, key: &str) -> (value: Option<&String>)
        ensures
            match value {
                Some(v) => has_key(self@.entries, key@) && v@ == self.facts()[key@],
                None => !has_key(self@.entries, key@),
            },
    {
        let owned = key.to_owned();
        match self.find(&owned) {
            Some(i) => Some(&self.facts[i].value),
            None => None,
        }
    }

    /// The keys, in the order of first teaching.
    pub fn keys(&self) -> (keys: Vec<String>)
        ensures
            keys.deep_view() == keys_of(self@.entries),
            well_formed(self@.entries),
    {
        proof {
            use_type_invariant(self);
        }
        let mut keys: Vec<String> = Vec::new();
        let mut i: usize = 0;
        while i < self.facts.len()
            invariant
                i <= self.facts.len(),
                keys.deep_view() == self@.entries.take(i as int).map_values(|e: Entry| e.0),
            decreases self.facts.len() - i,
        {
            let ghost earlier = keys.deep_view();
            keys.push(self.facts[i].key.clone());
            assert(self@.entries.take(i + 1).map_values(|e: Entry| e.0) =~= earlier.push(
                self.facts[i as int].key@,
            ));
            i += 1;
        }
        keys
    }

    /// The facts as pairs of key and value, in the order of first teaching:
    /// what is written out when the knowledge base is saved.
    pub fn snapshot(&self) -> (pairs: Vec<(String, String)>)
        ensures
            pairs.deep_view() == self@.entries,
            well_formed(self@.entries),
    {
        proof {
            use_type_invariant(self);
        }
        let mut pairs: Vec<(String, String)> = Vec::new();
        let mut i: usize = 0;
        while i < self.facts.len()
            invariant
                i <= self.facts.len(),
                pairs.deep_view() == self@.entries.take(i as int),
            decreases self.facts.len() - i,
        {
            let ghost earlier = pairs.deep_view();
            pairs.push((self.facts[i].key.clone(), self.facts[i].value.clone()));
            assert(self@.entries.take(i + 1) =~= earlier.push(self.facts[i as int]@));
            i += 1;
        }
        pairs
    }

    /// Builds a knowledge base from a name and pairs of key and value, taught
    /// in their order to an empty base.
    pub fn from_parts(identity: Option<String>, pairs: &Vec<(String, String)>) -> (kb:
        KnowledgeBase)
        ensures
            kb@.identity == identity.deep_view(),
            kb@.entries == teach_all(Seq::empty(), pairs.deep_view()),
            well_formed(kb@.entries),
            well_formed(pairs.deep_view()) ==> kb@.entries == pairs.deep_view(),
    {
        let mut kb = KnowledgeBase { identity, facts: Vec::new() };
        assert(kb@.entries =~= Seq::<Entry>::empty());
        kb.bulk_insert(pairs);
        proof {
            if well_formed(pairs.deep_view()) {
                lemma_rebuild_round_trip(pairs.deep_view());
            }
        }
        kb
    }

    /// Starts from what was kept between runs. Where nothing was kept, or
    /// what was kept cannot be read, the knowledge base starts empty, and the
    /// outcome says which of the two it was.
    pub fn load(stored: Stored) -> (loaded: (KnowledgeBase, LoadOutcome))
        ensures
            well_formed(loaded.0@.entries),
            match stored {
                Stored::Missing => loaded.1 == LoadOutcome::RecoveredFromMissing
                    && loaded.0@.identity is None && loaded.0@.entries.len() == 0,
                Stored::Corrupt => loaded.1 == LoadOutcome::RecoveredFromCorrupt
                    && loaded.0@.identity is None && loaded.0@.entries.len() == 0,
                Stored::Document(identity, pairs) => loaded.1 == LoadOutcome::Fresh
                    && loaded.0@.identity == identity.deep_view() && loaded.0@.entries
                    == teach_all(Seq::empty(), pairs.deep_view()),
            },
    {
        match stored {
            Stored::Missing => (KnowledgeBase::new(), LoadOutcome::RecoveredFromMissing),
            Stored::Corrupt => (KnowledgeBase::new(), LoadOutcome::RecoveredFromCorrupt),
            Stored::Document(identity, pairs) => (
                KnowledgeBase::from_parts(identity, &pairs),
                LoadOutcome::Fresh,
            ),
        }
    }
}

impl Default for KnowledgeBase {
    /// A knowledge base without facts and without a name.
    fn default() -> (kb: KnowledgeBase)
        ensures
            kb@.identity is None,
            kb@.entries.len() == 0,
    {
        KnowledgeBase::new()
    }
}

} // verus!

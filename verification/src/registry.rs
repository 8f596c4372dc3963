//! The registry of live surveys: which survey the message `message` of the
//! channel `channel` shows.

use crate::rows::{bump, listed, tally};
use crate::survey::{
    rendered, unvoted, valid, vote_then_unvote_restores, voted, votes_commute, votes_keep_valid,
    Survey, SurveyView,
};
use vstd::prelude::*;

verus! {

/// Every survey of the registry is valid.
pub open spec fn valid_registry(m: Map<(u64, u64), SurveyView>) -> bool {
    forall|key: (u64, u64)| m.contains_key(key) ==> valid(#[trigger] m[key])
}

/// The registry after a vote for `emoji` in the survey under `key`. Without
/// a survey under `key` it is as it was.
pub open spec fn voted_at(m: Map<(u64, u64), SurveyView>, key: (u64, u64), emoji: char) -> Map<
    (u64, u64),
    SurveyView,
> {
    if m.contains_key(key) {
        m.insert(key, voted(m[key], emoji))
    } else {
        m
    }
}

/// The registry after a vote for `emoji` in the survey under `key` was taken
/// back. Without a survey under `key` it is as it was.
pub open spec fn unvoted_at(m: Map<(u64, u64), SurveyView>, key: (u64, u64), emoji: char) -> Map<
    (u64, u64),
    SurveyView,
> {
    if m.contains_key(key) {
        m.insert(key, unvoted(m[key], emoji))
    } else {
        m
    }
}

/// A vote and its taking back keep the registry valid.
pub proof fn votes_keep_registry_valid(m: Map<(u64, u64), SurveyView>, key: (u64, u64), emoji: char)
    requires
        valid_registry(m),
    ensures
        valid_registry(voted_at(m, key, emoji)),
        valid_registry(unvoted_at(m, key, emoji)),
{
    if m.contains_key(key) {
        votes_keep_valid(m[key], emoji);
    }
}

/// A vote and its taking back, one right after the other, leave the
/// registry with the surveys it had, every survey but the one under `key`
/// untouched, and in that one every count and the question as they were, as
/// long as the counter of `emoji` was not full. Where the survey listed
/// `emoji` before, the whole registry is as it was.
pub proof fn vote_then_unvote_restores_registry(
    m: Map<(u64, u64), SurveyView>,
    key: (u64, u64),
    emoji: char,
    c: char,
)
    requires
        valid_registry(m),
        m.contains_key(key) ==> tally(m[key].rows, emoji) < usize::MAX,
    ensures
        unvoted_at(voted_at(m, key, emoji), key, emoji).dom() == m.dom(),
        forall|other: (u64, u64)|
            other != key && m.contains_key(other) ==> unvoted_at(
                voted_at(m, key, emoji),
                key,
                emoji,
            )[other] == m[other],
        m.contains_key(key) ==> tally(
            unvoted_at(voted_at(m, key, emoji), key, emoji)[key].rows,
            c,
        ) == tally(m[key].rows, c),
        m.contains_key(key) ==> unvoted_at(voted_at(m, key, emoji), key, emoji)[key].question
            == m[key].question,
        m.contains_key(key) && listed(m[key].rows, emoji) ==> unvoted_at(
            voted_at(m, key, emoji),
            key,
            emoji,
        ) == m,
        !m.contains_key(key) ==> unvoted_at(voted_at(m, key, emoji), key, emoji) == m,
{
    let back = unvoted_at(voted_at(m, key, emoji), key, emoji);
    if m.contains_key(key) {
        vote_then_unvote_restores(m[key], emoji, c);
        assert(back.dom() =~= m.dom());
        if listed(m[key].rows, emoji) {
            assert(back =~= m);
        }
    }
}

/// Two votes give the same registry in either order, be they for one
/// survey or for two. Where they are for different symbols of one survey
/// both count: each of the two counts is one higher, up to a full counter.
pub proof fn votes_commute_in_registry(
    m: Map<(u64, u64), SurveyView>,
    first: (u64, u64),
    a: char,
    second: (u64, u64),
    b: char,
)
    requires
        valid_registry(m),
    ensures
        voted_at(voted_at(m, first, a), second, b) == voted_at(voted_at(m, second, b), first, a),
        m.contains_key(first) && first == second && a != b ==> {
            let after = voted_at(voted_at(m, first, a), second, b)[first];
            &&& tally(after.rows, a) == bump(tally(m[first].rows, a))
            &&& tally(after.rows, b) == bump(tally(m[first].rows, b))
        },
{
    let x = voted_at(voted_at(m, first, a), second, b);
    let y = voted_at(voted_at(m, second, b), first, a);
    if first == second && m.contains_key(first) {
        votes_commute(m[first], a, b);
    }
    assert(x =~= y);
}

/// One registered survey with the message that shows it.
struct Slot {
    channel: u64,
    message: u64,
    survey: Survey,
}

/// The surveys that are live, each under the channel and the message that
/// show it. A pair of channel and message has one survey at most.
pub struct SurveyMap {
    slots: Vec<Slot>,
}

spec fn key_of(slot: Slot) -> (u64, u64) {
    (slot.channel, slot.message)
}

/// The index of the first slot under `key`, or the number of slots where
/// there is none.
spec fn slot_index(slots: Seq<Slot>, key: (u64, u64)) -> int
    decreases slots.len(),
{
    if slots.len() == 0 || key_of(slots.first()) == key {
        0
    } else {
        1 + slot_index(slots.drop_first(), key)
    }
}

proof fn lemma_slot_index(slots: Seq<Slot>, key: (u64, u64), i: int)
    requires
        0 <= i <= slots.len(),
        forall|k: int| 0 <= k < i ==> key_of(#[trigger] slots[k]) != key,
        i == slots.len() || key_of(slots[i]) == key,
    ensures
        slot_index(slots, key) == i,
    decreases i,
{
    if i > 0 {
        let rest = slots.drop_first();
        assert(key_of(slots[0]) != key);
        assert forall|k: int| 0 <= k < i - 1 implies key_of(#[trigger] rest[k]) != key by {
            assert(rest[k] == slots[k + 1]);
        }
        lemma_slot_index(rest, key, i - 1);
    }
}

proof fn lemma_slot_index_splits(slots: Seq<Slot>, key: (u64, u64))
    ensures
        0 <= slot_index(slots, key) <= slots.len(),
        forall|k: int| 0 <= k < slot_index(slots, key) ==> key_of(#[trigger] slots[k]) != key,
        slot_index(slots, key) < slots.len() ==> key_of(slots[slot_index(slots, key)]) == key,
    decreases slots.len(),
{
    if slots.len() == 0 || key_of(slots.first()) == key {
    } else {
        let rest = slots.drop_first();
        lemma_slot_index_splits(rest, key);
        assert forall|k: int| 0 <= k < slot_index(slots, key) implies key_of(#[trigger] slots[k])
            != key by {
            if k > 0 {
                assert(slots[k] == rest[k - 1]);
            }
        }
    }
}

/// Slots with the same keys at the same places find every key at the same
/// index.
proof fn lemma_same_keys(a: Seq<Slot>, b: Seq<Slot>, key: (u64, u64))
    requires
        a.len() == b.len(),
        forall|k: int| 0 <= k < a.len() ==> key_of(#[trigger] a[k]) == key_of(b[k]),
    ensures
        slot_index(a, key) == slot_index(b, key),
{
    lemma_slot_index_splits(a, key);
    let i = slot_index(a, key);
    assert forall|k: int| 0 <= k < i implies key_of(#[trigger] b[k]) != key by {
        assert(key_of(a[k]) != key);
    }
    lemma_slot_index(b, key, i);
}

/// One more slot at the end is found under its key where that key was free,
/// and changes nothing for the keys that were taken.
proof fn lemma_pushed(a: Seq<Slot>, slot: Slot, key: (u64, u64))
    ensures
        slot_index(a, key) < a.len() ==> slot_index(a.push(slot), key) == slot_index(a, key),
        slot_index(a, key) >= a.len() && key_of(slot) == key ==> slot_index(a.push(slot), key)
            == a.len(),
        slot_index(a, key) >= a.len() && key_of(slot) != key ==> slot_index(a.push(slot), key)
            == a.len() + 1,
{
    lemma_slot_index_splits(a, key);
    let b = a.push(slot);
    let i = slot_index(a, key);
    assert forall|k: int| 0 <= k < i implies key_of(#[trigger] b[k]) != key by {
        assert(b[k] == a[k]);
    }
    if i < a.len() {
        assert(b[i] == a[i]);
        lemma_slot_index(b, key, i);
    } else if key_of(slot) == key {
        lemma_slot_index(b, key, a.len() as int);
    } else {
        assert forall|k: int| 0 <= k < a.len() + 1 implies key_of(#[trigger] b[k]) != key by {
            if k < a.len() {
                assert(b[k] == a[k]);
            }
        }
        lemma_slot_index(b, key, (a.len() + 1) as int);
    }
}

/// The map that the slots stand for: each key with the survey of the first
/// slot under it.
spec fn map_of(slots: Seq<Slot>) -> Map<(u64, u64), SurveyView> {
    Map::new(
        |key: (u64, u64)| slot_index(slots, key) < slots.len(),
        |key: (u64, u64)| slots[slot_index(slots, key)].survey@,
    )
}

/// A new survey in the slot that a key is found at is a new survey under
/// that key.
proof fn lemma_replaced(a: Seq<Slot>, b: Seq<Slot>, i: int)
    requires
        0 <= i < a.len(),
        a.len() == b.len(),
        slot_index(a, key_of(a[i])) == i,
        key_of(b[i]) == key_of(a[i]),
        forall|k: int| 0 <= k < a.len() && k != i ==> #[trigger] b[k] == a[k],
    ensures
        map_of(b) == map_of(a).insert(key_of(a[i]), b[i].survey@),
{
    let m = map_of(a).insert(key_of(a[i]), b[i].survey@);
    assert forall|key: (u64, u64)|
        #[trigger] slot_index(b, key) == slot_index(a, key) && (slot_index(a, key) == i
            <==> key == key_of(a[i])) by {
        assert forall|k: int| 0 <= k < b.len() implies key_of(#[trigger] b[k]) == key_of(a[k]) by {
            if k != i {
                assert(b[k] == a[k]);
            }
        }
        lemma_same_keys(b, a, key);
        lemma_slot_index_splits(a, key);
    }
    assert forall|key: (u64, u64)| map_of(b).contains_key(key) == m.contains_key(key) by {
        assert(slot_index(b, key) == slot_index(a, key));
    }
    assert forall|key: (u64, u64)| map_of(b).contains_key(key) implies map_of(b)[key] == m[key] by {
        assert(slot_index(b, key) == slot_index(a, key));
        lemma_slot_index_splits(a, key);
        if key != key_of(a[i]) {
            assert(b[slot_index(a, key)] == a[slot_index(a, key)]);
        }
    }
    assert(map_of(b) =~= m);
}

/// One more slot at the end, under a key that was free, is one more survey
/// under that key.
proof fn lemma_appended(a: Seq<Slot>, slot: Slot)
    requires
        slot_index(a, key_of(slot)) == a.len(),
    ensures
        map_of(a.push(slot)) == map_of(a).insert(key_of(slot), slot.survey@),
{
    let b = a.push(slot);
    let m = map_of(a).insert(key_of(slot), slot.survey@);
    assert forall|key: (u64, u64)| map_of(b).contains_key(key) == m.contains_key(key) by {
        lemma_pushed(a, slot, key);
        lemma_slot_index_splits(a, key);
    }
    assert forall|key: (u64, u64)| map_of(b).contains_key(key) implies map_of(b)[key] == m[key] by {
        lemma_pushed(a, slot, key);
        lemma_slot_index_splits(a, key);
        if slot_index(a, key) < a.len() {
            assert(b[slot_index(a, key)] == a[slot_index(a, key)]);
        }
    }
    assert(map_of(b) =~= m);
}

impl View for SurveyMap {
    type V = Map<(u64, u64), SurveyView>;

    closed spec fn view(&self) -> Map<(u64, u64), SurveyView> {
        map_of(self.slots@)
    }
}

impl SurveyMap {
    /// Every registered survey is valid. Every function that makes or
    /// changes a registry sees to it.
    pub open spec fn wf(&self) -> bool {
        valid_registry(self@)
    }

    /// A registry without surveys.
    pub fn new() -> (map: SurveyMap)
        ensures
            map.wf(),
            map@ == Map::<(u64, u64), SurveyView>::empty(),
    {
        let map = SurveyMap { slots: Vec::new() };
        assert(map@ =~= Map::<(u64, u64), SurveyView>::empty());
        map
    }

    /// The index of the slot under the key, or the number of slots.
    fn position(&self, channel: u64, message: u64) -> (i: usize)
        ensures
            i == slot_index(self.slots@, (channel, message)),
            i <= self.slots@.len(),
            i < self.slots@.len() ==> key_of(self.slots@[i as int]) == (channel, message),
    {
        let mut i: usize = 0;
        while i < self.slots.len() && !(self.slots[i].channel == channel && self.slots[i].message
            == message)
            invariant
                i <= self.slots@.len(),
                forall|k: int| 0 <= k < i ==> key_of(#[trigger] self.slots@[k]) != (channel, message),
            decreases self.slots@.len() - i,
        {
            i = i + 1;
        }
        proof {
            lemma_slot_index(self.slots@, (channel, message), i as int);
        }
        i
    }

    /// Whether a survey is registered under `channel` and `message`.
    pub fn contains(&self, channel: u64, message: u64) -> (found: bool)
        ensures
            found == self@.contains_key((channel, message)),
    {
        self.position(channel, message) < self.slots.len()
    }

    /// The survey registered under `channel` and `message`.
    pub fn get(&self, channel: u64, message: u64) -> (found: Option<&Survey>)
        ensures
            found is Some == self@.contains_key((channel, message)),
            found is Some ==> found.unwrap()@ == self@[(channel, message)],
    {
        let i = self.position(channel, message);
        if i < self.slots.len() {
            Some(&self.slots[i].survey)
        } else {
            None
        }
    }

    /// Registers `survey` under `channel` and `message`, in place of the
    /// survey that was registered there, if there was one.
    pub fn insert(&mut self, channel: u64, message: u64, survey: Survey)
        requires
            old(self).wf(),
            survey.wf(),
        ensures
            final(self).wf(),
            final(self)@ == old(self)@.insert((channel, message), survey@),
    {
        let ghost added = survey@;
        let i = self.position(channel, message);
        if i < self.slots.len() {
            self.slots[i].survey = survey;
            proof {
                lemma_replaced(old(self).slots@, self.slots@, i as int);
            }
        } else {
            self.slots.push(Slot { channel, message, survey });
            proof {
                assert(self.slots@ =~= old(self).slots@.push(self.slots@.last()));
                lemma_appended(old(self).slots@, self.slots@.last());
            }
        }
        assert(self@ == old(self)@.insert((channel, message), added));
    }

    /// Counts a vote for `emoji` in the survey under `channel` and `message`
    /// and gives the text that shows the survey afterwards. Without such a
    /// survey nothing changes.
    pub fn vote(&mut self, channel: u64, message: u64, emoji: char) -> (content: Option<String>)
        requires
            old(self).wf(),
        ensures
            final(self).wf(),
            content is Some == old(self)@.contains_key((channel, message)),
            final(self)@ == voted_at(old(self)@, (channel, message), emoji),
            content is Some ==> content.unwrap()@ == rendered(
                voted(old(self)@[(channel, message)], emoji),
            ),
    {
        let i = self.position(channel, message);
        if i < self.slots.len() {
            assert(valid(self@[(channel, message)]));
            self.slots[i].survey.add_vote(emoji);
            let content = self.slots[i].survey.render();
            proof {
                lemma_replaced(old(self).slots@, self.slots@, i as int);
            }
            Some(content)
        } else {
            None
        }
    }

    /// Takes back a vote for `emoji` in the survey under `channel` and
    /// `message` and gives the text that shows the survey afterwards.
    /// Without such a survey nothing changes.
    pub fn unvote(&mut self, channel: u64, message: u64, emoji: char) -> (content: Option<String>)
        requires
            old(self).wf(),
        ensures
            final(self).wf(),
            content is Some == old(self)@.contains_key((channel, message)),
            final(self)@ == unvoted_at(old(self)@, (channel, message), emoji),
            content is Some ==> content.unwrap()@ == rendered(
                unvoted(old(self)@[(channel, message)], emoji),
            ),
    {
        let i = self.position(channel, message);
        if i < self.slots.len() {
            assert(valid(self@[(channel, message)]));
            self.slots[i].survey.remove_vote(emoji);
            let content = self.slots[i].survey.render();
            proof {
                lemma_replaced(old(self).slots@, self.slots@, i as int);
            }
            Some(content)
        } else {
            None
        }
    }
}

} // verus!

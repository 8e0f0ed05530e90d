//! The stake table of an epoch.

use crate::pubkey::Pubkey;
use crate::sum_lemmas::{lemma_sum_push, lemma_sum_update};
use crate::weighted_shuffle::{lemma_clear_selected, total_weight};
use vstd::prelude::*;

verus! {

/// The stake that `entries` give to `key`: that of the first entry for it,
/// zero where there is none.
pub open spec fn stake_in(entries: Seq<(Pubkey, u64)>, key: Pubkey) -> u64
    decreases entries.len(),
{
    if entries.len() == 0 {
        0
    } else if entries[0].0 == key {
        entries[0].1
    } else {
        stake_in(entries.skip(1), key)
    }
}

/// Whether `entries` hold an entry for `key`.
pub open spec fn has_key(entries: Seq<(Pubkey, u64)>, key: Pubkey) -> bool {
    exists|i: int| 0 <= i < entries.len() && (#[trigger] entries[i]).0 == key
}

/// Whether no key has two entries.
pub open spec fn distinct_keys(entries: Seq<(Pubkey, u64)>) -> bool {
    forall|i: int, j: int|
        0 <= i < j < entries.len() ==> (#[trigger] entries[i]).0 != (#[trigger] entries[j]).0
}

/// The stakes of `entries`, in their order.
pub open spec fn entry_stakes(entries: Seq<(Pubkey, u64)>) -> Seq<u64> {
    Seq::new(entries.len(), |i: int| entries[i].1)
}

/// The sum of all stakes.
pub open spec fn total_stake(entries: Seq<(Pubkey, u64)>) -> nat {
    total_weight(entry_stakes(entries))
}

/// With distinct keys, every entry gives its key its own stake; a key
/// without an entry has none.
pub proof fn lemma_stake_in(entries: Seq<(Pubkey, u64)>, key: Pubkey)
    requires
        distinct_keys(entries),
    ensures
        forall|i: int|
            0 <= i < entries.len() && (#[trigger] entries[i]).0 == key ==> stake_in(entries, key)
                == entries[i].1,
        !has_key(entries, key) ==> stake_in(entries, key) == 0,
        stake_in(entries, key) > 0 ==> has_key(entries, key),
    decreases entries.len(),
{
    if entries.len() > 0 {
        let rest = entries.skip(1);
        assert forall|i: int, j: int| 0 <= i < j < rest.len() implies (#[trigger] rest[i]).0 != (
        #[trigger] rest[j]).0 by {
            assert(rest[i] == entries[i + 1]);
            assert(rest[j] == entries[j + 1]);
        }
        lemma_stake_in(rest, key);
        if entries[0].0 == key {
            assert forall|i: int| 0 <= i < entries.len() && (#[trigger] entries[i]).0
                == key implies stake_in(entries, key) == entries[i].1 by {
                if i > 0 {
                    assert(entries[0].0 != entries[i].0);
                }
            }
        } else {
            assert forall|i: int| 0 <= i < entries.len() && (#[trigger] entries[i]).0
                == key implies stake_in(entries, key) == entries[i].1 by {
                assert(rest[i - 1] == entries[i]);
            }
            if has_key(rest, key) {
                let i = choose|i: int| 0 <= i < rest.len() && (#[trigger] rest[i]).0 == key;
                assert(entries[i + 1] == rest[i]);
            }
            if has_key(entries, key) {
                let i = choose|i: int| 0 <= i < entries.len() && (#[trigger] entries[i]).0 == key;
                assert(rest[i - 1] == entries[i]);
            }
        }
    }
}

/// The stakes of an epoch, one entry for each staked key. Its view lists
/// the entries in the order in which their keys first came. The stakes sum
/// to no more than `u64` holds.
pub struct Stakes {
    entries: Vec<(Pubkey, u64)>,
    total: u64,
}

impl View for Stakes {
    type V = Seq<(Pubkey, u64)>;

    closed spec fn view(&self) -> Seq<(Pubkey, u64)> {
        self.entries@
    }
}

impl Stakes {
    /// Whether no key has two entries and the sum of the stakes is kept.
    pub closed spec fn wf(&self) -> bool {
        &&& distinct_keys(self@)
        &&& self.total == total_stake(self@)
    }

    /// A well-formed table has distinct keys and a sum within `u64`.
    pub proof fn lemma_wf(&self)
        requires
            self.wf(),
        ensures
            distinct_keys(self@),
            total_stake(self@) <= u64::MAX,
    {
    }

    /// The empty table.
    pub fn new() -> (stakes: Stakes)
        ensures
            stakes.wf(),
            stakes@.len() == 0,
            total_stake(stakes@) == 0,
    {
        let stakes = Stakes { entries: Vec::new(), total: 0 };
        assert(entry_stakes(stakes@) == Seq::<u64>::empty());
        stakes
    }

    /// The sum of all stakes.
    pub fn total(&self) -> (total: u64)
        requires
            self.wf(),
        ensures
            total == total_stake(self@),
    {
        self.total
    }

    /// The number of entries.
    pub fn len(&self) -> (len: usize)
        ensures
            len == self@.len(),
    {
        self.entries.len()
    }

    /// The entry at `position`.
    pub fn entry(&self, position: usize) -> (entry: (Pubkey, u64))
        requires
            position < self@.len(),
        ensures
            entry == self@[position as int],
    {
        self.entries[position]
    }

    /// Where the entry for `key` stands.
    fn position(&self, key: &Pubkey) -> (found: Option<usize>)
        ensures
            found matches Some(i) ==> i < self@.len() && self@[i as int].0 == *key,
            found.is_none() ==> !has_key(self@, *key),
    {
        let mut i: usize = 0;
        while i < self.entries.len()
            invariant
                i <= self.entries@.len(),
                forall|j: int| 0 <= j < i ==> (#[trigger] self.entries@[j]).0 != *key,
            decreases self.entries@.len() - i,
        {
            if self.entries[i].0 == *key {
                return Some(i);
            }
            i = i + 1;
        }
        None
    }

    /// The stake of `key`, if it has an entry.
    pub fn get(&self, key: &Pubkey) -> (stake: Option<u64>)
        requires
            self.wf(),
        ensures
            stake.is_some() <==> has_key(self@, *key),
            stake matches Some(s) ==> s == stake_in(self@, *key),
            stake.is_none() ==> stake_in(self@, *key) == 0,
    {
        proof {
            lemma_stake_in(self@, *key);
        }
        match self.position(key) {
            Some(i) => Some(self.entries[i].1),
            None => None,
        }
    }

    /// Sets the stake of `key` and returns the stake it had, if any. Other
    /// keys keep theirs. The sum of the stakes must stay within `u64`.
    pub fn insert(&mut self, key: Pubkey, stake: u64) -> (before: Option<u64>)
        requires
            old(self).wf(),
            total_stake(old(self)@) - stake_in(old(self)@, key) + stake <= u64::MAX,
        ensures
            final(self).wf(),
            total_stake(final(self)@) == total_stake(old(self)@) - stake_in(old(self)@, key)
                + stake,
            before.is_some() <==> has_key(old(self)@, key),
            before matches Some(s) ==> s == stake_in(old(self)@, key),
            stake_in(final(self)@, key) == stake,
            has_key(final(self)@, key),
            forall|other: Pubkey|
                other != key ==> stake_in(final(self)@, other) == stake_in(old(self)@, other)
                    && has_key(final(self)@, other) == has_key(old(self)@, other),
            final(self)@.len() == old(self)@.len() + if has_key(old(self)@, key) {
                0int
            } else {
                1int
            },
            forall|i: int|
                0 <= i < old(self)@.len() ==> (#[trigger] final(self)@[i]) == if old(self)@[i].0
                    == key {
                    (key, stake)
                } else {
                    old(self)@[i]
                },
            !has_key(old(self)@, key) ==> final(self)@.last() == (key, stake),
    {
        proof {
            lemma_stake_in(self@, key);
        }
        let ghost before_entries = self@;
        match self.position(&key) {
            Some(i) => {
                let previous: u64 = self.entries[i].1;
                proof {
                    lemma_clear_selected(entry_stakes(before_entries), i as int);
                    lemma_sum_update(
                        entry_stakes(before_entries),
                        i as int,
                        stake,
                        before_entries.len() as int,
                    );
                    assert(entry_stakes(before_entries.update(i as int, (key, stake)))
                        == entry_stakes(before_entries).update(i as int, stake));
                }
                self.total = self.total - previous + stake;
                self.entries.set(i, (key, stake));
                proof {
                    let after = self@;
                    assert(after[i as int].0 == key);
                    assert forall|a: int, b: int| 0 <= a < b < after.len() implies (
                    #[trigger] after[a]).0 != (#[trigger] after[b]).0 by {
                        assert(after[a].0 == before_entries[a].0);
                        assert(after[b].0 == before_entries[b].0);
                    }
                    lemma_stake_in(after, key);
                    assert forall|other: Pubkey| other != key implies stake_in(after, other)
                        == stake_in(before_entries, other) && has_key(after, other) == has_key(
                        before_entries,
                        other,
                    ) by {
                        lemma_stake_in(after, other);
                        lemma_stake_in(before_entries, other);
                        if has_key(before_entries, other) {
                            let j = choose|j: int|
                                0 <= j < before_entries.len() && (#[trigger] before_entries[j]).0
                                    == other;
                            assert(after[j] == before_entries[j]);
                        }
                        if has_key(after, other) {
                            let j = choose|j: int|
                                0 <= j < after.len() && (#[trigger] after[j]).0 == other;
                            assert(after[j] == before_entries[j]);
                        }
                    }
                }
                Some(previous)
            },
            None => {
                proof {
                    lemma_sum_push(entry_stakes(before_entries), stake);
                    assert(entry_stakes(before_entries.push((key, stake))) == entry_stakes(
                        before_entries,
                    ).push(stake));
                }
                self.total = self.total + stake;
                self.entries.push((key, stake));
                proof {
                    let after = self@;
                    let last = after.len() - 1;
                    assert(after[last].0 == key);
                    assert forall|a: int, b: int| 0 <= a < b < after.len() implies (
                    #[trigger] after[a]).0 != (#[trigger] after[b]).0 by {
                        if b < last {
                            assert(after[a] == before_entries[a]);
                            assert(after[b] == before_entries[b]);
                        } else {
                            assert(after[a] == before_entries[a]);
                        }
                    }
                    lemma_stake_in(after, key);
                    assert forall|other: Pubkey| other != key implies stake_in(after, other)
                        == stake_in(before_entries, other) && has_key(after, other) == has_key(
                        before_entries,
                        other,
                    ) by {
                        lemma_stake_in(after, other);
                        lemma_stake_in(before_entries, other);
                        if has_key(before_entries, other) {
                            let j = choose|j: int|
                                0 <= j < before_entries.len() && (#[trigger] before_entries[j]).0
                                    == other;
                            assert(after[j] == before_entries[j]);
                        }
                        if has_key(after, other) {
                            let j = choose|j: int|
                                0 <= j < after.len() && (#[trigger] after[j]).0 == other;
                            assert(after[j] == before_entries[j]);
                        }
                    }
                }
                None
            },
        }
    }
}

} // verus!

//! The artifact pool: two sections keyed by content hash. Messages from the
//! wire enter the unvalidated section; change sets are the only way into the
//! validated one.

use crate::consensus_layer::artifacts::{
    action_views, ActionView, ChangeAction, ChangeSet, ConsensusMessage, MessageKind,
    MessageView, UnvalidatedArtifact,
};
use crate::consensus_layer::height_index::{is_first_listing, lists, Height, HeightIndex};
use crate::crypto::CryptoHash;
use crate::time_source::Time;
use vstd::prelude::*;

verus! {

/// A stored message with the hash it is stored under and the time at which
/// this replica first held it.
#[derive(Debug, PartialEq, Eq)]
pub struct PoolEntry {
    pub hash: CryptoHash,
    pub message: ConsensusMessage,
    pub timestamp: Time,
}

/// What a stored message is, mathematically.
pub struct EntryView {
    pub hash: Seq<char>,
    pub message: MessageView,
    pub timestamp: Time,
}

impl View for PoolEntry {
    type V = EntryView;

    open spec fn view(&self) -> EntryView {
        EntryView { hash: self.hash@, message: self.message@, timestamp: self.timestamp }
    }
}

impl Clone for PoolEntry {
    fn clone(&self) -> (copy: Self)
        ensures
            copy@ == self@,
    {
        PoolEntry {
            hash: self.hash.clone(),
            message: self.message.clone(),
            timestamp: self.timestamp,
        }
    }
}

/// Whether some entry of `entries` is stored under `hash`.
pub open spec fn has_hash(entries: Seq<EntryView>, hash: Seq<char>) -> bool {
    exists|i: int| 0 <= i < entries.len() && (#[trigger] entries[i]).hash == hash
}

/// The position of an entry stored under `hash`. Meaningful where there is one.
pub open spec fn index_of(entries: Seq<EntryView>, hash: Seq<char>) -> int {
    choose|i: int| 0 <= i < entries.len() && (#[trigger] entries[i]).hash == hash
}

/// `entries` without the entry stored under `hash`, if there is one.
pub open spec fn without_hash(entries: Seq<EntryView>, hash: Seq<char>) -> Seq<EntryView> {
    if has_hash(entries, hash) {
        entries.remove(index_of(entries, hash))
    } else {
        entries
    }
}

/// A section is keyed by content hash: every entry is stored under the hash
/// of its message, and no hash occurs twice.
pub open spec fn keyed(entries: Seq<EntryView>) -> bool {
    &&& forall|i: int|
        0 <= i < entries.len() ==> (#[trigger] entries[i]).hash == entries[i].message.digest()
    &&& forall|i: int, j: int|
        0 <= i < j < entries.len() ==> (#[trigger] entries[i]).hash != (#[trigger] entries[j]).hash
}

/// Whether `entry` is a message of `kind` that `item` names by height and
/// hash.
pub open spec fn is_named(entry: EntryView, kind: MessageKind, item: (Height, Seq<char>)) -> bool {
    entry.message.kind() == kind && entry.message.height() == item.0 && entry.hash == item.1
}

/// Whether `item` names one of the messages of `kind` among `entries`.
pub open spec fn names_entry(
    entries: Seq<EntryView>,
    kind: MessageKind,
    item: (Height, Seq<char>),
) -> bool {
    exists|i: int| 0 <= i < entries.len() && is_named(#[trigger] entries[i], kind, item)
}

/// Whether `index` is the height index of the messages of `kind` among
/// `entries`: it lists each of them once, at its height and under its hash,
/// and lists nothing else.
pub open spec fn indexes(
    index: Seq<(Height, Seq<char>)>,
    entries: Seq<EntryView>,
    kind: MessageKind,
) -> bool {
    &&& forall|i: int|
        0 <= i < entries.len() && (#[trigger] entries[i]).message.kind() == kind ==> lists(
            index,
            entries[i].message.height(),
            entries[i].hash,
        )
    &&& forall|j: int| 0 <= j < index.len() ==> names_entry(entries, kind, #[trigger] index[j])
    &&& forall|j: int, k: int|
        0 <= j < k < index.len() ==> (#[trigger] index[j]) != (#[trigger] index[k])
}

/// One section of the pool, in the order in which its entries came in, with
/// a height index for each kind of message.
pub struct PoolSection {
    entries: Vec<PoolEntry>,
    proposals: HeightIndex,
    shares: HeightIndex,
    notarizations: HeightIndex,
    finalizations: HeightIndex,
}

impl View for PoolSection {
    type V = Seq<EntryView>;

    closed spec fn view(&self) -> Seq<EntryView> {
        self.entries@.map_values(|entry: PoolEntry| entry@)
    }
}

impl PoolSection {
    /// Whether the height indexes are those of the entries.
    pub closed spec fn indexed(&self) -> bool {
        &&& indexes(self.proposals@, self@, MessageKind::BlockProposal)
        &&& indexes(self.shares@, self@, MessageKind::NotarizationShare)
        &&& indexes(self.notarizations@, self@, MessageKind::Notarization)
        &&& indexes(self.finalizations@, self@, MessageKind::Finalization)
    }

    fn new() -> (section: Self)
        ensures
            section@ == Seq::<EntryView>::empty(),
            section.indexed(),
    {
        let section = PoolSection {
            entries: Vec::new(),
            proposals: HeightIndex::new(),
            shares: HeightIndex::new(),
            notarizations: HeightIndex::new(),
            finalizations: HeightIndex::new(),
        };
        assert(section@ =~= Seq::<EntryView>::empty());
        section
    }

    /// The number of entries.
    pub fn len(&self) -> (len: usize)
        ensures
            len == self@.len(),
    {
        self.entries.len()
    }

    /// The entry at `position`, counted in order of arrival.
    pub fn entry(&self, position: usize) -> (entry: &PoolEntry)
        requires
            position < self@.len(),
        ensures
            entry@ == self@[position as int],
    {
        &self.entries[position]
    }

    /// Where the entry stored under `hash` stands, if there is one.
    pub fn position(&self, hash: &CryptoHash) -> (found: Option<usize>)
        ensures
            found is Some <==> has_hash(self@, hash@),
            found matches Some(position) ==> position < self@.len() && self@[position as int].hash
                == hash@ && forall|j: int| 0 <= j < position ==> self@[j].hash != hash@,
    {
        let mut position: usize = 0;
        while position < self.entries.len()
            invariant
                position <= self.entries.len(),
                forall|j: int| 0 <= j < position ==> (#[trigger] self@[j]).hash != hash@,
            decreases self.entries.len() - position,
        {
            if self.entries[position].hash == *hash {
                return Some(position);
            }
            position = position + 1;
        }
        None
    }

    /// Whether an entry is stored under `hash`.
    pub fn contains(&self, hash: &CryptoHash) -> (found: bool)
        ensures
            found == has_hash(self@, hash@),
    {
        self.position(hash).is_some()
    }

    /// The highest height of which the section holds a message of `kind`;
    /// `None` if it holds no message of that kind.
    pub fn max_height(&self, kind: MessageKind) -> (highest: Option<Height>)
        requires
            self.indexed(),
        ensures
            highest is None ==> forall|i: int|
                0 <= i < self@.len() ==> (#[trigger] self@[i]).message.kind() != kind,
            highest matches Some(height) ==> {
                &&& exists|i: int|
                    0 <= i < self@.len() && (#[trigger] self@[i]).message.kind() == kind
                        && self@[i].message.height() == height
                &&& forall|i: int|
                    0 <= i < self@.len() && (#[trigger] self@[i]).message.kind() == kind
                        ==> self@[i].message.height() <= height
            },
    {
        let index = match kind {
            MessageKind::BlockProposal => &self.proposals,
            MessageKind::NotarizationShare => &self.shares,
            MessageKind::Notarization => &self.notarizations,
            MessageKind::Finalization => &self.finalizations,
        };
        assert(indexes(index@, self@, kind));
        let highest = index.max_height();
        proof {
            match highest {
                Some(height) => {
                    let j = choose|j: int|
                        0 <= j < index@.len() && (#[trigger] index@[j]).0 == height;
                    assert(names_entry(self@, kind, index@[j]));
                    let i = choose|i: int|
                        0 <= i < self@.len() && is_named(#[trigger] self@[i], kind, index@[j]);
                    assert(self@[i].message.kind() == kind && self@[i].message.height() == height);
                    assert forall|i: int|
                        0 <= i < self@.len() && (#[trigger] self@[i]).message.kind()
                            == kind implies self@[i].message.height() <= height by {
                        let listed = choose|j: int|
                            0 <= j < index@.len() && (#[trigger] index@[j]) == (
                                self@[i].message.height(),
                                self@[i].hash,
                            );
                        assert(index@[listed].0 <= height);
                    }
                },
                None => {
                    assert forall|i: int| 0 <= i < self@.len() implies (#[trigger] self@[i]).message.kind()
                        != kind by {
                        if self@[i].message.kind() == kind {
                            assert(lists(index@, self@[i].message.height(), self@[i].hash));
                        }
                    }
                },
            }
        }
        highest
    }

    fn push(&mut self, entry: PoolEntry)
        requires
            old(self).indexed(),
            !has_hash(old(self)@, entry@.hash),
        ensures
            final(self)@ == old(self)@.push(entry@),
            final(self).indexed(),
    {
        let height = entry.message.height();
        let hash = entry.hash.clone();
        let ghost kind = entry@.message.kind();
        let ghost item = (height, hash@);
        match entry.message.kind() {
            MessageKind::BlockProposal => self.proposals.insert(height, hash),
            MessageKind::NotarizationShare => self.shares.insert(height, hash),
            MessageKind::Notarization => self.notarizations.insert(height, hash),
            MessageKind::Finalization => self.finalizations.insert(height, hash),
        }
        self.entries.push(entry);
        assert(self@ =~= old(self)@.push(entry@));
        proof {
            lemma_indexes_push(old(self).proposals@, old(self)@, MessageKind::BlockProposal, entry@);
            lemma_indexes_push(
                old(self).shares@,
                old(self)@,
                MessageKind::NotarizationShare,
                entry@,
            );
            lemma_indexes_push(
                old(self).notarizations@,
                old(self)@,
                MessageKind::Notarization,
                entry@,
            );
            lemma_indexes_push(
                old(self).finalizations@,
                old(self)@,
                MessageKind::Finalization,
                entry@,
            );
        }
    }

    fn remove(&mut self, position: usize) -> (entry: PoolEntry)
        requires
            old(self).indexed(),
            keyed(old(self)@),
            position < old(self)@.len(),
        ensures
            entry@ == old(self)@[position as int],
            final(self)@ == old(self)@.remove(position as int),
            final(self).indexed(),
    {
        let entry = self.entries.remove(position);
        assert(self@ =~= old(self)@.remove(position as int));
        let height = entry.message.height();
        let removed = match entry.message.kind() {
            MessageKind::BlockProposal => self.proposals.remove(height, &entry.hash),
            MessageKind::NotarizationShare => self.shares.remove(height, &entry.hash),
            MessageKind::Notarization => self.notarizations.remove(height, &entry.hash),
            MessageKind::Finalization => self.finalizations.remove(height, &entry.hash),
        };
        proof {
            lemma_indexes_remove(
                old(self).proposals@,
                self.proposals@,
                old(self)@,
                MessageKind::BlockProposal,
                position as int,
            );
            lemma_indexes_remove(
                old(self).shares@,
                self.shares@,
                old(self)@,
                MessageKind::NotarizationShare,
                position as int,
            );
            lemma_indexes_remove(
                old(self).notarizations@,
                self.notarizations@,
                old(self)@,
                MessageKind::Notarization,
                position as int,
            );
            lemma_indexes_remove(
                old(self).finalizations@,
                self.finalizations@,
                old(self)@,
                MessageKind::Finalization,
                position as int,
            );
        }
        entry
    }
}

/// An index stays the index of its entries when a new entry comes in and,
/// if it is of the index's kind, is listed.
proof fn lemma_indexes_push(
    index: Seq<(Height, Seq<char>)>,
    entries: Seq<EntryView>,
    kind: MessageKind,
    entry: EntryView,
)
    requires
        indexes(index, entries, kind),
        !has_hash(entries, entry.hash),
    ensures
        indexes(
            if entry.message.kind() == kind {
                index.push((entry.message.height(), entry.hash))
            } else {
                index
            },
            entries.push(entry),
            kind,
        ),
{
    let grown = entries.push(entry);
    let item = (entry.message.height(), entry.hash);
    let after = if entry.message.kind() == kind {
        index.push(item)
    } else {
        index
    };
    assert forall|i: int|
        0 <= i < grown.len() && (#[trigger] grown[i]).message.kind() == kind implies lists(
        after,
        grown[i].message.height(),
        grown[i].hash,
    ) by {
        if i < entries.len() {
            assert(grown[i] == entries[i]);
            let j = choose|j: int|
                0 <= j < index.len() && (#[trigger] index[j]) == (
                    entries[i].message.height(),
                    entries[i].hash,
                );
            assert(after[j] == index[j]);
        } else {
            assert(after[after.len() - 1] == item);
        }
    }
    assert forall|j: int| 0 <= j < after.len() implies names_entry(
        grown,
        kind,
        #[trigger] after[j],
    ) by {
        if j < index.len() {
            assert(names_entry(entries, kind, index[j]));
            let i = choose|i: int|
                0 <= i < entries.len() && is_named(#[trigger] entries[i], kind, index[j]);
            assert(is_named(grown[i], kind, after[j]));
        } else {
            assert(is_named(grown[grown.len() - 1], kind, after[j]));
        }
    }
    assert forall|j: int, k: int| 0 <= j < k < after.len() implies (#[trigger] after[j]) != (
    #[trigger] after[k]) by {
        if k >= index.len() {
            assert(names_entry(entries, kind, index[j]));
            let i = choose|i: int|
                0 <= i < entries.len() && is_named(#[trigger] entries[i], kind, index[j]);
            assert(entries[i].hash != entry.hash);
        }
    }
}

/// An index stays the index of its entries when an entry leaves and, if it
/// is of the index's kind, its first listing is struck.
proof fn lemma_indexes_remove(
    index: Seq<(Height, Seq<char>)>,
    after: Seq<(Height, Seq<char>)>,
    entries: Seq<EntryView>,
    kind: MessageKind,
    position: int,
)
    requires
        indexes(index, entries, kind),
        keyed(entries),
        0 <= position < entries.len(),
        entries[position].message.kind() != kind ==> after == index,
        entries[position].message.kind() == kind ==> exists|r: int|
            #[trigger] is_first_listing(
                index,
                entries[position].message.height(),
                entries[position].hash,
                r,
            ) && after == index.remove(r),
    ensures
        indexes(after, entries.remove(position), kind),
{
    let gone = entries[position];
    let rest = entries.remove(position);
    if gone.message.kind() == kind {
        let r = choose|r: int|
            #[trigger] is_first_listing(index, gone.message.height(), gone.hash, r) && after
                == index.remove(r);
        assert forall|i: int|
            0 <= i < rest.len() && (#[trigger] rest[i]).message.kind() == kind implies lists(
            after,
            rest[i].message.height(),
            rest[i].hash,
        ) by {
            let source = if i < position { i } else { i + 1 };
            assert(rest[i] == entries[source]);
            let j = choose|j: int|
                0 <= j < index.len() && (#[trigger] index[j]) == (
                    entries[source].message.height(),
                    entries[source].hash,
                );
            if source < position {
                assert(entries[source].hash != entries[position].hash);
            } else {
                assert(entries[position].hash != entries[source].hash);
            }
            assert(j != r);
            assert(after[if j < r { j } else { j - 1 }] == index[j]);
        }
        assert forall|j: int| 0 <= j < after.len() implies names_entry(
            rest,
            kind,
            #[trigger] after[j],
        ) by {
            let source = if j < r { j } else { j + 1 };
            assert(after[j] == index[source]);
            assert(names_entry(entries, kind, index[source]));
            let i = choose|i: int|
                0 <= i < entries.len() && is_named(#[trigger] entries[i], kind, index[source]);
            if i == position {
                if source < r {
                    assert(index[source] != index[r]);
                } else {
                    assert(index[r] != index[source]);
                }
            }
            assert(is_named(rest[if i < position { i } else { i - 1 }], kind, after[j]));
        }
        assert forall|j: int, k: int| 0 <= j < k < after.len() implies (#[trigger] after[j]) != (
        #[trigger] after[k]) by {
            let sj = if j < r { j } else { j + 1 };
            let sk = if k < r { k } else { k + 1 };
            assert(index[sj] != index[sk]);
        }
    } else {
        assert forall|i: int|
            0 <= i < rest.len() && (#[trigger] rest[i]).message.kind() == kind implies lists(
            after,
            rest[i].message.height(),
            rest[i].hash,
        ) by {
            assert(rest[i] == entries[if i < position { i } else { i + 1 }]);
        }
        assert forall|j: int| 0 <= j < after.len() implies names_entry(
            rest,
            kind,
            #[trigger] after[j],
        ) by {
            assert(names_entry(entries, kind, index[j]));
            let i = choose|i: int|
                0 <= i < entries.len() && is_named(#[trigger] entries[i], kind, index[j]);
            assert(i != position);
            assert(is_named(rest[if i < position { i } else { i - 1 }], kind, after[j]));
        }
    }
}

/// In a keyed section the entry stored under a hash is the only one.
pub proof fn lemma_index_of_keyed(entries: Seq<EntryView>, position: int)
    requires
        keyed(entries),
        0 <= position < entries.len(),
    ensures
        has_hash(entries, entries[position].hash),
        index_of(entries, entries[position].hash) == position,
{
    let hash = entries[position].hash;
    let chosen = index_of(entries, hash);
    assert(0 <= chosen < entries.len() && entries[chosen].hash == hash);
    if chosen < position {
        assert(entries[chosen].hash != entries[position].hash);
    } else if position < chosen {
        assert(entries[position].hash != entries[chosen].hash);
    }
}

/// The pool, mathematically: its two sections.
pub struct PoolView {
    pub validated: Seq<EntryView>,
    pub unvalidated: Seq<EntryView>,
}

impl PoolView {
    /// Both sections are keyed, and no hash is stored in both.
    pub open spec fn wf(self) -> bool {
        &&& keyed(self.validated)
        &&& keyed(self.unvalidated)
        &&& forall|i: int, j: int|
            0 <= i < self.validated.len() && 0 <= j < self.unvalidated.len() ==> (
            #[trigger] self.validated[i]).hash != (#[trigger] self.unvalidated[j]).hash
    }

    /// Whether the pool stores `hash` in either section.
    pub open spec fn holds(self, hash: Seq<char>) -> bool {
        has_hash(self.validated, hash) || has_hash(self.unvalidated, hash)
    }

    /// The pool after `message` arrived from the wire at `timestamp`: the
    /// message joins the unvalidated section, unless the pool holds it already.
    pub open spec fn insert(self, message: MessageView, timestamp: Time) -> PoolView {
        let hash = message.digest();
        if self.holds(hash) {
            self
        } else {
            PoolView {
                validated: self.validated,
                unvalidated: self.unvalidated.push(EntryView { hash, message, timestamp }),
            }
        }
    }

    /// The pool after each of `artifacts` arrived, in order.
    pub open spec fn insert_all(
        self,
        artifacts: Seq<UnvalidatedArtifact<ConsensusMessage>>,
    ) -> PoolView
        decreases artifacts.len(),
    {
        if artifacts.len() == 0 {
            self
        } else {
            self.insert_all(artifacts.drop_last()).insert(
                artifacts.last().message@,
                artifacts.last().timestamp,
            )
        }
    }

    /// The pool after one change made at time `now`.
    ///
    /// `AddToValidated` stores the message in the validated section with
    /// timestamp `now`, unless that section has it already; should the
    /// unvalidated section hold the same message, it gives it up.
    /// `MoveToValidated` moves the entry that the unvalidated section stores
    /// under the message's hash, timestamp included, to the end of the
    /// validated section; where there is no such entry it changes nothing.
    pub open spec fn apply(self, action: ActionView, now: Time) -> PoolView {
        let hash = action.message().digest();
        match action {
            ActionView::AddToValidated(message) => if has_hash(self.validated, hash) {
                self
            } else {
                PoolView {
                    validated: self.validated.push(EntryView { hash, message, timestamp: now }),
                    unvalidated: without_hash(self.unvalidated, hash),
                }
            },
            ActionView::MoveToValidated(_) => if has_hash(self.unvalidated, hash) {
                let position = index_of(self.unvalidated, hash);
                PoolView {
                    validated: self.validated.push(self.unvalidated[position]),
                    unvalidated: self.unvalidated.remove(position),
                }
            } else {
                self
            },
        }
    }

    /// The pool after the changes of `actions`, made in order at time `now`.
    pub open spec fn apply_all(self, actions: Seq<ActionView>, now: Time) -> PoolView
        decreases actions.len(),
    {
        if actions.len() == 0 {
            self
        } else {
            self.apply_all(actions.drop_last(), now).apply(actions.last(), now)
        }
    }
}

/// Whether exactly one entry of `entries` is stored under `hash`.
pub open spec fn stores_once(entries: Seq<EntryView>, hash: Seq<char>) -> bool {
    exists|i: int|
        0 <= i < entries.len() && (#[trigger] entries[i]).hash == hash && forall|j: int|
            0 <= j < entries.len() && (#[trigger] entries[j]).hash == hash ==> j == i
}

/// Taking in a message keeps the pool well formed.
pub proof fn lemma_insert_wf(pool: PoolView, message: MessageView, timestamp: Time)
    requires
        pool.wf(),
    ensures
        pool.insert(message, timestamp).wf(),
{
}

/// Taking in a batch of messages keeps the pool well formed.
pub proof fn lemma_insert_all_wf(
    pool: PoolView,
    artifacts: Seq<UnvalidatedArtifact<ConsensusMessage>>,
)
    requires
        pool.wf(),
    ensures
        pool.insert_all(artifacts).wf(),
    decreases artifacts.len(),
{
    if artifacts.len() > 0 {
        lemma_insert_all_wf(pool, artifacts.drop_last());
        lemma_insert_wf(
            pool.insert_all(artifacts.drop_last()),
            artifacts.last().message@,
            artifacts.last().timestamp,
        );
    }
}

/// A change keeps the pool well formed, leaves every validated entry where
/// it is, and keeps every hash that the pool held; the hash of the message
/// it carries is validated afterwards if the pool held it or the change adds
/// it.
pub proof fn lemma_apply(pool: PoolView, action: ActionView, now: Time)
    requires
        pool.wf(),
    ensures
        pool.apply(action, now).wf(),
        pool.validated.is_prefix_of(pool.apply(action, now).validated),
        forall|hash: Seq<char>|
            has_hash(pool.validated, hash) ==> has_hash(pool.apply(action, now).validated, hash),
        forall|hash: Seq<char>| pool.holds(hash) ==> pool.apply(action, now).holds(hash),
        forall|hash: Seq<char>|
            has_hash(pool.apply(action, now).unvalidated, hash) ==> has_hash(
                pool.unvalidated,
                hash,
            ),
        pool.holds(action.message().digest()) || action is AddToValidated ==> has_hash(
            pool.apply(action, now).validated,
            action.message().digest(),
        ),
{
    let hash = action.message().digest();
    let after = pool.apply(action, now);
    if after != pool {
        let grown = after.validated;
        assert(grown.len() == pool.validated.len() + 1);
        assert(grown.drop_last() =~= pool.validated);
        let moved = grown.last();
        assert(moved.hash == hash && moved.hash == moved.message.digest()) by {
            if action is MoveToValidated {
                let position = index_of(pool.unvalidated, hash);
                assert(pool.unvalidated[position].hash == hash);
            }
        }
        assert(has_hash(grown, hash)) by {
            assert(grown[grown.len() - 1].hash == hash);
        }
        // Whatever the unvalidated section holds afterwards it held before,
        // and it no longer holds the hash that moved.
        let rest = after.unvalidated;
        if has_hash(pool.unvalidated, hash) {
            let position = index_of(pool.unvalidated, hash);
            assert(rest =~= pool.unvalidated.remove(position));
            assert forall|i: int| 0 <= i < rest.len() implies (#[trigger] rest[i])
                == pool.unvalidated[if i < position { i } else { i + 1 }] by {}
            assert forall|i: int| 0 <= i < rest.len() implies (#[trigger] rest[i]).hash != hash by {
                let source = if i < position { i } else { i + 1 };
                assert(rest[i] == pool.unvalidated[source]);
                if source < position {
                    assert(pool.unvalidated[source].hash != pool.unvalidated[position].hash);
                } else {
                    assert(pool.unvalidated[position].hash != pool.unvalidated[source].hash);
                }
            }
            assert(keyed(rest)) by {
                assert forall|i: int, j: int| 0 <= i < j < rest.len() implies (#[trigger] rest[i]).hash
                    != (#[trigger] rest[j]).hash by {
                    let si = if i < position { i } else { i + 1 };
                    let sj = if j < position { j } else { j + 1 };
                    assert(pool.unvalidated[si].hash != pool.unvalidated[sj].hash);
                }
            }
            assert forall|other: Seq<char>| has_hash(rest, other) implies has_hash(
                pool.unvalidated,
                other,
            ) by {
                let i = choose|i: int| 0 <= i < rest.len() && (#[trigger] rest[i]).hash == other;
                let source = if i < position { i } else { i + 1 };
                assert(pool.unvalidated[source].hash == other);
            }
            assert forall|other: Seq<char>| pool.holds(other) implies after.holds(other) by {
                if has_hash(pool.validated, other) {
                    let i = choose|i: int|
                        0 <= i < pool.validated.len() && (#[trigger] pool.validated[i]).hash
                            == other;
                    assert(grown[i].hash == other);
                } else {
                    let j = choose|j: int|
                        0 <= j < pool.unvalidated.len() && (#[trigger] pool.unvalidated[j]).hash
                            == other;
                    if j == position {
                        assert(grown[grown.len() - 1].hash == other);
                    } else {
                        let target = if j < position { j } else { j - 1 };
                        assert(rest[target].hash == other);
                    }
                }
            }
        } else {
            assert(rest == pool.unvalidated);
            assert forall|other: Seq<char>| pool.holds(other) implies after.holds(other) by {
                if has_hash(pool.validated, other) {
                    let i = choose|i: int|
                        0 <= i < pool.validated.len() && (#[trigger] pool.validated[i]).hash
                            == other;
                    assert(grown[i].hash == other);
                }
            }
        }
        assert forall|other: Seq<char>| has_hash(pool.validated, other) implies has_hash(
            grown,
            other,
        ) by {
            let i = choose|i: int|
                0 <= i < pool.validated.len() && (#[trigger] pool.validated[i]).hash == other;
            assert(grown[i].hash == other);
        }
        assert(keyed(grown)) by {
            assert forall|i: int, j: int| 0 <= i < j < grown.len() implies (#[trigger] grown[i]).hash
                != (#[trigger] grown[j]).hash by {
                if j == grown.len() - 1 {
                    assert(grown[i] == pool.validated[i]);
                    if has_hash(pool.unvalidated, hash) {
                        let position = index_of(pool.unvalidated, hash);
                        assert(pool.validated[i].hash != pool.unvalidated[position].hash);
                    }
                } else {
                    assert(grown[i] == pool.validated[i] && grown[j] == pool.validated[j]);
                }
            }
        }
        assert(after.wf()) by {
            assert forall|i: int, j: int|
                0 <= i < grown.len() && 0 <= j < rest.len() implies (#[trigger] grown[i]).hash != (
                #[trigger] rest[j]).hash by {
                if i == grown.len() - 1 {
                    if has_hash(pool.unvalidated, hash) {
                        assert(rest[j].hash != hash);
                    } else {
                        assert(has_hash(pool.unvalidated, rest[j].hash)) by {
                            assert(pool.unvalidated[j].hash == rest[j].hash);
                        }
                    }
                } else {
                    assert(grown[i] == pool.validated[i]);
                    assert(has_hash(rest, rest[j].hash));
                    let source = choose|s: int|
                        0 <= s < pool.unvalidated.len() && (#[trigger] pool.unvalidated[s]).hash
                            == rest[j].hash;
                    assert(pool.validated[i].hash != pool.unvalidated[source].hash);
                }
            }
        }
    } else {
        assert(pool.validated.is_prefix_of(pool.validated));
    }
}

/// A change set keeps the pool well formed, leaves every validated entry
/// where it is, keeps every hash that the pool held, and adds nothing to the
/// unvalidated section.
pub proof fn lemma_apply_all(pool: PoolView, actions: Seq<ActionView>, now: Time)
    requires
        pool.wf(),
    ensures
        pool.apply_all(actions, now).wf(),
        pool.validated.is_prefix_of(pool.apply_all(actions, now).validated),
        forall|hash: Seq<char>|
            has_hash(pool.validated, hash) ==> has_hash(
                pool.apply_all(actions, now).validated,
                hash,
            ),
        forall|hash: Seq<char>| pool.holds(hash) ==> pool.apply_all(actions, now).holds(hash),
        forall|hash: Seq<char>|
            has_hash(pool.apply_all(actions, now).unvalidated, hash) ==> has_hash(
                pool.unvalidated,
                hash,
            ),
    decreases actions.len(),
{
    if actions.len() > 0 {
        lemma_apply_all(pool, actions.drop_last(), now);
        lemma_apply(pool.apply_all(actions.drop_last(), now), actions.last(), now);
    } else {
        assert(pool.validated.is_prefix_of(pool.validated));
    }
}

/// Applying a change set in two parts is applying it whole.
pub proof fn lemma_apply_all_split(
    pool: PoolView,
    front: Seq<ActionView>,
    back: Seq<ActionView>,
    now: Time,
)
    ensures
        pool.apply_all(front + back, now) == pool.apply_all(front, now).apply_all(back, now),
    decreases back.len(),
{
    if back.len() == 0 {
        assert(front + back =~= front);
    } else {
        lemma_apply_all_split(pool, front, back.drop_last(), now);
        assert((front + back).drop_last() =~= front + back.drop_last());
        assert((front + back).last() == back.last());
    }
}

/// Taking in a message a second time changes nothing: the pool holds it
/// exactly once, and where the first arrival put it among the unvalidated
/// messages there is exactly one entry for it there.
pub proof fn law_insert_is_idempotent(
    pool: PoolView,
    message: MessageView,
    first: Time,
    second: Time,
)
    requires
        pool.wf(),
    ensures
        pool.insert(message, first).wf(),
        pool.insert(message, first).holds(message.digest()),
        pool.insert(message, first).insert(message, second) == pool.insert(message, first),
        !has_hash(pool.validated, message.digest()) ==> stores_once(
            pool.insert(message, first).unvalidated,
            message.digest(),
        ),
{
    let hash = message.digest();
    let once = pool.insert(message, first);
    if !pool.holds(hash) {
        let last = once.unvalidated.len() - 1;
        assert(once.unvalidated[last].hash == hash);
    }
    if !has_hash(pool.validated, hash) {
        let position = choose|i: int|
            0 <= i < once.unvalidated.len() && (#[trigger] once.unvalidated[i]).hash == hash;
        assert forall|j: int|
            0 <= j < once.unvalidated.len() && (#[trigger] once.unvalidated[j]).hash
                == hash implies j == position by {
            if j < position {
                assert(once.unvalidated[j].hash != once.unvalidated[position].hash);
            } else if position < j {
                assert(once.unvalidated[position].hash != once.unvalidated[j].hash);
            }
        }
    }
}

/// Promotion: once a change set with a `MoveToValidated` for a message that
/// the pool holds has been applied, the message is validated and no longer
/// unvalidated.
pub proof fn law_promotion(pool: PoolView, actions: Seq<ActionView>, now: Time, step: int)
    requires
        pool.wf(),
        0 <= step < actions.len(),
        actions[step] is MoveToValidated,
        pool.holds(actions[step].message().digest()),
    ensures
        has_hash(pool.apply_all(actions, now).validated, actions[step].message().digest()),
        !has_hash(pool.apply_all(actions, now).unvalidated, actions[step].message().digest()),
{
    let hash = actions[step].message().digest();
    let front = actions.take(step);
    let back = actions.skip(step + 1);
    let before = pool.apply_all(front, now);
    let at = before.apply(actions[step], now);
    let after = pool.apply_all(actions, now);
    lemma_apply_all(pool, front, now);
    lemma_apply(before, actions[step], now);
    assert(front.push(actions[step]).drop_last() =~= front);
    assert(pool.apply_all(front.push(actions[step]), now) == at);
    assert(actions =~= front.push(actions[step]) + back);
    lemma_apply_all_split(pool, front.push(actions[step]), back, now);
    lemma_apply_all(at, back, now);
    assert(has_hash(after.validated, hash));
    if has_hash(after.unvalidated, hash) {
        let i = choose|i: int|
            0 <= i < after.validated.len() && (#[trigger] after.validated[i]).hash == hash;
        let j = choose|j: int|
            0 <= j < after.unvalidated.len() && (#[trigger] after.unvalidated[j]).hash == hash;
        assert(after.validated[i].hash != after.unvalidated[j].hash);
    }
}

/// The artifact pool of one replica.
pub struct ConsensusPoolImpl {
    validated: PoolSection,
    unvalidated: PoolSection,
}

impl View for ConsensusPoolImpl {
    type V = PoolView;

    closed spec fn view(&self) -> PoolView {
        PoolView { validated: self.validated@, unvalidated: self.unvalidated@ }
    }
}

impl ConsensusPoolImpl {
    /// Whether the height indexes of both sections are those of their
    /// entries.
    pub closed spec fn indexed(&self) -> bool {
        self.validated.indexed() && self.unvalidated.indexed()
    }

    /// The pool's invariant: its sections are keyed by content hash and
    /// share no hash, and the height indexes fit.
    pub open spec fn wf(&self) -> bool {
        self@.wf() && self.indexed()
    }

    /// An empty pool.
    pub fn new() -> (pool: Self)
        ensures
            pool.wf(),
            pool@.validated == Seq::<EntryView>::empty(),
            pool@.unvalidated == Seq::<EntryView>::empty(),
    {
        ConsensusPoolImpl { validated: PoolSection::new(), unvalidated: PoolSection::new() }
    }

    /// The validated section.
    pub fn validated(&self) -> (section: &PoolSection)
        ensures
            section@ == self@.validated,
            self.indexed() ==> section.indexed(),
    {
        &self.validated
    }

    /// The unvalidated section.
    pub fn unvalidated(&self) -> (section: &PoolSection)
        ensures
            section@ == self@.unvalidated,
            self.indexed() ==> section.indexed(),
    {
        &self.unvalidated
    }

    /// Takes in a message from the wire. A message that the pool already
    /// holds, in either section, is dropped.
    pub fn insert(&mut self, artifact: UnvalidatedArtifact<ConsensusMessage>)
        requires
            old(self).wf(),
        ensures
            final(self).wf(),
            final(self)@ == old(self)@.insert(artifact.message@, artifact.timestamp),
    {
        let hash = artifact.message.content_hash();
        if self.unvalidated.contains(&hash) || self.validated.contains(&hash) {
            return ;
        }
        let entry = PoolEntry { hash, message: artifact.message, timestamp: artifact.timestamp };
        self.unvalidated.push(entry);
    }

    /// Makes one change to the pool, at time `now`.
    pub fn apply_change(&mut self, action: ChangeAction, now: Time)
        requires
            old(self).wf(),
        ensures
            final(self).wf(),
            final(self)@ == old(self)@.apply(action@, now),
    {
        match action {
            ChangeAction::AddToValidated(message) => {
                let hash = message.content_hash();
                if self.validated.contains(&hash) {
                    return ;
                }
                match self.unvalidated.position(&hash) {
                    Some(position) => {
                        proof {
                            lemma_index_of_keyed(self@.unvalidated, position as int);
                        }
                        let _ = self.unvalidated.remove(position);
                    },
                    None => {},
                }
                self.validated.push(PoolEntry { hash, message, timestamp: now });
            },
            ChangeAction::MoveToValidated(message) => {
                let hash = message.content_hash();
                match self.unvalidated.position(&hash) {
                    Some(position) => {
                        proof {
                            lemma_index_of_keyed(self@.unvalidated, position as int);
                        }
                        let entry = self.unvalidated.remove(position);
                        self.validated.push(entry);
                    },
                    None => {},
                }
            },
        }
    }

    /// Applies a change set: every change in order, in one pass, all at time
    /// `now`. A change that does not fit the pool is skipped, never undone.
    pub fn apply_changes(&mut self, change_set: ChangeSet, now: Time)
        requires
            old(self).wf(),
        ensures
            final(self).wf(),
            final(self)@ == old(self)@.apply_all(action_views(change_set@), now),
    {
        let mut change_set = change_set;
        let ghost actions = action_views(change_set@);
        let ghost mut done: int = 0;
        let total = change_set.len();
        // The vector is consumed from the front by index, so reverse it once
        // and pop from the back.
        let mut pending: Vec<ChangeAction> = Vec::new();
        while change_set.len() > 0
            invariant
                pending@.len() + change_set@.len() == total,
                forall|k: int|
                    0 <= k < pending@.len() ==> (#[trigger] pending@[k])@ == actions[total - 1 - k],
                forall|k: int|
                    0 <= k < change_set@.len() ==> (#[trigger] change_set@[k])@ == actions[k],
                actions.len() == total,
            decreases change_set@.len(),
        {
            let action = change_set.pop().unwrap();
            pending.push(action);
        }
        while pending.len() > 0
            invariant
                self.wf(),
                0 <= done <= total,
                actions.len() == total,
                pending@.len() == total - done,
                forall|k: int|
                    0 <= k < pending@.len() ==> (#[trigger] pending@[k])@ == actions[total - 1 - k],
                self@ == old(self)@.apply_all(actions.take(done), now),
            decreases pending@.len(),
        {
            let action = pending.pop().unwrap();
            assert(action@ == actions[done]);
            self.apply_change(action, now);
            proof {
                assert(actions.take(done + 1).drop_last() =~= actions.take(done));
                assert(actions.take(done + 1).last() == actions[done]);
                done = done + 1;
            }
        }
        assert(actions.take(done) =~= actions);
    }
}

} // verus!

//! Heights, and the per-height lookup structure over pool contents.

use crate::crypto::CryptoHash;
use vstd::prelude::*;

verus! {

/// The number of a consensus round. Heights are totally ordered.
pub type Height = u64;

/// Whether `index` lists `hash` at `height`.
pub open spec fn lists(index: Seq<(Height, Seq<char>)>, height: Height, hash: Seq<char>) -> bool {
    exists|i: int| 0 <= i < index.len() && (#[trigger] index[i]) == (height, hash)
}

/// Whether `position` is where `index` first lists `hash` at `height`.
pub open spec fn is_first_listing(
    index: Seq<(Height, Seq<char>)>,
    height: Height,
    hash: Seq<char>,
    position: int,
) -> bool {
    &&& 0 <= position < index.len()
    &&& index[position] == (height, hash)
    &&& forall|j: int| 0 <= j < position ==> (#[trigger] index[j]) != (height, hash)
}

/// Picks the hashes listed at `height`.
pub open spec fn listed_at(height: Height) -> spec_fn((Height, Seq<char>)) -> Option<Seq<char>> {
    |item: (Height, Seq<char>)|
        if item.0 == height {
            Some(item.1)
        } else {
            None
        }
}

/// The hashes that `index` lists at `height`, in the order in which they
/// were listed.
pub open spec fn hashes_at(index: Seq<(Height, Seq<char>)>, height: Height) -> Seq<Seq<char>> {
    index.filter_map(listed_at(height))
}

/// The hashes of `hashes`, each as its text.
pub open spec fn hash_views(hashes: Seq<CryptoHash>) -> Seq<Seq<char>> {
    hashes.map_values(|hash: CryptoHash| hash@)
}

/// An index from heights to the hashes of the artifacts at that height.
pub struct HeightIndex {
    items: Vec<(Height, CryptoHash)>,
}

impl View for HeightIndex {
    type V = Seq<(Height, Seq<char>)>;

    closed spec fn view(&self) -> Seq<(Height, Seq<char>)> {
        self.items@.map_values(|item: (Height, CryptoHash)| (item.0, item.1@))
    }
}

impl HeightIndex {
    /// An index that lists nothing.
    pub fn new() -> (index: Self)
        ensures
            index@ == Seq::<(Height, Seq<char>)>::empty(),
    {
        let index = HeightIndex { items: Vec::new() };
        assert(index@ =~= Seq::<(Height, Seq<char>)>::empty());
        index
    }

    /// The number of hashes listed.
    pub fn len(&self) -> (len: usize)
        ensures
            len == self@.len(),
    {
        self.items.len()
    }

    /// Lists `hash` at `height`.
    pub fn insert(&mut self, height: Height, hash: CryptoHash)
        ensures
            final(self)@ == old(self)@.push((height, hash@)),
    {
        self.items.push((height, hash));
        assert(self@ =~= old(self)@.push((height, hash@)));
    }

    /// Strikes `hash` from the list at `height`, where it is listed, and
    /// says whether it was. Of several equal listings the first one goes.
    pub fn remove(&mut self, height: Height, hash: &CryptoHash) -> (removed: bool)
        ensures
            removed == lists(old(self)@, height, hash@),
            !removed ==> final(self)@ == old(self)@,
            removed ==> exists|i: int|
                #[trigger] is_first_listing(old(self)@, height, hash@, i) && final(self)@ == old(self)@.remove(i),
    {
        let mut position: usize = 0;
        while position < self.items.len()
            invariant
                position <= self.items@.len(),
                self.items@ == old(self).items@,
                forall|j: int|
                    0 <= j < position ==> (#[trigger] old(self)@[j]) != (height, hash@),
            decreases self.items@.len() - position,
        {
            if self.items[position].0 == height && self.items[position].1 == *hash {
                assert(old(self)@[position as int] == (height, hash@));
                let _ = self.items.remove(position);
                assert(self@ =~= old(self)@.remove(position as int));
                assert(is_first_listing(old(self)@, height, hash@, position as int));
                return true;
            }
            position = position + 1;
        }
        assert(self@ =~= old(self)@);
        false
    }

    /// The hashes listed at `height`, in the order in which they were
    /// listed.
    pub fn lookup(&self, height: Height) -> (hashes: Vec<CryptoHash>)
        ensures
            hash_views(hashes@) == hashes_at(self@, height),
    {
        let ghost pick = listed_at(height);
        let mut hashes: Vec<CryptoHash> = Vec::new();
        let mut position: usize = 0;
        assert(self@.take(0).filter_map(pick) =~= Seq::<Seq<char>>::empty());
        assert(hash_views(hashes@) =~= Seq::<Seq<char>>::empty());
        while position < self.items.len()
            invariant
                position <= self.items@.len(),
                pick == listed_at(height),
                hash_views(hashes@) == self@.take(position as int).filter_map(pick),
            decreases self.items@.len() - position,
        {
            proof {
                self@.lemma_filter_map_take_succ(pick, position as int);
            }
            if self.items[position].0 == height {
                let ghost before = hashes@;
                hashes.push(self.items[position].1.clone());
                assert(hash_views(hashes@) =~= hash_views(before).push(self@[position as int].1));
            }
            position = position + 1;
        }
        assert(self@.take(position as int) =~= self@);
        hashes
    }

    /// The highest height at which anything is listed.
    pub fn max_height(&self) -> (highest: Option<Height>)
        ensures
            highest is None <==> self@.len() == 0,
            highest matches Some(height) ==> {
                &&& exists|i: int| 0 <= i < self@.len() && (#[trigger] self@[i]).0 == height
                &&& forall|i: int| 0 <= i < self@.len() ==> (#[trigger] self@[i]).0 <= height
            },
    {
        let mut highest: Option<Height> = None;
        let mut position: usize = 0;
        while position < self.items.len()
            invariant
                position <= self.items@.len(),
                highest is None <==> position == 0,
                highest matches Some(height) ==> {
                    &&& exists|i: int| 0 <= i < position && (#[trigger] self@[i]).0 == height
                    &&& forall|i: int| 0 <= i < position ==> (#[trigger] self@[i]).0 <= height
                },
            decreases self.items@.len() - position,
        {
            let height = self.items[position].0;
            assert(self@[position as int].0 == height);
            let higher = match highest {
                Some(found) => height > found,
                None => true,
            };
            if higher {
                highest = Some(height);
            }
            position = position + 1;
        }
        highest
    }
}

} // verus!

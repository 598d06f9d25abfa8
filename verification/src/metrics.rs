//! Finalization metrics: for each height, how long the round took and which
//! path decided it. The record only ever grows upwards.

use crate::consensus_layer::height_index::Height;
use vstd::prelude::*;

verus! {

/// The path by which a height was decided.
#[derive(Clone, Copy, Debug, PartialEq, Eq, Structural)]
pub enum FinalizationType {
    /// Decided on the classic path.
    IC,
    /// Decided on the fast path.
    FP,
    /// Learned from a peer's finalization before it was decided locally.
    DK,
}

/// What is recorded for a finalized height.
#[derive(Clone, Copy, Debug, PartialEq, Eq, Structural)]
pub struct HeightMetrics {
    /// Nanoseconds from the first sight of a proposal to the finalization.
    pub latency: u64,
    pub fp_finalization: FinalizationType,
}

/// When a message was sent and when it was received, as far as known.
#[derive(Clone, Copy, Debug, PartialEq, Eq)]
pub struct ArtifactDelayInfo {
    pub sent: Option<u64>,
    pub received: Option<u64>,
}

/// Whether the heights of `entries` increase strictly.
pub open spec fn increasing(entries: Seq<(Height, Option<HeightMetrics>)>) -> bool {
    forall|i: int, j: int|
        0 <= i < j < entries.len() ==> (#[trigger] entries[i]).0 < (#[trigger] entries[j]).0
}

/// Whether `entries` has an entry for `height`.
pub open spec fn recorded(entries: Seq<(Height, Option<HeightMetrics>)>, height: Height) -> bool {
    exists|i: int| 0 <= i < entries.len() && (#[trigger] entries[i]).0 == height
}

/// Whether `height` lies above every height of `entries`.
pub open spec fn above_all(entries: Seq<(Height, Option<HeightMetrics>)>, height: Height) -> bool {
    forall|i: int| 0 <= i < entries.len() ==> (#[trigger] entries[i]).0 < height
}

/// The record after an attempt to write `metrics` for `height`: the entry is
/// appended if `height` lies above every recorded height, and dropped if not.
pub open spec fn record_spec(
    entries: Seq<(Height, Option<HeightMetrics>)>,
    height: Height,
    metrics: Option<HeightMetrics>,
) -> Seq<(Height, Option<HeightMetrics>)> {
    if above_all(entries, height) {
        entries.push((height, metrics))
    } else {
        entries
    }
}

/// The metrics of the finalized heights, in order of height.
pub struct FinalizationTimes {
    entries: Vec<(Height, Option<HeightMetrics>)>,
}

impl View for FinalizationTimes {
    type V = Seq<(Height, Option<HeightMetrics>)>;

    closed spec fn view(&self) -> Seq<(Height, Option<HeightMetrics>)> {
        self.entries@
    }
}

impl FinalizationTimes {
    /// The record's invariant: heights increase strictly.
    pub open spec fn wf(&self) -> bool {
        increasing(self@)
    }

    /// An empty record.
    pub fn new() -> (times: Self)
        ensures
            times.wf(),
            times@ == Seq::<(Height, Option<HeightMetrics>)>::empty(),
    {
        FinalizationTimes { entries: Vec::new() }
    }

    /// The number of heights recorded.
    pub fn len(&self) -> (len: usize)
        ensures
            len == self@.len(),
    {
        self.entries.len()
    }

    /// The entry at `position`, counted from the lowest height.
    pub fn entry(&self, position: usize) -> (entry: (Height, Option<HeightMetrics>))
        requires
            position < self@.len(),
        ensures
            entry == self@[position as int],
    {
        self.entries[position]
    }

    /// The highest height recorded, if any.
    pub fn last_height(&self) -> (last: Option<Height>)
        requires
            self.wf(),
        ensures
            last is None <==> self@.len() == 0,
            last matches Some(height) ==> recorded(self@, height) && forall|i: int|
                0 <= i < self@.len() ==> (#[trigger] self@[i]).0 <= height,
    {
        let len = self.entries.len();
        if len == 0 {
            None
        } else {
            let height = self.entries[len - 1].0;
            assert(self@[len - 1].0 == height);
            assert forall|i: int| 0 <= i < self@.len() implies (#[trigger] self@[i]).0
                <= height by {
                if i < len - 1 {
                    assert(self@[i].0 < self@[len - 1].0);
                }
            }
            Some(height)
        }
    }

    /// Whether there is an entry for `height`.
    pub fn contains_key(&self, height: Height) -> (found: bool)
        ensures
            found == recorded(self@, height),
    {
        let mut position: usize = 0;
        while position < self.entries.len()
            invariant
                position <= self.entries.len(),
                forall|i: int| 0 <= i < position ==> (#[trigger] self@[i]).0 != height,
            decreases self.entries.len() - position,
        {
            if self.entries[position].0 == height {
                return true;
            }
            position = position + 1;
        }
        false
    }

    /// The entry for `height`, if there is one.
    pub fn get(&self, height: Height) -> (found: Option<Option<HeightMetrics>>)
        ensures
            found is Some <==> recorded(self@, height),
            found matches Some(metrics) ==> self@.contains((height, metrics)),
    {
        let mut position: usize = 0;
        while position < self.entries.len()
            invariant
                position <= self.entries.len(),
                forall|i: int| 0 <= i < position ==> (#[trigger] self@[i]).0 != height,
            decreases self.entries.len() - position,
        {
            if self.entries[position].0 == height {
                assert(self@[position as int] == (height, self.entries[position as int].1));
                return Some(self.entries[position].1);
            }
            position = position + 1;
        }
        None
    }

    /// Writes `metrics` for `height` if `height` lies above every height
    /// recorded so far, and reports whether it did. Nothing that was
    /// recorded is ever changed.
    pub fn record(&mut self, height: Height, metrics: Option<HeightMetrics>) -> (written: bool)
        requires
            old(self).wf(),
        ensures
            final(self).wf(),
            written == above_all(old(self)@, height),
            final(self)@ == record_spec(old(self)@, height, metrics),
    {
        let len = self.entries.len();
        let above = len == 0 || height > self.entries[len - 1].0;
        if above {
            assert forall|i: int| 0 <= i < self@.len() implies (#[trigger] self@[i]).0
                < height by {
                if i < len - 1 {
                    assert(self@[i].0 < self@[len - 1].0);
                }
            }
            self.entries.push((height, metrics));
            assert forall|i: int, j: int| 0 <= i < j < self@.len() implies (#[trigger] self@[i]).0
                < (#[trigger] self@[j]).0 by {
                if j == self@.len() - 1 {
                    assert(self@[i] == old(self)@[i]);
                } else {
                    assert(self@[i] == old(self)@[i] && self@[j] == old(self)@[j]);
                }
            }
        } else {
            assert(!(self@[len - 1].0 < height));
        }
        above
    }
}

/// Monotonic metrics: writing for a height keeps every earlier entry, and
/// once a height is recorded, no attempt to write for that height or a lower
/// one changes the record.
pub proof fn law_record_is_monotonic(
    entries: Seq<(Height, Option<HeightMetrics>)>,
    high: Height,
    high_metrics: Option<HeightMetrics>,
    low: Height,
    low_metrics: Option<HeightMetrics>,
)
    requires
        increasing(entries),
        low <= high,
    ensures
        increasing(record_spec(entries, high, high_metrics)),
        entries.is_prefix_of(record_spec(entries, high, high_metrics)),
        recorded(record_spec(entries, high, high_metrics), high) ==> record_spec(
            record_spec(entries, high, high_metrics),
            low,
            low_metrics,
        ) == record_spec(entries, high, high_metrics),
{
    let after = record_spec(entries, high, high_metrics);
    if recorded(after, high) {
        let i = choose|i: int| 0 <= i < after.len() && (#[trigger] after[i]).0 == high;
        assert(!(after[i].0 < low));
    }
}

} // verus!

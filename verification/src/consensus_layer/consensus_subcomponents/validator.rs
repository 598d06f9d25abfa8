//! The subcomponent that validates what arrived from the wire.

use crate::consensus_layer::artifacts::{
    action_views, ActionView, ChangeAction, ChangeSet, ConsensusMessage, MessageView,
};
use crate::consensus_layer::height_index::Height;
use crate::consensus_layer::pool::{EntryView, PoolView};
use crate::consensus_layer::pool_reader::{finalization_time, PoolReader};
use crate::metrics::{
    increasing, record_spec, recorded, FinalizationTimes, FinalizationType, HeightMetrics,
};
use vstd::prelude::*;

verus! {

/// The promotion of every entry of `unvalidated`, in pool order.
pub open spec fn promotions(unvalidated: Seq<EntryView>) -> Seq<ActionView> {
    unvalidated.map_values(|entry: EntryView| ActionView::MoveToValidated(entry.message))
}

/// The metrics after the validator has looked at `message` in `pool`. Only a
/// finalization for a height without an entry can add one, and only if the
/// pool can tell how long the height took; the entry is tagged as learned
/// from a peer. The write itself goes through only above every recorded
/// height.
pub open spec fn observe(
    times: Seq<(Height, Option<HeightMetrics>)>,
    pool: PoolView,
    message: MessageView,
) -> Seq<(Height, Option<HeightMetrics>)> {
    if message is Finalization && !recorded(times, message.height()) {
        match finalization_time(pool, message.height()) {
            Some(latency) => record_spec(
                times,
                message.height(),
                Some(HeightMetrics { latency, fp_finalization: FinalizationType::DK }),
            ),
            None => times,
        }
    } else {
        times
    }
}

/// The metrics after the validator has looked at each of `entries` in turn.
pub open spec fn observe_all(
    times: Seq<(Height, Option<HeightMetrics>)>,
    pool: PoolView,
    entries: Seq<EntryView>,
) -> Seq<(Height, Option<HeightMetrics>)>
    decreases entries.len(),
{
    if entries.len() == 0 {
        times
    } else {
        observe(observe_all(times, pool, entries.drop_last()), pool, entries.last().message)
    }
}

/// Monotonic metrics: whatever the validator looks at, and in whatever
/// order, the entries that were recorded stay as they are, and the heights
/// of the record keep increasing strictly; so an entry is only ever written
/// above all the others, and never written over.
pub proof fn law_metrics_are_monotonic(
    times: Seq<(Height, Option<HeightMetrics>)>,
    pool: PoolView,
    entries: Seq<EntryView>,
)
    requires
        increasing(times),
    ensures
        increasing(observe_all(times, pool, entries)),
        times.is_prefix_of(observe_all(times, pool, entries)),
    decreases entries.len(),
{
    if entries.len() > 0 {
        law_metrics_are_monotonic(times, pool, entries.drop_last());
        let before = observe_all(times, pool, entries.drop_last());
        let after = observe(before, pool, entries.last().message);
        assert(before.is_prefix_of(after));
        assert(increasing(after)) by {
            if after != before {
                assert forall|i: int, j: int| 0 <= i < j < after.len() implies (#[trigger] after[i]).0
                    < (#[trigger] after[j]).0 by {
                    assert(after[i] == before[i]);
                    if j < before.len() {
                        assert(after[j] == before[j]);
                    }
                }
            }
        }
    } else {
        assert(times.is_prefix_of(times));
    }
}

/// The subcomponent that promotes unvalidated artifacts. Validation here
/// means that this replica may cite the artifact from now on; signatures are
/// not verified again.
pub struct Validator {
    pub my_node_id: u8,
}

impl Validator {
    pub fn new(my_node_id: u8) -> (validator: Self)
        ensures
            validator.my_node_id == my_node_id,
    {
        Self { my_node_id }
    }

    /// Promotes every unvalidated artifact, and records the latency of each
    /// height whose finalization is among them and has no entry yet. The
    /// changes need no broadcast: every replica derives them by itself.
    pub fn on_state_change(
        &self,
        pool_reader: &PoolReader<'_>,
        finalization_times: &mut FinalizationTimes,
    ) -> (result: (ChangeSet, bool))
        requires
            old(finalization_times).wf(),
        ensures
            final(finalization_times).wf(),
            action_views(result.0@) == promotions(pool_reader@.unvalidated),
            !result.1,
            final(finalization_times)@ == observe_all(
                old(finalization_times)@,
                pool_reader@,
                pool_reader@.unvalidated,
            ),
            old(finalization_times)@.is_prefix_of(final(finalization_times)@),
    {
        let section = pool_reader.pool().unvalidated();
        let mut change_set: Vec<ChangeAction> = Vec::new();
        let mut position: usize = 0;
        assert(action_views(change_set@) =~= promotions(section@.take(0)));
        while position < section.len()
            invariant
                position <= section@.len(),
                section@ == pool_reader@.unvalidated,
                finalization_times.wf(),
                action_views(change_set@) == promotions(section@.take(position as int)),
                finalization_times@ == observe_all(
                    old(finalization_times)@,
                    pool_reader@,
                    section@.take(position as int),
                ),
            decreases section@.len() - position,
        {
            let consensus_message = section.entry(position).message.clone();
            proof {
                assert(section@.take(position + 1).drop_last() =~= section@.take(position as int));
            }
            match &consensus_message {
                ConsensusMessage::Finalization(finalization) => {
                    let height = finalization.content.height;
                    if !finalization_times.contains_key(height) {
                        match pool_reader.get_finalization_time(height, self.my_node_id) {
                            Some(latency) => {
                                let height_metrics = HeightMetrics {
                                    latency,
                                    fp_finalization: FinalizationType::DK,
                                };
                                let _ = finalization_times.record(height, Some(height_metrics));
                            },
                            None => {},
                        }
                    }
                },
                _ => {},
            }
            let ghost before = change_set@;
            change_set.push(ChangeAction::MoveToValidated(consensus_message));
            assert(action_views(change_set@) =~= promotions(section@.take(position + 1))) by {
                assert(action_views(change_set@) =~= action_views(before).push(
                    ActionView::MoveToValidated(consensus_message@),
                ));
            }
            position = position + 1;
        }
        assert(section@.take(position as int) =~= section@);
        proof {
            law_metrics_are_monotonic(
                old(finalization_times)@,
                pool_reader@,
                pool_reader@.unvalidated,
            );
        }
        (change_set, false)
    }
}

} // verus!

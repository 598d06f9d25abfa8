//! The consensus layer: artifacts, the pool that stores them, the queries
//! over it, and the subcomponents that derive changes from it.

pub mod artifacts;
pub mod consensus;
pub mod consensus_subcomponents;
pub mod height_index;
pub mod pool;
pub mod pool_reader;
pub mod progress;

use crate::artifact_manager::ProcessingResult;
use crate::consensus_layer::artifacts::{
    action_views, message_views, ActionView, ChangeAction, ConsensusMessage, MessageView,
    UnvalidatedArtifact,
};
use crate::consensus_layer::consensus::{must_broadcast, ConsensusImpl};
use crate::consensus_layer::pool::{ConsensusPoolImpl, PoolView};
use crate::metrics::FinalizationTimes;
use crate::params::SubnetParams;
use crate::time_source::Time;
use vstd::prelude::*;

verus! {

/// Picks the messages that a change set adds: those that this replica
/// produced.
pub open spec fn advert() -> spec_fn(ActionView) -> Option<MessageView> {
    |action: ActionView|
        match action {
            ActionView::AddToValidated(message) => Some(message),
            ActionView::MoveToValidated(_) => None,
        }
}

/// The messages that go out to the peers with `actions`: those that the
/// change set adds, in order. Promotions stay at home.
pub open spec fn adverts(actions: Seq<ActionView>) -> Seq<MessageView> {
    if must_broadcast(actions) {
        actions.filter_map(advert())
    } else {
        Seq::empty()
    }
}

/// The pool of a replica together with the state machine that works on it.
pub struct ConsensusProcessor {
    pub consensus_pool: ConsensusPoolImpl,
    pub client: ConsensusImpl,
}

impl ConsensusProcessor {
    /// The processor's invariant: its pool is well formed.
    pub open spec fn wf(&self) -> bool {
        self.consensus_pool.wf()
    }

    /// A processor for replica `replica_number`, with an empty pool.
    pub fn new(replica_number: u8, subnet_params: SubnetParams) -> (processor: Self)
        ensures
            processor.wf(),
            processor.consensus_pool@.validated.len() == 0,
            processor.consensus_pool@.unvalidated.len() == 0,
            processor.client.block_maker.node_id == replica_number,
            processor.client.block_maker.blocksize == subnet_params.blocksize,
            processor.client.block_maker.policy.nodes == subnet_params.total_nodes_number,
            processor.client.notary.node_id == replica_number,
            processor.client.notary.fast_path == subnet_params.fast_internet_computer_consensus,
            processor.client.notary.delay == subnet_params.artifact_delay,
            processor.client.aggregator.node_id == replica_number,
            processor.client.aggregator.quorum == subnet_params.quorum(),
            processor.client.validator.my_node_id == replica_number,
    {
        Self {
            consensus_pool: ConsensusPoolImpl::new(),
            client: ConsensusImpl::new(replica_number, subnet_params),
        }
    }

    /// The pool once `artifacts` have been taken in.
    pub open spec fn taken_in(
        &self,
        artifacts: Seq<UnvalidatedArtifact<ConsensusMessage>>,
    ) -> PoolView {
        self.consensus_pool@.insert_all(artifacts)
    }

    /// The change set that the state machine derives once `artifacts` have
    /// been taken in.
    pub open spec fn changes(
        &self,
        artifacts: Seq<UnvalidatedArtifact<ConsensusMessage>>,
        now: Time,
    ) -> Seq<ActionView> {
        self.client.change_set(self.taken_in(artifacts), now)
    }

    /// The pool after a call of `process_changes`: the arrivals taken in,
    /// then one pass of the state machine.
    pub open spec fn pool_after(
        &self,
        artifacts: Seq<UnvalidatedArtifact<ConsensusMessage>>,
        now: Time,
    ) -> PoolView {
        self.client.pass(self.taken_in(artifacts), now)
    }

    /// What a call of `process_changes` reports.
    pub open spec fn outcome(
        &self,
        artifacts: Seq<UnvalidatedArtifact<ConsensusMessage>>,
        now: Time,
    ) -> ProcessingResult {
        if self.changes(artifacts, now).len() > 0 {
            ProcessingResult::StateChanged
        } else {
            ProcessingResult::StateUnchanged
        }
    }

    /// One round of processing at time `now`: takes `artifacts` into the
    /// pool, in order; runs the state machine on the result; collects what
    /// must go out to the peers; and applies the change set. Reports
    /// `StateChanged` exactly if the change set was not empty.
    pub fn process_changes(
        &mut self,
        artifacts: Vec<UnvalidatedArtifact<ConsensusMessage>>,
        now: Time,
        finalization_times: &mut FinalizationTimes,
    ) -> (result: (Vec<ConsensusMessage>, ProcessingResult))
        requires
            old(self).wf(),
            old(finalization_times).wf(),
        ensures
            final(self).wf(),
            final(finalization_times).wf(),
            final(self).client == old(self).client,
            final(self).consensus_pool@ == old(self).pool_after(artifacts@, now),
            message_views(result.0@) == adverts(old(self).changes(artifacts@, now)),
            result.1 == old(self).outcome(artifacts@, now),
            final(finalization_times)@ == old(self).client.metrics_after(
                old(finalization_times)@,
                old(self).taken_in(artifacts@),
            ),
            old(finalization_times)@.is_prefix_of(final(finalization_times)@),
    {
        let mut taken: usize = 0;
        while taken < artifacts.len()
            invariant
                taken <= artifacts@.len(),
                self.wf(),
                self.client == old(self).client,
                self.consensus_pool@ == old(self).consensus_pool@.insert_all(
                    artifacts@.take(taken as int),
                ),
            decreases artifacts@.len() - taken,
        {
            let artifact = &artifacts[taken];
            proof {
                assert(artifacts@.take(taken + 1).drop_last() =~= artifacts@.take(taken as int));
            }
            self.consensus_pool.insert(
                UnvalidatedArtifact::new(artifact.message.clone(), artifact.timestamp),
            );
            taken = taken + 1;
        }
        assert(artifacts@.take(taken as int) =~= artifacts@);
        let mut adverts: Vec<ConsensusMessage> = Vec::new();
        let (change_set, to_broadcast) = self.client.on_state_change(
            &self.consensus_pool,
            now,
            finalization_times,
        );
        let changed = if !change_set.is_empty() {
            ProcessingResult::StateChanged
        } else {
            ProcessingResult::StateUnchanged
        };
        let ghost actions = action_views(change_set@);
        assert(message_views(adverts@) =~= Seq::<MessageView>::empty());
        if to_broadcast {
            let mut position: usize = 0;
            assert(actions.take(0).filter_map(advert()) =~= Seq::<MessageView>::empty());
            while position < change_set.len()
                invariant
                    position <= change_set@.len(),
                    actions == action_views(change_set@),
                    message_views(adverts@) == actions.take(position as int).filter_map(advert()),
                decreases change_set@.len() - position,
            {
                proof {
                    actions.lemma_filter_map_take_succ(advert(), position as int);
                }
                let ghost before = adverts@;
                match &change_set[position] {
                    ChangeAction::AddToValidated(to_add) => {
                        adverts.push(to_add.clone());
                        assert(message_views(adverts@) =~= message_views(before).push(to_add@));
                    },
                    ChangeAction::MoveToValidated(_) => {},
                }
                position = position + 1;
            }
            assert(actions.take(position as int) =~= actions);
        }
        self.consensus_pool.apply_changes(change_set, now);
        (adverts, changed)
    }
}

} // verus!

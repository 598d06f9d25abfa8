//! The processing loop around the consensus processor, without its thread:
//! what to do when the loop wakes, and what to do with what comes out.

use crate::consensus_layer::artifacts::{message_views, ConsensusMessage, UnvalidatedArtifact};
use crate::consensus_layer::consensus::law_pass_validates_everything;
use crate::consensus_layer::pool::{has_hash, lemma_insert_all_wf, PoolView};
use crate::consensus_layer::{adverts, ConsensusProcessor};
use crate::metrics::FinalizationTimes;
use crate::params::SubnetParams;
use crate::time_source::{Time, TimeSource};
use vstd::prelude::*;

verus! {

/// How a call of `process_changes` left the state. After `StateChanged`,
/// more may follow from what is already there, so the next call is due at
/// once; after `StateUnchanged` it can wait for new input.
#[derive(Clone, Copy, Debug, PartialEq, Eq, Structural)]
pub enum ProcessingResult {
    StateChanged,
    StateUnchanged,
}

/// Why the processing loop woke up.
#[derive(Clone, Copy, Debug, PartialEq, Eq, Structural)]
pub enum Wake {
    /// Somebody asked for a round: an artifact came in, or the last round
    /// changed the state.
    Request,
    /// Nobody asked within the polling interval.
    Timeout,
    /// Nobody is left who could ask.
    Disconnected,
}

impl Wake {
    /// Whether the processing loop ends on this wake: it does when nobody is
    /// left who could ask for a round.
    pub fn ends_loop(self) -> (ends: bool)
        ensures
            ends == (self is Disconnected),
    {
        match self {
            Wake::Disconnected => true,
            Wake::Request | Wake::Timeout => false,
        }
    }
}

/// What a round of the processing loop came to.
#[derive(Debug, PartialEq, Eq)]
pub struct Round {
    /// The messages to hand to the broadcaster, in order.
    pub adverts: Vec<ConsensusMessage>,
    /// Whether the next round is due at once.
    pub again: bool,
}

/// Runs one round on `artifacts`, the batch that was waiting when the loop
/// woke up.
pub fn run_round(
    client: &mut ConsensusProcessor,
    artifacts: Vec<UnvalidatedArtifact<ConsensusMessage>>,
    now: Time,
    finalization_times: &mut FinalizationTimes,
) -> (round: Round)
    requires
        old(client).wf(),
        old(finalization_times).wf(),
    ensures
        final(client).wf(),
        final(finalization_times).wf(),
        final(client).client == old(client).client,
        final(client).consensus_pool@ == old(client).pool_after(artifacts@, now),
        message_views(round.adverts@) == adverts(old(client).changes(artifacts@, now)),
        round.again == (old(client).outcome(artifacts@, now) == ProcessingResult::StateChanged),
        final(finalization_times)@ == old(client).client.metrics_after(
            old(finalization_times)@,
            old(client).taken_in(artifacts@),
        ),
{
    let (adverts, result) = client.process_changes(artifacts, now, finalization_times);
    let again = match result {
        ProcessingResult::StateChanged => true,
        ProcessingResult::StateUnchanged => false,
    };
    Round { adverts, again }
}

/// The artifacts that have arrived since the loop last woke, in order of
/// arrival, and the processor that will take them.
pub struct ArtifactProcessorManager {
    pub pending_artifacts: Vec<UnvalidatedArtifact<ConsensusMessage>>,
    pub client: ConsensusProcessor,
}

impl ArtifactProcessorManager {
    /// The manager's invariant: that of its processor.
    pub open spec fn wf(&self) -> bool {
        self.client.wf()
    }

    /// A manager for replica `replica_number`, with nothing pending and an
    /// empty pool.
    pub fn new(replica_number: u8, subnet_params: SubnetParams) -> (manager: Self)
        ensures
            manager.wf(),
            manager.pending_artifacts@.len() == 0,
            manager.client.consensus_pool@.validated.len() == 0,
            manager.client.consensus_pool@.unvalidated.len() == 0,
            manager.client.client.aggregator.node_id == replica_number,
            manager.client.client.aggregator.quorum == subnet_params.quorum(),
            manager.client.client.block_maker.node_id == replica_number,
            manager.client.client.block_maker.blocksize == subnet_params.blocksize,
            manager.client.client.block_maker.policy.nodes == subnet_params.total_nodes_number,
            manager.client.client.notary.node_id == replica_number,
            manager.client.client.notary.fast_path
                == subnet_params.fast_internet_computer_consensus,
            manager.client.client.notary.delay == subnet_params.artifact_delay,
            manager.client.client.validator.my_node_id == replica_number,
    {
        Self {
            pending_artifacts: Vec::new(),
            client: ConsensusProcessor::new(replica_number, subnet_params),
        }
    }

    /// Queues an artifact for the next round. The caller then wakes the loop
    /// with a request.
    pub fn on_artifact(&mut self, artifact: UnvalidatedArtifact<ConsensusMessage>)
        ensures
            final(self).pending_artifacts@ == old(self).pending_artifacts@.push(artifact),
            final(self).client == old(self).client,
    {
        self.pending_artifacts.push(artifact);
    }

    /// Hands out everything that is pending, in order of arrival, and leaves
    /// nothing pending.
    pub fn take_pending(&mut self) -> (artifacts: Vec<UnvalidatedArtifact<ConsensusMessage>>)
        ensures
            artifacts@ == old(self).pending_artifacts@,
            final(self).pending_artifacts@.len() == 0,
            final(self).client == old(self).client,
    {
        let mut artifacts: Vec<UnvalidatedArtifact<ConsensusMessage>> = Vec::new();
        std::mem::swap(&mut artifacts, &mut self.pending_artifacts);
        artifacts
    }

    /// What a turn of the processing loop at time `now` does: the relation
    /// between the manager and the metrics before and after it, and the
    /// round that it reports.
    ///
    /// When nobody is left who could ask, the loop ends: there is no round,
    /// and nothing is touched. Otherwise everything that was pending goes
    /// through one call of `process_changes`, together and in order of
    /// arrival; nothing is pending afterwards; the round holds what that call
    /// gave out, and asks for the next turn at once exactly if the call
    /// reported `StateChanged`.
    pub open spec fn turn(
        before: &Self,
        after: &Self,
        wake: Wake,
        now: Time,
        times_before: &FinalizationTimes,
        times_after: &FinalizationTimes,
        round: Option<Round>,
    ) -> bool {
        let batch = before.pending_artifacts@;
        &&& after.client.client == before.client.client
        &&& if wake is Disconnected {
            &&& round is None
            &&& after.pending_artifacts@ == batch
            &&& after.client.consensus_pool@ == before.client.consensus_pool@
            &&& times_after@ == times_before@
        } else {
            &&& round is Some
            &&& after.pending_artifacts@.len() == 0
            &&& after.client.consensus_pool@ == before.client.pool_after(batch, now)
            &&& message_views(round->0.adverts@) == adverts(before.client.changes(batch, now))
            &&& round->0.again == (before.client.outcome(batch, now)
                == ProcessingResult::StateChanged)
            &&& times_after@ == before.client.client.metrics_after(
                times_before@,
                before.client.taken_in(batch),
            )
        }
    }

    /// One turn of the processing loop, at time `now`.
    pub fn process_messages(
        &mut self,
        wake: Wake,
        now: Time,
        finalization_times: &mut FinalizationTimes,
    ) -> (round: Option<Round>)
        requires
            old(self).wf(),
            old(finalization_times).wf(),
        ensures
            final(self).wf(),
            final(finalization_times).wf(),
            Self::turn(
                old(self),
                final(self),
                wake,
                now,
                old(finalization_times),
                final(finalization_times),
                round,
            ),
    {
        if wake.ends_loop() {
            None
        } else {
            let artifacts = self.take_pending();
            Some(run_round(&mut self.client, artifacts, now, finalization_times))
        }
    }

    /// One turn of the processing loop, at the time that `clock` shows when
    /// the turn begins. The time comes back with the round.
    pub fn process_messages_by<C: TimeSource>(
        &mut self,
        wake: Wake,
        clock: &C,
        finalization_times: &mut FinalizationTimes,
    ) -> (result: (Time, Option<Round>))
        requires
            old(self).wf(),
            old(finalization_times).wf(),
        ensures
            final(self).wf(),
            final(finalization_times).wf(),
            Self::turn(
                old(self),
                final(self),
                wake,
                result.0,
                old(finalization_times),
                final(finalization_times),
                result.1,
            ),
    {
        let now = clock.get_relative_time();
        let round = self.process_messages(wake, now, finalization_times);
        (now, round)
    }
}

/// Taking in a batch leaves the pool holding every message of the batch.
pub proof fn lemma_batch_is_held(
    pool: PoolView,
    artifacts: Seq<UnvalidatedArtifact<ConsensusMessage>>,
    position: int,
)
    requires
        pool.wf(),
        0 <= position < artifacts.len(),
    ensures
        pool.insert_all(artifacts).wf(),
        pool.insert_all(artifacts).holds(artifacts[position].message@.digest()),
    decreases artifacts.len(),
{
    let front = artifacts.drop_last();
    let before = pool.insert_all(front);
    let after = pool.insert_all(artifacts);
    lemma_insert_all_wf(pool, front);
    lemma_insert_all_wf(pool, artifacts);
    let hash = artifacts[position].message@.digest();
    if position < front.len() {
        lemma_batch_is_held(pool, front, position);
        assert(front[position] == artifacts[position]);
        if after != before {
            if has_hash(before.unvalidated, hash) {
                let i = choose|i: int|
                    0 <= i < before.unvalidated.len() && (#[trigger] before.unvalidated[i]).hash
                        == hash;
                assert(after.unvalidated[i].hash == hash);
            }
        }
    } else {
        if after != before {
            assert(after.unvalidated[after.unvalidated.len() - 1].hash == hash);
        }
    }
}

/// Batching: the artifacts that are pending when the loop wakes go through
/// one round together, and after that round each of them is validated and
/// none of them is left unvalidated.
pub proof fn law_batch_is_validated_in_one_round(
    client: ConsensusProcessor,
    artifacts: Seq<UnvalidatedArtifact<ConsensusMessage>>,
    now: Time,
    position: int,
)
    requires
        client.wf(),
        0 <= position < artifacts.len(),
    ensures
        client.pool_after(artifacts, now).wf(),
        client.pool_after(artifacts, now).unvalidated.len() == 0,
        has_hash(
            client.pool_after(artifacts, now).validated,
            artifacts[position].message@.digest(),
        ),
{
    lemma_batch_is_held(client.consensus_pool@, artifacts, position);
    law_pass_validates_everything(client.client, client.taken_in(artifacts), now);
}

} // verus!

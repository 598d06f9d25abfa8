//! The consensus state machine: one pass runs every subcomponent on the same
//! view of the pool and merges what they propose.

use crate::consensus_layer::artifacts::{
    action_views, message_views, ActionView, ChangeAction, ChangeSet, ConsensusMessage,
    MessageView,
};
use crate::consensus_layer::consensus_subcomponents::aggregator::ShareAggregator;
use crate::consensus_layer::consensus_subcomponents::block_maker::{BlockMaker, RotatingRank};
use crate::consensus_layer::consensus_subcomponents::notary::Notary;
use crate::consensus_layer::consensus_subcomponents::validator::{
    observe_all, promotions, Validator,
};
use crate::consensus_layer::height_index::Height;
use crate::consensus_layer::pool::{
    has_hash, law_promotion, lemma_apply_all, ConsensusPoolImpl, PoolView,
};
use crate::consensus_layer::pool_reader::PoolReader;
use crate::metrics::{FinalizationTimes, HeightMetrics};
use crate::params::SubnetParams;
use crate::time_source::Time;
use vstd::prelude::*;

verus! {

/// The subcomponents that a pass can invoke.
#[derive(Clone, Copy, Debug, PartialEq, Eq, Structural)]
pub enum Subcomponent {
    BlockMaker,
    Notary,
    ShareAggregator,
    Validator,
}

/// The schedule of a pass: a fixed list of subcomponents, each invoked once,
/// in order. The starting offset is kept for a rotation between passes; as
/// things stand every pass starts at the head of the list.
#[derive(Clone, Copy, Debug, PartialEq, Eq, Structural)]
pub struct RoundRobin {
    pub index: usize,
}

impl Default for RoundRobin {
    fn default() -> (schedule: Self)
        ensures
            schedule.index == 0,
    {
        RoundRobin { index: 0 }
    }
}

impl RoundRobin {
    /// The order in which a pass invokes the subcomponents.
    pub open spec fn order() -> Seq<Subcomponent> {
        seq![
            Subcomponent::BlockMaker,
            Subcomponent::Notary,
            Subcomponent::ShareAggregator,
            Subcomponent::Validator,
        ]
    }

    /// The order in which a pass invokes the subcomponents.
    pub fn schedule(&self) -> (order: Vec<Subcomponent>)
        ensures
            order@ == Self::order(),
    {
        let mut order: Vec<Subcomponent> = Vec::new();
        order.push(Subcomponent::BlockMaker);
        order.push(Subcomponent::Notary);
        order.push(Subcomponent::ShareAggregator);
        order.push(Subcomponent::Validator);
        assert(order@ =~= Self::order());
        order
    }
}

/// The addition of each of `messages` to the validated section.
pub open spec fn additions(messages: Seq<MessageView>) -> Seq<ActionView> {
    messages.map_values(|message: MessageView| ActionView::AddToValidated(message))
}

/// Whether `actions` holds something that peers must be told: a message that
/// this replica produced. Promotions are not told: every replica makes them
/// by itself.
pub open spec fn must_broadcast(actions: Seq<ActionView>) -> bool {
    exists|i: int| 0 <= i < actions.len() && (#[trigger] actions[i]) is AddToValidated
}

/// Wraps each of `messages` into an addition to the validated section.
pub fn add_all_to_validated(messages: Vec<ConsensusMessage>) -> (change_set: ChangeSet)
    ensures
        action_views(change_set@) == additions(message_views(messages@)),
{
    let mut change_set: Vec<ChangeAction> = Vec::new();
    let mut position: usize = 0;
    while position < messages.len()
        invariant
            position <= messages@.len(),
            change_set@.len() == position,
            forall|k: int|
                0 <= k < position ==> (#[trigger] change_set@[k])@ == ActionView::AddToValidated(
                    messages@[k]@,
                ),
        decreases messages@.len() - position,
    {
        change_set.push(ChangeAction::AddToValidated(messages[position].clone()));
        position = position + 1;
    }
    assert(action_views(change_set@) =~= additions(message_views(messages@)));
    change_set
}

/// The consensus state machine of one replica.
pub struct ConsensusImpl {
    pub block_maker: BlockMaker<RotatingRank>,
    pub notary: Notary,
    pub aggregator: ShareAggregator,
    pub validator: Validator,
    pub schedule: RoundRobin,
}

impl ConsensusImpl {
    pub fn new(replica_number: u8, subnet_params: SubnetParams) -> (consensus: Self)
        ensures
            consensus.block_maker.node_id == replica_number,
            consensus.block_maker.blocksize == subnet_params.blocksize,
            consensus.block_maker.policy == (RotatingRank {
                nodes: subnet_params.total_nodes_number,
            }),
            consensus.notary.node_id == replica_number,
            consensus.notary.fast_path == subnet_params.fast_internet_computer_consensus,
            consensus.notary.delay == subnet_params.artifact_delay,
            consensus.aggregator.node_id == replica_number,
            consensus.aggregator.quorum == subnet_params.quorum(),
            consensus.validator.my_node_id == replica_number,
    {
        ConsensusImpl {
            block_maker: BlockMaker::new(replica_number, subnet_params),
            notary: Notary::new(replica_number, subnet_params),
            aggregator: ShareAggregator::new(replica_number, subnet_params),
            validator: Validator::new(replica_number),
            schedule: RoundRobin::default(),
        }
    }

    /// What `which` proposes on `pool` at time `now`.
    pub open spec fn proposed_by(&self, which: Subcomponent, pool: PoolView, now: Time) -> Seq<
        ActionView,
    > {
        match which {
            Subcomponent::BlockMaker => additions(self.block_maker.proposals(pool)),
            Subcomponent::Notary => additions(self.notary.shares(pool, now)),
            Subcomponent::ShareAggregator => additions(self.aggregator.notarizations(pool)),
            Subcomponent::Validator => promotions(pool.unvalidated),
        }
    }

    /// What the subcomponents of `steps` propose on `pool` at time `now`,
    /// one after the other.
    pub open spec fn merged(&self, steps: Seq<Subcomponent>, pool: PoolView, now: Time) -> Seq<
        ActionView,
    >
        decreases steps.len(),
    {
        if steps.len() == 0 {
            Seq::empty()
        } else {
            self.merged(steps.drop_last(), pool, now) + self.proposed_by(steps.last(), pool, now)
        }
    }

    /// The change set of one pass over `pool` at time `now`.
    pub open spec fn change_set(&self, pool: PoolView, now: Time) -> Seq<ActionView> {
        self.merged(RoundRobin::order(), pool, now)
    }

    /// The metrics after the subcomponents of `steps` have run on `pool`.
    /// Only the validator writes metrics.
    pub open spec fn measured(
        &self,
        steps: Seq<Subcomponent>,
        times: Seq<(Height, Option<HeightMetrics>)>,
        pool: PoolView,
    ) -> Seq<(Height, Option<HeightMetrics>)>
        decreases steps.len(),
    {
        if steps.len() == 0 {
            times
        } else {
            let before = self.measured(steps.drop_last(), times, pool);
            if steps.last() == Subcomponent::Validator {
                observe_all(before, pool, pool.unvalidated)
            } else {
                before
            }
        }
    }

    /// The metrics after one pass over `pool`.
    pub open spec fn metrics_after(
        &self,
        times: Seq<(Height, Option<HeightMetrics>)>,
        pool: PoolView,
    ) -> Seq<(Height, Option<HeightMetrics>)> {
        self.measured(RoundRobin::order(), times, pool)
    }

    /// The pool after one pass at time `now`: the change set of the pass,
    /// applied.
    pub open spec fn pass(&self, pool: PoolView, now: Time) -> PoolView {
        pool.apply_all(self.change_set(pool, now), now)
    }

    /// The pool after `count` passes at time `now`, with nothing arriving in
    /// between.
    pub open spec fn passes(&self, pool: PoolView, now: Time, count: nat) -> PoolView
        decreases count,
    {
        if count == 0 {
            pool
        } else {
            self.pass(self.passes(pool, now, (count - 1) as nat), now)
        }
    }

    /// The pool after one pass at each of `times`, in order, with nothing
    /// arriving in between.
    pub open spec fn run(&self, pool: PoolView, times: Seq<Time>) -> PoolView
        decreases times.len(),
    {
        if times.len() == 0 {
            pool
        } else {
            self.pass(self.run(pool, times.drop_last()), times.last())
        }
    }

    /// Runs one pass: invokes every subcomponent once, in the order of the
    /// schedule and on the same pool, and concatenates what they propose.
    /// The flag says whether the change set holds anything that this replica
    /// must send to its peers.
    pub fn on_state_change(
        &self,
        pool: &ConsensusPoolImpl,
        now: Time,
        finalization_times: &mut FinalizationTimes,
    ) -> (result: (ChangeSet, bool))
        requires
            pool.wf(),
            old(finalization_times).wf(),
        ensures
            final(finalization_times).wf(),
            action_views(result.0@) == self.change_set(pool@, now),
            result.1 == must_broadcast(self.change_set(pool@, now)),
            final(finalization_times)@ == self.metrics_after(old(finalization_times)@, pool@),
            old(finalization_times)@.is_prefix_of(final(finalization_times)@),
    {
        let pool_reader = PoolReader::new(pool);
        let order = self.schedule.schedule();
        let mut change_set: Vec<ChangeAction> = Vec::new();
        let mut to_broadcast = false;
        let mut step: usize = 0;
        assert(action_views(change_set@) =~= Seq::<ActionView>::empty());
        assert(old(finalization_times)@.is_prefix_of(finalization_times@));
        while step < order.len()
            invariant
                step <= order@.len(),
                pool_reader@ == pool@,
                pool_reader.wf(),
                finalization_times.wf(),
                action_views(change_set@) == self.merged(order@.take(step as int), pool@, now),
                to_broadcast == must_broadcast(action_views(change_set@)),
                finalization_times@ == self.measured(
                    order@.take(step as int),
                    old(finalization_times)@,
                    pool@,
                ),
                old(finalization_times)@.is_prefix_of(finalization_times@),
            decreases order@.len() - step,
        {
            let which = order[step];
            let ghost before = change_set@;
            let ghost times_before = finalization_times@;
            proof {
                assert(order@.take(step + 1).drop_last() =~= order@.take(step as int));
            }
            let (mut proposed, broadcast) = match which {
                Subcomponent::BlockMaker => {
                    let made = add_all_to_validated(self.block_maker.on_state_change(&pool_reader));
                    let any = made.len() > 0;
                    (made, any)
                },
                Subcomponent::Notary => {
                    let made = add_all_to_validated(self.notary.on_state_change(&pool_reader, now));
                    let any = made.len() > 0;
                    (made, any)
                },
                Subcomponent::ShareAggregator => {
                    let made = add_all_to_validated(self.aggregator.on_state_change(&pool_reader));
                    let any = made.len() > 0;
                    (made, any)
                },
                Subcomponent::Validator => self.validator.on_state_change(
                    &pool_reader,
                    finalization_times,
                ),
            };
            let ghost added = proposed@;
            assert(action_views(added) == self.proposed_by(which, pool@, now));
            assert(broadcast == must_broadcast(action_views(added))) by {
                if which == Subcomponent::Validator {
                    assert(!must_broadcast(action_views(added)));
                } else if added.len() > 0 {
                    assert(action_views(added)[0] is AddToValidated);
                }
            }
            change_set.append(&mut proposed);
            assert(action_views(change_set@) =~= action_views(before) + action_views(added));
            proof {
                lemma_must_broadcast_either(action_views(before), action_views(added));
                assert(times_before.is_prefix_of(finalization_times@));
            }
            to_broadcast = to_broadcast || broadcast;
            step = step + 1;
        }
        assert(order@.take(step as int) =~= order@);
        (change_set, to_broadcast)
    }
}

/// A concatenation must be broadcast exactly if one of its parts must.
pub proof fn lemma_must_broadcast_either(front: Seq<ActionView>, back: Seq<ActionView>)
    ensures
        must_broadcast(front + back) == (must_broadcast(front) || must_broadcast(back)),
{
    let whole = front + back;
    if must_broadcast(front) {
        let i = choose|i: int| 0 <= i < front.len() && (#[trigger] front[i]) is AddToValidated;
        assert(whole[i] is AddToValidated);
    }
    if must_broadcast(back) {
        let i = choose|i: int| 0 <= i < back.len() && (#[trigger] back[i]) is AddToValidated;
        assert(whole[front.len() + i] is AddToValidated);
    }
    if must_broadcast(whole) {
        let i = choose|i: int| 0 <= i < whole.len() && (#[trigger] whole[i]) is AddToValidated;
        if i < front.len() {
            assert(front[i] is AddToValidated);
        } else {
            assert(back[i - front.len()] is AddToValidated);
        }
    }
}

/// The change set of a pass, part by part: what the block maker, the notary
/// and the aggregator add, then the promotion of everything unvalidated. The
/// metrics of a pass are those that the validator leaves.
pub proof fn lemma_change_set(
    client: ConsensusImpl,
    pool: PoolView,
    now: Time,
    times: Seq<(Height, Option<HeightMetrics>)>,
)
    ensures
        client.change_set(pool, now) == additions(client.block_maker.proposals(pool)) + additions(
            client.notary.shares(pool, now),
        ) + additions(client.aggregator.notarizations(pool)) + promotions(pool.unvalidated),
        client.metrics_after(times, pool) == observe_all(times, pool, pool.unvalidated),
{
    let order = RoundRobin::order();
    let three = order.drop_last();
    let two = three.drop_last();
    let one = two.drop_last();
    assert(one.drop_last() =~= Seq::<Subcomponent>::empty());
    assert(client.merged(one.drop_last(), pool, now) =~= Seq::<ActionView>::empty());
    assert(client.merged(one, pool, now) =~= additions(client.block_maker.proposals(pool)));
    assert(client.merged(two, pool, now) == client.merged(one, pool, now) + additions(
        client.notary.shares(pool, now),
    ));
    assert(client.merged(three, pool, now) == client.merged(two, pool, now) + additions(
        client.aggregator.notarizations(pool),
    ));
    assert(client.measured(one.drop_last(), times, pool) == times);
    assert(client.measured(one, times, pool) == times);
    assert(client.measured(two, times, pool) == times);
    assert(client.measured(three, times, pool) == times);
}

/// A pass validates everything: afterwards the unvalidated section is
/// empty, and every message that the pool held, in either section, is
/// validated. So whatever arrives in one batch is validated after one round.
pub proof fn law_pass_validates_everything(client: ConsensusImpl, pool: PoolView, now: Time)
    requires
        pool.wf(),
    ensures
        client.pass(pool, now).wf(),
        client.pass(pool, now).unvalidated.len() == 0,
        pool.validated.is_prefix_of(client.pass(pool, now).validated),
        forall|hash: Seq<char>|
            pool.holds(hash) ==> has_hash(client.pass(pool, now).validated, hash),
{
    let changes = client.change_set(pool, now);
    let after = client.pass(pool, now);
    let added = additions(client.block_maker.proposals(pool)) + additions(
        client.notary.shares(pool, now),
    ) + additions(client.aggregator.notarizations(pool));
    lemma_change_set(client, pool, now, Seq::empty());
    lemma_apply_all(pool, changes, now);
    assert forall|hash: Seq<char>| has_hash(pool.unvalidated, hash) implies has_hash(
        after.validated,
        hash,
    ) && !has_hash(after.unvalidated, hash) by {
        let j = choose|j: int|
            0 <= j < pool.unvalidated.len() && (#[trigger] pool.unvalidated[j]).hash == hash;
        let step = added.len() + j;
        assert(changes[step] == promotions(pool.unvalidated)[j]);
        assert(changes[step].message().digest() == hash);
        law_promotion(pool, changes, now, step);
    }
    if after.unvalidated.len() > 0 {
        let hash = after.unvalidated[0].hash;
        assert(has_hash(after.unvalidated, hash));
        assert(has_hash(pool.unvalidated, hash));
    }
}

/// A pool on which a pass derives no change is at rest: the pass leaves it
/// as it is, reports nothing to send and writes no metrics, and so does
/// every further pass at that time, as long as nothing arrives.
pub proof fn law_quiescent_pool_stays_quiescent(
    client: ConsensusImpl,
    pool: PoolView,
    now: Time,
    times: Seq<(Height, Option<HeightMetrics>)>,
    count: nat,
)
    requires
        client.change_set(pool, now).len() == 0,
    ensures
        client.passes(pool, now, count) == pool,
        client.change_set(client.passes(pool, now, count), now).len() == 0,
        !must_broadcast(client.change_set(client.passes(pool, now, count), now)),
        client.metrics_after(times, client.passes(pool, now, count)) == times,
    decreases count,
{
    if count > 0 {
        law_quiescent_pool_stays_quiescent(client, pool, now, times, (count - 1) as nat);
    }
    lemma_change_set(client, pool, now, times);
    assert(promotions(pool.unvalidated).len() == 0);
    assert(pool.unvalidated.len() == 0);
}

} // verus!

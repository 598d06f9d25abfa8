use fast_icc::artifact_manager::ProcessingResult;
use fast_icc::consensus_layer::artifacts::{ChangeAction, ConsensusMessage, UnvalidatedArtifact};
use fast_icc::consensus_layer::consensus::{
    add_all_to_validated, ConsensusImpl, RoundRobin, Subcomponent,
};
use fast_icc::consensus_layer::consensus_subcomponents::aggregator::{
    FinalizationContent, NotarizationContent,
};
use fast_icc::consensus_layer::consensus_subcomponents::block_maker::{
    genesis, Block, BlockMaker, Payload, RankingPolicy, RotatingRank,
};
use fast_icc::consensus_layer::consensus_subcomponents::notary::{
    Notary, NotarizationShareContent,
};
use fast_icc::consensus_layer::pool::ConsensusPoolImpl;
use fast_icc::consensus_layer::pool_reader::PoolReader;
use fast_icc::consensus_layer::ConsensusProcessor;
use fast_icc::crypto::{Hashed, Signed};
use fast_icc::{FinalizationTimes, FinalizationType, HeightMetrics, SubnetParams};

const MILLI: u64 = 1_000_000;

fn params(n: u8, f: u8, fast: bool, delay_ms: u64) -> SubnetParams {
    SubnetParams::new(n, f, 1, fast, delay_ms, 200, 3)
}

fn hashed(parent: &str, height: u64, rank: u8) -> Hashed {
    Hashed::new(Block { parent: parent.to_string(), payload: Payload::new(3), height, rank })
}

fn proposal(parent: &str, height: u64, rank: u8, signer: u8) -> ConsensusMessage {
    ConsensusMessage::BlockProposal(Signed { content: hashed(parent, height, rank), signature: signer })
}

fn share(height: u64, block: &str, signer: u8) -> ConsensusMessage {
    ConsensusMessage::NotarizationShare(Signed {
        content: NotarizationShareContent::ICC(NotarizationContent::new(height, block.to_string())),
        signature: signer,
    })
}

fn ack(height: u64, block: &str, signer: u8) -> ConsensusMessage {
    ConsensusMessage::NotarizationShare(Signed {
        content: NotarizationShareContent::COD(NotarizationContent::new(height, block.to_string())),
        signature: signer,
    })
}

fn notarization(height: u64, block: &str, signer: u8) -> ConsensusMessage {
    ConsensusMessage::Notarization(Signed {
        content: NotarizationContent::new(height, block.to_string()),
        signature: signer,
    })
}

fn finalization(height: u64, block: &str, signer: u8) -> ConsensusMessage {
    ConsensusMessage::Finalization(Signed {
        content: FinalizationContent::new(height, block.to_string()),
        signature: signer,
    })
}

fn arrived(message: ConsensusMessage, timestamp: u64) -> UnvalidatedArtifact<ConsensusMessage> {
    UnvalidatedArtifact::new(message, timestamp)
}

fn count_validated_notarizations(processor: &ConsensusProcessor, height: u64) -> usize {
    let section = processor.consensus_pool.validated();
    let mut count = 0;
    for position in 0..section.len() {
        if let ConsensusMessage::Notarization(found) = &section.entry(position).message {
            if found.content.height == height {
                count += 1;
            }
        }
    }
    count
}

#[test]
fn the_schedule_runs_every_subcomponent_once_in_a_fixed_order() {
    let schedule = RoundRobin::default();
    assert_eq!(schedule.index, 0);
    assert_eq!(
        schedule.schedule(),
        vec![
            Subcomponent::BlockMaker,
            Subcomponent::Notary,
            Subcomponent::ShareAggregator,
            Subcomponent::Validator,
        ]
    );
}

#[test]
fn add_all_to_validated_wraps_each_message_in_order() {
    assert_eq!(
        add_all_to_validated(vec![share(1, "a", 1), share(1, "b", 2)]),
        vec![
            ChangeAction::AddToValidated(share(1, "a", 1)),
            ChangeAction::AddToValidated(share(1, "b", 2)),
        ]
    );
    assert_eq!(add_all_to_validated(vec![]), vec![]);
}

#[test]
fn the_rotating_policy_hands_the_lead_around() {
    let policy = RotatingRank { nodes: 4 };
    assert_eq!(policy.rank(1, 1), 0);
    assert_eq!(policy.rank(1, 2), 1);
    assert_eq!(policy.rank(1, 3), 2);
    assert_eq!(policy.rank(1, 4), 3);
    assert_eq!(policy.rank(2, 1), 3);
    assert_eq!(policy.rank(2, 2), 0);
    assert_eq!(policy.rank(4, 4), 0);
    assert_eq!(policy.rank(4, 0), 0);
    assert_eq!(policy.rank(5, 1), 0);
    assert_eq!(policy.rank(u64::MAX, 3), 0);
    assert_eq!(policy.rank(u64::MAX, 255), 0);
    assert_eq!(RotatingRank { nodes: 0 }.rank(7, 3), 0);
    assert_eq!(RotatingRank { nodes: 1 }.rank(7, 3), 0);
    assert_eq!(RotatingRank { nodes: 255 }.rank(254, 255), 1);
}

#[test]
fn the_leader_of_the_first_round_proposes_on_the_start_of_the_chain() {
    let pool = ConsensusPoolImpl::new();
    let maker = BlockMaker::new(1, params(4, 1, false, 500));
    assert_eq!(genesis(), "block0");
    assert_eq!(
        maker.on_state_change(&PoolReader::new(&pool)),
        vec![proposal("block0", 1, 0, 1)]
    );
    let other = BlockMaker::new(2, params(4, 1, false, 500));
    assert_eq!(other.on_state_change(&PoolReader::new(&pool)), vec![]);
}

#[test]
fn the_leader_proposes_once_and_extends_the_notarized_block() {
    let mut pool = ConsensusPoolImpl::new();
    pool.apply_changes(
        vec![
            ChangeAction::AddToValidated(notarization(1, "first", 3)),
            ChangeAction::AddToValidated(notarization(1, "second", 3)),
        ],
        10,
    );
    let maker = BlockMaker::with_policy(2, 5, RotatingRank { nodes: 4 });
    let made = maker.on_state_change(&PoolReader::new(&pool));
    let expected = ConsensusMessage::BlockProposal(Signed {
        content: Hashed::new(Block {
            parent: String::from("first"),
            payload: Payload::new(5),
            height: 2,
            rank: 0,
        }),
        signature: 2,
    });
    assert_eq!(made, vec![expected]);
    pool.apply_changes(add_all_to_validated(made), 11);
    assert_eq!(maker.on_state_change(&PoolReader::new(&pool)), vec![]);
}

#[test]
fn the_notary_waits_for_the_delay_and_signs_the_best_proposal_once() {
    let mut pool = ConsensusPoolImpl::new();
    let notary = Notary::new(3, params(4, 1, false, 500));
    assert_eq!(notary.on_state_change(&PoolReader::new(&pool), 10_000 * MILLI), vec![]);
    pool.insert(arrived(proposal("block0", 1, 0, 1), 90 * MILLI));
    // An unvalidated proposal is not signed.
    assert_eq!(notary.on_state_change(&PoolReader::new(&pool), 10_000 * MILLI), vec![]);
    pool.apply_changes(
        vec![
            ChangeAction::AddToValidated(proposal("block0", 1, 2, 3)),
            ChangeAction::MoveToValidated(proposal("block0", 1, 0, 1)),
            ChangeAction::AddToValidated(proposal("block0", 2, 0, 2)),
        ],
        100 * MILLI,
    );
    // The first proposal of the round was seen at 90 ms.
    assert_eq!(notary.on_state_change(&PoolReader::new(&pool), 589 * MILLI), vec![]);
    assert_eq!(notary.on_state_change(&PoolReader::new(&pool), 590 * MILLI - 1), vec![]);
    assert_eq!(notary.on_state_change(&PoolReader::new(&pool), 10 * MILLI), vec![]);
    let best = hashed("block0", 1, 0).hash().clone();
    let made = notary.on_state_change(&PoolReader::new(&pool), 590 * MILLI);
    assert_eq!(made, vec![share(1, &best, 3)]);
    pool.apply_changes(add_all_to_validated(made), 590 * MILLI);
    assert_eq!(notary.on_state_change(&PoolReader::new(&pool), 900 * MILLI), vec![]);
}

#[test]
fn the_notary_of_a_fast_replica_acknowledges() {
    let mut pool = ConsensusPoolImpl::new();
    pool.apply_changes(vec![ChangeAction::AddToValidated(proposal("block0", 1, 0, 1))], 0);
    let notary = Notary::new(2, params(4, 1, true, 0));
    let best = hashed("block0", 1, 0).hash().clone();
    assert_eq!(notary.on_state_change(&PoolReader::new(&pool), 0), vec![ack(1, &best, 2)]);
}

#[test]
fn a_delay_too_long_for_the_clock_never_elapses() {
    let mut pool = ConsensusPoolImpl::new();
    pool.apply_changes(vec![ChangeAction::AddToValidated(proposal("block0", 1, 0, 1))], 0);
    let notary = Notary::new(2, params(4, 1, false, u64::MAX));
    assert_eq!(notary.on_state_change(&PoolReader::new(&pool), u64::MAX), vec![]);
}

#[test]
fn a_pass_concatenates_what_the_subcomponents_propose() {
    let mut pool = ConsensusPoolImpl::new();
    pool.apply_changes(vec![ChangeAction::AddToValidated(proposal("x", 1, 1, 2))], 0);
    for signer in 2..=4 {
        pool.insert(arrived(share(1, "b", signer), 5));
    }
    let consensus = ConsensusImpl::new(1, params(4, 1, false, 0));
    let mut times = FinalizationTimes::new();
    let (change_set, broadcast) = consensus.on_state_change(&pool, 7, &mut times);
    let seen = hashed("x", 1, 1).hash().clone();
    assert_eq!(
        change_set,
        vec![
            ChangeAction::AddToValidated(proposal("block0", 1, 0, 1)),
            ChangeAction::AddToValidated(share(1, &seen, 1)),
            ChangeAction::AddToValidated(notarization(1, "b", 1)),
            ChangeAction::MoveToValidated(share(1, "b", 2)),
            ChangeAction::MoveToValidated(share(1, "b", 3)),
            ChangeAction::MoveToValidated(share(1, "b", 4)),
        ]
    );
    assert!(broadcast);
}

#[test]
fn promotions_alone_are_not_broadcast() {
    let mut processor = ConsensusProcessor::new(3, params(4, 1, false, 500));
    let mut times = FinalizationTimes::new();
    let (outbound, result) = processor.process_changes(
        vec![arrived(share(1, "b", 1), 5), arrived(share(1, "b", 2), 6)],
        10,
        &mut times,
    );
    assert_eq!(outbound, vec![]);
    assert_eq!(result, ProcessingResult::StateChanged);
    assert_eq!(processor.consensus_pool.validated().len(), 2);
    assert_eq!(processor.consensus_pool.unvalidated().len(), 0);
}

#[test]
fn an_idle_replica_reports_no_change() {
    let mut processor = ConsensusProcessor::new(3, params(4, 1, false, 500));
    let mut times = FinalizationTimes::new();
    let (outbound, result) = processor.process_changes(vec![], 10, &mut times);
    assert_eq!(outbound, vec![]);
    assert_eq!(result, ProcessingResult::StateUnchanged);
    assert_eq!(processor.consensus_pool.validated().len(), 0);
}

#[test]
fn one_proposal_and_three_shares_give_one_notarization_and_one_broadcast() {
    let mut processor = ConsensusProcessor::new(3, params(4, 1, false, 500));
    let mut times = FinalizationTimes::new();
    let block = hashed("block0", 1, 0).hash().clone();
    let mut sent: Vec<ConsensusMessage> = Vec::new();
    let arrivals = vec![
        arrived(proposal("block0", 1, 0, 1), 1 * MILLI),
        arrived(share(1, &block, 1), 2 * MILLI),
        arrived(share(1, &block, 2), 3 * MILLI),
        arrived(share(1, &block, 4), 4 * MILLI),
    ];
    for (turn, artifact) in arrivals.into_iter().enumerate() {
        let now = (5 + turn as u64) * MILLI;
        let (mut outbound, result) = processor.process_changes(vec![artifact], now, &mut times);
        assert_eq!(result, ProcessingResult::StateChanged);
        sent.append(&mut outbound);
        // Nothing follows from what is there until the next arrival.
        let (mut outbound, result) = processor.process_changes(vec![], now, &mut times);
        assert_eq!(result, ProcessingResult::StateUnchanged);
        sent.append(&mut outbound);
    }
    assert_eq!(sent, vec![notarization(1, &block, 3)]);
    assert_eq!(count_validated_notarizations(&processor, 1), 1);
    assert_eq!(processor.consensus_pool.unvalidated().len(), 0);
    assert_eq!(processor.consensus_pool.validated().len(), 5);
    assert_eq!(PoolReader::new(&processor.consensus_pool).get_notarized_height(), 1);
}

#[test]
fn a_fourth_share_after_the_notarization_gives_no_second_one() {
    let mut processor = ConsensusProcessor::new(3, params(4, 1, false, 500));
    let mut times = FinalizationTimes::new();
    let (outbound, _) = processor.process_changes(
        vec![
            arrived(share(1, "b", 1), 2),
            arrived(share(1, "b", 2), 3),
            arrived(share(1, "b", 4), 4),
        ],
        5,
        &mut times,
    );
    assert_eq!(outbound, vec![notarization(1, "b", 3)]);
    let (outbound, result) =
        processor.process_changes(vec![arrived(share(1, "b", 3), 6)], 7, &mut times);
    assert_eq!(outbound, vec![]);
    assert_eq!(result, ProcessingResult::StateChanged);
    assert_eq!(count_validated_notarizations(&processor, 1), 1);
}

#[test]
fn four_shares_in_one_batch_give_one_notarization() {
    let mut processor = ConsensusProcessor::new(3, params(4, 1, false, 500));
    let mut times = FinalizationTimes::new();
    let (outbound, _) = processor.process_changes(
        vec![
            arrived(share(1, "b", 1), 2),
            arrived(share(1, "b", 2), 3),
            arrived(share(1, "b", 3), 4),
            arrived(share(1, "b", 4), 4),
        ],
        5,
        &mut times,
    );
    assert_eq!(outbound, vec![notarization(1, "b", 3)]);
    assert_eq!(count_validated_notarizations(&processor, 1), 1);
}

#[test]
fn two_shares_give_no_notarization() {
    let mut processor = ConsensusProcessor::new(3, params(4, 1, false, 500));
    let mut times = FinalizationTimes::new();
    let (outbound, _) = processor.process_changes(
        vec![arrived(share(1, "b", 1), 2), arrived(share(1, "b", 2), 3)],
        5,
        &mut times,
    );
    assert_eq!(outbound, vec![]);
    assert_eq!(count_validated_notarizations(&processor, 1), 0);
}

#[test]
fn repeated_processing_without_arrivals_comes_to_rest() {
    // Replica 1 leads round 1: it proposes, then signs, then has nothing
    // more to do, since its own share is no quorum.
    let mut processor = ConsensusProcessor::new(1, params(4, 1, false, 0));
    let mut times = FinalizationTimes::new();
    let mut results: Vec<ProcessingResult> = Vec::new();
    let mut sent: Vec<ConsensusMessage> = Vec::new();
    for _ in 0..6 {
        let (mut outbound, result) = processor.process_changes(vec![], 50, &mut times);
        results.push(result);
        sent.append(&mut outbound);
    }
    assert_eq!(
        results,
        vec![
            ProcessingResult::StateChanged,
            ProcessingResult::StateChanged,
            ProcessingResult::StateUnchanged,
            ProcessingResult::StateUnchanged,
            ProcessingResult::StateUnchanged,
            ProcessingResult::StateUnchanged,
        ]
    );
    let block = hashed("block0", 1, 0).hash().clone();
    assert_eq!(sent, vec![proposal("block0", 1, 0, 1), share(1, &block, 1)]);
}

#[test]
fn a_replica_alone_in_its_subnet_never_comes_to_rest() {
    // With one replica and no byzantine ones a single share is a quorum, so
    // every round completes by itself and the next one begins.
    let mut processor = ConsensusProcessor::new(1, params(1, 0, false, 0));
    let mut times = FinalizationTimes::new();
    for _ in 0..12 {
        let (_, result) = processor.process_changes(vec![], 50, &mut times);
        assert_eq!(result, ProcessingResult::StateChanged);
    }
    assert_eq!(PoolReader::new(&processor.consensus_pool).get_notarized_height(), 4);
}

#[test]
fn a_finalization_from_a_peer_is_recorded_with_its_latency() {
    let mut processor = ConsensusProcessor::new(3, params(4, 1, false, 500));
    let mut times = FinalizationTimes::new();
    let _ = processor.process_changes(
        vec![arrived(proposal("block0", 1, 0, 1), 100 * MILLI)],
        110 * MILLI,
        &mut times,
    );
    assert_eq!(times.len(), 0);
    let _ = processor.process_changes(
        vec![arrived(finalization(1, "b", 2), 250 * MILLI)],
        260 * MILLI,
        &mut times,
    );
    assert_eq!(times.len(), 1);
    assert_eq!(
        times.entry(0),
        (1, Some(HeightMetrics { latency: 150 * MILLI, fp_finalization: FinalizationType::DK }))
    );
}

#[test]
fn processor_new_starts_with_an_empty_pool() {
    let processor = ConsensusProcessor::new(2, params(4, 1, true, 300));
    assert_eq!(processor.consensus_pool.validated().len(), 0);
    assert_eq!(processor.consensus_pool.unvalidated().len(), 0);
    assert_eq!(processor.client.validator.my_node_id, 2);
    assert_eq!(processor.client.aggregator.quorum, 3);
    assert_eq!(processor.client.notary.delay, 300);
    assert!(processor.client.notary.fast_path);
    assert_eq!(processor.client.block_maker.blocksize, 3);
    assert_eq!(processor.client.block_maker.policy, RotatingRank { nodes: 4 });
}

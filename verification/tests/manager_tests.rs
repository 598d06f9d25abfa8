use fast_icc::artifact_manager::{
    run_round, ArtifactProcessorManager, ProcessingResult, Round, Wake,
};
use fast_icc::consensus_layer::artifacts::{ConsensusMessage, UnvalidatedArtifact};
use fast_icc::consensus_layer::consensus_subcomponents::aggregator::NotarizationContent;
use fast_icc::consensus_layer::consensus_subcomponents::block_maker::{Block, Payload};
use fast_icc::consensus_layer::consensus_subcomponents::notary::NotarizationShareContent;
use fast_icc::consensus_layer::ConsensusProcessor;
use fast_icc::crypto::{Hashed, Signed};
use fast_icc::time_source::{
    elapsed, has_delay_elapsed, FastForwardTimeSource, TimeSource, NANOS_PER_MILLI,
};
use fast_icc::{ArtifactDelayInfo, FinalizationTimes, SubnetParams};

fn params() -> SubnetParams {
    SubnetParams::new(4, 1, 1, false, 500, 200, 3)
}

fn proposal(height: u64, signer: u8) -> ConsensusMessage {
    let block = Block { parent: String::from("block0"), payload: Payload::new(3), height, rank: 0 };
    ConsensusMessage::BlockProposal(Signed { content: Hashed::new(block), signature: signer })
}

fn share(height: u64, block: &str, signer: u8) -> ConsensusMessage {
    ConsensusMessage::NotarizationShare(Signed {
        content: NotarizationShareContent::ICC(NotarizationContent::new(height, block.to_string())),
        signature: signer,
    })
}

fn notarization(height: u64, block: &str, signer: u8) -> ConsensusMessage {
    ConsensusMessage::Notarization(Signed {
        content: NotarizationContent::new(height, block.to_string()),
        signature: signer,
    })
}

#[test]
fn a_new_manager_has_nothing_pending() {
    let manager = ArtifactProcessorManager::new(3, params());
    assert_eq!(manager.pending_artifacts.len(), 0);
    assert_eq!(manager.client.consensus_pool.validated().len(), 0);
    assert_eq!(manager.client.client.validator.my_node_id, 3);
}

#[test]
fn on_artifact_queues_in_order_of_arrival() {
    let mut manager = ArtifactProcessorManager::new(3, params());
    manager.on_artifact(UnvalidatedArtifact::new(share(1, "b", 1), 5));
    manager.on_artifact(UnvalidatedArtifact::new(share(1, "b", 2), 6));
    assert_eq!(
        manager.pending_artifacts,
        vec![
            UnvalidatedArtifact::new(share(1, "b", 1), 5),
            UnvalidatedArtifact::new(share(1, "b", 2), 6),
        ]
    );
    // Nothing reaches the pool before the loop wakes.
    assert_eq!(manager.client.consensus_pool.unvalidated().len(), 0);
    let taken = manager.take_pending();
    assert_eq!(taken.len(), 2);
    assert_eq!(manager.pending_artifacts.len(), 0);
}

#[test]
fn two_artifacts_that_arrive_before_the_wake_are_processed_together() {
    let mut manager = ArtifactProcessorManager::new(3, params());
    let mut times = FinalizationTimes::new();
    manager.on_artifact(UnvalidatedArtifact::new(proposal(1, 1), 5));
    manager.on_artifact(UnvalidatedArtifact::new(share(1, "b", 2), 6));
    let round = manager.process_messages(Wake::Request, 10, &mut times);
    assert_eq!(round, Some(Round { adverts: vec![], again: true }));
    assert_eq!(manager.pending_artifacts.len(), 0);
    let pool = &manager.client.consensus_pool;
    assert_eq!(pool.unvalidated().len(), 0);
    assert_eq!(pool.validated().len(), 2);
    assert!(pool.validated().contains(&proposal(1, 1).content_hash()));
    assert!(pool.validated().contains(&share(1, "b", 2).content_hash()));
    // The next turn finds nothing to do.
    let round = manager.process_messages(Wake::Request, 11, &mut times);
    assert_eq!(round, Some(Round { adverts: vec![], again: false }));
}

#[test]
fn a_timeout_processes_the_batch_like_a_request() {
    let mut manager = ArtifactProcessorManager::new(3, params());
    let mut times = FinalizationTimes::new();
    for signer in [1, 2, 4] {
        manager.on_artifact(UnvalidatedArtifact::new(share(1, "b", signer), 5));
    }
    let round = manager.process_messages(Wake::Timeout, 10, &mut times);
    assert_eq!(round, Some(Round { adverts: vec![notarization(1, "b", 3)], again: true }));
    assert_eq!(manager.pending_artifacts.len(), 0);
}

#[test]
fn a_disconnected_loop_ends_and_touches_nothing() {
    let mut manager = ArtifactProcessorManager::new(3, params());
    let mut times = FinalizationTimes::new();
    manager.on_artifact(UnvalidatedArtifact::new(share(1, "b", 1), 5));
    assert_eq!(manager.process_messages(Wake::Disconnected, 10, &mut times), None);
    assert_eq!(manager.pending_artifacts.len(), 1);
    assert_eq!(manager.client.consensus_pool.unvalidated().len(), 0);
    assert_eq!(manager.client.consensus_pool.validated().len(), 0);
}

#[test]
fn run_round_asks_for_the_next_round_exactly_after_a_change() {
    let mut client = ConsensusProcessor::new(3, params());
    let mut times = FinalizationTimes::new();
    let round =
        run_round(&mut client, vec![UnvalidatedArtifact::new(share(1, "b", 1), 5)], 9, &mut times);
    assert_eq!(round, Round { adverts: vec![], again: true });
    let round = run_round(&mut client, vec![], 9, &mut times);
    assert_eq!(round, Round { adverts: vec![], again: false });
    let (_, result) = client.process_changes(vec![], 9, &mut times);
    assert_eq!(result, ProcessingResult::StateUnchanged);
}

#[test]
fn the_turn_takes_its_time_from_the_clock() {
    let mut clock = FastForwardTimeSource::new();
    assert_eq!(clock.get_relative_time(), 0);
    assert!(clock.set_time(700 * NANOS_PER_MILLI));
    assert!(!clock.set_time(5));
    assert_eq!(clock.get_relative_time(), 700 * NANOS_PER_MILLI);
    assert!(clock.set_time(700 * NANOS_PER_MILLI));
    // Replica 1 leads round 1 and proposes at once; the pool stamps the
    // proposal with the time of the clock.
    let mut manager = ArtifactProcessorManager::new(1, params());
    let mut times = FinalizationTimes::new();
    let (now, round) = manager.process_messages_by(Wake::Timeout, &clock, &mut times);
    assert_eq!(now, 700 * NANOS_PER_MILLI);
    assert_eq!(round, Some(Round { adverts: vec![proposal(1, 1)], again: true }));
    assert_eq!(manager.client.consensus_pool.validated().entry(0).timestamp, 700 * NANOS_PER_MILLI);
}

#[test]
fn elapsed_is_the_difference_or_zero() {
    assert_eq!(elapsed(100, 350), 250);
    assert_eq!(elapsed(350, 100), 0);
    assert_eq!(elapsed(7, 7), 0);
    assert_eq!(elapsed(0, u64::MAX), u64::MAX);
}

#[test]
fn a_delay_has_elapsed_from_its_last_nanosecond_on() {
    assert!(has_delay_elapsed(100, 100 + 500 * NANOS_PER_MILLI, 500));
    assert!(!has_delay_elapsed(100, 99 + 500 * NANOS_PER_MILLI, 500));
    assert!(has_delay_elapsed(100, 100, 0));
    assert!(!has_delay_elapsed(100, 99, 0));
    assert!(!has_delay_elapsed(0, u64::MAX, u64::MAX));
    assert!(has_delay_elapsed(0, u64::MAX, u64::MAX / NANOS_PER_MILLI));
    assert!(!has_delay_elapsed(0, u64::MAX, u64::MAX / NANOS_PER_MILLI + 1));
}

#[test]
fn subnet_params_keep_what_they_are_given() {
    let params = SubnetParams::new(6, 1, 2, true, 500, 200, 3);
    assert_eq!(params.total_nodes_number, 6);
    assert_eq!(params.byzantine_nodes_number, 1);
    assert_eq!(params.disagreeing_nodes_number, 2);
    assert!(params.fast_internet_computer_consensus);
    assert_eq!(params.artifact_delay, 500);
    assert_eq!(params.artifact_manager_polling_interval, 200);
    assert_eq!(params.blocksize, 3);
    assert!(params.is_valid());
    assert!(!SubnetParams::new(4, 4, 1, false, 0, 0, 0).is_valid());
    assert!(!SubnetParams::new(4, 1, 4, false, 0, 0, 0).is_valid());
    assert!(!SubnetParams::new(0, 0, 0, false, 0, 0, 0).is_valid());
}

#[test]
fn delay_info_holds_two_optional_times() {
    let info = ArtifactDelayInfo { sent: Some(5), received: None };
    assert_eq!(info.sent, Some(5));
    assert_eq!(info.received, None);
}

#[test]
fn only_a_disconnected_wake_ends_the_loop() {
    assert!(Wake::Disconnected.ends_loop());
    assert!(!Wake::Request.ends_loop());
    assert!(!Wake::Timeout.ends_loop());
}

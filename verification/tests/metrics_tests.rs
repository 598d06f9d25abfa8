use fast_icc::consensus_layer::artifacts::{ChangeAction, ConsensusMessage, UnvalidatedArtifact};
use fast_icc::consensus_layer::consensus_subcomponents::aggregator::FinalizationContent;
use fast_icc::consensus_layer::consensus_subcomponents::block_maker::{Block, Payload};
use fast_icc::consensus_layer::consensus_subcomponents::validator::Validator;
use fast_icc::consensus_layer::pool::ConsensusPoolImpl;
use fast_icc::consensus_layer::pool_reader::PoolReader;
use fast_icc::crypto::{Hashed, Signed};
use fast_icc::{FinalizationTimes, FinalizationType, HeightMetrics};

fn proposal(height: u64, signer: u8) -> ConsensusMessage {
    let block = Block { parent: String::from("block0"), payload: Payload::new(1), height, rank: 0 };
    ConsensusMessage::BlockProposal(Signed { content: Hashed::new(block), signature: signer })
}

fn finalization(height: u64, signer: u8) -> ConsensusMessage {
    ConsensusMessage::Finalization(Signed {
        content: FinalizationContent::new(height, String::from("b")),
        signature: signer,
    })
}

fn dk(latency: u64) -> Option<HeightMetrics> {
    Some(HeightMetrics { latency, fp_finalization: FinalizationType::DK })
}

fn pool_with_proposals() -> ConsensusPoolImpl {
    let mut pool = ConsensusPoolImpl::new();
    pool.apply_changes(
        vec![
            ChangeAction::AddToValidated(proposal(1, 1)),
            ChangeAction::AddToValidated(proposal(2, 2)),
            ChangeAction::AddToValidated(proposal(3, 3)),
        ],
        100,
    );
    pool
}

#[test]
fn a_record_starts_empty() {
    let times = FinalizationTimes::new();
    assert_eq!(times.len(), 0);
    assert_eq!(times.last_height(), None);
    assert!(!times.contains_key(0));
    assert_eq!(times.get(0), None);
}

#[test]
fn record_writes_only_above_every_recorded_height() {
    let mut times = FinalizationTimes::new();
    assert!(times.record(0, dk(5)));
    assert!(!times.record(0, dk(6)));
    assert!(times.record(4, None));
    assert!(!times.record(3, dk(7)));
    assert!(!times.record(4, dk(8)));
    assert!(times.record(5, dk(9)));
    assert_eq!(times.len(), 3);
    assert_eq!(times.entry(0), (0, dk(5)));
    assert_eq!(times.entry(1), (4, None));
    assert_eq!(times.entry(2), (5, dk(9)));
    assert_eq!(times.last_height(), Some(5));
    assert_eq!(times.get(4), Some(None));
    assert_eq!(times.get(5), Some(dk(9)));
    assert_eq!(times.get(3), None);
    assert!(times.contains_key(4));
    assert!(!times.contains_key(3));
}

#[test]
fn validator_new_keeps_the_node_id() {
    assert_eq!(Validator::new(3).my_node_id, 3);
}

#[test]
fn the_validator_promotes_everything_and_asks_for_no_broadcast() {
    let mut pool = ConsensusPoolImpl::new();
    pool.insert(UnvalidatedArtifact::new(proposal(1, 1), 10));
    pool.insert(UnvalidatedArtifact::new(finalization(9, 2), 11));
    let mut times = FinalizationTimes::new();
    let (change_set, broadcast) =
        Validator::new(3).on_state_change(&PoolReader::new(&pool), &mut times);
    assert_eq!(
        change_set,
        vec![
            ChangeAction::MoveToValidated(proposal(1, 1)),
            ChangeAction::MoveToValidated(finalization(9, 2)),
        ]
    );
    assert!(!broadcast);
    // Height 9 was never proposed here, so there is no latency to record.
    assert_eq!(times.len(), 0);
}

#[test]
fn the_validator_on_an_empty_pool_does_nothing() {
    let pool = ConsensusPoolImpl::new();
    let mut times = FinalizationTimes::new();
    let (change_set, broadcast) =
        Validator::new(3).on_state_change(&PoolReader::new(&pool), &mut times);
    assert_eq!(change_set, vec![]);
    assert!(!broadcast);
    assert_eq!(times.len(), 0);
}

#[test]
fn finalizations_in_order_of_height_are_all_recorded() {
    let mut pool = pool_with_proposals();
    pool.insert(UnvalidatedArtifact::new(finalization(1, 4), 150));
    pool.insert(UnvalidatedArtifact::new(finalization(2, 4), 175));
    let mut times = FinalizationTimes::new();
    let _ = Validator::new(3).on_state_change(&PoolReader::new(&pool), &mut times);
    assert_eq!(times.len(), 2);
    assert_eq!(times.entry(0), (1, dk(50)));
    assert_eq!(times.entry(1), (2, dk(75)));
}

#[test]
fn a_finalization_below_a_recorded_height_is_not_recorded() {
    let mut pool = pool_with_proposals();
    pool.insert(UnvalidatedArtifact::new(finalization(2, 4), 175));
    pool.insert(UnvalidatedArtifact::new(finalization(1, 4), 190));
    let mut times = FinalizationTimes::new();
    let _ = Validator::new(3).on_state_change(&PoolReader::new(&pool), &mut times);
    assert_eq!(times.len(), 1);
    assert_eq!(times.entry(0), (2, dk(75)));
    // A later call with the lower height still leaves the entry alone.
    let mut later = ConsensusPoolImpl::new();
    later.apply_changes(vec![ChangeAction::AddToValidated(proposal(1, 1))], 100);
    later.insert(UnvalidatedArtifact::new(finalization(1, 5), 400));
    let _ = Validator::new(3).on_state_change(&PoolReader::new(&later), &mut times);
    assert_eq!(times.len(), 1);
    assert_eq!(times.entry(0), (2, dk(75)));
}

#[test]
fn a_recorded_height_is_not_written_again() {
    let mut pool = pool_with_proposals();
    pool.insert(UnvalidatedArtifact::new(finalization(2, 4), 175));
    pool.insert(UnvalidatedArtifact::new(finalization(2, 5), 120));
    pool.insert(UnvalidatedArtifact::new(finalization(3, 5), 180));
    let mut times = FinalizationTimes::new();
    let _ = Validator::new(3).on_state_change(&PoolReader::new(&pool), &mut times);
    // The first finalization seen for height 2 came at 120.
    assert_eq!(times.len(), 2);
    assert_eq!(times.entry(0), (2, dk(20)));
    assert_eq!(times.entry(1), (3, dk(80)));
}

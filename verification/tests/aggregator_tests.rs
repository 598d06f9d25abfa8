use fast_icc::consensus_layer::artifacts::{ChangeAction, ConsensusMessage, UnvalidatedArtifact};
use fast_icc::consensus_layer::consensus_subcomponents::aggregator::{
    aggregate, count_endorsements, is_first_for_block, NotarizationContent, ShareAggregator,
};
use fast_icc::consensus_layer::consensus_subcomponents::notary::{
    NotarizationShare, NotarizationShareContent,
};
use fast_icc::consensus_layer::pool::ConsensusPoolImpl;
use fast_icc::consensus_layer::pool_reader::PoolReader;
use fast_icc::crypto::Signed;
use fast_icc::SubnetParams;

fn share(height: u64, block: &str, signer: u8) -> NotarizationShare {
    Signed {
        content: NotarizationShareContent::ICC(NotarizationContent::new(height, block.to_string())),
        signature: signer,
    }
}

fn ack(height: u64, block: &str, signer: u8) -> NotarizationShare {
    Signed {
        content: NotarizationShareContent::COD(NotarizationContent::new(height, block.to_string())),
        signature: signer,
    }
}

fn notarization(height: u64, block: &str, signer: u8) -> ConsensusMessage {
    ConsensusMessage::Notarization(Signed {
        content: NotarizationContent::new(height, block.to_string()),
        signature: signer,
    })
}

fn params(n: u8, f: u8) -> SubnetParams {
    SubnetParams::new(n, f, 1, false, 500, 200, 3)
}

#[test]
fn notarization_content_new_keeps_height_and_block() {
    let content = NotarizationContent::new(7, String::from("abc"));
    assert_eq!(content.height, 7);
    assert_eq!(content.block, "abc");
}

#[test]
fn the_quorum_of_four_replicas_with_one_byzantine_is_three() {
    assert_eq!(params(4, 1).quorum_size(), 3);
    assert_eq!(ShareAggregator::new(2, params(4, 1)).quorum, 3);
    assert_eq!(ShareAggregator::new(2, params(4, 1)).node_id, 2);
    assert_eq!(params(6, 1).quorum_size(), 3);
    assert_eq!(params(7, 2).quorum_size(), 5);
    assert_eq!(params(1, 0).quorum_size(), 1);
    assert_eq!(params(255, 255).quorum_size(), 511);
}

#[test]
fn two_matching_shares_make_no_notarization() {
    let shares = vec![share(1, "b", 1), share(1, "b", 2)];
    assert_eq!(aggregate(&shares, 1, 3, 9), vec![]);
}

#[test]
fn three_matching_shares_make_one_notarization() {
    let shares = vec![share(1, "b", 1), share(1, "b", 2), share(1, "b", 3)];
    assert_eq!(aggregate(&shares, 1, 3, 9), vec![notarization(1, "b", 9)]);
}

#[test]
fn more_shares_than_the_quorum_still_make_one_notarization() {
    let shares = vec![share(1, "b", 1), share(1, "b", 2), share(1, "b", 3), share(1, "b", 4)];
    assert_eq!(aggregate(&shares, 1, 3, 9), vec![notarization(1, "b", 9)]);
}

#[test]
fn shares_for_different_blocks_do_not_add_up() {
    let shares = vec![share(1, "a", 1), share(1, "b", 2), share(1, "a", 3), share(1, "c", 4)];
    assert_eq!(aggregate(&shares, 1, 3, 9), vec![]);
    assert_eq!(count_endorsements(&shares, &String::from("a")), 2);
    assert_eq!(count_endorsements(&shares, &String::from("b")), 1);
    assert_eq!(count_endorsements(&shares, &String::from("d")), 0);
    assert!(is_first_for_block(&shares, 0));
    assert!(is_first_for_block(&shares, 1));
    assert!(!is_first_for_block(&shares, 2));
    assert!(is_first_for_block(&shares, 3));
}

#[test]
fn every_block_with_a_quorum_gets_its_notarization_in_order_of_first_share() {
    let shares = vec![
        share(4, "y", 1),
        share(4, "x", 1),
        share(4, "x", 2),
        share(4, "y", 2),
        share(4, "z", 3),
    ];
    assert_eq!(aggregate(&shares, 4, 2, 5), vec![notarization(4, "y", 5), notarization(4, "x", 5)]);
}

#[test]
fn fast_and_classic_shares_for_one_block_match() {
    let shares = vec![ack(1, "b", 1), share(1, "b", 2), ack(1, "b", 3)];
    assert_eq!(aggregate(&shares, 1, 3, 9), vec![notarization(1, "b", 9)]);
}

#[test]
fn no_shares_make_no_notarization() {
    assert_eq!(aggregate(&vec![], 1, 3, 9), vec![]);
    assert_eq!(aggregate(&vec![], 1, 0, 9), vec![]);
}

#[test]
fn the_aggregator_looks_at_the_round_after_the_highest_notarized_one() {
    let mut pool = ConsensusPoolImpl::new();
    pool.apply_changes(vec![ChangeAction::AddToValidated(notarization(1, "a", 1))], 1);
    for signer in 1..=3 {
        // Shares for the notarized round are too late, those for round 3 too early.
        pool.insert(UnvalidatedArtifact::new(ConsensusMessage::NotarizationShare(share(1, "q", signer)), 5));
        pool.insert(UnvalidatedArtifact::new(ConsensusMessage::NotarizationShare(share(3, "c", signer)), 5));
    }
    let aggregator = ShareAggregator::new(4, params(4, 1));
    assert_eq!(aggregator.on_state_change(&PoolReader::new(&pool)), vec![]);
    for signer in 1..=3 {
        pool.insert(UnvalidatedArtifact::new(ConsensusMessage::NotarizationShare(share(2, "b", signer)), 6));
    }
    assert_eq!(
        aggregator.on_state_change(&PoolReader::new(&pool)),
        vec![notarization(2, "b", 4)]
    );
}

#[test]
fn validated_and_unvalidated_shares_count_together() {
    let mut pool = ConsensusPoolImpl::new();
    pool.apply_changes(
        vec![
            ChangeAction::AddToValidated(ConsensusMessage::NotarizationShare(share(1, "b", 1))),
            ChangeAction::AddToValidated(ConsensusMessage::NotarizationShare(share(1, "b", 2))),
        ],
        1,
    );
    let aggregator = ShareAggregator::new(1, params(4, 1));
    assert_eq!(aggregator.on_state_change(&PoolReader::new(&pool)), vec![]);
    pool.insert(UnvalidatedArtifact::new(ConsensusMessage::NotarizationShare(share(1, "b", 3)), 5));
    assert_eq!(
        aggregator.on_state_change(&PoolReader::new(&pool)),
        vec![notarization(1, "b", 1)]
    );
}

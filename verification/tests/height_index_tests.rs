use fast_icc::consensus_layer::artifacts::{ChangeAction, ConsensusMessage, MessageKind, UnvalidatedArtifact};
use fast_icc::consensus_layer::consensus_subcomponents::aggregator::NotarizationContent;
use fast_icc::consensus_layer::consensus_subcomponents::notary::NotarizationShareContent;
use fast_icc::consensus_layer::height_index::HeightIndex;
use fast_icc::consensus_layer::pool::ConsensusPoolImpl;
use fast_icc::crypto::Signed;

fn text(hash: &str) -> String {
    hash.to_string()
}

fn share(height: u64, signer: u8) -> ConsensusMessage {
    ConsensusMessage::NotarizationShare(Signed {
        content: NotarizationShareContent::ICC(NotarizationContent::new(height, text("b"))),
        signature: signer,
    })
}

fn notarization(height: u64, signer: u8) -> ConsensusMessage {
    ConsensusMessage::Notarization(Signed {
        content: NotarizationContent::new(height, text("b")),
        signature: signer,
    })
}

#[test]
fn an_empty_index_lists_nothing() {
    let index = HeightIndex::new();
    assert_eq!(index.len(), 0);
    assert_eq!(index.max_height(), None);
    assert_eq!(index.lookup(0), Vec::<String>::new());
}

#[test]
fn lookup_gives_the_hashes_of_a_height_in_order() {
    let mut index = HeightIndex::new();
    index.insert(2, text("x"));
    index.insert(1, text("y"));
    index.insert(2, text("z"));
    assert_eq!(index.len(), 3);
    assert_eq!(index.lookup(2), vec![text("x"), text("z")]);
    assert_eq!(index.lookup(1), vec![text("y")]);
    assert_eq!(index.lookup(3), Vec::<String>::new());
    assert_eq!(index.max_height(), Some(2));
}

#[test]
fn remove_strikes_the_first_listing_only() {
    let mut index = HeightIndex::new();
    index.insert(2, text("x"));
    index.insert(5, text("y"));
    index.insert(2, text("x"));
    assert!(!index.remove(2, &text("y")));
    assert!(!index.remove(5, &text("x")));
    assert_eq!(index.len(), 3);
    assert!(index.remove(5, &text("y")));
    assert_eq!(index.max_height(), Some(2));
    assert!(index.remove(2, &text("x")));
    assert_eq!(index.lookup(2), vec![text("x")]);
    assert!(index.remove(2, &text("x")));
    assert!(!index.remove(2, &text("x")));
    assert_eq!(index.len(), 0);
    assert_eq!(index.max_height(), None);
}

#[test]
fn a_section_knows_the_highest_height_of_each_kind() {
    let mut pool = ConsensusPoolImpl::new();
    assert_eq!(pool.unvalidated().max_height(MessageKind::NotarizationShare), None);
    pool.insert(UnvalidatedArtifact::new(share(3, 1), 1));
    pool.insert(UnvalidatedArtifact::new(share(7, 1), 2));
    pool.insert(UnvalidatedArtifact::new(notarization(5, 1), 3));
    assert_eq!(pool.unvalidated().max_height(MessageKind::NotarizationShare), Some(7));
    assert_eq!(pool.unvalidated().max_height(MessageKind::Notarization), Some(5));
    assert_eq!(pool.unvalidated().max_height(MessageKind::BlockProposal), None);
    assert_eq!(pool.unvalidated().max_height(MessageKind::Finalization), None);
    assert_eq!(pool.validated().max_height(MessageKind::NotarizationShare), None);
    pool.apply_changes(
        vec![
            ChangeAction::MoveToValidated(share(7, 1)),
            ChangeAction::AddToValidated(notarization(9, 2)),
        ],
        4,
    );
    assert_eq!(pool.unvalidated().max_height(MessageKind::NotarizationShare), Some(3));
    assert_eq!(pool.validated().max_height(MessageKind::NotarizationShare), Some(7));
    assert_eq!(pool.validated().max_height(MessageKind::Notarization), Some(9));
    assert_eq!(pool.unvalidated().max_height(MessageKind::Notarization), Some(5));
}

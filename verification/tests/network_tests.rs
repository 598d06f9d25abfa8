use fast_icc::consensus_layer::artifacts::{ConsensusMessage, UnvalidatedArtifact};
use fast_icc::consensus_layer::consensus_subcomponents::aggregator::NotarizationContent;
use fast_icc::consensus_layer::consensus_subcomponents::block_maker::{Block, Payload};
use fast_icc::consensus_layer::consensus_subcomponents::notary::NotarizationShareContent;
use fast_icc::crypto::{Hashed, Signed};
use fast_icc::network_layer::{
    contains_name, BroadcastPlan, Message, Peer, PeerAction, PeerEvent,
};
use fast_icc::SubnetParams;

fn params(n: u8) -> SubnetParams {
    SubnetParams::new(n, 1, 1, false, 500, 200, 3)
}

fn proposal(height: u64, signer: u8) -> ConsensusMessage {
    let block = Block { parent: String::from("block0"), payload: Payload::new(3), height, rank: 0 };
    ConsensusMessage::BlockProposal(Signed { content: Hashed::new(block), signature: signer })
}

fn share(fast: bool, height: u64, signer: u8) -> ConsensusMessage {
    let content = NotarizationContent::new(height, String::from("b"));
    ConsensusMessage::NotarizationShare(Signed {
        content: NotarizationShareContent::new(fast, content),
        signature: signer,
    })
}

fn started_peer(replica: u8) -> Peer {
    let mut peer = Peer::new(replica, params(2));
    assert_eq!(
        peer.match_event(PeerEvent::ConnectionEstablished(String::from("other")), 0),
        PeerAction::StartManager
    );
    peer
}

#[test]
fn a_new_peer_knows_nobody_and_has_not_started() {
    let peer = Peer::new(2, params(4));
    assert_eq!(peer.replica_number, 2);
    assert!(!peer.artifact_manager_started());
    assert_eq!(peer.subscribed_peers.len(), 0);
    assert_eq!(peer.connected_peers.len(), 0);
}

#[test]
fn the_manager_starts_when_all_the_other_replicas_are_connected() {
    let mut peer = Peer::new(2, params(4));
    assert_eq!(
        peer.match_event(PeerEvent::ConnectionEstablished(String::from("a")), 1),
        PeerAction::Nothing
    );
    assert_eq!(
        peer.match_event(PeerEvent::ConnectionEstablished(String::from("b")), 2),
        PeerAction::Nothing
    );
    // A second connection to a known peer does not count.
    assert_eq!(
        peer.match_event(PeerEvent::ConnectionEstablished(String::from("a")), 3),
        PeerAction::Nothing
    );
    assert!(!peer.artifact_manager_started());
    assert_eq!(
        peer.match_event(PeerEvent::ConnectionEstablished(String::from("c")), 4),
        PeerAction::StartManager
    );
    assert!(peer.artifact_manager_started());
    assert_eq!(peer.connected_peers, vec!["a", "b", "c"]);
    // One more peer than expected starts nothing anew.
    assert_eq!(
        peer.match_event(PeerEvent::ConnectionEstablished(String::from("d")), 5),
        PeerAction::Nothing
    );
    assert!(peer.artifact_manager_started());
}

#[test]
fn a_new_subscriber_joins_the_broadcast_list_once() {
    let mut peer = Peer::new(2, params(4));
    assert_eq!(
        peer.match_event(PeerEvent::Subscribed(String::from("a")), 1),
        PeerAction::AddToBroadcastList(String::from("a"))
    );
    assert_eq!(peer.match_event(PeerEvent::Subscribed(String::from("a")), 2), PeerAction::Nothing);
    assert_eq!(peer.subscribed_peers, vec!["a"]);
    assert!(contains_name(&peer.subscribed_peers, &String::from("a")));
    assert!(!contains_name(&peer.subscribed_peers, &String::from("b")));
}

#[test]
fn a_peer_is_dialed_once() {
    let mut peer = Peer::new(2, params(4));
    assert!(peer.dial_peers(String::from("a")));
    assert!(peer.dial_peers(String::from("b")));
    assert!(!peer.dial_peers(String::from("a")));
    assert_eq!(peer.subscribed_peers, vec!["a", "b"]);
    // A peer that was dialed is no news when it subscribes.
    assert_eq!(peer.match_event(PeerEvent::Subscribed(String::from("b")), 2), PeerAction::Nothing);
}

#[test]
fn other_events_change_nothing() {
    let mut peer = Peer::new(2, params(4));
    assert_eq!(peer.match_event(PeerEvent::Other, 1), PeerAction::Nothing);
    assert_eq!(peer.subscribed_peers.len(), 0);
    assert_eq!(peer.connected_peers.len(), 0);
    assert!(!peer.artifact_manager_started());
}

#[test]
fn messages_are_dropped_until_the_manager_runs() {
    let peer = Peer::new(2, params(4));
    assert_eq!(
        peer.handle_incoming_message(Message::ConsensusMessage(proposal(1, 1)), 5),
        PeerAction::Nothing
    );
    assert_eq!(peer.handle_incoming_message(Message::KeepAliveMessage, 5), PeerAction::Nothing);
}

#[test]
fn a_consensus_message_is_delivered_with_the_time_of_its_arrival() {
    let mut peer = started_peer(2);
    assert_eq!(
        peer.handle_incoming_message(Message::ConsensusMessage(proposal(1, 1)), 77),
        PeerAction::Deliver(UnvalidatedArtifact::new(proposal(1, 1), 77))
    );
    assert_eq!(peer.handle_incoming_message(Message::KeepAliveMessage, 78), PeerAction::Nothing);
    assert_eq!(
        peer.match_event(PeerEvent::MessageReceived(Message::ConsensusMessage(proposal(2, 1))), 79),
        PeerAction::Deliver(UnvalidatedArtifact::new(proposal(2, 1), 79))
    );
    assert_eq!(
        peer.match_event(PeerEvent::MessageReceived(Message::KeepAliveMessage), 80),
        PeerAction::Nothing
    );
}

#[test]
fn a_message_goes_out_as_it_is() {
    let peer = Peer::new(2, params(4));
    assert_eq!(
        peer.broadcast_message(proposal(1, 2)),
        BroadcastPlan { delay_ms: 0, messages: vec![proposal(1, 2)] }
    );
    assert_eq!(
        peer.broadcast_message(share(false, 1, 2)),
        BroadcastPlan { delay_ms: 0, messages: vec![share(false, 1, 2)] }
    );
}

#[test]
fn replica_one_holds_its_first_proposal_back() {
    let peer = Peer::new(1, params(4));
    assert_eq!(
        peer.broadcast_message(proposal(1, 1)),
        BroadcastPlan { delay_ms: 100, messages: vec![proposal(1, 1)] }
    );
    assert_eq!(
        peer.broadcast_message(proposal(2, 1)),
        BroadcastPlan { delay_ms: 0, messages: vec![proposal(2, 1)] }
    );
}

#[test]
fn replica_one_repeats_the_first_proposal_ahead_of_its_first_share() {
    let peer = Peer::new(1, params(4));
    for fast in [false, true] {
        assert_eq!(
            peer.broadcast_message(share(fast, 1, 1)),
            BroadcastPlan { delay_ms: 0, messages: vec![proposal(1, 1), share(fast, 1, 1)] }
        );
        assert_eq!(
            peer.broadcast_message(share(fast, 2, 1)),
            BroadcastPlan { delay_ms: 0, messages: vec![share(fast, 2, 1)] }
        );
    }
}

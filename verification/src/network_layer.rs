//! What a peer decides about the network around it: whom it knows, when the
//! replica may start, what to do with a message that came in and with one
//! that goes out. The sockets are somebody else's; here are the rules.

use crate::consensus_layer::artifacts::{ConsensusMessage, MessageView, UnvalidatedArtifact};
use crate::consensus_layer::consensus_subcomponents::block_maker::{
    genesis, genesis_hash, Block, BlockView, Payload,
};
use crate::crypto::{block_digest, Hashed, Signed};
use crate::params::SubnetParams;
use crate::time_source::Time;
use vstd::prelude::*;

verus! {

/// What travels between peers.
#[derive(Debug, PartialEq, Eq)]
pub enum Message {
    ConsensusMessage(ConsensusMessage),
    /// Sent now and then so that the connection is not taken for dead.
    KeepAliveMessage,
}

/// What the network reports to a peer, as far as the peer's rules read it.
/// Peers are named by the text of their identifiers.
#[derive(Debug, PartialEq, Eq)]
pub enum PeerEvent {
    /// A message arrived on the topic.
    MessageReceived(Message),
    /// A remote peer subscribed to the topic.
    Subscribed(String),
    /// A connection to a remote peer stands.
    ConnectionEstablished(String),
    /// Anything else: worth a line in the log at most.
    Other,
}

/// What the network side must do after an event.
#[derive(Debug, PartialEq, Eq)]
pub enum PeerAction {
    Nothing,
    /// Hand the artifact to the artifact manager.
    Deliver(UnvalidatedArtifact<ConsensusMessage>),
    /// Add the peer to the list of those that broadcasts go to.
    AddToBroadcastList(String),
    /// Every other replica is connected: start the artifact manager.
    StartManager,
}

/// What to send for a message that the replica produced.
#[derive(Debug, PartialEq, Eq)]
pub struct BroadcastPlan {
    /// How long to wait before sending, in milliseconds.
    pub delay_ms: u64,
    /// What to send, in order.
    pub messages: Vec<ConsensusMessage>,
}

/// Whether `name` is one of `names`.
pub open spec fn is_listed(names: Seq<String>, name: Seq<char>) -> bool {
    exists|i: int| 0 <= i < names.len() && (#[trigger] names[i])@ == name
}

/// Whether no name occurs twice in `names`.
pub open spec fn all_differ(names: Seq<String>) -> bool {
    forall|i: int, j: int|
        0 <= i < j < names.len() ==> (#[trigger] names[i])@ != (#[trigger] names[j])@
}

/// Decides whether `name` is one of `names`.
pub fn contains_name(names: &Vec<String>, name: &String) -> (found: bool)
    ensures
        found == is_listed(names@, name@),
{
    let mut position: usize = 0;
    while position < names.len()
        invariant
            position <= names@.len(),
            forall|i: int| 0 <= i < position ==> (#[trigger] names@[i])@ != name@,
        decreases names@.len() - position,
    {
        if names[position] == *name {
            return true;
        }
        position = position + 1;
    }
    false
}

/// The first block of the chain as the replica that leads the first round
/// proposes it.
pub open spec fn first_block(blocksize: usize) -> BlockView {
    BlockView {
        parent: genesis_hash(),
        payload: Seq::new(blocksize as nat, |i: int| 0u8),
        height: 1,
        rank: 0,
    }
}

/// The network state of a replica.
pub struct Peer {
    pub replica_number: u8,
    pub subnet_params: SubnetParams,
    /// The peers that broadcasts go to, in the order in which they were added.
    pub subscribed_peers: Vec<String>,
    /// The peers to which a connection stands.
    pub connected_peers: Vec<String>,
    pub artifact_manager_started: bool,
}

impl Peer {
    /// The peer's invariant: no peer is listed twice.
    pub open spec fn wf(&self) -> bool {
        all_differ(self.subscribed_peers@) && all_differ(self.connected_peers@)
    }

    /// A peer that knows nobody yet.
    pub fn new(replica_number: u8, subnet_params: SubnetParams) -> (peer: Self)
        ensures
            peer.wf(),
            peer.replica_number == replica_number,
            peer.subnet_params == subnet_params,
            peer.subscribed_peers@.len() == 0,
            peer.connected_peers@.len() == 0,
            !peer.artifact_manager_started,
    {
        Peer {
            replica_number,
            subnet_params,
            subscribed_peers: Vec::new(),
            connected_peers: Vec::new(),
            artifact_manager_started: false,
        }
    }

    pub fn artifact_manager_started(&self) -> (started: bool)
        ensures
            started == self.artifact_manager_started,
    {
        self.artifact_manager_started
    }

    /// Notes that broadcasts go to `peer_id` from now on, and says whether
    /// that is news. A peer that is new must be dialed.
    pub fn dial_peers(&mut self, peer_id: String) -> (dial: bool)
        requires
            old(self).wf(),
        ensures
            final(self).wf(),
            dial == !is_listed(old(self).subscribed_peers@, peer_id@),
            final(self).subscribed_peers@ == if dial {
                old(self).subscribed_peers@.push(peer_id)
            } else {
                old(self).subscribed_peers@
            },
            final(self).connected_peers == old(self).connected_peers,
            final(self).artifact_manager_started == old(self).artifact_manager_started,
            final(self).replica_number == old(self).replica_number,
            final(self).subnet_params == old(self).subnet_params,
    {
        if contains_name(&self.subscribed_peers, &peer_id) {
            false
        } else {
            self.subscribed_peers.push(peer_id);
            true
        }
    }

    /// Whether a connection to one more peer completes the subnet: with it,
    /// every replica but this one is connected.
    pub open spec fn completes_subnet(&self) -> bool {
        self.connected_peers@.len() + 1 == self.subnet_params.total_nodes_number - 1
    }

    /// What follows from an incoming message at time `now`: a consensus
    /// message becomes an artifact for the manager, stamped with `now`, if
    /// the manager runs; anything else is dropped.
    pub open spec fn incoming(&self, message: Message, now: Time) -> PeerAction {
        match message {
            Message::ConsensusMessage(consensus_message) => if self.artifact_manager_started {
                PeerAction::Deliver(
                    UnvalidatedArtifact { message: consensus_message, timestamp: now },
                )
            } else {
                PeerAction::Nothing
            },
            Message::KeepAliveMessage => PeerAction::Nothing,
        }
    }

    /// Decides what to do with a message that came in at time `now`.
    pub fn handle_incoming_message(&self, message_variant: Message, now: Time) -> (action:
        PeerAction)
        ensures
            action == self.incoming(message_variant, now),
    {
        match message_variant {
            Message::KeepAliveMessage => PeerAction::Nothing,
            Message::ConsensusMessage(consensus_message) => {
                if self.artifact_manager_started {
                    PeerAction::Deliver(UnvalidatedArtifact::new(consensus_message, now))
                } else {
                    PeerAction::Nothing
                }
            },
        }
    }

    /// Takes note of an event at time `now` and says what the network side
    /// must do.
    ///
    /// A message is handled as `handle_incoming_message` says. A subscriber
    /// that is not listed yet is listed and joins the broadcast list. A
    /// connection to a peer that is not listed yet is listed; if all the
    /// other replicas are connected with it, the artifact manager starts.
    pub fn match_event(&mut self, event: PeerEvent, now: Time) -> (action: PeerAction)
        requires
            old(self).wf(),
        ensures
            final(self).wf(),
            final(self).replica_number == old(self).replica_number,
            final(self).subnet_params == old(self).subnet_params,
            match event {
                PeerEvent::MessageReceived(message) => {
                    &&& action == old(self).incoming(message, now)
                    &&& *final(self) == *old(self)
                },
                PeerEvent::Subscribed(peer_id) => {
                    &&& final(self).connected_peers == old(self).connected_peers
                    &&& final(self).artifact_manager_started == old(self).artifact_manager_started
                    &&& if is_listed(old(self).subscribed_peers@, peer_id@) {
                        action == PeerAction::Nothing && final(self).subscribed_peers@ == old(self).subscribed_peers@
                    } else {
                        action == PeerAction::AddToBroadcastList(peer_id) && final(self).subscribed_peers@ == old(self).subscribed_peers@.push(peer_id)
                    }
                },
                PeerEvent::ConnectionEstablished(peer_id) => {
                    &&& final(self).subscribed_peers == old(self).subscribed_peers
                    &&& if is_listed(old(self).connected_peers@, peer_id@) {
                        &&& action == PeerAction::Nothing
                        &&& final(self).connected_peers@ == old(self).connected_peers@
                        &&& final(self).artifact_manager_started == old(self).artifact_manager_started
                    } else {
                        &&& final(self).connected_peers@ == old(self).connected_peers@.push(
                            peer_id,
                        )
                        &&& if old(self).completes_subnet() {
                            action == PeerAction::StartManager && final(self).artifact_manager_started
                        } else {
                            action == PeerAction::Nothing && final(self).artifact_manager_started
                                == old(self).artifact_manager_started
                        }
                    }
                },
                PeerEvent::Other => action == PeerAction::Nothing && *final(self) == *old(self),
            },
    {
        match event {
            PeerEvent::MessageReceived(message) => self.handle_incoming_message(message, now),
            PeerEvent::Subscribed(remote_peer_id) => {
                if !contains_name(&self.subscribed_peers, &remote_peer_id) {
                    self.subscribed_peers.push(remote_peer_id.clone());
                    PeerAction::AddToBroadcastList(remote_peer_id)
                } else {
                    PeerAction::Nothing
                }
            },
            PeerEvent::ConnectionEstablished(remote_peer_id) => {
                if !contains_name(&self.connected_peers, &remote_peer_id) {
                    self.connected_peers.push(remote_peer_id);
                    let total: usize = self.subnet_params.total_nodes_number as usize;
                    if total >= 1 && self.connected_peers.len() == total - 1 {
                        self.artifact_manager_started = true;
                        PeerAction::StartManager
                    } else {
                        PeerAction::Nothing
                    }
                } else {
                    PeerAction::Nothing
                }
            },
            PeerEvent::Other => PeerAction::Nothing,
        }
    }

    /// Whether `outgoing` is held back for a moment: replica 1 does that
    /// with its block proposal for the first round.
    pub open spec fn holds_back(&self, outgoing: MessageView) -> bool {
        self.replica_number == 1 && outgoing is BlockProposal && outgoing.height() == 1
    }

    /// Whether the first block proposal goes out once more ahead of
    /// `outgoing`: replica 1 does that with its notarization share for the
    /// first round.
    pub open spec fn repeats_first_proposal(&self, outgoing: MessageView) -> bool {
        self.replica_number == 1 && outgoing is NotarizationShare && outgoing.height() == 1
    }

    /// The first block proposal of this replica.
    pub open spec fn first_proposal(&self) -> MessageView {
        MessageView::BlockProposal {
            hash: block_digest(first_block(self.subnet_params.blocksize)),
            block: first_block(self.subnet_params.blocksize),
            signer: self.replica_number,
        }
    }

    /// Plans the broadcast of a message that this replica produced. The
    /// message goes out as it is, with two exceptions, both at replica 1 in
    /// the first round: its block proposal waits 100 ms, and its
    /// notarization share is preceded by the block proposal once more.
    pub fn broadcast_message(&self, outgoing_artifact: ConsensusMessage) -> (plan: BroadcastPlan)
        ensures
            plan.delay_ms == if self.holds_back(outgoing_artifact@) {
                100u64
            } else {
                0u64
            },
            plan.messages@.len() == if self.repeats_first_proposal(outgoing_artifact@) {
                2int
            } else {
                1int
            },
            plan.messages@.last() == outgoing_artifact,
            self.repeats_first_proposal(outgoing_artifact@) ==> plan.messages@[0]@
                == self.first_proposal(),
    {
        let mut delay_ms: u64 = 0;
        let mut messages: Vec<ConsensusMessage> = Vec::new();
        if self.replica_number == 1 {
            match &outgoing_artifact {
                ConsensusMessage::BlockProposal(proposal) => {
                    if proposal.content.value().height == 1 {
                        delay_ms = 100;
                    }
                },
                ConsensusMessage::NotarizationShare(share) => {
                    if share.content.content().height == 1 {
                        let block = Block {
                            parent: genesis(),
                            payload: Payload::new(self.subnet_params.blocksize),
                            height: 1,
                            rank: 0,
                        };
                        assert(block@ == first_block(self.subnet_params.blocksize));
                        messages.push(
                            ConsensusMessage::BlockProposal(
                                Signed {
                                    content: Hashed::new(block),
                                    signature: self.replica_number,
                                },
                            ),
                        );
                    }
                },
                _ => {},
            }
        }
        messages.push(outgoing_artifact);
        BroadcastPlan { delay_ms, messages }
    }
}

} // verus!

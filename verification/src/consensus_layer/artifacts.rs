//! The messages of the protocol, and the changes that the state machine
//! proposes to make to the pool.

use crate::consensus_layer::consensus_subcomponents::aggregator::{Finalization, Notarization};
use crate::consensus_layer::consensus_subcomponents::block_maker::{
    lemma_block_reads_back, BlockView,
};
use crate::consensus_layer::consensus_subcomponents::notary::NotarizationShare;
use crate::consensus_layer::height_index::Height;
use crate::crypto::{
    digest_text, lemma_hex_reads_back, sha256_digest, sha256_hex, CryptoHash, Hashed, Signed,
};
use crate::encoding::{
    fits, flag_field, lemma_split_at_equal_length, lemma_text_field_reads_back,
    lemma_u64_field_reads_back, put_flag, put_text, put_u64, put_u8, text_field, u64_field,
};
use vstd::utf8::encode_utf8;
use crate::time_source::Time;
use vstd::prelude::*;

verus! {

/// A block together with its hash, signed by the replica that proposes it.
pub type BlockProposal = Signed<Hashed, u8>;

/// Any message of the protocol.
#[derive(Debug, PartialEq, Eq)]
pub enum ConsensusMessage {
    BlockProposal(BlockProposal),
    NotarizationShare(NotarizationShare),
    Notarization(Notarization),
    Finalization(Finalization),
}

/// The four kinds of message.
#[derive(Clone, Copy, Debug, PartialEq, Eq, Structural)]
pub enum MessageKind {
    BlockProposal,
    NotarizationShare,
    Notarization,
    Finalization,
}

/// What a message is, mathematically.
#[allow(inconsistent_fields)]
pub enum MessageView {
    BlockProposal { hash: Seq<char>, block: BlockView, signer: u8 },
    NotarizationShare { fast_path: bool, height: Height, block: Seq<char>, signer: u8 },
    Notarization { height: Height, block: Seq<char>, signer: u8 },
    Finalization { height: Height, block: Seq<char>, signer: u8 },
}

impl MessageView {
    pub open spec fn kind(self) -> MessageKind {
        match self {
            MessageView::BlockProposal { .. } => MessageKind::BlockProposal,
            MessageView::NotarizationShare { .. } => MessageKind::NotarizationShare,
            MessageView::Notarization { .. } => MessageKind::Notarization,
            MessageView::Finalization { .. } => MessageKind::Finalization,
        }
    }

    /// The height that the message speaks of.
    pub open spec fn height(self) -> Height {
        match self {
            MessageView::BlockProposal { block, .. } => block.height,
            MessageView::NotarizationShare { height, .. } => height,
            MessageView::Notarization { height, .. } => height,
            MessageView::Finalization { height, .. } => height,
        }
    }

    /// The hash of the block that the message speaks of.
    pub open spec fn block_hash(self) -> Seq<char> {
        match self {
            MessageView::BlockProposal { hash, .. } => hash,
            MessageView::NotarizationShare { block, .. } => block,
            MessageView::Notarization { block, .. } => block,
            MessageView::Finalization { block, .. } => block,
        }
    }

    /// The replica that signed the message.
    pub open spec fn signer(self) -> u8 {
        match self {
            MessageView::BlockProposal { signer, .. } => signer,
            MessageView::NotarizationShare { signer, .. } => signer,
            MessageView::Notarization { signer, .. } => signer,
            MessageView::Finalization { signer, .. } => signer,
        }
    }

    /// The bytes that are hashed to identify the message: a tag for the kind,
    /// then the content, then the signature.
    pub open spec fn encoding(self) -> Seq<u8> {
        match self {
            MessageView::BlockProposal { hash, block, signer } => seq![0u8] + text_field(hash)
                + block.encoding() + seq![signer],
            MessageView::NotarizationShare { fast_path, height, block, signer } => seq![1u8]
                + flag_field(fast_path) + u64_field(height) + text_field(block) + seq![signer],
            MessageView::Notarization { height, block, signer } => seq![2u8] + u64_field(height)
                + text_field(block) + seq![signer],
            MessageView::Finalization { height, block, signer } => seq![3u8] + u64_field(height)
                + text_field(block) + seq![signer],
        }
    }

    /// The content hash under which a pool stores the message.
    pub open spec fn digest(self) -> Seq<char> {
        digest_text(self.encoding())
    }
}

/// A block proposal as a message.
pub open spec fn proposal_view(proposal: BlockProposal) -> MessageView {
    MessageView::BlockProposal {
        hash: proposal.content@.hash,
        block: proposal.content@.value,
        signer: proposal.signature,
    }
}

/// A notarization share as a message.
pub open spec fn share_view(share: NotarizationShare) -> MessageView {
    MessageView::NotarizationShare {
        fast_path: share.content.fast_path(),
        height: share.content.endorsed().height,
        block: share.content.endorsed().block,
        signer: share.signature,
    }
}

/// A notarization as a message.
pub open spec fn notarization_view(notarization: Notarization) -> MessageView {
    MessageView::Notarization {
        height: notarization.content.height,
        block: notarization.content.block@,
        signer: notarization.signature,
    }
}

/// A finalization as a message.
pub open spec fn finalization_view(finalization: Finalization) -> MessageView {
    MessageView::Finalization {
        height: finalization.content.height,
        block: finalization.content.block@,
        signer: finalization.signature,
    }
}

impl MessageView {
    /// Whether the message's text and payload fit their length fields. A
    /// message that is held in memory always does.
    pub open spec fn fits(self) -> bool {
        match self {
            MessageView::BlockProposal { hash, block, .. } => fits(encode_utf8(hash))
                && block.fits(),
            MessageView::NotarizationShare { block, .. } => fits(encode_utf8(block)),
            MessageView::Notarization { block, .. } => fits(encode_utf8(block)),
            MessageView::Finalization { block, .. } => fits(encode_utf8(block)),
        }
    }
}

/// The bytes of a height, a block hash and a signature, one after the
/// other, can be read back.
proof fn lemma_certificate_reads_back(
    height_a: Height,
    block_a: Seq<char>,
    signer_a: u8,
    height_b: Height,
    block_b: Seq<char>,
    signer_b: u8,
)
    requires
        fits(encode_utf8(block_a)),
        fits(encode_utf8(block_b)),
        u64_field(height_a) + text_field(block_a) + seq![signer_a] == u64_field(height_b)
            + text_field(block_b) + seq![signer_b],
    ensures
        height_a == height_b,
        block_a == block_b,
        signer_a == signer_b,
{
    let tail_a = text_field(block_a) + seq![signer_a];
    let tail_b = text_field(block_b) + seq![signer_b];
    assert(u64_field(height_a) + text_field(block_a) + seq![signer_a] =~= u64_field(height_a)
        + tail_a);
    assert(u64_field(height_b) + text_field(block_b) + seq![signer_b] =~= u64_field(height_b)
        + tail_b);
    lemma_u64_field_reads_back(height_a, tail_a, height_b, tail_b);
    lemma_text_field_reads_back(block_a, seq![signer_a], block_b, seq![signer_b]);
    assert(seq![signer_a][0] == seq![signer_b][0]);
}

/// The encoding tells messages apart: two messages with the same bytes are
/// the same message. So two different messages have the same content hash
/// only where SHA-256 gives two different byte strings the same digest.
pub proof fn law_encoding_tells_messages_apart(a: MessageView, b: MessageView)
    requires
        a.fits(),
        b.fits(),
        a.encoding() == b.encoding(),
    ensures
        a == b,
{
    let tagged_a = a.encoding();
    let tagged_b = b.encoding();
    let body_a = tagged_a.subrange(1, tagged_a.len() as int);
    let body_b = tagged_b.subrange(1, tagged_b.len() as int);
    assert(tagged_a[0] == tagged_b[0]);
    assert(a.kind() == b.kind());
    match (a, b) {
        (
            MessageView::BlockProposal { hash: hash_a, block: block_a, signer: signer_a },
            MessageView::BlockProposal { hash: hash_b, block: block_b, signer: signer_b },
        ) => {
            assert(body_a =~= text_field(hash_a) + (block_a.encoding() + seq![signer_a]));
            assert(body_b =~= text_field(hash_b) + (block_b.encoding() + seq![signer_b]));
            lemma_text_field_reads_back(
                hash_a,
                block_a.encoding() + seq![signer_a],
                hash_b,
                block_b.encoding() + seq![signer_b],
            );
            lemma_block_reads_back(block_a, seq![signer_a], block_b, seq![signer_b]);
            assert(seq![signer_a][0] == seq![signer_b][0]);
        },
        (
            MessageView::NotarizationShare {
                fast_path: fast_a,
                height: height_a,
                block: block_a,
                signer: signer_a,
            },
            MessageView::NotarizationShare {
                fast_path: fast_b,
                height: height_b,
                block: block_b,
                signer: signer_b,
            },
        ) => {
            let rest_a = u64_field(height_a) + text_field(block_a) + seq![signer_a];
            let rest_b = u64_field(height_b) + text_field(block_b) + seq![signer_b];
            assert(body_a =~= flag_field(fast_a) + rest_a);
            assert(body_b =~= flag_field(fast_b) + rest_b);
            lemma_split_at_equal_length(flag_field(fast_a), rest_a, flag_field(fast_b), rest_b);
            assert(flag_field(fast_a)[0] == flag_field(fast_b)[0]);
            lemma_certificate_reads_back(
                height_a,
                block_a,
                signer_a,
                height_b,
                block_b,
                signer_b,
            );
        },
        (
            MessageView::Notarization { height: height_a, block: block_a, signer: signer_a },
            MessageView::Notarization { height: height_b, block: block_b, signer: signer_b },
        ) => {
            assert(body_a =~= u64_field(height_a) + text_field(block_a) + seq![signer_a]);
            assert(body_b =~= u64_field(height_b) + text_field(block_b) + seq![signer_b]);
            lemma_certificate_reads_back(
                height_a,
                block_a,
                signer_a,
                height_b,
                block_b,
                signer_b,
            );
        },
        (
            MessageView::Finalization { height: height_a, block: block_a, signer: signer_a },
            MessageView::Finalization { height: height_b, block: block_b, signer: signer_b },
        ) => {
            assert(body_a =~= u64_field(height_a) + text_field(block_a) + seq![signer_a]);
            assert(body_b =~= u64_field(height_b) + text_field(block_b) + seq![signer_b]);
            lemma_certificate_reads_back(
                height_a,
                block_a,
                signer_a,
                height_b,
                block_b,
                signer_b,
            );
        },
        _ => {},
    }
}

/// Two different messages have the same content hash only where SHA-256
/// gives their encodings, which differ, the same digest.
pub proof fn law_hash_clash_is_a_collision(a: MessageView, b: MessageView)
    requires
        a.fits(),
        b.fits(),
        a != b,
        a.digest() == b.digest(),
    ensures
        a.encoding() != b.encoding(),
        sha256_digest(a.encoding()) == sha256_digest(b.encoding()),
{
    lemma_hex_reads_back(sha256_digest(a.encoding()), sha256_digest(b.encoding()));
    if a.encoding() == b.encoding() {
        law_encoding_tells_messages_apart(a, b);
    }
}

impl View for ConsensusMessage {
    type V = MessageView;

    open spec fn view(&self) -> MessageView {
        match self {
            ConsensusMessage::BlockProposal(proposal) => proposal_view(*proposal),
            ConsensusMessage::NotarizationShare(share) => share_view(*share),
            ConsensusMessage::Notarization(notarization) => notarization_view(*notarization),
            ConsensusMessage::Finalization(finalization) => finalization_view(*finalization),
        }
    }
}

impl Clone for ConsensusMessage {
    fn clone(&self) -> (copy: Self)
        ensures
            copy@ == self@,
    {
        match self {
            ConsensusMessage::BlockProposal(proposal) => ConsensusMessage::BlockProposal(
                Signed { content: proposal.content.clone(), signature: proposal.signature },
            ),
            ConsensusMessage::NotarizationShare(share) => ConsensusMessage::NotarizationShare(
                Signed { content: share.content.clone(), signature: share.signature },
            ),
            ConsensusMessage::Notarization(notarization) => ConsensusMessage::Notarization(
                Signed { content: notarization.content.clone(), signature: notarization.signature },
            ),
            ConsensusMessage::Finalization(finalization) => ConsensusMessage::Finalization(
                Signed { content: finalization.content.clone(), signature: finalization.signature },
            ),
        }
    }
}

impl ConsensusMessage {
    pub fn kind(&self) -> (kind: MessageKind)
        ensures
            kind == self@.kind(),
    {
        match self {
            ConsensusMessage::BlockProposal(_) => MessageKind::BlockProposal,
            ConsensusMessage::NotarizationShare(_) => MessageKind::NotarizationShare,
            ConsensusMessage::Notarization(_) => MessageKind::Notarization,
            ConsensusMessage::Finalization(_) => MessageKind::Finalization,
        }
    }

    /// The height that the message speaks of.
    pub fn height(&self) -> (height: Height)
        ensures
            height == self@.height(),
    {
        match self {
            ConsensusMessage::BlockProposal(proposal) => proposal.content.value().height,
            ConsensusMessage::NotarizationShare(share) => share.content.content().height,
            ConsensusMessage::Notarization(notarization) => notarization.content.height,
            ConsensusMessage::Finalization(finalization) => finalization.content.height,
        }
    }

    /// The hash of the block that the message speaks of.
    pub fn block_hash(&self) -> (hash: &CryptoHash)
        ensures
            hash@ == self@.block_hash(),
    {
        match self {
            ConsensusMessage::BlockProposal(proposal) => proposal.content.hash(),
            ConsensusMessage::NotarizationShare(share) => &share.content.content().block,
            ConsensusMessage::Notarization(notarization) => &notarization.content.block,
            ConsensusMessage::Finalization(finalization) => &finalization.content.block,
        }
    }

    /// The replica that signed the message.
    pub fn signer(&self) -> (signer: u8)
        ensures
            signer == self@.signer(),
    {
        match self {
            ConsensusMessage::BlockProposal(proposal) => proposal.signature,
            ConsensusMessage::NotarizationShare(share) => share.signature,
            ConsensusMessage::Notarization(notarization) => notarization.signature,
            ConsensusMessage::Finalization(finalization) => finalization.signature,
        }
    }

    /// The canonical bytes of the message.
    pub fn encode(&self) -> (bytes: Vec<u8>)
        ensures
            bytes@ == self@.encoding(),
    {
        let mut bytes: Vec<u8> = Vec::new();
        match self {
            ConsensusMessage::BlockProposal(proposal) => {
                put_u8(&mut bytes, 0);
                put_text(&mut bytes, proposal.content.hash().as_str());
                proposal.content.value().encode_into(&mut bytes);
                put_u8(&mut bytes, proposal.signature);
            },
            ConsensusMessage::NotarizationShare(share) => {
                put_u8(&mut bytes, 1);
                put_flag(&mut bytes, share.content.is_fast_path());
                put_u64(&mut bytes, share.content.content().height);
                put_text(&mut bytes, share.content.content().block.as_str());
                put_u8(&mut bytes, share.signature);
            },
            ConsensusMessage::Notarization(notarization) => {
                put_u8(&mut bytes, 2);
                put_u64(&mut bytes, notarization.content.height);
                put_text(&mut bytes, notarization.content.block.as_str());
                put_u8(&mut bytes, notarization.signature);
            },
            ConsensusMessage::Finalization(finalization) => {
                put_u8(&mut bytes, 3);
                put_u64(&mut bytes, finalization.content.height);
                put_text(&mut bytes, finalization.content.block.as_str());
                put_u8(&mut bytes, finalization.signature);
            },
        }
        assert(bytes@ =~= self@.encoding());
        bytes
    }

    /// The content hash under which a pool stores the message.
    pub fn content_hash(&self) -> (hash: CryptoHash)
        ensures
            hash@ == self@.digest(),
    {
        let bytes = self.encode();
        sha256_hex(bytes.as_slice())
    }
}

/// A message that has arrived and has not been validated yet.
#[derive(Clone, Debug, PartialEq, Eq)]
pub struct UnvalidatedArtifact<T> {
    pub message: T,
    /// When the message arrived at this replica.
    pub timestamp: Time,
}

impl<T> UnvalidatedArtifact<T> {
    pub fn new(message: T, timestamp: Time) -> (artifact: Self)
        ensures
            artifact.message == message,
            artifact.timestamp == timestamp,
    {
        Self { message, timestamp }
    }

    /// Gives up the wrapper and keeps the message.
    pub fn into_inner(self) -> (message: T)
        ensures
            message == self.message,
    {
        self.message
    }
}

/// One change to the pool.
#[derive(Debug, PartialEq, Eq)]
pub enum ChangeAction {
    /// Store a message that this replica produced among the validated ones.
    AddToValidated(ConsensusMessage),
    /// Promote a stored unvalidated message to the validated ones.
    MoveToValidated(ConsensusMessage),
}

/// What a change is, mathematically.
pub enum ActionView {
    AddToValidated(MessageView),
    MoveToValidated(MessageView),
}

impl ActionView {
    /// The message that the change carries.
    pub open spec fn message(self) -> MessageView {
        match self {
            ActionView::AddToValidated(message) => message,
            ActionView::MoveToValidated(message) => message,
        }
    }
}

impl View for ChangeAction {
    type V = ActionView;

    open spec fn view(&self) -> ActionView {
        match self {
            ChangeAction::AddToValidated(message) => ActionView::AddToValidated(message@),
            ChangeAction::MoveToValidated(message) => ActionView::MoveToValidated(message@),
        }
    }
}

impl ChangeAction {
    /// The message that the change carries.
    pub fn message(&self) -> (message: &ConsensusMessage)
        ensures
            message@ == self@.message(),
    {
        match self {
            ChangeAction::AddToValidated(message) => message,
            ChangeAction::MoveToValidated(message) => message,
        }
    }
}

/// Changes to the pool, applied in order and as a whole.
pub type ChangeSet = Vec<ChangeAction>;

/// The messages of `messages`, each by its view.
pub open spec fn message_views(messages: Seq<ConsensusMessage>) -> Seq<MessageView> {
    messages.map_values(|message: ConsensusMessage| message@)
}

/// The changes of `actions`, each by its view.
pub open spec fn action_views(actions: Seq<ChangeAction>) -> Seq<ActionView> {
    actions.map_values(|action: ChangeAction| action@)
}

} // verus!

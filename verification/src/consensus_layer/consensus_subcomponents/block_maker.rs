//! Blocks, and the subcomponent that proposes them.

use crate::consensus_layer::artifacts::{
    message_views, proposal_view, ConsensusMessage, MessageKind, MessageView,
};
use crate::consensus_layer::height_index::Height;
use crate::consensus_layer::pool::PoolView;
use crate::consensus_layer::pool_reader::{
    is_signed_at, notarized_block, notarized_height, PoolReader,
};
use crate::crypto::{block_digest, CryptoHash, Hashed, Signed};
use crate::encoding::{
    bytes_field, fits, lemma_bytes_field_reads_back, lemma_split_at_equal_length,
    lemma_text_field_reads_back, lemma_u64_field_reads_back, put_bytes, put_text, put_u64, put_u8,
    text_field, u64_field,
};
use vstd::utf8::encode_utf8;
use crate::params::SubnetParams;
use vstd::prelude::*;

verus! {

/// The opaque content of a block. Its size is set by configuration.
#[derive(Debug, PartialEq, Eq)]
pub struct Payload {
    pub data: Vec<u8>,
}

impl View for Payload {
    type V = Seq<u8>;

    open spec fn view(&self) -> Seq<u8> {
        self.data@
    }
}

impl Payload {
    /// A payload of `size` zero bytes.
    pub fn new(size: usize) -> (payload: Self)
        ensures
            payload@ == Seq::new(size as nat, |i: int| 0u8),
    {
        let mut data: Vec<u8> = Vec::new();
        let mut filled: usize = 0;
        while filled < size
            invariant
                filled <= size,
                data@ == Seq::new(filled as nat, |i: int| 0u8),
            decreases size - filled,
        {
            data.push(0u8);
            filled = filled + 1;
            assert(data@ =~= Seq::new(filled as nat, |i: int| 0u8));
        }
        Payload { data }
    }
}

impl Clone for Payload {
    fn clone(&self) -> (copy: Self)
        ensures
            copy@ == self@,
    {
        let data = self.data.clone();
        assert(data@ =~= self.data@);
        Payload { data }
    }
}

/// A block of the chain.
#[derive(Debug, PartialEq, Eq)]
pub struct Block {
    /// Hash of the block this one extends.
    pub parent: CryptoHash,
    pub payload: Payload,
    pub height: Height,
    /// Priority of the proposer at this height; 0 is the highest.
    pub rank: u8,
}

/// What a block is, mathematically.
pub struct BlockView {
    pub parent: Seq<char>,
    pub payload: Seq<u8>,
    pub height: Height,
    pub rank: u8,
}

impl BlockView {
    /// The bytes that are hashed to identify the block.
    pub open spec fn encoding(self) -> Seq<u8> {
        text_field(self.parent) + bytes_field(self.payload) + u64_field(self.height) + seq![
            self.rank,
        ]
    }
}

impl BlockView {
    /// Whether the block's text and payload fit their length fields.
    pub open spec fn fits(self) -> bool {
        fits(encode_utf8(self.parent)) && fits(self.payload)
    }
}

/// The encoding of a block can be read back: blocks that are followed by
/// whatever bytes and encode alike are the same block, followed by the same
/// bytes.
pub proof fn lemma_block_reads_back(
    a: BlockView,
    rest_a: Seq<u8>,
    b: BlockView,
    rest_b: Seq<u8>,
)
    requires
        a.fits(),
        b.fits(),
        a.encoding() + rest_a == b.encoding() + rest_b,
    ensures
        a == b,
        rest_a == rest_b,
{
    let tail_a = seq![a.rank] + rest_a;
    let tail_b = seq![b.rank] + rest_b;
    assert(a.encoding() + rest_a =~= text_field(a.parent) + (bytes_field(a.payload) + (u64_field(
        a.height,
    ) + tail_a)));
    assert(b.encoding() + rest_b =~= text_field(b.parent) + (bytes_field(b.payload) + (u64_field(
        b.height,
    ) + tail_b)));
    lemma_text_field_reads_back(
        a.parent,
        bytes_field(a.payload) + (u64_field(a.height) + tail_a),
        b.parent,
        bytes_field(b.payload) + (u64_field(b.height) + tail_b),
    );
    lemma_bytes_field_reads_back(
        a.payload,
        u64_field(a.height) + tail_a,
        b.payload,
        u64_field(b.height) + tail_b,
    );
    lemma_u64_field_reads_back(a.height, tail_a, b.height, tail_b);
    lemma_split_at_equal_length(seq![a.rank], rest_a, seq![b.rank], rest_b);
    assert(seq![a.rank][0] == seq![b.rank][0]);
}

impl View for Block {
    type V = BlockView;

    open spec fn view(&self) -> BlockView {
        BlockView {
            parent: self.parent@,
            payload: self.payload@,
            height: self.height,
            rank: self.rank,
        }
    }
}

impl Clone for Block {
    fn clone(&self) -> (copy: Self)
        ensures
            copy@ == self@,
    {
        Block {
            parent: self.parent.clone(),
            payload: self.payload.clone(),
            height: self.height,
            rank: self.rank,
        }
    }
}

impl Block {
    /// Appends the block's canonical bytes to `buf`.
    pub fn encode_into(&self, buf: &mut Vec<u8>)
        ensures
            final(buf)@ == old(buf)@ + self@.encoding(),
    {
        put_text(buf, self.parent.as_str());
        put_bytes(buf, self.payload.data.as_slice());
        put_u64(buf, self.height);
        put_u8(buf, self.rank);
        assert(buf@ =~= old(buf)@ + self@.encoding());
    }
}

/// The parent named by blocks of the first round: the hash that stands for
/// the start of the chain.
pub open spec fn genesis_hash() -> Seq<char> {
    "block0"@
}

/// The hash that stands for the start of the chain.
pub fn genesis() -> (hash: CryptoHash)
    ensures
        hash@ == genesis_hash(),
{
    "block0".to_owned()
}

/// A ranking policy says, for every round, which priority each replica has
/// as a proposer. Rank 0 is the highest: the replica that holds it leads the
/// round.
pub trait RankingPolicy {
    /// The rank of `node` at `height`.
    spec fn rank_of(&self, height: Height, node: u8) -> u8;

    /// The rank of `node` at `height`.
    fn rank(&self, height: Height, node: u8) -> (rank: u8)
        ensures
            rank == self.rank_of(height, node),
    ;
}

/// The policy that hands the lead from replica to replica, round by round:
/// at height h the replica whose identifier is congruent to h leads, the next
/// one has rank 1, and so on around the subnet.
#[derive(Clone, Copy, Debug, PartialEq, Eq, Structural)]
pub struct RotatingRank {
    /// Number of replicas in the subnet.
    pub nodes: u8,
}

impl RankingPolicy for RotatingRank {
    open spec fn rank_of(&self, height: Height, node: u8) -> u8 {
        if self.nodes == 0 {
            0
        } else {
            ((node as int % self.nodes as int + self.nodes as int - height as int
                % self.nodes as int) % self.nodes as int) as u8
        }
    }

    fn rank(&self, height: Height, node: u8) -> (rank: u8) {
        if self.nodes == 0 {
            0
        } else {
            let nodes: u64 = self.nodes as u64;
            let shifted: u64 = node as u64 % nodes + nodes - height % nodes;
            (shifted % nodes) as u8
        }
    }
}

/// The subcomponent that proposes blocks.
pub struct BlockMaker<P: RankingPolicy> {
    pub node_id: u8,
    pub blocksize: usize,
    pub policy: P,
}

impl BlockMaker<RotatingRank> {
    /// A block maker for replica `node_id` under the rotating policy.
    pub fn new(node_id: u8, subnet_params: SubnetParams) -> (maker: Self)
        ensures
            maker.node_id == node_id,
            maker.blocksize == subnet_params.blocksize,
            maker.policy == (RotatingRank { nodes: subnet_params.total_nodes_number }),
    {
        BlockMaker {
            node_id,
            blocksize: subnet_params.blocksize,
            policy: RotatingRank { nodes: subnet_params.total_nodes_number },
        }
    }
}

impl<P: RankingPolicy> BlockMaker<P> {
    /// A block maker for replica `node_id` under `policy`.
    pub fn with_policy(node_id: u8, blocksize: usize, policy: P) -> (maker: Self)
        ensures
            maker.node_id == node_id,
            maker.blocksize == blocksize,
            maker.policy == policy,
    {
        BlockMaker { node_id, blocksize, policy }
    }

    /// Whether this replica owes a proposal: it leads the round after the
    /// highest notarized one and has no validated proposal of its own for
    /// that round.
    pub open spec fn is_due(&self, pool: PoolView) -> bool {
        let notarized = notarized_height(pool.validated);
        &&& notarized < u64::MAX
        &&& self.policy.rank_of((notarized + 1) as u64, self.node_id) == 0
        &&& !is_signed_at(
            pool.validated,
            MessageKind::BlockProposal,
            (notarized + 1) as u64,
            self.node_id,
        )
    }

    /// The block that this replica proposes on `pool`: it extends the block
    /// of the first notarization at the highest notarized height, or the
    /// start of the chain where nothing is notarized.
    pub open spec fn next_block(&self, pool: PoolView) -> BlockView {
        let notarized = notarized_height(pool.validated);
        BlockView {
            parent: match notarized_block(pool.validated, notarized) {
                Some(block) => block,
                None => genesis_hash(),
            },
            payload: Seq::new(self.blocksize as nat, |i: int| 0u8),
            height: (notarized + 1) as u64,
            rank: 0,
        }
    }

    /// What the block maker produces on `pool`: one proposal if one is due,
    /// nothing otherwise.
    pub open spec fn proposals(&self, pool: PoolView) -> Seq<MessageView> {
        if self.is_due(pool) {
            seq![
                MessageView::BlockProposal {
                    hash: block_digest(self.next_block(pool)),
                    block: self.next_block(pool),
                    signer: self.node_id,
                },
            ]
        } else {
            Seq::empty()
        }
    }

    /// Proposes a block if this replica leads the current round and has not
    /// proposed yet.
    pub fn on_state_change(&self, pool: &PoolReader<'_>) -> (proposals: Vec<ConsensusMessage>)
        requires
            pool.wf(),
        ensures
            message_views(proposals@) == self.proposals(pool@),
    {
        let mut proposals: Vec<ConsensusMessage> = Vec::new();
        assert(message_views(proposals@) =~= Seq::<MessageView>::empty());
        let notarized = pool.get_notarized_height();
        if notarized == u64::MAX {
            return proposals;
        }
        let height = notarized + 1;
        if self.policy.rank(height, self.node_id) != 0 {
            return proposals;
        }
        if PoolReader::is_signed_in(
            pool.pool().validated(),
            MessageKind::BlockProposal,
            height,
            self.node_id,
        ) {
            return proposals;
        }
        let parent = match pool.get_notarized_block_hash(notarized) {
            Some(block) => block,
            None => genesis(),
        };
        let block = Block { parent, payload: Payload::new(self.blocksize), height, rank: 0 };
        assert(block@ == self.next_block(pool@));
        let proposal = Signed { content: Hashed::new(block), signature: self.node_id };
        assert(proposal_view(proposal) == self.proposals(pool@)[0]);
        proposals.push(ConsensusMessage::BlockProposal(proposal));
        assert(message_views(proposals@) =~= self.proposals(pool@));
        proposals
    }
}

} // verus!

//! Certificates, and the subcomponent that aggregates shares into them.

use crate::consensus_layer::artifacts::{
    message_views, notarization_view, ConsensusMessage, MessageView,
};
use crate::consensus_layer::consensus_subcomponents::notary::NotarizationShare;
use crate::consensus_layer::height_index::Height;
use crate::consensus_layer::pool::PoolView;
use crate::consensus_layer::pool_reader::{
    is_certified, lemma_notarized_height, notarization_shares, notarized_height, share_views,
    PoolReader,
};
use crate::crypto::{CryptoHash, Signed};
use crate::params::SubnetParams;
use vstd::prelude::*;

verus! {

/// What a notarization signs: a block, named by its hash, at a height.
#[derive(Debug, PartialEq, Eq)]
pub struct NotarizationContent {
    pub height: Height,
    pub block: CryptoHash,
}

/// A (height, block hash) pair, mathematically.
pub struct ContentView {
    pub height: Height,
    pub block: Seq<char>,
}

impl View for NotarizationContent {
    type V = ContentView;

    open spec fn view(&self) -> ContentView {
        ContentView { height: self.height, block: self.block@ }
    }
}

impl NotarizationContent {
    pub fn new(block_height: Height, block_hash: CryptoHash) -> (content: Self)
        ensures
            content@ == (ContentView { height: block_height, block: block_hash@ }),
    {
        Self { height: block_height, block: block_hash }
    }
}

impl Clone for NotarizationContent {
    fn clone(&self) -> (copy: Self)
        ensures
            copy@ == self@,
    {
        Self { height: self.height, block: self.block.clone() }
    }
}

/// A certificate that a block gathered a quorum of notarization shares. The
/// signature is the identifier of the replica that aggregated it.
pub type Notarization = Signed<NotarizationContent, u8>;

/// What a finalization signs: the block decided at a height.
#[derive(Debug, PartialEq, Eq)]
pub struct FinalizationContent {
    pub height: Height,
    pub block: CryptoHash,
}

impl View for FinalizationContent {
    type V = ContentView;

    open spec fn view(&self) -> ContentView {
        ContentView { height: self.height, block: self.block@ }
    }
}

impl FinalizationContent {
    pub fn new(block_height: Height, block_hash: CryptoHash) -> (content: Self)
        ensures
            content@ == (ContentView { height: block_height, block: block_hash@ }),
    {
        Self { height: block_height, block: block_hash }
    }
}

impl Clone for FinalizationContent {
    fn clone(&self) -> (copy: Self)
        ensures
            copy@ == self@,
    {
        Self { height: self.height, block: self.block.clone() }
    }
}

/// A certificate that a block is irrevocably decided at its height.
pub type Finalization = Signed<FinalizationContent, u8>;

/// Picks the messages that speak of `block`.
pub open spec fn endorses(block: Seq<char>) -> spec_fn(MessageView) -> bool {
    |share: MessageView| share.block_hash() == block
}

/// The number of shares in `shares` that endorse `block`.
pub open spec fn endorsements(shares: Seq<MessageView>, block: Seq<char>) -> nat {
    shares.filter(endorses(block)).len()
}

/// Whether the share at `position` is the first of `shares` for its block.
pub open spec fn first_for_block(shares: Seq<MessageView>, position: int) -> bool {
    forall|earlier: int|
        0 <= earlier < position ==> (#[trigger] shares[earlier]).block_hash()
            != shares[position].block_hash()
}

/// Whether the share at `position` calls for a certificate: it is the first
/// for its block, and at least `quorum` shares endorse that block.
pub open spec fn calls_for_certificate(shares: Seq<MessageView>, quorum: nat, position: int) -> bool {
    first_for_block(shares, position) && endorsements(shares, shares[position].block_hash())
        >= quorum
}

/// The notarizations that `signer` aggregates from the first `upto` of
/// `shares`, all of them shares for `height`: one for every block that at
/// least `quorum` of all the shares endorse, in the order in which the blocks
/// first occur.
pub open spec fn certificates(
    shares: Seq<MessageView>,
    height: Height,
    quorum: nat,
    signer: u8,
    upto: nat,
) -> Seq<MessageView>
    decreases upto,
{
    if upto == 0 {
        Seq::empty()
    } else {
        let before = certificates(shares, height, quorum, signer, (upto - 1) as nat);
        if calls_for_certificate(shares, quorum, upto - 1) {
            before.push(
                MessageView::Notarization {
                    height,
                    block: shares[upto - 1].block_hash(),
                    signer,
                },
            )
        } else {
            before
        }
    }
}

/// Counts the shares that endorse `block`.
pub fn count_endorsements(shares: &Vec<NotarizationShare>, block: &CryptoHash) -> (count: usize)
    ensures
        count == endorsements(share_views(shares@), block@),
{
    let ghost views = share_views(shares@);
    let ghost pick = endorses(block@);
    let mut count: usize = 0;
    let mut position: usize = 0;
    assert(views.take(0).filter(pick).len() == 0) by {
        assert(views.take(0) =~= Seq::<MessageView>::empty());
        views.take(0).lemma_filter_len(pick);
    }
    while position < shares.len()
        invariant
            position <= shares@.len(),
            views == share_views(shares@),
            pick == endorses(block@),
            count == views.take(position as int).filter(pick).len(),
            count <= position,
        decreases shares@.len() - position,
    {
        proof {
            views.take(position as int).lemma_filter_len_push(pick, views[position as int]);
            assert(views.take(position as int).push(views[position as int]) =~= views.take(
                position + 1,
            ));
        }
        if shares[position].content.content().block == *block {
            count = count + 1;
        }
        position = position + 1;
    }
    assert(views.take(position as int) =~= views);
    count
}

/// Decides whether the share at `position` is the first for its block.
pub fn is_first_for_block(shares: &Vec<NotarizationShare>, position: usize) -> (first: bool)
    requires
        position < shares@.len(),
    ensures
        first == first_for_block(share_views(shares@), position as int),
{
    let ghost views = share_views(shares@);
    let block = &shares[position].content.content().block;
    let mut earlier: usize = 0;
    while earlier < position
        invariant
            earlier <= position < shares@.len(),
            views == share_views(shares@),
            block@ == views[position as int].block_hash(),
            forall|k: int|
                0 <= k < earlier ==> (#[trigger] views[k]).block_hash() != views[position as int]
                    .block_hash(),
        decreases position - earlier,
    {
        if shares[earlier].content.content().block == *block {
            assert(views[earlier as int].block_hash() == views[position as int].block_hash());
            return false;
        }
        earlier = earlier + 1;
    }
    true
}

/// Aggregates `shares`, all of them for `height`, into notarizations signed
/// by `signer`: one for every block that at least `quorum` shares endorse.
pub fn aggregate(shares: &Vec<NotarizationShare>, height: Height, quorum: usize, signer: u8) -> (
    notarizations: Vec<ConsensusMessage>
)
    ensures
        message_views(notarizations@) == certificates(
            share_views(shares@),
            height,
            quorum as nat,
            signer,
            shares@.len(),
        ),
{
    let ghost views = share_views(shares@);
    let mut notarizations: Vec<ConsensusMessage> = Vec::new();
    let mut position: usize = 0;
    assert(message_views(notarizations@) =~= Seq::<MessageView>::empty());
    while position < shares.len()
        invariant
            position <= shares@.len(),
            views == share_views(shares@),
            message_views(notarizations@) == certificates(
                views,
                height,
                quorum as nat,
                signer,
                position as nat,
            ),
        decreases shares@.len() - position,
    {
        let block = &shares[position].content.content().block;
        assert(block@ == views[position as int].block_hash());
        if is_first_for_block(shares, position) && count_endorsements(shares, block) >= quorum {
            let content = NotarizationContent::new(height, block.clone());
            let notarization: Notarization = Signed { content, signature: signer };
            let ghost before = notarizations@;
            notarizations.push(ConsensusMessage::Notarization(notarization));
            assert(message_views(notarizations@) =~= message_views(before).push(
                notarization_view(notarization),
            ));
        }
        position = position + 1;
    }
    notarizations
}

/// Whether `made` is the notarization that the share at `position` calls for.
pub open spec fn made_at(
    shares: Seq<MessageView>,
    height: Height,
    quorum: nat,
    signer: u8,
    position: int,
    made: MessageView,
) -> bool {
    &&& calls_for_certificate(shares, quorum, position)
    &&& made == MessageView::Notarization { height, block: shares[position].block_hash(), signer }
}

/// Whether `made` is the notarization that one of the first `upto` shares
/// calls for.
pub open spec fn stems_from(
    shares: Seq<MessageView>,
    height: Height,
    quorum: nat,
    signer: u8,
    upto: nat,
    made: MessageView,
) -> bool {
    exists|i: int| 0 <= i < upto && #[trigger] made_at(shares, height, quorum, signer, i, made)
}

/// Whether one of `made` is a certificate for `block`.
pub open spec fn certifies(made: Seq<MessageView>, block: Seq<char>) -> bool {
    exists|k: int| 0 <= k < made.len() && (#[trigger] made[k]).block_hash() == block
}

/// Every certificate stems from a share that calls for it.
proof fn lemma_certificates_stem(
    shares: Seq<MessageView>,
    height: Height,
    quorum: nat,
    signer: u8,
    upto: nat,
    k: int,
)
    requires
        0 <= k < certificates(shares, height, quorum, signer, upto).len(),
    ensures
        stems_from(
            shares,
            height,
            quorum,
            signer,
            upto,
            certificates(shares, height, quorum, signer, upto)[k],
        ),
    decreases upto,
{
    let last = upto - 1;
    let before = certificates(shares, height, quorum, signer, last as nat);
    let all = certificates(shares, height, quorum, signer, upto);
    if k < before.len() {
        lemma_certificates_stem(shares, height, quorum, signer, last as nat, k);
        let i = choose|i: int|
            0 <= i < last && #[trigger] made_at(shares, height, quorum, signer, i, before[k]);
        assert(made_at(shares, height, quorum, signer, i, all[k]));
    } else {
        assert(made_at(shares, height, quorum, signer, last, all[k]));
    }
}

/// No block gets two certificates.
proof fn lemma_certificates_differ(
    shares: Seq<MessageView>,
    height: Height,
    quorum: nat,
    signer: u8,
    upto: nat,
    a: int,
    b: int,
)
    requires
        0 <= a < b < certificates(shares, height, quorum, signer, upto).len(),
    ensures
        certificates(shares, height, quorum, signer, upto)[a].block_hash() != certificates(
            shares,
            height,
            quorum,
            signer,
            upto,
        )[b].block_hash(),
    decreases upto,
{
    let last = upto - 1;
    let before = certificates(shares, height, quorum, signer, last as nat);
    if b < before.len() {
        lemma_certificates_differ(shares, height, quorum, signer, last as nat, a, b);
    } else {
        lemma_certificates_stem(shares, height, quorum, signer, last as nat, a);
        let i = choose|i: int|
            0 <= i < last && #[trigger] made_at(shares, height, quorum, signer, i, before[a]);
        assert(shares[i].block_hash() != shares[last].block_hash());
    }
}

/// Every share that calls for a certificate gets one.
proof fn lemma_certificates_cover(
    shares: Seq<MessageView>,
    height: Height,
    quorum: nat,
    signer: u8,
    upto: nat,
    position: int,
)
    requires
        0 <= position < upto,
        calls_for_certificate(shares, quorum, position),
    ensures
        certifies(
            certificates(shares, height, quorum, signer, upto),
            shares[position].block_hash(),
        ),
    decreases upto,
{
    let last = upto - 1;
    let before = certificates(shares, height, quorum, signer, last as nat);
    let all = certificates(shares, height, quorum, signer, upto);
    if position < last {
        lemma_certificates_cover(shares, height, quorum, signer, last as nat, position);
        let k = choose|k: int|
            0 <= k < before.len() && (#[trigger] before[k]).block_hash()
                == shares[position].block_hash();
        assert(all[k] == before[k]);
    } else {
        assert(all[all.len() - 1].block_hash() == shares[position].block_hash());
    }
}

/// The first share of `shares` that endorses `block`, where one does.
proof fn lemma_first_endorsement(shares: Seq<MessageView>, block: Seq<char>) -> (first: int)
    requires
        endorsements(shares, block) > 0,
    ensures
        0 <= first < shares.len(),
        shares[first].block_hash() == block,
        first_for_block(shares, first),
    decreases shares.len(),
{
    let pick = endorses(block);
    if shares.len() == 0 {
        shares.lemma_filter_len(pick);
        0
    } else {
        let front = shares.drop_last();
        front.lemma_filter_len_push(pick, shares.last());
        assert(front.push(shares.last()) =~= shares);
        if endorsements(front, block) > 0 {
            let first = lemma_first_endorsement(front, block);
            assert(shares[first] == front[first]);
            assert forall|earlier: int| 0 <= earlier < first implies (#[trigger] shares[earlier])
                .block_hash() != shares[first].block_hash() by {
                assert(shares[earlier] == front[earlier]);
            }
            first
        } else {
            let first = shares.len() - 1;
            assert forall|earlier: int| 0 <= earlier < first implies (#[trigger] shares[earlier])
                .block_hash() != shares[first].block_hash() by {
                if shares[earlier].block_hash() == block {
                    front.lemma_filter_contains(pick, earlier);
                    assert(front.filter(pick).contains(front[earlier]));
                    assert(front.filter(pick).len() > 0);
                }
            }
            first
        }
    }
}

/// The quorum threshold. A notarization comes out of the aggregation only
/// for a block that at least `quorum` of the shares endorse; it bears the
/// height of the shares and the aggregator's signature; no block gets more
/// than one, however many shares endorse it; and, for a quorum of at least
/// one, every block that `quorum` shares endorse gets one.
pub proof fn law_quorum_threshold(
    shares: Seq<MessageView>,
    height: Height,
    quorum: nat,
    signer: u8,
)
    ensures
        forall|k: int|
            0 <= k < certificates(shares, height, quorum, signer, shares.len()).len() ==> {
                let made = #[trigger] certificates(shares, height, quorum, signer, shares.len())[k];
                &&& made is Notarization
                &&& made.height() == height
                &&& made.signer() == signer
                &&& endorsements(shares, made.block_hash()) >= quorum
            },
        forall|a: int, b: int|
            0 <= a < b < certificates(shares, height, quorum, signer, shares.len()).len() ==> (
            #[trigger] certificates(shares, height, quorum, signer, shares.len())[a]).block_hash()
                != (#[trigger] certificates(
                shares,
                height,
                quorum,
                signer,
                shares.len(),
            )[b]).block_hash(),
        forall|block: Seq<char>|
            quorum >= 1 && endorsements(shares, block) >= quorum ==> #[trigger] certifies(
                certificates(shares, height, quorum, signer, shares.len()),
                block,
            ),
{
    let all = certificates(shares, height, quorum, signer, shares.len());
    assert forall|k: int| 0 <= k < all.len() implies {
        let made = #[trigger] all[k];
        &&& made is Notarization
        &&& made.height() == height
        &&& made.signer() == signer
        &&& endorsements(shares, made.block_hash()) >= quorum
    } by {
        lemma_certificates_stem(shares, height, quorum, signer, shares.len(), k);
        let i = choose|i: int|
            0 <= i < shares.len() && #[trigger] made_at(shares, height, quorum, signer, i, all[k]);
    }
    assert forall|a: int, b: int| 0 <= a < b < all.len() implies (#[trigger] all[a]).block_hash()
        != (#[trigger] all[b]).block_hash() by {
        lemma_certificates_differ(shares, height, quorum, signer, shares.len(), a, b);
    }
    assert forall|block: Seq<char>|
        quorum >= 1 && endorsements(shares, block) >= quorum implies #[trigger] certifies(
        all,
        block,
    ) by {
        let first = lemma_first_endorsement(shares, block);
        lemma_certificates_cover(shares, height, quorum, signer, shares.len(), first);
    }
}

/// The subcomponent that aggregates shares into certificates.
pub struct ShareAggregator {
    pub node_id: u8,
    /// The number of matching shares that make a certificate.
    pub quorum: usize,
}

impl ShareAggregator {
    /// An aggregator for replica `node_id`. Its quorum is 2f + 1, where f is
    /// the number of byzantine replicas that the subnet allows for.
    pub fn new(node_id: u8, subnet_params: SubnetParams) -> (aggregator: Self)
        ensures
            aggregator.node_id == node_id,
            aggregator.quorum == subnet_params.quorum(),
    {
        Self { node_id, quorum: subnet_params.quorum_size() }
    }

    /// What the aggregator produces on `pool`: the notarizations for the
    /// round after the highest notarized one, aggregated from the shares for
    /// that round that the pool holds, validated or not.
    pub open spec fn notarizations(&self, pool: PoolView) -> Seq<MessageView> {
        let notarized = notarized_height(pool.validated);
        if notarized < u64::MAX {
            let height = (notarized + 1) as u64;
            let shares = notarization_shares(pool, height);
            certificates(shares, height, self.quorum as nat, self.node_id, shares.len())
        } else {
            Seq::empty()
        }
    }

    /// Attempts to construct certificates from the shares in the pool.
    pub fn on_state_change(&self, pool: &PoolReader<'_>) -> (messages: Vec<ConsensusMessage>)
        requires
            pool.wf(),
        ensures
            message_views(messages@) == self.notarizations(pool@),
    {
        let mut messages: Vec<ConsensusMessage> = Vec::new();
        let mut notarizations = self.aggregate_notarization_shares(pool);
        let ghost found = notarizations@;
        messages.append(&mut notarizations);
        assert(messages@ =~= found);
        messages
    }

    /// Attempts to construct notarizations for the round after the highest
    /// notarized one.
    fn aggregate_notarization_shares(&self, pool: &PoolReader<'_>) -> (notarizations: Vec<
        ConsensusMessage,
    >)
        requires
            pool.wf(),
        ensures
            message_views(notarizations@) == self.notarizations(pool@),
    {
        let notarized = pool.get_notarized_height();
        if notarized == u64::MAX {
            let notarizations: Vec<ConsensusMessage> = Vec::new();
            assert(message_views(notarizations@) =~= Seq::<MessageView>::empty());
            return notarizations;
        }
        let height = notarized + 1;
        let shares = pool.get_notarization_shares(height);
        assert(share_views(shares@).len() == shares@.len());
        aggregate(&shares, height, self.quorum, self.node_id)
    }
}

/// At most one certificate for a height and a block: once a notarization for
/// a block at a height is validated, the aggregator makes no notarization
/// for that height any more, whatever shares come in.
pub proof fn law_certified_once(
    aggregator: ShareAggregator,
    pool: PoolView,
    height: Height,
    block: Seq<char>,
    k: int,
)
    requires
        is_certified(pool.validated, height, block),
        0 <= k < aggregator.notarizations(pool).len(),
    ensures
        aggregator.notarizations(pool)[k].height() > height,
{
    let notarized = notarized_height(pool.validated);
    lemma_notarized_height(pool.validated);
    let shares = notarization_shares(pool, (notarized + 1) as u64);
    law_quorum_threshold(
        shares,
        (notarized + 1) as u64,
        aggregator.quorum as nat,
        aggregator.node_id,
    );
}

} // verus!

//! Notarization shares, and the subcomponent that issues them.

use crate::consensus_layer::artifacts::{
    message_views, share_view, ConsensusMessage, MessageKind, MessageView,
};
use crate::consensus_layer::consensus_subcomponents::aggregator::{
    ContentView, NotarizationContent,
};
use crate::consensus_layer::height_index::Height;
use crate::consensus_layer::pool::{EntryView, PoolView};
use crate::consensus_layer::pool_reader::{
    best_proposal, first_seen, is_signed_at, notarized_height, PoolReader,
};
use crate::crypto::Signed;
use crate::params::SubnetParams;
use crate::time_source::{delay_elapsed, has_delay_elapsed, Time};
use vstd::prelude::*;

verus! {

/// What a notarization share signs. A replica issues shares of one variant
/// only, chosen by its configuration: `COD` acknowledges a block on the fast
/// path, `ICC` endorses it on the classic path.
#[derive(Debug, PartialEq, Eq)]
pub enum NotarizationShareContent {
    COD(NotarizationContent),
    ICC(NotarizationContent),
}

impl NotarizationShareContent {
    /// Whether the share belongs to the fast path.
    pub open spec fn fast_path(&self) -> bool {
        self is COD
    }

    /// The (height, block) pair that the share endorses.
    pub open spec fn endorsed(&self) -> ContentView {
        match self {
            NotarizationShareContent::COD(content) => content@,
            NotarizationShareContent::ICC(content) => content@,
        }
    }

    /// The content of a share for `content` on the path that `fast_path` selects.
    pub fn new(fast_path: bool, content: NotarizationContent) -> (share: Self)
        ensures
            share.fast_path() == fast_path,
            share.endorsed() == content@,
    {
        if fast_path {
            NotarizationShareContent::COD(content)
        } else {
            NotarizationShareContent::ICC(content)
        }
    }

    /// The (height, block) pair that the share endorses.
    pub fn content(&self) -> (content: &NotarizationContent)
        ensures
            content@ == self.endorsed(),
    {
        match self {
            NotarizationShareContent::COD(content) => content,
            NotarizationShareContent::ICC(content) => content,
        }
    }

    /// Whether the share belongs to the fast path.
    pub fn is_fast_path(&self) -> (fast: bool)
        ensures
            fast == self.fast_path(),
    {
        match self {
            NotarizationShareContent::COD(_) => true,
            NotarizationShareContent::ICC(_) => false,
        }
    }
}

impl Clone for NotarizationShareContent {
    fn clone(&self) -> (copy: Self)
        ensures
            copy.fast_path() == self.fast_path(),
            copy.endorsed() == self.endorsed(),
    {
        match self {
            NotarizationShareContent::COD(content) => NotarizationShareContent::COD(
                content.clone(),
            ),
            NotarizationShareContent::ICC(content) => NotarizationShareContent::ICC(
                content.clone(),
            ),
        }
    }
}

/// One replica's endorsement of a block. The signature is the replica's
/// identifier.
pub type NotarizationShare = Signed<NotarizationShareContent, u8>;

/// Where a proposal for `height` has been seen, there is a best one.
pub proof fn lemma_best_proposal_exists(validated: Seq<EntryView>, height: Height)
    ensures
        best_proposal(validated, height) is Some <==> first_seen(
            validated,
            MessageKind::BlockProposal,
            height,
        ) is Some,
        best_proposal(validated, height) matches Some(best) ==> best is BlockProposal,
    decreases validated.len(),
{
    if validated.len() > 0 {
        lemma_best_proposal_exists(validated.drop_last(), height);
    }
}

/// The subcomponent that issues notarization shares.
pub struct Notary {
    pub node_id: u8,
    /// Whether shares go out on the fast path.
    pub fast_path: bool,
    /// How long to wait after the first proposal of a round, in milliseconds.
    pub delay: u64,
}

impl Notary {
    /// A notary for replica `node_id`.
    pub fn new(node_id: u8, subnet_params: SubnetParams) -> (notary: Self)
        ensures
            notary.node_id == node_id,
            notary.fast_path == subnet_params.fast_internet_computer_consensus,
            notary.delay == subnet_params.artifact_delay,
    {
        Notary {
            node_id,
            fast_path: subnet_params.fast_internet_computer_consensus,
            delay: subnet_params.artifact_delay,
        }
    }

    /// Whether this replica owes a share at time `now`: the round after the
    /// highest notarized one has a validated proposal, the delay has passed
    /// since the first of them was seen, and the replica has no validated
    /// share of its own for that round.
    pub open spec fn is_due(&self, pool: PoolView, now: Time) -> bool {
        let notarized = notarized_height(pool.validated);
        &&& notarized < u64::MAX
        &&& first_seen(pool.validated, MessageKind::BlockProposal, (notarized + 1) as u64) matches Some(
            since,
        )
        &&& delay_elapsed(since, now, self.delay)
        &&& !is_signed_at(
            pool.validated,
            MessageKind::NotarizationShare,
            (notarized + 1) as u64,
            self.node_id,
        )
    }

    /// What the notary produces on `pool` at time `now`: one share for the
    /// best proposal of the round if a share is due, nothing otherwise.
    pub open spec fn shares(&self, pool: PoolView, now: Time) -> Seq<MessageView> {
        if self.is_due(pool, now) {
            let height = (notarized_height(pool.validated) + 1) as u64;
            seq![
                MessageView::NotarizationShare {
                    fast_path: self.fast_path,
                    height,
                    block: best_proposal(pool.validated, height)->0.block_hash(),
                    signer: self.node_id,
                },
            ]
        } else {
            Seq::empty()
        }
    }

    /// Issues a notarization share for the best proposal of the current
    /// round, once the delay has given slower proposals their chance.
    pub fn on_state_change(&self, pool: &PoolReader<'_>, now: Time) -> (shares: Vec<
        ConsensusMessage,
    >)
        requires
            pool.wf(),
        ensures
            message_views(shares@) == self.shares(pool@, now),
    {
        let mut shares: Vec<ConsensusMessage> = Vec::new();
        assert(message_views(shares@) =~= Seq::<MessageView>::empty());
        let notarized = pool.get_notarized_height();
        if notarized == u64::MAX {
            return shares;
        }
        let height = notarized + 1;
        let validated = pool.pool().validated();
        let since = match PoolReader::first_seen_in(validated, MessageKind::BlockProposal, height) {
            Some(since) => since,
            None => {
                return shares;
            },
        };
        if !has_delay_elapsed(since, now, self.delay) {
            return shares;
        }
        if PoolReader::is_signed_in(
            validated,
            MessageKind::NotarizationShare,
            height,
            self.node_id,
        ) {
            return shares;
        }
        proof {
            lemma_best_proposal_exists(pool@.validated, height);
        }
        match pool.get_best_proposal(height) {
            Some(best) => {
                let content = NotarizationShareContent::new(
                    self.fast_path,
                    NotarizationContent::new(height, best.0),
                );
                let share: NotarizationShare = Signed { content, signature: self.node_id };
                assert(share_view(share) == self.shares(pool@, now)[0]);
                shares.push(ConsensusMessage::NotarizationShare(share));
                assert(message_views(shares@) =~= self.shares(pool@, now));
            },
            None => {},
        }
        shares
    }
}

} // verus!

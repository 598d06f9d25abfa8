//! Read-only queries over the pool. A reader keeps nothing of its own: every
//! answer is computed from the pool as it is when the question is asked.

use crate::consensus_layer::artifacts::{
    share_view, ConsensusMessage, MessageKind, MessageView,
};
use crate::consensus_layer::consensus_subcomponents::notary::NotarizationShare;
use crate::consensus_layer::height_index::Height;
use crate::consensus_layer::pool::{ConsensusPoolImpl, EntryView, PoolSection, PoolView};
use crate::crypto::{CryptoHash, Signed};
use crate::time_source::{elapsed, elapsed_between, Time};
use vstd::prelude::*;

verus! {

/// Whether `entry` holds a message of `kind` that speaks of `height`.
pub open spec fn is_at(entry: EntryView, kind: MessageKind, height: Height) -> bool {
    entry.message.kind() == kind && entry.message.height() == height
}

/// The highest height for which `validated` holds a notarization; 0 if it
/// holds none.
pub open spec fn notarized_height(validated: Seq<EntryView>) -> Height
    decreases validated.len(),
{
    if validated.len() == 0 {
        0
    } else {
        let below = notarized_height(validated.drop_last());
        let last = validated.last().message;
        if last.kind() == MessageKind::Notarization && last.height() > below {
            last.height()
        } else {
            below
        }
    }
}

/// The notarized height is the height of a notarization, unless it is 0,
/// and no notarization lies above it.
pub proof fn lemma_notarized_height(validated: Seq<EntryView>)
    ensures
        forall|i: int|
            0 <= i < validated.len() && (#[trigger] validated[i]).message.kind()
                == MessageKind::Notarization ==> validated[i].message.height()
                <= notarized_height(validated),
        notarized_height(validated) > 0 ==> exists|i: int|
            0 <= i < validated.len() && is_at(
                #[trigger] validated[i],
                MessageKind::Notarization,
                notarized_height(validated),
            ),
    decreases validated.len(),
{
    if validated.len() > 0 {
        let front = validated.drop_last();
        lemma_notarized_height(front);
        assert forall|i: int|
            0 <= i < validated.len() && (#[trigger] validated[i]).message.kind()
                == MessageKind::Notarization implies validated[i].message.height()
            <= notarized_height(validated) by {
            if i < front.len() {
                assert(validated[i] == front[i]);
            }
        }
        if notarized_height(validated) > 0 {
            if notarized_height(validated) == notarized_height(front) {
                let i = choose|i: int|
                    0 <= i < front.len() && is_at(
                        #[trigger] front[i],
                        MessageKind::Notarization,
                        notarized_height(front),
                    );
                assert(validated[i] == front[i]);
            } else {
                assert(is_at(
                    validated[validated.len() - 1],
                    MessageKind::Notarization,
                    notarized_height(validated),
                ));
            }
        }
    }
}

/// Whether `validated` holds a notarization for `block` at `height`.
pub open spec fn is_certified(validated: Seq<EntryView>, height: Height, block: Seq<char>) -> bool {
    exists|i: int|
        0 <= i < validated.len() && is_at(#[trigger] validated[i], MessageKind::Notarization, height)
            && validated[i].message.block_hash() == block
}

/// Whether `entries` holds a message of `kind` for `height` signed by `signer`.
pub open spec fn is_signed_at(
    entries: Seq<EntryView>,
    kind: MessageKind,
    height: Height,
    signer: u8,
) -> bool {
    exists|i: int|
        0 <= i < entries.len() && is_at(#[trigger] entries[i], kind, height)
            && entries[i].message.signer() == signer
}

/// Picks the notarization shares for `height` whose block `validated` has no
/// notarization for yet.
pub open spec fn open_share(validated: Seq<EntryView>, height: Height) -> spec_fn(
    EntryView,
) -> Option<MessageView> {
    |entry: EntryView|
        if is_at(entry, MessageKind::NotarizationShare, height) && !is_certified(
            validated,
            height,
            entry.message.block_hash(),
        ) {
            Some(entry.message)
        } else {
            None
        }
}

/// The notarization shares for `height` that are not yet folded into a
/// notarization: the validated ones first, then the unvalidated ones, each
/// group in pool order.
pub open spec fn notarization_shares(pool: PoolView, height: Height) -> Seq<MessageView> {
    pool.validated.filter_map(open_share(pool.validated, height))
        + pool.unvalidated.filter_map(open_share(pool.validated, height))
}

/// The earlier of two times, where `None` stands for never.
pub open spec fn earlier_of(a: Option<Time>, b: Option<Time>) -> Option<Time> {
    match (a, b) {
        (Some(x), Some(y)) => if x <= y {
            a
        } else {
            b
        },
        (Some(_), None) => a,
        _ => b,
    }
}

/// The earliest timestamp among the messages of `kind` for `height` in
/// `entries`; `None` if there is no such message.
pub open spec fn first_seen(entries: Seq<EntryView>, kind: MessageKind, height: Height) -> Option<
    Time,
>
    decreases entries.len(),
{
    if entries.len() == 0 {
        None
    } else {
        let before = first_seen(entries.drop_last(), kind, height);
        if is_at(entries.last(), kind, height) {
            earlier_of(before, Some(entries.last().timestamp))
        } else {
            before
        }
    }
}

/// The earliest timestamp among the messages of `kind` for `height` in
/// either section of `pool`.
pub open spec fn first_seen_in_pool(pool: PoolView, kind: MessageKind, height: Height) -> Option<
    Time,
> {
    earlier_of(
        first_seen(pool.validated, kind, height),
        first_seen(pool.unvalidated, kind, height),
    )
}

/// The time from this replica's first sight of a block proposal for `height`
/// to its first sight of a finalization for `height`, in nanoseconds; `None`
/// while the pool holds no finalization, or no proposal, for `height`. A
/// finalization that came before any proposal counts as taking no time.
pub open spec fn finalization_time(pool: PoolView, height: Height) -> Option<u64> {
    match (
        first_seen_in_pool(pool, MessageKind::BlockProposal, height),
        first_seen_in_pool(pool, MessageKind::Finalization, height),
    ) {
        (Some(proposed), Some(finalized)) => Some(elapsed_between(proposed, finalized)),
        _ => None,
    }
}

/// The block of the first notarization for `height` in `validated`.
pub open spec fn notarized_block(validated: Seq<EntryView>, height: Height) -> Option<Seq<char>>
    decreases validated.len(),
{
    if validated.len() == 0 {
        None
    } else {
        match notarized_block(validated.drop_last(), height) {
            Some(block) => Some(block),
            None => if is_at(validated.last(), MessageKind::Notarization, height) {
                Some(validated.last().message.block_hash())
            } else {
                None
            },
        }
    }
}

/// The rank of the block that a proposal carries; 0 for any other message.
pub open spec fn rank_of(message: MessageView) -> u8 {
    match message {
        MessageView::BlockProposal { block, .. } => block.rank,
        _ => 0,
    }
}

/// The best block proposal for `height` in `validated`: the one of lowest
/// rank, and among those of lowest rank the one that the pool got first.
pub open spec fn best_proposal(validated: Seq<EntryView>, height: Height) -> Option<MessageView>
    decreases validated.len(),
{
    if validated.len() == 0 {
        None
    } else {
        let before = best_proposal(validated.drop_last(), height);
        let last = validated.last();
        if is_at(last, MessageKind::BlockProposal, height) {
            match before {
                Some(best) => if rank_of(best) <= rank_of(last.message) {
                    before
                } else {
                    Some(last.message)
                },
                None => Some(last.message),
            }
        } else {
            before
        }
    }
}

/// What `first_seen` finds is the timestamp of a message of the kind and
/// height asked for, and no such message has an earlier one; it finds
/// nothing only where there is no such message.
pub proof fn law_first_seen_is_earliest(entries: Seq<EntryView>, kind: MessageKind, height: Height)
    ensures
        first_seen(entries, kind, height) is None ==> forall|i: int|
            0 <= i < entries.len() ==> !is_at(#[trigger] entries[i], kind, height),
        first_seen(entries, kind, height) matches Some(first) ==> {
            &&& exists|i: int|
                0 <= i < entries.len() && is_at(#[trigger] entries[i], kind, height)
                    && entries[i].timestamp == first
            &&& forall|i: int|
                0 <= i < entries.len() && is_at(#[trigger] entries[i], kind, height) ==> first
                    <= entries[i].timestamp
        },
    decreases entries.len(),
{
    if entries.len() > 0 {
        let front = entries.drop_last();
        let last = entries.len() - 1;
        law_first_seen_is_earliest(front, kind, height);
        assert forall|i: int| 0 <= i < front.len() implies #[trigger] entries[i] == front[i] by {}
        match first_seen(entries, kind, height) {
            Some(first) => {
                if first_seen(front, kind, height) == Some(first) {
                    let i = choose|i: int|
                        0 <= i < front.len() && is_at(#[trigger] front[i], kind, height)
                            && front[i].timestamp == first;
                    assert(is_at(entries[i], kind, height) && entries[i].timestamp == first);
                } else {
                    assert(is_at(entries[last], kind, height) && entries[last].timestamp == first);
                }
                assert forall|i: int|
                    0 <= i < entries.len() && is_at(
                        #[trigger] entries[i],
                        kind,
                        height,
                    ) implies first <= entries[i].timestamp by {
                    if i < last {
                        assert(is_at(front[i], kind, height));
                    }
                }
            },
            None => {
                assert forall|i: int| 0 <= i < entries.len() implies !is_at(
                    #[trigger] entries[i],
                    kind,
                    height,
                ) by {
                    if i < last {
                        assert(!is_at(front[i], kind, height));
                    }
                }
            },
        }
    }
}

/// The best proposal is a validated proposal for the height asked for; no
/// such proposal has a lower rank, and those that the pool got before it
/// have a higher one.
pub proof fn law_best_proposal_is_best(validated: Seq<EntryView>, height: Height)
    ensures
        best_proposal(validated, height) is None ==> forall|i: int|
            0 <= i < validated.len() ==> !is_at(
                #[trigger] validated[i],
                MessageKind::BlockProposal,
                height,
            ),
        best_proposal(validated, height) matches Some(best) ==> exists|i: int|
            {
                &&& 0 <= i < validated.len()
                &&& is_at(#[trigger] validated[i], MessageKind::BlockProposal, height)
                &&& validated[i].message == best
                &&& forall|j: int|
                    0 <= j < validated.len() && is_at(
                        #[trigger] validated[j],
                        MessageKind::BlockProposal,
                        height,
                    ) ==> rank_of(best) <= rank_of(validated[j].message)
                &&& forall|j: int|
                    0 <= j < i && is_at(#[trigger] validated[j], MessageKind::BlockProposal, height)
                        ==> rank_of(best) < rank_of(validated[j].message)
            },
    decreases validated.len(),
{
    if validated.len() > 0 {
        let front = validated.drop_last();
        let last = validated.len() - 1;
        law_best_proposal_is_best(front, height);
        assert forall|i: int| 0 <= i < front.len() implies #[trigger] validated[i]
            == front[i] by {}
        match best_proposal(validated, height) {
            Some(best) => {
                let kept = best_proposal(front, height) matches Some(before) && (!is_at(
                    validated[last],
                    MessageKind::BlockProposal,
                    height,
                ) || rank_of(before) <= rank_of(validated[last].message));
                let i = if kept {
                    choose|i: int|
                        {
                            &&& 0 <= i < front.len()
                            &&& is_at(#[trigger] front[i], MessageKind::BlockProposal, height)
                            &&& front[i].message == best
                            &&& forall|j: int|
                                0 <= j < front.len() && is_at(
                                    #[trigger] front[j],
                                    MessageKind::BlockProposal,
                                    height,
                                ) ==> rank_of(best) <= rank_of(front[j].message)
                            &&& forall|j: int|
                                0 <= j < i && is_at(
                                    #[trigger] front[j],
                                    MessageKind::BlockProposal,
                                    height,
                                ) ==> rank_of(best) < rank_of(front[j].message)
                        }
                } else {
                    last
                };
                assert(is_at(validated[i], MessageKind::BlockProposal, height));
                assert(validated[i].message == best);
                assert forall|j: int|
                    0 <= j < validated.len() && is_at(
                        #[trigger] validated[j],
                        MessageKind::BlockProposal,
                        height,
                    ) implies rank_of(best) <= rank_of(validated[j].message) by {
                    if j < last {
                        assert(is_at(front[j], MessageKind::BlockProposal, height));
                    }
                }
                assert forall|j: int|
                    0 <= j < i && is_at(
                        #[trigger] validated[j],
                        MessageKind::BlockProposal,
                        height,
                    ) implies rank_of(best) < rank_of(validated[j].message) by {
                    assert(is_at(front[j], MessageKind::BlockProposal, height));
                }
            },
            None => {
                assert forall|i: int| 0 <= i < validated.len() implies !is_at(
                    #[trigger] validated[i],
                    MessageKind::BlockProposal,
                    height,
                ) by {
                    if i < last {
                        assert(!is_at(front[i], MessageKind::BlockProposal, height));
                    }
                }
            },
        }
    }
}

/// The notarized block is that of the first notarization for the height
/// asked for.
pub proof fn law_notarized_block_is_first(validated: Seq<EntryView>, height: Height)
    ensures
        notarized_block(validated, height) is None ==> forall|i: int|
            0 <= i < validated.len() ==> !is_at(
                #[trigger] validated[i],
                MessageKind::Notarization,
                height,
            ),
        notarized_block(validated, height) matches Some(block) ==> exists|i: int|
            {
                &&& 0 <= i < validated.len()
                &&& is_at(#[trigger] validated[i], MessageKind::Notarization, height)
                &&& validated[i].message.block_hash() == block
                &&& forall|j: int|
                    0 <= j < i ==> !is_at(#[trigger] validated[j], MessageKind::Notarization, height)
            },
    decreases validated.len(),
{
    if validated.len() > 0 {
        let front = validated.drop_last();
        let last = validated.len() - 1;
        law_notarized_block_is_first(front, height);
        assert forall|i: int| 0 <= i < front.len() implies #[trigger] validated[i]
            == front[i] by {}
        match notarized_block(validated, height) {
            Some(block) => {
                if notarized_block(front, height) is Some {
                    let i = choose|i: int|
                        {
                            &&& 0 <= i < front.len()
                            &&& is_at(#[trigger] front[i], MessageKind::Notarization, height)
                            &&& front[i].message.block_hash() == block
                            &&& forall|j: int|
                                0 <= j < i ==> !is_at(
                                    #[trigger] front[j],
                                    MessageKind::Notarization,
                                    height,
                                )
                        };
                    assert(is_at(validated[i], MessageKind::Notarization, height));
                    assert forall|j: int| 0 <= j < i implies !is_at(
                        #[trigger] validated[j],
                        MessageKind::Notarization,
                        height,
                    ) by {
                        assert(!is_at(front[j], MessageKind::Notarization, height));
                    }
                } else {
                    assert(is_at(validated[last], MessageKind::Notarization, height));
                    assert forall|j: int| 0 <= j < last implies !is_at(
                        #[trigger] validated[j],
                        MessageKind::Notarization,
                        height,
                    ) by {
                        assert(!is_at(front[j], MessageKind::Notarization, height));
                    }
                }
            },
            None => {
                assert forall|i: int| 0 <= i < validated.len() implies !is_at(
                    #[trigger] validated[i],
                    MessageKind::Notarization,
                    height,
                ) by {
                    if i < last {
                        assert(!is_at(front[i], MessageKind::Notarization, height));
                    }
                }
            },
        }
    }
}

/// The notarization shares of `shares`, each as a message.
pub open spec fn share_views(shares: Seq<NotarizationShare>) -> Seq<MessageView> {
    shares.map_values(|share: NotarizationShare| share_view(share))
}

/// The earlier of two times, where `None` stands for never.
pub fn earlier(a: Option<Time>, b: Option<Time>) -> (first: Option<Time>)
    ensures
        first == earlier_of(a, b),
{
    match (a, b) {
        (Some(x), Some(y)) => if x <= y {
            a
        } else {
            b
        },
        (Some(_), None) => a,
        _ => b,
    }
}

/// A window onto a pool.
pub struct PoolReader<'a> {
    pub pool: &'a ConsensusPoolImpl,
}

impl<'a> View for PoolReader<'a> {
    type V = PoolView;

    open spec fn view(&self) -> PoolView {
        self.pool@
    }
}

impl<'a> PoolReader<'a> {
    pub fn new(pool: &'a ConsensusPoolImpl) -> (reader: Self)
        ensures
            reader.pool == pool,
    {
        PoolReader { pool }
    }

    /// The pool that the reader looks at.
    pub fn pool(&self) -> (pool: &ConsensusPoolImpl)
        ensures
            pool == self.pool,
    {
        self.pool
    }

    /// The reader's invariant: that of the pool it looks at.
    pub open spec fn wf(&self) -> bool {
        self.pool.wf()
    }

    /// The highest height that holds a validated notarization; 0 if none does.
    pub fn get_notarized_height(&self) -> (height: Height)
        requires
            self.wf(),
        ensures
            height == notarized_height(self@.validated),
    {
        let section = self.pool.validated();
        proof {
            lemma_notarized_height(section@);
        }
        match section.max_height(MessageKind::Notarization) {
            Some(height) => height,
            None => 0,
        }
    }

    /// Whether a validated notarization exists for `block` at `height`.
    pub fn is_certified(&self, height: Height, block: &CryptoHash) -> (certified: bool)
        ensures
            certified == is_certified(self@.validated, height, block@),
    {
        let section = self.pool.validated();
        let mut position: usize = 0;
        while position < section.len()
            invariant
                position <= section@.len(),
                section@ == self@.validated,
                forall|i: int|
                    0 <= i < position ==> !(is_at(
                        #[trigger] section@[i],
                        MessageKind::Notarization,
                        height,
                    ) && section@[i].message.block_hash() == block@),
            decreases section@.len() - position,
        {
            let entry = section.entry(position);
            match &entry.message {
                ConsensusMessage::Notarization(notarization) => {
                    if notarization.content.height == height && notarization.content.block
                        == *block {
                        assert(is_at(
                            section@[position as int],
                            MessageKind::Notarization,
                            height,
                        ));
                        return true;
                    }
                },
                _ => {},
            }
            position = position + 1;
        }
        false
    }

    /// Whether `section` holds a message of `kind` for `height` that `signer`
    /// signed.
    pub fn is_signed_in(
        section: &PoolSection,
        kind: MessageKind,
        height: Height,
        signer: u8,
    ) -> (found: bool)
        ensures
            found == is_signed_at(section@, kind, height, signer),
    {
        let mut position: usize = 0;
        while position < section.len()
            invariant
                position <= section@.len(),
                forall|i: int|
                    0 <= i < position ==> !(is_at(#[trigger] section@[i], kind, height)
                        && section@[i].message.signer() == signer),
            decreases section@.len() - position,
        {
            let message = &section.entry(position).message;
            if message.kind() == kind && message.height() == height && message.signer()
                == signer {
                return true;
            }
            position = position + 1;
        }
        false
    }

    fn open_shares_in(&self, section: &PoolSection, height: Height) -> (shares: Vec<
        NotarizationShare,
    >)
        ensures
            share_views(shares@) == section@.filter_map(open_share(self@.validated, height)),
    {
        let ghost pick = open_share(self@.validated, height);
        let mut shares: Vec<NotarizationShare> = Vec::new();
        let mut position: usize = 0;
        assert(section@.take(0).filter_map(pick) =~= Seq::<MessageView>::empty());
        assert(share_views(shares@) =~= Seq::<MessageView>::empty());
        while position < section.len()
            invariant
                position <= section@.len(),
                pick == open_share(self@.validated, height),
                share_views(shares@) == section@.take(position as int).filter_map(pick),
            decreases section@.len() - position,
        {
            let entry = section.entry(position);
            proof {
                section@.lemma_filter_map_take_succ(pick, position as int);
            }
            match &entry.message {
                ConsensusMessage::NotarizationShare(share) => {
                    let content = share.content.content();
                    if content.height == height && !self.is_certified(height, &content.block) {
                        let copy: NotarizationShare = Signed {
                            content: share.content.clone(),
                            signature: share.signature,
                        };
                        let ghost before = shares@;
                        shares.push(copy);
                        assert(share_views(shares@) =~= share_views(before).push(
                            share_view(copy),
                        ));
                        assert(share_view(copy) == entry@.message);
                    }
                },
                _ => {},
            }
            position = position + 1;
        }
        assert(section@.take(position as int) =~= section@);
        shares
    }

    /// The notarization shares for `height`, validated or not, whose block
    /// has no validated notarization yet.
    pub fn get_notarization_shares(&self, height: Height) -> (shares: Vec<NotarizationShare>)
        ensures
            share_views(shares@) == notarization_shares(self@, height),
    {
        let mut shares = self.open_shares_in(self.pool.validated(), height);
        let mut unvalidated = self.open_shares_in(self.pool.unvalidated(), height);
        let ghost front = shares@;
        let ghost back = unvalidated@;
        shares.append(&mut unvalidated);
        assert(share_views(shares@) =~= share_views(front) + share_views(back));
        shares
    }

    /// The earliest timestamp among the messages of `kind` for `height` in
    /// `section`.
    pub fn first_seen_in(section: &PoolSection, kind: MessageKind, height: Height) -> (first:
        Option<Time>)
        ensures
            first == first_seen(section@, kind, height),
    {
        let mut first: Option<Time> = None;
        let mut position: usize = 0;
        while position < section.len()
            invariant
                position <= section@.len(),
                first == first_seen(section@.take(position as int), kind, height),
            decreases section@.len() - position,
        {
            let entry = section.entry(position);
            proof {
                assert(section@.take(position + 1).drop_last() =~= section@.take(position as int));
            }
            if entry.message.kind() == kind && entry.message.height() == height {
                first = earlier(first, Some(entry.timestamp));
            }
            position = position + 1;
        }
        assert(section@.take(position as int) =~= section@);
        first
    }

    /// The earliest timestamp among the messages of `kind` for `height` in
    /// the pool.
    pub fn get_first_seen(&self, kind: MessageKind, height: Height) -> (first: Option<Time>)
        ensures
            first == first_seen_in_pool(self@, kind, height),
    {
        earlier(
            Self::first_seen_in(self.pool.validated(), kind, height),
            Self::first_seen_in(self.pool.unvalidated(), kind, height),
        )
    }

    /// How long `height` took to finalize, as replica `my_node_id` saw it in
    /// this pool: the nanoseconds from its first sight of a block proposal
    /// for `height` to its first sight of a finalization for `height`.
    /// `None` while either is missing. Every timestamp of a pool is its own
    /// replica's, so the answer is the same for every `my_node_id`.
    pub fn get_finalization_time(&self, height: Height, my_node_id: u8) -> (latency: Option<u64>)
        ensures
            latency == finalization_time(self@, height),
    {
        let proposed = self.get_first_seen(MessageKind::BlockProposal, height);
        let finalized = self.get_first_seen(MessageKind::Finalization, height);
        match (proposed, finalized) {
            (Some(proposed), Some(finalized)) => Some(elapsed(proposed, finalized)),
            _ => None,
        }
    }

    /// The block of the first validated notarization for `height`.
    pub fn get_notarized_block_hash(&self, height: Height) -> (block: Option<CryptoHash>)
        ensures
            block is Some <==> notarized_block(self@.validated, height) is Some,
            block matches Some(hash) ==> notarized_block(self@.validated, height) == Some(hash@),
    {
        let section = self.pool.validated();
        let mut block: Option<CryptoHash> = None;
        let mut position: usize = 0;
        while position < section.len()
            invariant
                position <= section@.len(),
                block is Some <==> notarized_block(section@.take(position as int), height)
                    is Some,
                block matches Some(hash) ==> notarized_block(
                    section@.take(position as int),
                    height,
                ) == Some(hash@),
            decreases section@.len() - position,
        {
            let entry = section.entry(position);
            proof {
                assert(section@.take(position + 1).drop_last() =~= section@.take(position as int));
            }
            if block.is_none() {
                match &entry.message {
                    ConsensusMessage::Notarization(notarization) => {
                        if notarization.content.height == height {
                            block = Some(notarization.content.block.clone());
                        }
                    },
                    _ => {},
                }
            }
            position = position + 1;
        }
        assert(section@.take(position as int) =~= section@);
        block
    }

    /// The hash of the block of the best validated proposal for `height`.
    pub fn get_best_proposal(&self, height: Height) -> (best: Option<(CryptoHash, u8)>)
        ensures
            best is Some <==> best_proposal(self@.validated, height) is Some,
            best matches Some(found) ==> {
                let chosen = best_proposal(self@.validated, height)->0;
                found.0@ == chosen.block_hash() && found.1 == rank_of(chosen)
            },
    {
        let section = self.pool.validated();
        let mut best: Option<(CryptoHash, u8)> = None;
        let mut position: usize = 0;
        while position < section.len()
            invariant
                position <= section@.len(),
                best is Some <==> best_proposal(section@.take(position as int), height) is Some,
                best matches Some(found) ==> {
                    let chosen = best_proposal(section@.take(position as int), height)->0;
                    found.0@ == chosen.block_hash() && found.1 == rank_of(chosen)
                },
            decreases section@.len() - position,
        {
            let entry = section.entry(position);
            proof {
                assert(section@.take(position + 1).drop_last() =~= section@.take(position as int));
            }
            match &entry.message {
                ConsensusMessage::BlockProposal(proposal) => {
                    let block = proposal.content.value();
                    if block.height == height {
                        let better = match &best {
                            Some(found) => block.rank < found.1,
                            None => true,
                        };
                        if better {
                            best = Some((proposal.content.hash().clone(), block.rank));
                        }
                    }
                },
                _ => {},
            }
            position = position + 1;
        }
        assert(section@.take(position as int) =~= section@);
        best
    }
}

} // verus!

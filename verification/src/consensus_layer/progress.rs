//! Why processing comes to rest: a potential that every pass with a change
//! lowers.

use crate::consensus_layer::artifacts::{ActionView, MessageKind, MessageView};
use crate::consensus_layer::consensus::{
    additions, law_pass_validates_everything, lemma_change_set, ConsensusImpl,
};
use crate::consensus_layer::consensus_subcomponents::aggregator::{
    endorsements, endorses, law_quorum_threshold,
};
use crate::consensus_layer::consensus_subcomponents::validator::promotions;
use crate::consensus_layer::height_index::Height;
use crate::consensus_layer::pool::{
    has_hash, index_of, lemma_apply, lemma_apply_all, lemma_apply_all_split, EntryView, PoolView,
};
use crate::consensus_layer::pool_reader::{
    is_at, is_signed_at, lemma_notarized_height, notarization_shares, notarized_height,
    open_share,
};
use crate::time_source::Time;
use vstd::prelude::*;

verus! {

/// Picks the notarization shares for heights above `height`.
pub open spec fn share_above(height: Height) -> spec_fn(EntryView) -> bool {
    |entry: EntryView|
        entry.message.kind() == MessageKind::NotarizationShare && entry.message.height() > height
}

/// Picks the notarization shares for `height`.
pub open spec fn share_at(height: Height) -> spec_fn(EntryView) -> bool {
    |entry: EntryView|
        entry.message.kind() == MessageKind::NotarizationShare && entry.message.height() == height
}

/// The number of entries of `pool`, in both sections, that `pick` picks.
pub open spec fn tally(pool: PoolView, pick: spec_fn(EntryView) -> bool) -> nat {
    pool.validated.filter(pick).len() + pool.unvalidated.filter(pick).len()
}

/// The entry that an addition of `message` at time `now` stores.
pub open spec fn added_entry(message: MessageView, now: Time) -> EntryView {
    EntryView { hash: message.digest(), message, timestamp: now }
}

/// Whether `action` is an addition whose entry `pick` picks.
pub open spec fn adds_picked(action: ActionView, now: Time, pick: spec_fn(EntryView) -> bool) -> bool {
    action matches ActionView::AddToValidated(message) && pick(added_entry(message, now))
}

/// The number of additions among `actions` whose entry `pick` picks.
pub open spec fn added(actions: Seq<ActionView>, now: Time, pick: spec_fn(EntryView) -> bool) -> nat
    decreases actions.len(),
{
    if actions.len() == 0 {
        0
    } else {
        added(actions.drop_last(), now, pick) + if adds_picked(actions.last(), now, pick) {
            1nat
        } else {
            0nat
        }
    }
}

/// Taking an entry out of a sequence lowers the number of picked entries by
/// one if the entry was picked, and leaves it otherwise.
pub proof fn lemma_filter_len_remove<A>(entries: Seq<A>, pick: spec_fn(A) -> bool, position: int)
    requires
        0 <= position < entries.len(),
    ensures
        entries.remove(position).filter(pick).len() + (if pick(entries[position]) {
            1int
        } else {
            0int
        }) == entries.filter(pick).len(),
    decreases entries.len(),
{
    let front = entries.drop_last();
    assert(front.push(entries.last()) =~= entries);
    front.lemma_filter_len_push(pick, entries.last());
    if position == entries.len() - 1 {
        assert(entries.remove(position) =~= front);
    } else {
        lemma_filter_len_remove(front, pick, position);
        assert(front.remove(position).push(entries.last()) =~= entries.remove(position));
        front.remove(position).lemma_filter_len_push(pick, entries.last());
    }
}

/// A change raises the tally of a pool by one at most, and only if it adds
/// a picked entry.
pub proof fn lemma_apply_tally(
    pool: PoolView,
    action: ActionView,
    now: Time,
    pick: spec_fn(EntryView) -> bool,
)
    requires
        pool.wf(),
    ensures
        tally(pool.apply(action, now), pick) <= tally(pool, pick) + if adds_picked(
            action,
            now,
            pick,
        ) {
            1nat
        } else {
            0nat
        },
{
    let hash = action.message().digest();
    let after = pool.apply(action, now);
    if after != pool {
        let moved = after.validated.last();
        assert(after.validated =~= pool.validated.push(moved));
        pool.validated.lemma_filter_len_push(pick, moved);
        if has_hash(pool.unvalidated, hash) {
            let position = index_of(pool.unvalidated, hash);
            assert(after.unvalidated == pool.unvalidated.remove(position));
            lemma_filter_len_remove(pool.unvalidated, pick, position);
        }
    }
}

/// A change set raises the tally of a pool by no more than the number of
/// picked entries that it adds.
pub proof fn lemma_apply_all_tally(
    pool: PoolView,
    actions: Seq<ActionView>,
    now: Time,
    pick: spec_fn(EntryView) -> bool,
)
    requires
        pool.wf(),
    ensures
        tally(pool.apply_all(actions, now), pick) <= tally(pool, pick) + added(actions, now, pick),
    decreases actions.len(),
{
    if actions.len() > 0 {
        lemma_apply_all_tally(pool, actions.drop_last(), now, pick);
        lemma_apply_all(pool, actions.drop_last(), now);
        lemma_apply_tally(pool.apply_all(actions.drop_last(), now), actions.last(), now, pick);
    }
}

/// What two change sets add, one after the other, is what each adds.
pub proof fn lemma_added_concat(
    front: Seq<ActionView>,
    back: Seq<ActionView>,
    now: Time,
    pick: spec_fn(EntryView) -> bool,
)
    ensures
        added(front + back, now, pick) == added(front, now, pick) + added(back, now, pick),
    decreases back.len(),
{
    if back.len() == 0 {
        assert(front + back =~= front);
    } else {
        lemma_added_concat(front, back.drop_last(), now, pick);
        assert((front + back).drop_last() =~= front + back.drop_last());
        assert((front + back).last() == back.last());
    }
}

/// A change set adds no more picked entries than it has changes, and none
/// at all if none of its changes adds one.
pub proof fn lemma_added_bounds(
    actions: Seq<ActionView>,
    now: Time,
    pick: spec_fn(EntryView) -> bool,
)
    ensures
        added(actions, now, pick) <= actions.len(),
        (forall|k: int| 0 <= k < actions.len() ==> !adds_picked(#[trigger] actions[k], now, pick))
            ==> added(actions, now, pick) == 0,
    decreases actions.len(),
{
    if actions.len() > 0 {
        lemma_added_bounds(actions.drop_last(), now, pick);
        if forall|k: int| 0 <= k < actions.len() ==> !adds_picked(#[trigger] actions[k], now, pick) {
            assert forall|k: int| 0 <= k < actions.drop_last().len() implies !adds_picked(
                #[trigger] actions.drop_last()[k],
                now,
                pick,
            ) by {
                assert(actions.drop_last()[k] == actions[k]);
            }
            assert(!adds_picked(actions[actions.len() - 1], now, pick));
        }
    }
}

/// A longer validated section has no lower notarized height.
pub proof fn lemma_notarized_height_grows(shorter: Seq<EntryView>, longer: Seq<EntryView>)
    requires
        shorter.is_prefix_of(longer),
    ensures
        notarized_height(shorter) <= notarized_height(longer),
{
    lemma_notarized_height(shorter);
    lemma_notarized_height(longer);
    if notarized_height(shorter) > 0 {
        let i = choose|i: int|
            0 <= i < shorter.len() && is_at(
                #[trigger] shorter[i],
                MessageKind::Notarization,
                notarized_height(shorter),
            );
        assert(longer[i] == shorter[i]);
    }
}

/// What is signed in a validated section is signed in a longer one.
pub proof fn lemma_signed_stays(
    shorter: Seq<EntryView>,
    longer: Seq<EntryView>,
    kind: MessageKind,
    height: Height,
    signer: u8,
)
    requires
        shorter.is_prefix_of(longer),
        is_signed_at(shorter, kind, height, signer),
    ensures
        is_signed_at(longer, kind, height, signer),
{
    let i = choose|i: int|
        0 <= i < shorter.len() && is_at(#[trigger] shorter[i], kind, height)
            && shorter[i].message.signer() == signer;
    assert(longer[i] == shorter[i]);
}

/// The higher the bar, the fewer shares lie above it; and the shares right
/// above a bar are not above a higher one.
pub proof fn lemma_shares_above(entries: Seq<EntryView>, low: Height, high: Height)
    requires
        low <= high,
    ensures
        entries.filter(share_above(high)).len() <= entries.filter(share_above(low)).len(),
        low < high ==> entries.filter(share_above(high)).len() + entries.filter(
            share_at((low + 1) as u64),
        ).len() <= entries.filter(share_above(low)).len(),
    decreases entries.len(),
{
    if entries.len() == 0 {
        entries.lemma_filter_len(share_above(high));
        entries.lemma_filter_len(share_at((low + 1) as u64));
    } else {
        let front = entries.drop_last();
        lemma_shares_above(front, low, high);
        assert(front.push(entries.last()) =~= entries);
        front.lemma_filter_len_push(share_above(high), entries.last());
        front.lemma_filter_len_push(share_above(low), entries.last());
        front.lemma_filter_len_push(share_at((low + 1) as u64), entries.last());
    }
}

/// A section has no more open shares for a height than shares for it.
pub proof fn lemma_open_shares_are_shares(
    entries: Seq<EntryView>,
    validated: Seq<EntryView>,
    height: Height,
)
    ensures
        entries.filter_map(open_share(validated, height)).len() <= entries.filter(
            share_at(height),
        ).len(),
    decreases entries.len(),
{
    if entries.len() == 0 {
        entries.lemma_filter_len(share_at(height));
    } else {
        let front = entries.drop_last();
        lemma_open_shares_are_shares(front, validated, height);
        assert(front.push(entries.last()) =~= entries);
        front.lemma_filter_len_push(share_at(height), entries.last());
    }
}

/// Whether `message` is in play when `actions` are applied to `pool`: the
/// pool holds it, or one of the changes carries it.
pub open spec fn in_play(pool: PoolView, actions: Seq<ActionView>, message: MessageView) -> bool {
    ||| exists|i: int| 0 <= i < pool.validated.len() && (#[trigger] pool.validated[i]).message == message
    ||| exists|i: int|
        0 <= i < pool.unvalidated.len() && (#[trigger] pool.unvalidated[i]).message == message
    ||| exists|k: int| 0 <= k < actions.len() && (#[trigger] actions[k]).message() == message
}

/// Whether the content hash tells the messages in play apart: no two
/// different ones have the same hash.
pub open spec fn told_apart(pool: PoolView, actions: Seq<ActionView>) -> bool {
    forall|a: MessageView, b: MessageView|
        #![trigger in_play(pool, actions, a), in_play(pool, actions, b)]
        in_play(pool, actions, a) && in_play(pool, actions, b) && a.digest() == b.digest() ==> a
            == b
}

/// Whatever a pool holds after a change set was in play.
pub proof fn lemma_apply_all_in_play(pool: PoolView, actions: Seq<ActionView>, now: Time)
    requires
        pool.wf(),
    ensures
        forall|i: int|
            0 <= i < pool.apply_all(actions, now).validated.len() ==> in_play(
                pool,
                actions,
                (#[trigger] pool.apply_all(actions, now).validated[i]).message,
            ),
        forall|i: int|
            0 <= i < pool.apply_all(actions, now).unvalidated.len() ==> in_play(
                pool,
                actions,
                (#[trigger] pool.apply_all(actions, now).unvalidated[i]).message,
            ),
    decreases actions.len(),
{
    let after = pool.apply_all(actions, now);
    if actions.len() == 0 {
        assert forall|i: int| 0 <= i < after.validated.len() implies in_play(
            pool,
            actions,
            (#[trigger] after.validated[i]).message,
        ) by {
            assert(pool.validated[i].message == after.validated[i].message);
        }
        assert forall|i: int| 0 <= i < after.unvalidated.len() implies in_play(
            pool,
            actions,
            (#[trigger] after.unvalidated[i]).message,
        ) by {
            assert(pool.unvalidated[i].message == after.unvalidated[i].message);
        }
    } else {
        let front = actions.drop_last();
        let before = pool.apply_all(front, now);
        let last = actions.last();
        lemma_apply_all_in_play(pool, front, now);
        lemma_apply_all(pool, front, now);
        assert forall|message: MessageView| in_play(pool, front, message) implies in_play(
            pool,
            actions,
            message,
        ) by {
            if exists|k: int| 0 <= k < front.len() && (#[trigger] front[k]).message() == message {
                let k = choose|k: int|
                    0 <= k < front.len() && (#[trigger] front[k]).message() == message;
                assert(actions[k].message() == message);
            }
        }
        assert(in_play(pool, actions, last.message())) by {
            assert(actions[actions.len() - 1].message() == last.message());
        }
        let hash = last.message().digest();
        assert forall|i: int| 0 <= i < after.unvalidated.len() implies in_play(
            pool,
            actions,
            (#[trigger] after.unvalidated[i]).message,
        ) by {
            if after.unvalidated != before.unvalidated {
                let position = index_of(before.unvalidated, hash);
                assert(after.unvalidated == before.unvalidated.remove(position));
                let source = if i < position { i } else { i + 1 };
                assert(after.unvalidated[i] == before.unvalidated[source]);
                assert(in_play(pool, front, before.unvalidated[source].message));
            } else {
                assert(in_play(pool, front, before.unvalidated[i].message));
            }
        }
        assert forall|i: int| 0 <= i < after.validated.len() implies in_play(
            pool,
            actions,
            (#[trigger] after.validated[i]).message,
        ) by {
            if i < before.validated.len() {
                assert(after.validated[i] == before.validated[i]) by {
                    if after != before {
                        assert(after.validated.drop_last() =~= before.validated);
                    }
                }
                assert(in_play(pool, front, before.validated[i].message));
            } else {
                if last is MoveToValidated {
                    let position = index_of(before.unvalidated, hash);
                    assert(after.validated[i] == before.unvalidated[position]);
                    assert(in_play(pool, front, before.unvalidated[position].message));
                } else {
                    assert(after.validated[i].message == last.message());
                }
            }
        }
    }
}

/// Where the content hash tells the messages in play apart, a message that
/// a change set adds is validated afterwards, as the message that it is.
pub proof fn lemma_added_is_validated(
    pool: PoolView,
    actions: Seq<ActionView>,
    now: Time,
    step: int,
)
    requires
        pool.wf(),
        told_apart(pool, actions),
        0 <= step < actions.len(),
        actions[step] is AddToValidated,
    ensures
        exists|i: int|
            0 <= i < pool.apply_all(actions, now).validated.len() && (#[trigger] pool.apply_all(
                actions,
                now,
            ).validated[i]).message == actions[step].message(),
{
    let message = actions[step].message();
    let hash = message.digest();
    let front = actions.take(step);
    let back = actions.skip(step + 1);
    let before = pool.apply_all(front, now);
    let at = before.apply(actions[step], now);
    let after = pool.apply_all(actions, now);
    lemma_apply_all(pool, front, now);
    lemma_apply(before, actions[step], now);
    assert(front.push(actions[step]).drop_last() =~= front);
    assert(pool.apply_all(front.push(actions[step]), now) == at);
    assert(actions =~= front.push(actions[step]) + back);
    lemma_apply_all_split(pool, front.push(actions[step]), back, now);
    lemma_apply_all(at, back, now);
    lemma_apply_all(pool, actions, now);
    assert(has_hash(after.validated, hash));
    let i = choose|i: int| 0 <= i < after.validated.len() && (#[trigger] after.validated[i]).hash == hash;
    lemma_apply_all_in_play(pool, actions, now);
    assert(in_play(pool, actions, after.validated[i].message));
    assert(in_play(pool, actions, message)) by {
        assert(actions[step].message() == message);
    }
    assert(after.validated[i].message == message);
}

/// A change set that adds no notarization to a pool with nothing
/// unvalidated leaves the notarized height where it is.
pub proof fn lemma_height_stays(pool: PoolView, actions: Seq<ActionView>, now: Time)
    requires
        pool.unvalidated.len() == 0,
        forall|k: int|
            0 <= k < actions.len() && (#[trigger] actions[k]) is AddToValidated
                ==> actions[k].message().kind() != MessageKind::Notarization,
    ensures
        pool.apply_all(actions, now).unvalidated.len() == 0,
        notarized_height(pool.apply_all(actions, now).validated) == notarized_height(
            pool.validated,
        ),
    decreases actions.len(),
{
    if actions.len() > 0 {
        let front = actions.drop_last();
        assert forall|k: int| 0 <= k < front.len() && (#[trigger] front[k]) is AddToValidated implies front[k].message().kind()
            != MessageKind::Notarization by {
            assert(front[k] == actions[k]);
        }
        lemma_height_stays(pool, front, now);
        let before = pool.apply_all(front, now);
        let after = before.apply(actions.last(), now);
        assert(actions[actions.len() - 1] == actions.last());
        if after != before {
            assert(after.validated.drop_last() =~= before.validated);
        }
    }
}

/// Whether `signer` still owes the round after the highest notarized one a
/// message of `kind`: 1 if `validated` holds none of its own for that round,
/// 0 if it does or there is no such round.
pub open spec fn owed(validated: Seq<EntryView>, kind: MessageKind, signer: u8) -> nat {
    let notarized = notarized_height(validated);
    if notarized < u64::MAX && !is_signed_at(validated, kind, (notarized + 1) as u64, signer) {
        1
    } else {
        0
    }
}

/// The potential of a pool: what is left to do, counted generously. Every
/// share above the notarized height counts three, the share that the
/// replica owes the current round four, the proposal that it owes one, and
/// every unvalidated entry nine.
pub open spec fn potential(client: ConsensusImpl, pool: PoolView) -> nat {
    3 * tally(pool, share_above(notarized_height(pool.validated))) + 4 * owed(
        pool.validated,
        MessageKind::NotarizationShare,
        client.notary.node_id,
    ) + owed(pool.validated, MessageKind::BlockProposal, client.block_maker.node_id) + 9
        * pool.unvalidated.len()
}

/// A pass with a change lowers the potential, if a certificate takes at
/// least two shares and the content hash tells the messages in play apart.
pub proof fn lemma_pass_lowers_potential(client: ConsensusImpl, pool: PoolView, now: Time)
    requires
        pool.wf(),
        client.aggregator.quorum >= 2,
        told_apart(pool, client.change_set(pool, now)),
        client.change_set(pool, now).len() > 0,
    ensures
        potential(client, client.pass(pool, now)) < potential(client, pool),
{
    let changes = client.change_set(pool, now);
    let after = client.pass(pool, now);
    let low = notarized_height(pool.validated);
    let high = notarized_height(after.validated);
    let proposals = client.block_maker.proposals(pool);
    let shares = client.notary.shares(pool, now);
    let made = client.aggregator.notarizations(pool);
    let moves = promotions(pool.unvalidated);
    let pick = share_above(high);

    lemma_change_set(client, pool, now, Seq::empty());
    law_pass_validates_everything(client, pool, now);
    lemma_notarized_height_grows(pool.validated, after.validated);
    lemma_notarized_height(after.validated);
    lemma_shares_above(pool.validated, low, high);
    lemma_shares_above(pool.unvalidated, low, high);
    assert(after.unvalidated.filter(pick).len() == 0) by {
        after.unvalidated.lemma_filter_len(pick);
    }
    assert(after.unvalidated.filter(share_above(high)).len() == 0);

    // What the change set adds to the tally of shares above the new height:
    // the notary's share at most, and that only if the height stays.
    lemma_apply_all_tally(pool, changes, now, pick);
    lemma_added_concat(additions(proposals) + additions(shares) + additions(made), moves, now, pick);
    lemma_added_concat(additions(proposals) + additions(shares), additions(made), now, pick);
    lemma_added_concat(additions(proposals), additions(shares), now, pick);
    lemma_added_bounds(additions(proposals), now, pick);
    lemma_added_bounds(additions(shares), now, pick);
    lemma_added_bounds(additions(made), now, pick);
    lemma_added_bounds(moves, now, pick);
    if low < u64::MAX {
        law_quorum_threshold(
            notarization_shares(pool, (low + 1) as u64),
            (low + 1) as u64,
            client.aggregator.quorum as nat,
            client.aggregator.node_id,
        );
    }
    assert(added(additions(proposals), now, pick) == 0);
    assert(added(additions(made), now, pick) == 0);
    assert(added(moves, now, pick) == 0);
    assert(added(additions(shares), now, pick) <= shares.len() <= 1);
    assert(low < high ==> added(additions(shares), now, pick) == 0);
    assert(tally(after, pick) <= tally(pool, pick) + added(additions(shares), now, pick));

    if pool.unvalidated.len() == 0 {
        if made.len() > 0 {
            // A certificate was made: its round had a quorum of shares, and
            // it is notarized now.
            let round = (low + 1) as u64;
            let open = notarization_shares(pool, round);
            let block = made[0].block_hash();
            assert(endorsements(open, block) >= 2);
            open.lemma_filter_len(endorses(block));
            lemma_open_shares_are_shares(pool.validated, pool.validated, round);
            lemma_open_shares_are_shares(pool.unvalidated, pool.validated, round);
            assert(tally(pool, share_at(round)) >= 2);
            let step = additions(proposals).len() + additions(shares).len();
            assert(changes[step as int] == ActionView::AddToValidated(made[0]));
            lemma_added_is_validated(pool, changes, now, step as int);
            let i = choose|i: int|
                0 <= i < after.validated.len() && (#[trigger] after.validated[i]).message
                    == changes[step as int].message();
            assert(after.validated[i].message.kind() == MessageKind::Notarization);
            assert(low < high);
        } else {
            // Nothing was notarized, so the round is the same as before, and
            // what was added is not owed any more.
            assert(made =~= Seq::<MessageView>::empty());
            assert(moves =~= Seq::<ActionView>::empty());
            assert(changes =~= additions(proposals) + additions(shares));
            lemma_height_stays(pool, changes, now);
            assert(high == low);
            if proposals.len() > 0 {
                assert(changes[0] == ActionView::AddToValidated(proposals[0]));
                lemma_added_is_validated(pool, changes, now, 0);
                let i = choose|i: int|
                    0 <= i < after.validated.len() && (#[trigger] after.validated[i]).message
                        == changes[0].message();
                assert(is_at(after.validated[i], MessageKind::BlockProposal, (low + 1) as u64));
            } else if is_signed_at(
                pool.validated,
                MessageKind::BlockProposal,
                (low + 1) as u64,
                client.block_maker.node_id,
            ) {
                lemma_signed_stays(
                    pool.validated,
                    after.validated,
                    MessageKind::BlockProposal,
                    (low + 1) as u64,
                    client.block_maker.node_id,
                );
            }
            if shares.len() > 0 {
                let step = additions(proposals).len();
                assert(changes[step as int] == ActionView::AddToValidated(shares[0]));
                lemma_added_is_validated(pool, changes, now, step as int);
                let i = choose|i: int|
                    0 <= i < after.validated.len() && (#[trigger] after.validated[i]).message
                        == changes[step as int].message();
                assert(is_at(
                    after.validated[i],
                    MessageKind::NotarizationShare,
                    (low + 1) as u64,
                ));
            } else if is_signed_at(
                pool.validated,
                MessageKind::NotarizationShare,
                (low + 1) as u64,
                client.notary.node_id,
            ) {
                lemma_signed_stays(
                    pool.validated,
                    after.validated,
                    MessageKind::NotarizationShare,
                    (low + 1) as u64,
                    client.notary.node_id,
                );
            }
        }
    }
}

/// Passes after a pass are passes with one more before them.
pub proof fn lemma_passes_shift(client: ConsensusImpl, pool: PoolView, now: Time, count: nat)
    ensures
        client.passes(client.pass(pool, now), now, count) == client.passes(pool, now, count + 1),
    decreases count,
{
    if count > 0 {
        lemma_passes_shift(client, pool, now, (count - 1) as nat);
        assert(client.passes(pool, now, count + 1) == client.pass(
            client.passes(pool, now, count),
            now,
        ));
    } else {
        assert(client.passes(pool, now, 0) == pool);
        assert(client.passes(pool, now, 1) == client.pass(client.passes(pool, now, 0), now));
    }
}

/// Whether, pass after pass from `pool` on, the content hash tells the
/// messages in play apart: no message that the replica holds or makes has
/// the hash of a different one.
pub open spec fn run_is_told_apart(client: ConsensusImpl, pool: PoolView, now: Time) -> bool {
    forall|count: nat|
        told_apart(
            #[trigger] client.passes(pool, now, count),
            client.change_set(client.passes(pool, now, count), now),
        )
}

/// Progress terminates: where a certificate takes at least two shares,
/// processing a pool over and over, with nothing arriving and the clock
/// standing still, comes after finitely many rounds to a round that changes
/// nothing, and from then on no round changes anything. This is claimed of
/// runs in which no two different messages have the same content hash.
pub proof fn law_progress_comes_to_rest(client: ConsensusImpl, pool: PoolView, now: Time) -> (rounds:
    nat)
    requires
        pool.wf(),
        client.aggregator.quorum >= 2,
        run_is_told_apart(client, pool, now),
    ensures
        client.change_set(client.passes(pool, now, rounds), now).len() == 0,
    decreases potential(client, pool),
{
    assert(client.passes(pool, now, 0) == pool);
    if client.change_set(pool, now).len() == 0 {
        0
    } else {
        let next = client.pass(pool, now);
        lemma_pass_lowers_potential(client, pool, now);
        law_pass_validates_everything(client, pool, now);
        assert forall|count: nat|
            told_apart(
                #[trigger] client.passes(next, now, count),
                client.change_set(client.passes(next, now, count), now),
            ) by {
            lemma_passes_shift(client, pool, now, count);
            assert(told_apart(
                client.passes(pool, now, count + 1),
                client.change_set(client.passes(pool, now, count + 1), now),
            ));
        }
        let rest = law_progress_comes_to_rest(client, next, now);
        lemma_passes_shift(client, pool, now, rest);
        rest + 1
    }
}

/// Whether each of the first `rounds` passes of a run changes something.
pub open spec fn all_change(client: ConsensusImpl, pool: PoolView, times: Seq<Time>, rounds: int) -> bool {
    forall|k: int|
        0 <= k < rounds ==> client.change_set(
            #[trigger] client.run(pool, times.take(k)),
            times[k],
        ).len() > 0
}

/// Whether, pass after pass of a run, the content hash tells the messages
/// in play apart.
pub open spec fn run_at_is_told_apart(client: ConsensusImpl, pool: PoolView, times: Seq<Time>) -> bool {
    forall|k: int|
        0 <= k < times.len() ==> told_apart(
            #[trigger] client.run(pool, times.take(k)),
            client.change_set(client.run(pool, times.take(k)), times[k]),
        )
}

/// As long as every pass of a run changes something, the potential goes
/// down by one per pass at least.
proof fn lemma_run_spends_potential(
    client: ConsensusImpl,
    pool: PoolView,
    times: Seq<Time>,
    rounds: int,
)
    requires
        pool.wf(),
        client.aggregator.quorum >= 2,
        0 <= rounds <= times.len(),
        run_at_is_told_apart(client, pool, times),
        all_change(client, pool, times, rounds),
    ensures
        client.run(pool, times.take(rounds)).wf(),
        potential(client, client.run(pool, times.take(rounds))) + rounds <= potential(
            client,
            pool,
        ),
    decreases rounds,
{
    if rounds == 0 {
        assert(times.take(0) =~= Seq::<Time>::empty());
    } else {
        lemma_run_spends_potential(client, pool, times, rounds - 1);
        let before = client.run(pool, times.take(rounds - 1));
        assert(times.take(rounds).drop_last() =~= times.take(rounds - 1));
        assert(times.take(rounds).last() == times[rounds - 1]);
        assert(client.run(pool, times.take(rounds)) == client.pass(before, times[rounds - 1]));
        assert(client.change_set(before, times[rounds - 1]).len() > 0);
        assert(told_apart(before, client.change_set(before, times[rounds - 1])));
        lemma_pass_lowers_potential(client, before, times[rounds - 1]);
        law_pass_validates_everything(client, before, times[rounds - 1]);
    }
}

/// Changes are bounded: where a certificate takes at least two shares,
/// processing a pool over and over with nothing arriving, whatever the
/// clock shows each time, changes something no more often than the pool's
/// potential says. So of any run of more passes than that, one reports no
/// change. This is claimed of runs in which no two different messages have
/// the same content hash.
pub proof fn law_changes_are_bounded(client: ConsensusImpl, pool: PoolView, times: Seq<Time>) -> (round:
    int)
    requires
        pool.wf(),
        client.aggregator.quorum >= 2,
        times.len() > potential(client, pool),
        run_at_is_told_apart(client, pool, times),
    ensures
        0 <= round < times.len(),
        client.change_set(client.run(pool, times.take(round)), times[round]).len() == 0,
{
    if all_change(client, pool, times, times.len() as int) {
        lemma_run_spends_potential(client, pool, times, times.len() as int);
        0
    } else {
        choose|k: int|
            0 <= k < times.len() && !(client.change_set(
                #[trigger] client.run(pool, times.take(k)),
                times[k],
            ).len() > 0)
    }
}

} // verus!

//! Drawing items in random order, without repeating one before every item
//! has been drawn.

use bevy_prng::ChaCha20Rng;
use rand::seq::SliceRandom;
use vstd::prelude::*;

verus! {

/// The generator that the draws consume. Nothing is known of its state.
#[verifier::external_type_specification]
#[verifier::external_body]
pub struct ExChaCha20Rng(ChaCha20Rng);

/// `copy` holds, place by place, a clone of the item of `source`.
pub open spec fn copied_from<T: Clone>(source: Seq<T>, copy: Seq<T>) -> bool {
    &&& copy.len() == source.len()
    &&& forall|i: int| 0 <= i < source.len() ==> cloned::<T>(#[trigger] source[i], copy[i])
}

/// One draw: `item` leaves the round. The round it leaves is `before`, or,
/// where `before` is exhausted, a fresh copy of the pool; what stays of it is
/// `after`.
pub open spec fn drawn<T: Clone>(pool: Seq<T>, before: Seq<T>, after: Seq<T>, item: T) -> bool {
    exists|round: Seq<T>|
        {
            &&& #[trigger] round.to_multiset() == after.to_multiset().insert(item)
            &&& if before.len() > 0 {
                round == before
            } else {
                copied_from(pool, round)
            }
        }
}

/// A pool of items and what is left of it in the current round.
pub struct Shuffle<T: Clone> {
    default: Vec<T>,
    remaining: Vec<T>,
}

/// `rand::seq::SliceRandom::shuffle` on the vector's slice: a Fisher-Yates
/// pass that only swaps places, so the vector holds the same items, each as
/// often as before. Which order comes out depends on the generator and is
/// left open.
#[verifier::external_body]
fn shuffle_in_place<T>(items: &mut Vec<T>, rng: &mut ChaCha20Rng)
    ensures
        final(items)@.to_multiset() == old(items)@.to_multiset(),
{
    items.shuffle(rng);
}

impl<T: Clone> Shuffle<T> {
    /// The full pool, in the order it was given.
    pub closed spec fn pool(&self) -> Seq<T> {
        self.default@
    }

    /// The items not yet drawn in the current round.
    pub closed spec fn remaining(&self) -> Seq<T> {
        self.remaining@
    }

    /// The pool is never empty, and a round never holds more than the pool.
    pub open spec fn wf(&self) -> bool {
        &&& self.pool().len() > 0
        &&& self.remaining().len() <= self.pool().len()
    }

    /// A shuffle over `list`, with a full first round.
    pub fn new(list: &[T]) -> (shuffle: Self)
        requires
            list@.len() > 0,
        ensures
            shuffle.wf(),
            copied_from(list@, shuffle.pool()),
            copied_from(list@, shuffle.remaining()),
    {
        let mut default: Vec<T> = Vec::new();
        let mut remaining: Vec<T> = Vec::new();
        let mut i: usize = 0;
        while i < list.len()
            invariant
                i <= list@.len(),
                copied_from(list@.take(i as int), default@),
                copied_from(list@.take(i as int), remaining@),
            decreases list@.len() - i,
        {
            default.push(list[i].clone());
            remaining.push(list[i].clone());
            i += 1;
        }
        assert(list@.take(i as int) == list@);
        Shuffle { default, remaining }
    }

    /// Number of items left in the current round.
    pub fn remaining_len(&self) -> (n: usize)
        ensures
            n == self.remaining().len(),
    {
        self.remaining.len()
    }

    /// Number of items of the pool.
    pub fn pool_len(&self) -> (n: usize)
        ensures
            n == self.pool().len(),
    {
        self.default.len()
    }

    /// Draws one item. An exhausted round is first refilled with a copy of
    /// the pool; the round is then shuffled and its last item taken out.
    pub fn next(&mut self, rng: &mut ChaCha20Rng) -> (item: T)
        requires
            old(self).wf(),
        ensures
            final(self).wf(),
            final(self).pool() == old(self).pool(),
            drawn(old(self).pool(), old(self).remaining(), final(self).remaining(), item),
    {
        if self.remaining.is_empty() {
            self.remaining = self.default.clone();
        }
        let ghost round = self.remaining@;
        shuffle_in_place(&mut self.remaining, rng);
        let ghost mixed = self.remaining@;
        proof {
            round.to_multiset_ensures();
            mixed.to_multiset_ensures();
            mixed.drop_last().to_multiset_ensures();
            assert(mixed.len() == round.len());
            assert(mixed.drop_last().push(mixed.last()) == mixed);
        }
        let item = self.remaining.pop();
        assert(self.remaining@ == mixed.drop_last());
        item.unwrap()
    }
}

/// No item comes twice before every item has come once. Over a run of draws
/// that starts on a round `rounds[0]` and is no longer than that round, the
/// round is used up item by item: what was drawn (`items`) and what is left
/// (`rounds.last()`) make up the round it started on. After as many draws as
/// the round had items, nothing is left and the draws are the round's items.
pub proof fn lemma_round_is_used_up<T: Clone>(pool: Seq<T>, rounds: Seq<Seq<T>>, items: Seq<T>)
    requires
        rounds.len() == items.len() + 1,
        items.len() <= rounds[0].len(),
        forall|j: int|
            0 <= j < items.len() ==> drawn(pool, rounds[j], rounds[j + 1], #[trigger] items[j]),
    ensures
        rounds[0].to_multiset() == rounds.last().to_multiset().add(items.to_multiset()),
        rounds.last().len() == rounds[0].len() - items.len(),
    decreases items.len(),
{
    broadcast use vstd::seq_lib::group_to_multiset_ensures;

    if items.len() == 0 {
        assert(items.to_multiset() =~= vstd::multiset::Multiset::<T>::empty());
        assert(rounds[0].to_multiset() =~= rounds.last().to_multiset().add(items.to_multiset()));
    } else {
        let count = items.len() - 1;
        let earlier_rounds = rounds.drop_last();
        let earlier_items = items.drop_last();
        assert forall|j: int| 0 <= j < earlier_items.len() implies drawn(
            pool,
            earlier_rounds[j],
            earlier_rounds[j + 1],
            #[trigger] earlier_items[j],
        ) by {
            assert(drawn(pool, rounds[j], rounds[j + 1], items[j]));
        }
        lemma_round_is_used_up(pool, earlier_rounds, earlier_items);
        let before = rounds[count];
        let after = rounds[count + 1];
        let item = items[count];
        assert(earlier_rounds.last() == before);
        assert(drawn(pool, before, after, item));
        assert(before.len() > 0);
        assert(before.to_multiset() == after.to_multiset().insert(item));
        before.to_multiset_ensures();
        after.to_multiset_ensures();
        earlier_items.to_multiset_ensures();
        assert(earlier_items.push(item) == items);
        assert(items.to_multiset() =~= earlier_items.to_multiset().insert(item));
        assert(rounds[0].to_multiset() =~= after.to_multiset().add(items.to_multiset()));
    }
}

} // verus!

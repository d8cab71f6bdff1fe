//! Shuffling the deck and dealing it alternately into two hands.

use rand::seq::SliceRandom;
use std::collections::VecDeque;
use vstd::multiset::Multiset;
use vstd::prelude::*;

use crate::card::{Card, DECK_SIZE};

verus! {

broadcast use vstd::seq_lib::group_to_multiset_ensures;

/// Number of cards each player receives.
pub const HAND_SIZE: usize = 26;

/// The first player's hand after dealing `d`: cards are taken from the back
/// of the deck, the first player receiving the first, third, fifth... card.
pub open spec fn dealt_first(d: Seq<Card>) -> Seq<Card> {
    Seq::new(d.len() / 2, |i: int| d[d.len() - 1 - 2 * i])
}

/// The second player's hand after dealing `d`: every other card taken from
/// the back of the deck, starting with the second.
pub open spec fn dealt_second(d: Seq<Card>) -> Seq<Card> {
    Seq::new(d.len() / 2, |i: int| d[d.len() - 2 - 2 * i])
}

proof fn lemma_deal_prefix(d: Seq<Card>, k: int)
    requires
        d.len() % 2 == 0,
        0 <= k <= d.len() / 2,
    ensures
        dealt_first(d).take(k).to_multiset().add(dealt_second(d).take(k).to_multiset()).add(
            d.take(d.len() - 2 * k).to_multiset(),
        ) =~= d.to_multiset(),
    decreases k,
{
    broadcast use vstd::multiset::group_multiset_axioms;

    let n = d.len() as int;
    if k == 0 {
        assert(d.take(n) =~= d);
        assert(dealt_first(d).take(0) =~= Seq::<Card>::empty());
        assert(dealt_second(d).take(0) =~= Seq::<Card>::empty());
    } else {
        lemma_deal_prefix(d, k - 1);
        let rest = d.take(n - 2 * k);
        assert(d.take(n - 2 * (k - 1)) =~= rest.push(d[n - 2 * k]).push(d[n - 2 * k + 1]));
        assert(dealt_first(d).take(k) =~= dealt_first(d).take(k - 1).push(d[n - 2 * k + 1]));
        assert(dealt_second(d).take(k) =~= dealt_second(d).take(k - 1).push(d[n - 2 * k]));
    }
}

/// Dealing splits a deck of even size into two hands of half its size each,
/// which together hold exactly the cards of the deck.
pub proof fn lemma_deal_partitions(d: Seq<Card>)
    requires
        d.len() % 2 == 0,
    ensures
        dealt_first(d).len() == d.len() / 2,
        dealt_second(d).len() == d.len() / 2,
        dealt_first(d).to_multiset().add(dealt_second(d).to_multiset()) == d.to_multiset(),
{
    let h = d.len() / 2;
    lemma_deal_prefix(d, h as int);
    assert(dealt_first(d).take(h as int) =~= dealt_first(d));
    assert(dealt_second(d).take(h as int) =~= dealt_second(d));
    assert(d.take(0) =~= Seq::<Card>::empty());
    assert(dealt_first(d).to_multiset().add(dealt_second(d).to_multiset()).add(
        Multiset::<Card>::empty(),
    ) =~= dealt_first(d).to_multiset().add(dealt_second(d).to_multiset()));
}

/// Relies on rand's `SliceRandom::shuffle` with `thread_rng`: it permutes
/// the slice in place by swaps, so the deck keeps its length and its cards.
/// `thread_rng` panics only when the operating system's entropy source
/// fails, which no argument can bring about.
#[verifier::external_body]
fn shuffle_deck(deck: &mut Vec<Card>)
    ensures
        final(deck)@.len() == old(deck)@.len(),
        final(deck)@.to_multiset() == old(deck)@.to_multiset(),
{
    deck.shuffle(&mut rand::thread_rng());
}

/// Deals a deck as it lies, one card at a time from its back, alternately to
/// the first and the second player, until it is empty.
pub fn deal(deck: &mut Vec<Card>) -> (r: (VecDeque<Card>, VecDeque<Card>))
    requires
        old(deck)@.len() == DECK_SIZE,
    ensures
        r.0@ == dealt_first(old(deck)@),
        r.1@ == dealt_second(old(deck)@),
        final(deck)@.len() == 0,
{
    let ghost d = deck@;
    let mut player_1: VecDeque<Card> = VecDeque::new();
    let mut player_2: VecDeque<Card> = VecDeque::new();
    let mut i: usize = 0;
    while i < HAND_SIZE
        invariant
            d.len() == DECK_SIZE,
            i <= HAND_SIZE,
            deck@ == d.take(DECK_SIZE - 2 * i),
            player_1@ == dealt_first(d).take(i as int),
            player_2@ == dealt_second(d).take(i as int),
        decreases HAND_SIZE - i,
    {
        let c1 = deck.pop().unwrap();
        player_1.push_back(c1);
        let c2 = deck.pop().unwrap();
        player_2.push_back(c2);
        i += 1;
        assert(player_1@ =~= dealt_first(d).take(i as int));
        assert(player_2@ =~= dealt_second(d).take(i as int));
        assert(deck@ =~= d.take(DECK_SIZE - 2 * i));
    }
    assert(player_1@ =~= dealt_first(d));
    assert(player_2@ =~= dealt_second(d));
    (player_1, player_2)
}

/// Shuffles the deck at random and deals it into two hands of 26 cards.
/// Whatever order the shuffle produced, the hands are the deal of a
/// rearrangement of the deck, and together hold exactly its cards.
pub fn deal_cards(deck: &mut Vec<Card>) -> (r: (VecDeque<Card>, VecDeque<Card>))
    requires
        old(deck)@.len() == DECK_SIZE,
    ensures
        r.0@.len() == HAND_SIZE,
        r.1@.len() == HAND_SIZE,
        r.0@.to_multiset().add(r.1@.to_multiset()) == old(deck)@.to_multiset(),
        exists|s: Seq<Card>|
            #![trigger dealt_first(s)]
            s.len() == DECK_SIZE && s.to_multiset() == old(deck)@.to_multiset() && r.0@
                == dealt_first(s) && r.1@ == dealt_second(s),
        final(deck)@.len() == 0,
{
    shuffle_deck(deck);
    let ghost s = deck@;
    let r = deal(deck);
    proof {
        lemma_deal_partitions(s);
    }
    r
}

} // verus!

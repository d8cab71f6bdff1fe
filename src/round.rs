//! One round of War: a confrontation between the fronts of two hands,
//! escalating into "war" while the revealed ranks are equal.

use std::collections::VecDeque;
use vstd::prelude::*;

use crate::card::Card;

verus! {

broadcast use {vstd::seq_lib::group_to_multiset_ensures, vstd::seq_lib::lemma_multiset_commutative};

/// The hands after a confrontation that has already piled up `stack`
/// (most recent card first).
///
/// Each player reveals a card; the higher rank takes the whole pile to the
/// back of its hand. On equal ranks each player adds one more face-down card
/// and the confrontation repeats. Whenever a hand is empty before a reveal
/// or a face-down card, the confrontation stops and the pile is abandoned.
pub open spec fn resolve(h1: Seq<Card>, h2: Seq<Card>, stack: Seq<Card>) -> (Seq<Card>, Seq<Card>)
    decreases h1.len(),
{
    if h1.len() == 0 || h2.len() == 0 {
        (h1, h2)
    } else {
        let pile = seq![h2[0], h1[0]] + stack;
        let t1 = h1.drop_first();
        let t2 = h2.drop_first();
        if h2[0].0 < h1[0].0 {
            (t1 + pile, t2)
        } else if h1[0].0 < h2[0].0 {
            (t1, t2 + pile)
        } else if t1.len() == 0 || t2.len() == 0 {
            (t1, t2)
        } else {
            resolve(t1.drop_first(), t2.drop_first(), seq![t2[0], t1[0]] + pile)
        }
    }
}

/// The hands after one full round played from `h1` and `h2`.
pub open spec fn round_result(h1: Seq<Card>, h2: Seq<Card>) -> (Seq<Card>, Seq<Card>) {
    resolve(h1, h2, Seq::empty())
}

proof fn lemma_resolve_conserves(h1: Seq<Card>, h2: Seq<Card>, stack: Seq<Card>)
    ensures
        ({
            let r = resolve(h1, h2, stack);
            r.0.len() > 0 && r.1.len() > 0 ==> r.0.to_multiset().add(r.1.to_multiset())
                == h1.to_multiset().add(h2.to_multiset()).add(stack.to_multiset())
        }),
    decreases h1.len(),
{
    broadcast use vstd::multiset::group_multiset_axioms;

    if h1.len() > 0 && h2.len() > 0 {
        let pile = seq![h2[0], h1[0]] + stack;
        let t1 = h1.drop_first();
        let t2 = h2.drop_first();
        assert(h1 =~= seq![h1[0]] + t1);
        assert(h2 =~= seq![h2[0]] + t2);
        assert(seq![h2[0], h1[0]] =~= seq![h2[0]] + seq![h1[0]]);
        let a = h1.to_multiset();
        let b = h2.to_multiset();
        assert(pile.to_multiset().add(t1.to_multiset()).add(t2.to_multiset()) =~= a.add(b).add(
            stack.to_multiset(),
        ));
        if h2[0].0 < h1[0].0 || h1[0].0 < h2[0].0 {
        } else if t1.len() > 0 && t2.len() > 0 {
            let u1 = t1.drop_first();
            let u2 = t2.drop_first();
            assert(t1 =~= seq![t1[0]] + u1);
            assert(t2 =~= seq![t2[0]] + u2);
            assert(seq![t2[0], t1[0]] =~= seq![t2[0]] + seq![t1[0]]);
            lemma_resolve_conserves(u1, u2, seq![t2[0], t1[0]] + pile);
        }
    }
}

/// A round that leaves both hands non-empty neither creates nor loses a
/// card: the two hands hold together exactly the cards they held before.
pub proof fn lemma_round_conserves(h1: Seq<Card>, h2: Seq<Card>)
    ensures
        ({
            let r = round_result(h1, h2);
            r.0.len() > 0 && r.1.len() > 0 ==> r.0.to_multiset().add(r.1.to_multiset())
                == h1.to_multiset().add(h2.to_multiset())
        }),
{
    broadcast use vstd::multiset::group_multiset_axioms;

    lemma_resolve_conserves(h1, h2, Seq::empty());
    assert(h1.to_multiset().add(h2.to_multiset()).add(Seq::<Card>::empty().to_multiset())
        =~= h1.to_multiset().add(h2.to_multiset()));
}

/// Plays one round between the two hands, in place. When either hand is
/// empty nothing happens.
pub fn play_round(player_1: &mut VecDeque<Card>, player_2: &mut VecDeque<Card>)
    ensures
        (final(player_1)@, final(player_2)@) == round_result(old(player_1)@, old(player_2)@),
        old(player_1)@.len() == 0 || old(player_2)@.len() == 0 ==> final(player_1)@ == old(
            player_1,
        )@ && final(player_2)@ == old(player_2)@,
{
    let ghost goal = round_result(player_1@, player_2@);
    let mut stack: VecDeque<Card> = VecDeque::new();
    loop
        invariant_except_break
            resolve(player_1@, player_2@, stack@) == goal,
        ensures
            (player_1@, player_2@) == goal,
        decreases player_1@.len(),
    {
        if player_1.len() == 0 || player_2.len() == 0 {
            break;
        }
        let ghost h1 = player_1@;
        let ghost h2 = player_2@;
        let ghost s0 = stack@;
        let c1 = player_1.pop_front().unwrap();
        stack.push_front(c1);
        let c2 = player_2.pop_front().unwrap();
        stack.push_front(c2);
        assert(player_1@ =~= h1.drop_first());
        assert(player_2@ =~= h2.drop_first());
        if stack[0].0 < stack[1].0 {
            player_1.append(&mut stack);
            break;
        } else if stack[1].0 < stack[0].0 {
            player_2.append(&mut stack);
            break;
        }
        if player_1.len() == 0 || player_2.len() == 0 {
            break;
        }
        let ghost t1 = player_1@;
        let ghost t2 = player_2@;
        let d1 = player_1.pop_front().unwrap();
        stack.push_front(d1);
        let d2 = player_2.pop_front().unwrap();
        stack.push_front(d2);
        assert(player_1@ =~= t1.drop_first());
        assert(player_2@ =~= t2.drop_first());
        assert(t1 =~= h1.drop_first());
        assert(t2 =~= h2.drop_first());
        assert(stack@ =~= seq![t2[0], t1[0]] + (seq![h2[0], h1[0]] + s0));
        assert(resolve(h1, h2, s0) == resolve(player_1@, player_2@, stack@));
    }
}

} // verus!

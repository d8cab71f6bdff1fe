//! Playing a whole game: rounds until a hand runs out or the round limit is
//! reached, and the winner.

use std::collections::VecDeque;
use vstd::prelude::*;

use crate::card::{canonical_deck, create_deck, Card, DECK_SIZE};
use crate::deal::{deal, deal_cards, dealt_first, dealt_second, lemma_deal_partitions};
use crate::round::{lemma_round_conserves, play_round, round_result};

verus! {

/// Safety bound on the number of rounds in one game.
pub const MAX_ROUNDS: usize = 10_000;

/// How a game ended.
#[derive(Debug, Clone, Copy, PartialEq, Eq, Structural)]
pub enum GameResult {
    Player1Wins,
    Player2Wins,
    Draw,
}

/// The result read off two final hands: a player wins when only the other
/// one's hand is empty; otherwise (both empty, or both still holding cards)
/// the game is a draw.
pub open spec fn outcome(h1: Seq<Card>, h2: Seq<Card>) -> GameResult {
    if h1.len() == 0 && h2.len() > 0 {
        GameResult::Player2Wins
    } else if h2.len() == 0 && h1.len() > 0 {
        GameResult::Player1Wins
    } else {
        GameResult::Draw
    }
}

/// The hands after `k` rounds played from `h1` and `h2`. A round on an empty
/// hand changes nothing, so the hands stay put once one of them runs out.
pub open spec fn hands_after(h1: Seq<Card>, h2: Seq<Card>, k: nat) -> (Seq<Card>, Seq<Card>)
    decreases k,
{
    if k == 0 {
        (h1, h2)
    } else {
        let prev = hands_after(h1, h2, (k - 1) as nat);
        round_result(prev.0, prev.1)
    }
}

/// The result of a game played from the hands `h1` and `h2`.
pub open spec fn game_result(h1: Seq<Card>, h2: Seq<Card>) -> GameResult {
    let last = hands_after(h1, h2, MAX_ROUNDS as nat);
    outcome(last.0, last.1)
}

/// The result of a game dealt from the deck `d` as it lies.
pub open spec fn game_of_deck(d: Seq<Card>) -> GameResult {
    game_result(dealt_first(d), dealt_second(d))
}

/// The text naming a result.
pub open spec fn label_of(r: GameResult) -> Seq<char> {
    match r {
        GameResult::Player1Wins => "Player 1"@,
        GameResult::Player2Wins => "Player 2"@,
        GameResult::Draw => "Draw!"@,
    }
}

impl GameResult {
    /// The text naming this result: "Player 1", "Player 2" or "Draw!".
    pub fn label(&self) -> (r: &'static str)
        ensures
            r@ == label_of(*self),
    {
        match self {
            GameResult::Player1Wins => "Player 1",
            GameResult::Player2Wins => "Player 2",
            GameResult::Draw => "Draw!",
        }
    }
}

proof fn lemma_stays_over(h1: Seq<Card>, h2: Seq<Card>, k: nat, m: nat)
    requires
        k <= m,
        hands_after(h1, h2, k).0.len() == 0 || hands_after(h1, h2, k).1.len() == 0,
    ensures
        hands_after(h1, h2, m) == hands_after(h1, h2, k),
    decreases m - k,
{
    if k < m {
        lemma_stays_over(h1, h2, k, (m - 1) as nat);
    }
}

/// Plays rounds between the two hands until one is empty or the round limit
/// is reached, and says who won.
pub fn play_hands(player_1: VecDeque<Card>, player_2: VecDeque<Card>) -> (r: GameResult)
    ensures
        r == game_result(player_1@, player_2@),
{
    let ghost h1 = player_1@;
    let ghost h2 = player_2@;
    let mut player_1 = player_1;
    let mut player_2 = player_2;
    let mut rounds: usize = 0;
    while player_1.len() != 0 && player_2.len() != 0 && rounds < MAX_ROUNDS
        invariant
            rounds <= MAX_ROUNDS,
            (player_1@, player_2@) == hands_after(h1, h2, rounds as nat),
        decreases MAX_ROUNDS - rounds,
    {
        play_round(&mut player_1, &mut player_2);
        rounds += 1;
    }
    proof {
        if rounds < MAX_ROUNDS {
            lemma_stays_over(h1, h2, rounds as nat, MAX_ROUNDS as nat);
        }
    }
    if player_1.len() == 0 && player_2.len() != 0 {
        GameResult::Player2Wins
    } else if player_2.len() == 0 && player_1.len() != 0 {
        GameResult::Player1Wins
    } else {
        GameResult::Draw
    }
}

/// Deals a deck in the order it lies and plays the game out. The result
/// depends on the order of the deck alone.
pub fn play_shuffled(deck: Vec<Card>) -> (r: GameResult)
    requires
        deck@.len() == DECK_SIZE,
    ensures
        r == game_of_deck(deck@),
{
    let mut deck = deck;
    let (player_1, player_2) = deal(&mut deck);
    play_hands(player_1, player_2)
}

/// Plays one game with a freshly shuffled deck. Whatever order the shuffle
/// produced, the result is that of the game dealt from a rearrangement of
/// the canonical deck.
pub fn play_game() -> (r: GameResult)
    ensures
        exists|s: Seq<Card>|
            #![trigger game_of_deck(s)]
            s.len() == DECK_SIZE && s.to_multiset() == canonical_deck().to_multiset() && r
                == game_of_deck(s),
{
    let mut deck = create_deck();
    let (player_1, player_2) = deal_cards(&mut deck);
    let ghost s = choose|s: Seq<Card>|
        #![trigger dealt_first(s)]
        s.len() == DECK_SIZE && s.to_multiset() == canonical_deck().to_multiset() && player_1@
            == dealt_first(s) && player_2@ == dealt_second(s);
    let r = play_hands(player_1, player_2);
    assert(r == game_of_deck(s));
    r
}

/// Plays one game of War and names the winner: "Player 1", "Player 2" or
/// "Draw!".
pub fn play() -> (r: &'static str)
    ensures
        exists|s: Seq<Card>|
            #![trigger game_of_deck(s)]
            s.len() == DECK_SIZE && s.to_multiset() == canonical_deck().to_multiset() && r@
                == label_of(game_of_deck(s)),
{
    let g = play_game();
    g.label()
}

/// While a game dealt from a 52-card deck is still running (both hands hold
/// cards), after any number of rounds the two hands hold 52 cards between
/// them, and exactly the cards of the deck.
pub proof fn lemma_cards_conserved(d: Seq<Card>, k: nat)
    requires
        d.len() == DECK_SIZE,
    ensures
        ({
            let h = hands_after(dealt_first(d), dealt_second(d), k);
            h.0.len() > 0 && h.1.len() > 0 ==> h.0.len() + h.1.len() == DECK_SIZE
                && h.0.to_multiset().add(h.1.to_multiset()) == d.to_multiset()
        }),
    decreases k,
{
    broadcast use vstd::seq_lib::group_to_multiset_ensures;
    broadcast use vstd::multiset::group_multiset_axioms;

    let h1 = dealt_first(d);
    let h2 = dealt_second(d);
    let h = hands_after(h1, h2, k);
    if k == 0 {
        lemma_deal_partitions(d);
    } else {
        let prev = hands_after(h1, h2, (k - 1) as nat);
        lemma_cards_conserved(d, (k - 1) as nat);
        lemma_round_conserves(prev.0, prev.1);
    }
    if h.0.len() > 0 && h.1.len() > 0 {
        assert(h.0.to_multiset().add(h.1.to_multiset()).len() == h.0.len() + h.1.len());
    }
}

/// Dealing and playing are deterministic: two games dealt from decks in the
/// same order end the same way.
pub proof fn lemma_same_deck_same_result(d1: Seq<Card>, d2: Seq<Card>)
    requires
        d1 == d2,
    ensures
        game_of_deck(d1) == game_of_deck(d2),
{
}

} // verus!
